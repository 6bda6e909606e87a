//! Verified geometry core of the `sedonadb` spatial extension.
//!
//! Geometries are held in [`geom::Geom`], a structural model of planar 2D
//! geometries whose coordinates are kept as IEEE-754 binary64 bit patterns.
//! The structural `ST_*` functions, the ISO-WKB codec, the EWKT framing, the
//! GeoJSON writer, the removal of repeated vertices, the assembly around
//! triangulations and the fail-closed GEOS pipelines are verified here. Work
//! that happens in floating point (ordinate text, triangulation,
//! circumcenters, GEOS itself) is handed in by the caller as functions, and
//! the contracts say what is done with whatever they return.

pub mod coord;
pub mod geom;
pub mod accessors;
pub mod editing;
pub mod wkb;
pub mod wkb_laws;
pub mod laws;
pub mod ewkt;
pub mod triangulation;
pub mod geos_backend;
pub mod geojson;
pub mod geojson_laws;
pub mod repeated;
