# sedonadb

The geometry core of a DuckDB spatial extension (`ST_*` functions), written
in Verus.

- `src/` is the verified library. Geometries are `geom::Geom` values whose
  coordinates are binary64 bit patterns, so every double (NaN included) is
  carried exactly and compared as the double type compares it
  (`coord::f64_eq`). Each public function states its result over the
  mathematical model `GeomModel`.
  - `accessors`: type names, dimensions, counts, closedness, indexed access.
  - `editing`, `repeated`: reversal, vertices, boundaries, lines, the
    polygonal part, removal of repeated vertices.
  - `wkb`, `wkb_laws`: the ISO/EWKB reader and the ISO-WKB writer, and the
    proof that reading back what was written gives the geometry again.
  - `ewkt`, `geojson`: EWKT framing and GeoJSON text.
  - `triangulation`, `geos_backend`: Delaunay triangles and Voronoi edges
    around a triangulation, and the fail-closed GEOS pipelines; the
    floating-point steps are passed in as functions.
  - `laws`: properties that relate the functions to one another.
- `tests/` runs the library on concrete values.
- `app/` holds the functions that compute on doubles (`geo`, `wkt`,
  `delaunator`, PROJ, GEOS) around the library.
