//! How the GeoJSON texts of related geometries relate: the coordinates of a
//! multipolygon are those of its polygons, a polygon's coordinates are those
//! of its boundary rings, and a line's are those of its points.

use vstd::prelude::*;
use crate::coord::Coord;
use crate::geom::{GeomModel, PolygonModel};
use crate::editing::boundary_spec;
use crate::geojson::{
    coord_json, geojson_spec, join, member_polygon_json, polygon_rings_json, ring_json,
};

verus! {

/// The opening of a GeoJSON geometry object of type `kind`, up to its
/// coordinates: `{"type":"<kind>","coordinates":`.
pub open spec fn object_open(kind: Seq<char>) -> Seq<char> {
    "{\"type\":\""@ + kind + "\",\"coordinates\":"@
}

/// The coordinates member of a GeoJSON object of type `kind`: what stands
/// between the opening and the closing `}`.
pub open spec fn coordinates_member(t: Seq<char>, kind: Seq<char>) -> Seq<char> {
    t.subrange(object_open(kind).len() as int, t.len() - 1)
}

/// `t` is a GeoJSON object of type `kind`: the opening, its coordinates
/// member, and `}`.
pub open spec fn is_object_of(t: Seq<char>, kind: Seq<char>) -> bool {
    t.len() >= object_open(kind).len() + 1 && t == object_open(kind) + coordinates_member(t, kind) + "}"@
}

proof fn lemma_object(kind: Seq<char>, m: Seq<char>)
    ensures
        coordinates_member(object_open(kind) + m + "}"@, kind) == m,
        is_object_of(object_open(kind) + m + "}"@, kind),
{
    reveal_strlit("}");
    let t = object_open(kind) + m + "}"@;
    assert(t.subrange(object_open(kind).len() as int, t.len() - 1) =~= m);
}

proof fn lemma_point_object<F: Fn(u64) -> String>(fmt: F, c: Coord)
    ensures
        geojson_spec(fmt, GeomModel::Point(c)) == object_open("Point"@) + coord_json(fmt, c) + "}"@,
{
    reveal_strlit("{\"type\":\"Point\",\"coordinates\":");
    reveal_strlit("{\"type\":\"");
    reveal_strlit("\",\"coordinates\":");
    reveal_strlit("Point");
    assert("{\"type\":\"Point\",\"coordinates\":"@ =~= object_open("Point"@));
}

proof fn lemma_line_string_object<F: Fn(u64) -> String>(fmt: F, r: Seq<Coord>)
    ensures
        geojson_spec(fmt, GeomModel::LineString(r)) == object_open("LineString"@) + ring_json(fmt, r) + "}"@,
{
    reveal_strlit("{\"type\":\"LineString\",\"coordinates\":");
    reveal_strlit("{\"type\":\"");
    reveal_strlit("\",\"coordinates\":");
    reveal_strlit("LineString");
    assert("{\"type\":\"LineString\",\"coordinates\":"@ =~= object_open("LineString"@));
}

proof fn lemma_polygon_object<F: Fn(u64) -> String>(fmt: F, p: PolygonModel)
    ensures
        geojson_spec(fmt, GeomModel::Polygon(p)) == object_open("Polygon"@) + ("["@
            + polygon_rings_json(fmt, p) + "]"@) + "}"@,
{
    reveal_strlit("{\"type\":\"Polygon\",\"coordinates\":[");
    reveal_strlit("]}");
    reveal_strlit("{\"type\":\"");
    reveal_strlit("\",\"coordinates\":");
    reveal_strlit("Polygon");
    reveal_strlit("[");
    reveal_strlit("]");
    reveal_strlit("}");
    let r = polygon_rings_json(fmt, p);
    assert("{\"type\":\"Polygon\",\"coordinates\":["@ + r + "]}"@ =~= object_open("Polygon"@) + ("["@ + r
        + "]"@) + "}"@);
}

proof fn lemma_multi_line_string_object<F: Fn(u64) -> String>(fmt: F, ls: Seq<Seq<Coord>>)
    ensures
        geojson_spec(fmt, GeomModel::MultiLineString(ls)) == object_open("MultiLineString"@) + ("["@
            + join(ls.map_values(|r: Seq<Coord>| ring_json(fmt, r))) + "]"@) + "}"@,
{
    reveal_strlit("{\"type\":\"MultiLineString\",\"coordinates\":[");
    reveal_strlit("]}");
    reveal_strlit("{\"type\":\"");
    reveal_strlit("\",\"coordinates\":");
    reveal_strlit("MultiLineString");
    reveal_strlit("[");
    reveal_strlit("]");
    reveal_strlit("}");
    let j = join(ls.map_values(|r: Seq<Coord>| ring_json(fmt, r)));
    assert("{\"type\":\"MultiLineString\",\"coordinates\":["@ + j + "]}"@ =~= object_open(
        "MultiLineString"@,
    ) + ("["@ + j + "]"@) + "}"@);
}

proof fn lemma_multi_polygon_object<F: Fn(u64) -> String>(fmt: F, ps: Seq<PolygonModel>)
    ensures
        geojson_spec(fmt, GeomModel::MultiPolygon(ps)) == object_open("MultiPolygon"@) + ("["@
            + join(ps.map_values(|p: PolygonModel| member_polygon_json(fmt, p))) + "]"@) + "}"@,
{
    reveal_strlit("{\"type\":\"MultiPolygon\",\"coordinates\":[");
    reveal_strlit("]}");
    reveal_strlit("{\"type\":\"");
    reveal_strlit("\",\"coordinates\":");
    reveal_strlit("MultiPolygon");
    reveal_strlit("[");
    reveal_strlit("]");
    reveal_strlit("}");
    let j = join(ps.map_values(|p: PolygonModel| member_polygon_json(fmt, p)));
    assert("{\"type\":\"MultiPolygon\",\"coordinates\":["@ + j + "]}"@ =~= object_open("MultiPolygon"@)
        + ("["@ + j + "]"@) + "}"@);
}

/// The coordinates of a line string are the coordinates of its points, in
/// order: `[p1,p2,...]` where each `pk` is the coordinates member of
/// `ST_AsGeoJSON(ST_PointN(ls, k))`.
pub proof fn law_geojson_line_string_lists_its_points<F: Fn(u64) -> String>(fmt: F, r: Seq<Coord>)
    ensures
        is_object_of(geojson_spec(fmt, GeomModel::LineString(r)), "LineString"@),
        coordinates_member(geojson_spec(fmt, GeomModel::LineString(r)), "LineString"@) == "["@ + join(
            r.map_values(|c: Coord| coordinates_member(geojson_spec(fmt, GeomModel::Point(c)), "Point"@)),
        ) + "]"@,
{
    lemma_line_string_object(fmt, r);
    lemma_object("LineString"@, ring_json(fmt, r));
    assert forall|c: Coord| #[trigger] coordinates_member(geojson_spec(fmt, GeomModel::Point(c)), "Point"@)
        == coord_json(fmt, c) by {
        lemma_point_object(fmt, c);
        lemma_object("Point"@, coord_json(fmt, c));
    }
    assert(r.map_values(|c: Coord| coordinates_member(geojson_spec(fmt, GeomModel::Point(c)), "Point"@))
        =~= r.map_values(|c: Coord| coord_json(fmt, c)));
    reveal_strlit("[");
    reveal_strlit("]");
}

/// The coordinates of a multi line string are those of its members, in
/// order, each as the coordinates member of its own line string's GeoJSON.
pub proof fn law_geojson_multi_line_string_lists_its_lines<F: Fn(u64) -> String>(fmt: F, ls: Seq<Seq<Coord>>)
    ensures
        is_object_of(geojson_spec(fmt, GeomModel::MultiLineString(ls)), "MultiLineString"@),
        coordinates_member(geojson_spec(fmt, GeomModel::MultiLineString(ls)), "MultiLineString"@) == "["@
            + join(
            ls.map_values(
                |r: Seq<Coord>| coordinates_member(geojson_spec(fmt, GeomModel::LineString(r)), "LineString"@),
            ),
        ) + "]"@,
{
    let j = join(ls.map_values(|r: Seq<Coord>| ring_json(fmt, r)));
    lemma_multi_line_string_object(fmt, ls);
    lemma_object("MultiLineString"@, "["@ + j + "]"@);
    assert forall|r: Seq<Coord>| #[trigger] coordinates_member(
        geojson_spec(fmt, GeomModel::LineString(r)),
        "LineString"@,
    ) == ring_json(fmt, r) by {
        lemma_line_string_object(fmt, r);
        lemma_object("LineString"@, ring_json(fmt, r));
    }
    assert(ls.map_values(
        |r: Seq<Coord>| coordinates_member(geojson_spec(fmt, GeomModel::LineString(r)), "LineString"@),
    ) =~= ls.map_values(|r: Seq<Coord>| ring_json(fmt, r)));
}

/// A polygon's coordinates are exactly those of its boundary: the exterior
/// ring, then every interior ring, in order (no ring dropped or moved).
pub proof fn law_geojson_polygon_is_its_boundary<F: Fn(u64) -> String>(fmt: F, p: PolygonModel)
    ensures
        is_object_of(geojson_spec(fmt, GeomModel::Polygon(p)), "Polygon"@),
        is_object_of(geojson_spec(fmt, boundary_spec(GeomModel::Polygon(p))), "MultiLineString"@),
        coordinates_member(geojson_spec(fmt, GeomModel::Polygon(p)), "Polygon"@) == coordinates_member(
            geojson_spec(fmt, boundary_spec(GeomModel::Polygon(p))),
            "MultiLineString"@,
        ),
{
    let m = "["@ + polygon_rings_json(fmt, p) + "]"@;
    lemma_polygon_object(fmt, p);
    lemma_object("Polygon"@, m);
    let rings = seq![p.exterior] + p.interiors;
    lemma_multi_line_string_object(fmt, rings);
    lemma_object("MultiLineString"@, "["@ + join(rings.map_values(|r: Seq<Coord>| ring_json(fmt, r))) + "]"@);
}

/// Each member of a multipolygon is written with all its rings: the k-th
/// entry of the multipolygon's coordinates is exactly the coordinates member
/// of the GeoJSON of its k-th polygon (exterior ring, then every hole).
pub proof fn law_geojson_multi_polygon_lists_its_polygons<F: Fn(u64) -> String>(fmt: F, ps: Seq<PolygonModel>)
    ensures
        is_object_of(geojson_spec(fmt, GeomModel::MultiPolygon(ps)), "MultiPolygon"@),
        coordinates_member(geojson_spec(fmt, GeomModel::MultiPolygon(ps)), "MultiPolygon"@) == "["@ + join(
            ps.map_values(
                |p: PolygonModel| coordinates_member(geojson_spec(fmt, GeomModel::Polygon(p)), "Polygon"@),
            ),
        ) + "]"@,
{
    let j = join(ps.map_values(|p: PolygonModel| member_polygon_json(fmt, p)));
    lemma_multi_polygon_object(fmt, ps);
    lemma_object("MultiPolygon"@, "["@ + j + "]"@);
    assert forall|p: PolygonModel| #[trigger] coordinates_member(
        geojson_spec(fmt, GeomModel::Polygon(p)),
        "Polygon"@,
    ) == member_polygon_json(fmt, p) by {
        lemma_polygon_object(fmt, p);
        lemma_object("Polygon"@, "["@ + polygon_rings_json(fmt, p) + "]"@);
    }
    assert(ps.map_values(
        |p: PolygonModel| coordinates_member(geojson_spec(fmt, GeomModel::Polygon(p)), "Polygon"@),
    ) =~= ps.map_values(|p: PolygonModel| member_polygon_json(fmt, p)));
}

} // verus!
