//! GeoJSON text of a geometry. The JSON structure is built here; the text of
//! each ordinate (the shortest decimal form of a double) is produced by the
//! formatter that the caller hands in.

use vstd::prelude::*;
use crate::coord::Coord;
use crate::geom::{Geom, GeomModel, Polygon, PolygonModel, geoms_view, lemma_geoms_view, polygons_view, rings_view};
use crate::wkb::{rect_polygon, triangle_polygon};

verus! {

/// A formatter that yields one text per bit pattern: defined on every input
/// and giving equal texts for equal inputs.
pub open spec fn is_formatter<F: Fn(u64) -> String>(fmt: F) -> bool {
    &&& forall|b: u64| call_requires(fmt, (b,))
    &&& forall|b: u64, s1: String, s2: String| call_ensures(fmt, (b,), s1) && call_ensures(fmt, (b,), s2) ==> s1@ == s2@
}

/// The text that `fmt` gives for `b`.
pub open spec fn text_of<F: Fn(u64) -> String>(fmt: F, b: u64) -> Seq<char> {
    (choose|s: String| call_ensures(fmt, (b,), s))@
}

/// Texts joined by commas.
pub open spec fn join(parts: Seq<Seq<char>>) -> Seq<char>
    decreases parts.len(),
{
    if parts.len() == 0 {
        Seq::empty()
    } else if parts.len() == 1 {
        parts[0]
    } else {
        join(parts.drop_last()) + ","@ + parts.last()
    }
}

/// `[x,y]`.
pub open spec fn coord_json<F: Fn(u64) -> String>(fmt: F, c: Coord) -> Seq<char> {
    "["@ + text_of(fmt, c.x) + ","@ + text_of(fmt, c.y) + "]"@
}

/// `[[x,y],[x,y],...]`.
pub open spec fn ring_json<F: Fn(u64) -> String>(fmt: F, r: Seq<Coord>) -> Seq<char> {
    "["@ + join(r.map_values(|c: Coord| coord_json(fmt, c))) + "]"@
}

/// The rings of a polygon, exterior first, each as `ring_json`, comma separated.
pub open spec fn polygon_rings_json<F: Fn(u64) -> String>(fmt: F, p: PolygonModel) -> Seq<char> {
    join((seq![p.exterior] + p.interiors).map_values(|r: Seq<Coord>| ring_json(fmt, r)))
}

/// The GeoJSON object of a polygon.
pub open spec fn polygon_json<F: Fn(u64) -> String>(fmt: F, p: PolygonModel) -> Seq<char> {
    "{\"type\":\"Polygon\",\"coordinates\":["@ + polygon_rings_json(fmt, p) + "]}"@
}

/// The GeoJSON object of a line string.
pub open spec fn line_string_json<F: Fn(u64) -> String>(fmt: F, ls: Seq<Coord>) -> Seq<char> {
    "{\"type\":\"LineString\",\"coordinates\":"@ + ring_json(fmt, ls) + "}"@
}

/// The GeoJSON text of a geometry. A `Line` is written as its two-vertex
/// line string, a `Rect` and a `Triangle` as their polygons, and a collection
/// as the GeoJSON of each member, in order.
pub open spec fn geojson_spec<F: Fn(u64) -> String>(fmt: F, g: GeomModel) -> Seq<char>
    decreases g,
{
    match g {
        GeomModel::Point(c) => "{\"type\":\"Point\",\"coordinates\":"@ + coord_json(fmt, c) + "}"@,
        GeomModel::Line(a, b) => line_string_json(fmt, seq![a, b]),
        GeomModel::LineString(ls) => line_string_json(fmt, ls),
        GeomModel::Polygon(p) => polygon_json(fmt, p),
        GeomModel::MultiPoint(ps) => "{\"type\":\"MultiPoint\",\"coordinates\":["@ + join(
            ps.map_values(|c: Coord| coord_json(fmt, c)),
        ) + "]}"@,
        GeomModel::MultiLineString(ls) => "{\"type\":\"MultiLineString\",\"coordinates\":["@ + join(
            ls.map_values(|r: Seq<Coord>| ring_json(fmt, r)),
        ) + "]}"@,
        GeomModel::MultiPolygon(ps) => "{\"type\":\"MultiPolygon\",\"coordinates\":["@ + join(
            ps.map_values(|p: PolygonModel| member_polygon_json(fmt, p)),
        ) + "]}"@,
        GeomModel::GeometryCollection(items) => "{\"type\":\"GeometryCollection\",\"geometries\":["@
            + join(geojson_members(fmt, items)) + "]}"@,
        GeomModel::Rect(a, b) => polygon_json(fmt, rect_polygon(a, b)),
        GeomModel::Triangle(a, b, c) => polygon_json(fmt, triangle_polygon(a, b, c)),
    }
}

/// The GeoJSON texts of a sequence of geometries, one per geometry.
pub open spec fn geojson_members<F: Fn(u64) -> String>(fmt: F, items: Seq<GeomModel>) -> Seq<Seq<char>>
    decreases items,
{
    if items.len() == 0 {
        Seq::empty()
    } else {
        geojson_members(fmt, items.subrange(0, items.len() - 1)).push(geojson_spec(fmt, items[items.len() - 1]))
    }
}

fn text(fmt: &impl Fn(u64) -> String, b: u64) -> (r: String)
    requires
        is_formatter(*fmt),
    ensures
        r@ == text_of(*fmt, b),
{
    let s = fmt(b);
    assert(call_ensures(*fmt, (b,), s));
    s
}

fn push_coord_json(out: &mut String, fmt: &impl Fn(u64) -> String, c: Coord)
    requires
        is_formatter(*fmt),
    ensures
        final(out)@ == old(out)@ + coord_json(*fmt, c),
{
    let x = text(fmt, c.x);
    let y = text(fmt, c.y);
    out.append("[");
    out.append(x.as_str());
    out.append(",");
    out.append(y.as_str());
    out.append("]");
    assert(out@ =~= old(out)@ + coord_json(*fmt, c));
}

/// Appending one more part to a comma-joined list.
proof fn lemma_join_push(parts: Seq<Seq<char>>, p: Seq<char>)
    ensures
        join(parts.push(p)) == if parts.len() == 0 { p } else { join(parts) + ","@ + p },
{
    assert(parts.push(p).drop_last() =~= parts);
}

fn push_coords_join(out: &mut String, fmt: &impl Fn(u64) -> String, cs: &Vec<Coord>)
    requires
        is_formatter(*fmt),
    ensures
        final(out)@ == old(out)@ + join(cs@.map_values(|c: Coord| coord_json(*fmt, c))),
{
    let ghost parts = cs@.map_values(|c: Coord| coord_json(*fmt, c));
    let mut i: usize = 0;
    while i < cs.len()
        invariant
            i <= cs.len(),
            is_formatter(*fmt),
            parts == cs@.map_values(|c: Coord| coord_json(*fmt, c)),
            out@ == old(out)@ + join(parts.subrange(0, i as int)),
        decreases cs.len() - i,
    {
        proof {
            lemma_join_push(parts.subrange(0, i as int), parts[i as int]);
            assert(parts.subrange(0, i as int).push(parts[i as int]) =~= parts.subrange(0, i + 1));
        }
        if i > 0 {
            out.append(",");
        }
        push_coord_json(out, fmt, cs[i]);
        assert(out@ =~= old(out)@ + join(parts.subrange(0, i + 1)));
        i = i + 1;
    }
    assert(parts.subrange(0, cs.len() as int) =~= parts);
}

fn push_ring_json(out: &mut String, fmt: &impl Fn(u64) -> String, r: &Vec<Coord>)
    requires
        is_formatter(*fmt),
    ensures
        final(out)@ == old(out)@ + ring_json(*fmt, r@),
{
    out.append("[");
    push_coords_join(out, fmt, r);
    out.append("]");
    assert(out@ =~= old(out)@ + ring_json(*fmt, r@));
}

fn push_rings_join(out: &mut String, fmt: &impl Fn(u64) -> String, rs: &Vec<Vec<Coord>>, first: bool)
    requires
        is_formatter(*fmt),
    ensures
        final(out)@ == old(out)@ + join_tail(rings_view(rs@).map_values(|r: Seq<Coord>| ring_json(*fmt, r)), first),
{
    let ghost parts = rings_view(rs@).map_values(|r: Seq<Coord>| ring_json(*fmt, r));
    let mut i: usize = 0;
    while i < rs.len()
        invariant
            i <= rs.len(),
            is_formatter(*fmt),
            parts == rings_view(rs@).map_values(|r: Seq<Coord>| ring_json(*fmt, r)),
            out@ == old(out)@ + join_tail(parts.subrange(0, i as int), first),
        decreases rs.len() - i,
    {
        proof {
            assert(parts.subrange(0, i as int).push(parts[i as int]) =~= parts.subrange(0, i + 1));
            lemma_join_push(parts.subrange(0, i as int), parts[i as int]);
        }
        if i > 0 || !first {
            out.append(",");
        }
        push_ring_json(out, fmt, &rs[i]);
        assert(parts[i as int] == ring_json(*fmt, rs@[i as int]@));
        assert(out@ =~= old(out)@ + join_tail(parts.subrange(0, i + 1), first));
        i = i + 1;
    }
    assert(parts.subrange(0, rs.len() as int) =~= parts);
}

/// The comma-joined parts, preceded by a comma when they continue an earlier
/// list (`first` false) and are not empty.
pub open spec fn join_tail(parts: Seq<Seq<char>>, first: bool) -> Seq<char> {
    if first || parts.len() == 0 {
        join(parts)
    } else {
        ","@ + join(parts)
    }
}


/// A comma-joined list that starts with one more part.
proof fn lemma_join_prepend(a: Seq<char>, rest: Seq<Seq<char>>)
    ensures
        join(seq![a] + rest) == a + join_tail(rest, false),
    decreases rest.len(),
{
    if rest.len() == 0 {
        assert(seq![a] + rest =~= seq![a]);
        assert(a + join_tail(rest, false) =~= a);
    } else {
        let all = seq![a] + rest;
        assert(all.drop_last() =~= seq![a] + rest.drop_last());
        assert(all.last() == rest.last());
        lemma_join_prepend(a, rest.drop_last());
        if rest.len() == 1 {
            assert(rest.drop_last().len() == 0);
            assert(join(rest) == rest[0]);
        } else {
            assert(join(rest) == join(rest.drop_last()) + ","@ + rest.last());
        }
        assert(join(all) == join(all.drop_last()) + ","@ + all.last());
        assert(join(all) =~= a + join_tail(rest, false));
    }
}

fn push_polygon_rings(out: &mut String, fmt: &impl Fn(u64) -> String, p: &Polygon)
    requires
        is_formatter(*fmt),
    ensures
        final(out)@ == old(out)@ + polygon_rings_json(*fmt, p@),
{
    let ghost f = |r: Seq<Coord>| ring_json(*fmt, r);
    push_ring_json(out, fmt, &p.exterior);
    push_rings_join(out, fmt, &p.interiors, false);
    proof {
        let rest = rings_view(p.interiors@).map_values(f);
        assert((seq![p.exterior@] + rings_view(p.interiors@)).map_values(f) =~= seq![ring_json(*fmt, p.exterior@)] + rest);
        lemma_join_prepend(ring_json(*fmt, p.exterior@), rest);
        assert(out@ =~= old(out)@ + polygon_rings_json(*fmt, p@));
    }
}

/// `[rings]` of one member polygon of a multipolygon.
pub open spec fn member_polygon_json<F: Fn(u64) -> String>(fmt: F, p: PolygonModel) -> Seq<char> {
    "["@ + polygon_rings_json(fmt, p) + "]"@
}

fn push_polygons_join(out: &mut String, fmt: &impl Fn(u64) -> String, ps: &Vec<Polygon>)
    requires
        is_formatter(*fmt),
    ensures
        final(out)@ == old(out)@ + join(polygons_view(ps@).map_values(|p: PolygonModel| member_polygon_json(*fmt, p))),
{
    let ghost parts = polygons_view(ps@).map_values(|p: PolygonModel| member_polygon_json(*fmt, p));
    let mut i: usize = 0;
    while i < ps.len()
        invariant
            i <= ps.len(),
            is_formatter(*fmt),
            parts == polygons_view(ps@).map_values(|p: PolygonModel| member_polygon_json(*fmt, p)),
            out@ == old(out)@ + join(parts.subrange(0, i as int)),
        decreases ps.len() - i,
    {
        proof {
            assert(parts.subrange(0, i as int).push(parts[i as int]) =~= parts.subrange(0, i + 1));
            lemma_join_push(parts.subrange(0, i as int), parts[i as int]);
        }
        if i > 0 {
            out.append(",");
        }
        out.append("[");
        push_polygon_rings(out, fmt, &ps[i]);
        out.append("]");
        assert(parts[i as int] == member_polygon_json(*fmt, ps@[i as int]@));
        assert(out@ =~= old(out)@ + join(parts.subrange(0, i + 1)));
        i = i + 1;
    }
    assert(parts.subrange(0, ps.len() as int) =~= parts);
}

#[verifier::loop_isolation(false)]
fn push_geojson<F: Fn(u64) -> String>(out: &mut String, fmt: &F, g: &Geom)
    requires
        is_formatter(*fmt),
    ensures
        final(out)@ == old(out)@ + geojson_spec(*fmt, g@),
    decreases g,
{
    match g {
        Geom::Point(c) => {
            out.append("{\"type\":\"Point\",\"coordinates\":");
            push_coord_json(out, fmt, *c);
            out.append("}");
        },
        Geom::Line(a, b) => {
            let v: Vec<Coord> = vec![*a, *b];
            assert(v@ =~= seq![*a, *b]);
            out.append("{\"type\":\"LineString\",\"coordinates\":");
            push_ring_json(out, fmt, &v);
            out.append("}");
        },
        Geom::LineString(ls) => {
            out.append("{\"type\":\"LineString\",\"coordinates\":");
            push_ring_json(out, fmt, ls);
            out.append("}");
        },
        Geom::MultiPoint(ps) => {
            out.append("{\"type\":\"MultiPoint\",\"coordinates\":[");
            push_coords_join(out, fmt, ps);
            out.append("]}");
        },
        Geom::MultiLineString(ls) => {
            out.append("{\"type\":\"MultiLineString\",\"coordinates\":[");
            push_rings_join(out, fmt, ls, true);
            out.append("]}");
        },
        Geom::Polygon(p) => push_polygon_json(out, fmt, p),
        Geom::MultiPolygon(ps) => {
            out.append("{\"type\":\"MultiPolygon\",\"coordinates\":[");
            push_polygons_join(out, fmt, ps);
            out.append("]}");
        },
        Geom::GeometryCollection(items) => {
            out.append("{\"type\":\"GeometryCollection\",\"geometries\":[");
            let ghost iv = geoms_view(items@);
            let ghost start = out@;
            proof {
                lemma_geoms_view(items@);
            }
            let mut i: usize = 0;
            while i < items.len()
                invariant
                    i <= items.len(),
                    out@ == start + join(geojson_members(*fmt, iv.subrange(0, i as int))),
                decreases items.len() - i,
            {
                proof {
                    assert(decreases_to!(*g => (*g)->GeometryCollection_0));
                    assert(decreases_to!(*items => items@));
                    assert(decreases_to!(items@ => items@[i as int]));
                    let sub = iv.subrange(0, i + 1);
                    assert(sub.subrange(0, sub.len() - 1) =~= iv.subrange(0, i as int));
                    assert(sub[sub.len() - 1] == items@[i as int]@);
                    assert(geojson_members(*fmt, sub) == geojson_members(*fmt, iv.subrange(0, i as int)).push(
                        geojson_spec(*fmt, items@[i as int]@),
                    ));
                    lemma_join_push(
                        geojson_members(*fmt, iv.subrange(0, i as int)),
                        geojson_spec(*fmt, items@[i as int]@),
                    );
                    lemma_members_len(*fmt, iv.subrange(0, i as int));
                }
                if i > 0 {
                    out.append(",");
                }
                push_geojson(out, fmt, &items[i]);
                assert(out@ =~= start + join(geojson_members(*fmt, iv.subrange(0, i + 1))));
                i = i + 1;
            }
            assert(iv.subrange(0, items.len() as int) =~= iv);
            out.append("]}");
        },
        Geom::Rect(a, b) => {
            let p = Polygon {
                exterior: vec![
                    Coord { x: b.x, y: a.y },
                    Coord { x: b.x, y: b.y },
                    Coord { x: a.x, y: b.y },
                    Coord { x: a.x, y: a.y },
                    Coord { x: b.x, y: a.y },
                ],
                interiors: Vec::new(),
            };
            assert(p@.exterior =~= rect_polygon(*a, *b).exterior);
            assert(p@.interiors =~= rect_polygon(*a, *b).interiors);
            push_polygon_json(out, fmt, &p);
        },
        Geom::Triangle(a, b, c) => {
            let p = Polygon { exterior: vec![*a, *b, *c, *a], interiors: Vec::new() };
            assert(p@.exterior =~= triangle_polygon(*a, *b, *c).exterior);
            assert(p@.interiors =~= triangle_polygon(*a, *b, *c).interiors);
            push_polygon_json(out, fmt, &p);
        },
    }
    assert(out@ =~= old(out)@ + geojson_spec(*fmt, g@));
}

proof fn lemma_members_len<F: Fn(u64) -> String>(fmt: F, items: Seq<GeomModel>)
    ensures
        geojson_members(fmt, items).len() == items.len(),
    decreases items.len(),
{
    if items.len() > 0 {
        lemma_members_len(fmt, items.subrange(0, items.len() - 1));
    }
}

fn push_polygon_json(out: &mut String, fmt: &impl Fn(u64) -> String, p: &Polygon)
    requires
        is_formatter(*fmt),
    ensures
        final(out)@ == old(out)@ + polygon_json(*fmt, p@),
{
    out.append("{\"type\":\"Polygon\",\"coordinates\":[");
    push_polygon_rings(out, fmt, p);
    out.append("]}");
    assert(out@ =~= old(out)@ + polygon_json(*fmt, p@));
}

/// `ST_AsGeoJSON(geom)`: the GeoJSON text of a geometry, each ordinate written
/// by `fmt`. Always succeeds.
pub fn as_geojson<F: Fn(u64) -> String>(g: &Geom, fmt: &F) -> (r: Option<String>)
    requires
        is_formatter(*fmt),
    ensures
        r is Some,
        r->0@ == geojson_spec(*fmt, g@),
{
    let mut out = String::new();
    push_geojson(&mut out, fmt, g);
    Some(out)
}

} // verus!
