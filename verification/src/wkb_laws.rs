//! What the WKB writer and reader promise together: reading back what was
//! written gives the geometry again (with `Line`, `Rect` and `Triangle` in
//! their written form).

use vstd::prelude::*;
use crate::coord::Coord;
use crate::geom::{GeomModel, PolygonModel};
use crate::wkb::{
    coord_bytes, coords_at, coords_bytes, count_bytes, decode_spec, encodable, encode, encode_all,
    all_encodable, fits_u32, header_bytes, line_members_bytes, member_fits, multi_of_members,
    parse_coords, parse_geom, parse_header, parse_members, parse_polygon_body, parse_rings,
    point_members_bytes, polygon_body_bytes, polygon_fits, polygon_members_bytes, polygon_of_rings,
    polygons_fit, read_coord_spec, read_u32_spec, read_u64_spec, rect_polygon, ring_bytes,
    rings_bytes, rings_fit, triangle_polygon, u32_from_le, u32_le_bytes, u64_from_le, u64_le_bytes,
    order_byte, u32_bytes, u64_bytes,
};

verus! {

proof fn lemma_u32_bytes(v: u32)
    ensures
        u32_from_le(
            (v & 0xffu32) as u8,
            ((v >> 8u32) & 0xffu32) as u8,
            ((v >> 16u32) & 0xffu32) as u8,
            ((v >> 24u32) & 0xffu32) as u8,
        ) == v,
{
    assert(((v & 0xffu32) as u8 as u32) | ((((v >> 8u32) & 0xffu32) as u8 as u32) << 8u32) | ((((
    v >> 16u32) & 0xffu32) as u8 as u32) << 16u32) | ((((v >> 24u32) & 0xffu32) as u8 as u32)
        << 24u32) == v) by (bit_vector);
}

proof fn lemma_u64_bytes(v: u64)
    ensures
        u64_from_le(
            (v & 0xffu64) as u8,
            ((v >> 8u64) & 0xffu64) as u8,
            ((v >> 16u64) & 0xffu64) as u8,
            ((v >> 24u64) & 0xffu64) as u8,
            ((v >> 32u64) & 0xffu64) as u8,
            ((v >> 40u64) & 0xffu64) as u8,
            ((v >> 48u64) & 0xffu64) as u8,
            ((v >> 56u64) & 0xffu64) as u8,
        ) == v,
{
    assert(((v & 0xffu64) as u8 as u64) | ((((v >> 8u64) & 0xffu64) as u8 as u64) << 8u64) | ((((
    v >> 16u64) & 0xffu64) as u8 as u64) << 16u64) | ((((v >> 24u64) & 0xffu64) as u8 as u64)
        << 24u64) | ((((v >> 32u64) & 0xffu64) as u8 as u64) << 32u64) | ((((v >> 40u64)
        & 0xffu64) as u8 as u64) << 40u64) | ((((v >> 48u64) & 0xffu64) as u8 as u64) << 48u64)
        | ((((v >> 56u64) & 0xffu64) as u8 as u64) << 56u64) == v) by (bit_vector);
}

/// `s` holds the bytes `e` from position `pos` on.
pub open spec fn holds_at(s: Seq<u8>, pos: int, e: Seq<u8>) -> bool {
    0 <= pos && pos + e.len() <= s.len() && s.subrange(pos, pos + e.len()) == e
}

proof fn lemma_holds_split(s: Seq<u8>, pos: int, a: Seq<u8>, b: Seq<u8>)
    requires
        holds_at(s, pos, a + b),
    ensures
        holds_at(s, pos, a),
        holds_at(s, pos + a.len(), b),
{
    let whole = s.subrange(pos, pos + (a + b).len());
    assert forall|i: int| 0 <= i < a.len() implies s.subrange(pos, pos + a.len())[i] == a[i] by {
        assert(whole[i] == (a + b)[i]);
    }
    assert(s.subrange(pos, pos + a.len()) =~= a);
    assert forall|i: int| 0 <= i < b.len() implies s.subrange(pos + a.len(), pos + a.len() + b.len())[i] == b[i] by {
        assert(whole[a.len() + i] == (a + b)[a.len() + i]);
    }
    assert(s.subrange(pos + a.len(), pos + a.len() + b.len()) =~= b);
}

proof fn lemma_holds_index(s: Seq<u8>, pos: int, e: Seq<u8>, k: int)
    requires
        holds_at(s, pos, e),
        0 <= k < e.len(),
    ensures
        s[pos + k] == e[k],
{
    assert(s.subrange(pos, pos + e.len())[k] == s[pos + k]);
}

proof fn lemma_read_u32(s: Seq<u8>, pos: int, v: u32, le: bool)
    requires
        holds_at(s, pos, u32_bytes(v, le)),
    ensures
        read_u32_spec(s, pos, le) == v,
{
    let e = u32_bytes(v, le);
    lemma_holds_index(s, pos, e, 0);
    lemma_holds_index(s, pos, e, 1);
    lemma_holds_index(s, pos, e, 2);
    lemma_holds_index(s, pos, e, 3);
    lemma_u32_bytes(v);
    if !le {
        assert(e == u32_le_bytes(v).reverse());
        assert(s[pos] == u32_le_bytes(v)[3] && s[pos + 3] == u32_le_bytes(v)[0]);
        assert(s[pos + 1] == u32_le_bytes(v)[2] && s[pos + 2] == u32_le_bytes(v)[1]);
    }
}

proof fn lemma_read_u64(s: Seq<u8>, pos: int, v: u64, le: bool)
    requires
        holds_at(s, pos, u64_bytes(v, le)),
    ensures
        read_u64_spec(s, pos, le) == v,
{
    let e = u64_bytes(v, le);
    lemma_holds_index(s, pos, e, 0);
    lemma_holds_index(s, pos, e, 1);
    lemma_holds_index(s, pos, e, 2);
    lemma_holds_index(s, pos, e, 3);
    lemma_holds_index(s, pos, e, 4);
    lemma_holds_index(s, pos, e, 5);
    lemma_holds_index(s, pos, e, 6);
    lemma_holds_index(s, pos, e, 7);
    lemma_u64_bytes(v);
    if !le {
        let f = u64_le_bytes(v);
        assert(e == f.reverse());
        assert(s[pos] == f[7] && s[pos + 1] == f[6] && s[pos + 2] == f[5] && s[pos + 3] == f[4]);
        assert(s[pos + 4] == f[3] && s[pos + 5] == f[2] && s[pos + 6] == f[1] && s[pos + 7] == f[0]);
    }
}

proof fn lemma_read_coord(s: Seq<u8>, pos: int, c: Coord, le: bool)
    requires
        holds_at(s, pos, coord_bytes(c, le)),
    ensures
        read_coord_spec(s, pos, le) == c,
{
    lemma_holds_split(s, pos, u64_bytes(c.x, le), u64_bytes(c.y, le));
    lemma_read_u64(s, pos, c.x, le);
    lemma_read_u64(s, pos + 8, c.y, le);
}

proof fn lemma_read_header(s: Seq<u8>, pos: int, code: u32, le: bool)
    requires
        holds_at(s, pos, header_bytes(code, le)),
        1 <= code <= 7,
    ensures
        parse_header(s, pos) == Some((le, code, pos + 5)),
{
    lemma_holds_split(s, pos, seq![order_byte(le)], u32_bytes(code, le));
    lemma_holds_index(s, pos, seq![order_byte(le)], 0);
    lemma_read_u32(s, pos + 1, code, le);
}

proof fn lemma_coords_bytes_len(cs: Seq<Coord>, le: bool)
    ensures
        coords_bytes(cs, le).len() == 16 * cs.len(),
    decreases cs.len(),
{
    if cs.len() > 0 {
        lemma_coords_bytes_len(cs.drop_last(), le);
    }
}

proof fn lemma_read_coords(s: Seq<u8>, pos: int, cs: Seq<Coord>, le: bool)
    requires
        holds_at(s, pos, coords_bytes(cs, le)),
    ensures
        coords_at(s, pos, cs.len(), le) == cs,
    decreases cs.len(),
{
    lemma_coords_bytes_len(cs, le);
    if cs.len() > 0 {
        let init = cs.drop_last();
        lemma_coords_bytes_len(init, le);
        lemma_holds_split(s, pos, coords_bytes(init, le), coord_bytes(cs.last(), le));
        lemma_read_coords(s, pos, init, le);
        lemma_read_coord(s, pos + 16 * init.len(), cs.last(), le);
        assert(coords_at(s, pos, cs.len(), le) =~= cs) by {
            assert forall|i: int| 0 <= i < cs.len() implies coords_at(s, pos, cs.len(), le)[i] == cs[i] by {
                if i < init.len() {
                    assert(coords_at(s, pos, init.len(), le)[i] == init[i]);
                }
            }
        }
    }
}

proof fn lemma_read_ring(s: Seq<u8>, pos: int, r: Seq<Coord>, le: bool)
    requires
        holds_at(s, pos, ring_bytes(r, le)),
        fits_u32(r.len()),
    ensures
        parse_coords(s, pos, le) == Some((r, pos + ring_bytes(r, le).len())),
{
    lemma_holds_split(s, pos, count_bytes(r.len(), le), coords_bytes(r, le));
    lemma_read_u32(s, pos, r.len() as u32, le);
    lemma_coords_bytes_len(r, le);
    lemma_read_coords(s, pos + 4, r, le);
}


proof fn lemma_read_rings(s: Seq<u8>, pos: int, rs: Seq<Seq<Coord>>, le: bool)
    requires
        holds_at(s, pos, rings_bytes(rs, le)),
        rings_fit(rs),
    ensures
        parse_rings(s, pos, rs.len(), le) == Some((rs, pos + rings_bytes(rs, le).len())),
    decreases rs.len(),
{
    if rs.len() > 0 {
        let init = rs.drop_last();
        lemma_holds_split(s, pos, rings_bytes(init, le), ring_bytes(rs.last(), le));
        assert(rings_fit(init)) by {
            assert forall|i: int| 0 <= i < init.len() implies #[trigger] fits_u32(init[i].len()) by {
                assert(init[i] == rs[i]);
            }
        }
        lemma_read_rings(s, pos, init, le);
        assert(fits_u32(rs[rs.len() - 1].len()));
        lemma_read_ring(s, pos + rings_bytes(init, le).len(), rs.last(), le);
        assert(init.push(rs.last()) =~= rs);
    }
}

proof fn lemma_rings_bytes_cons(e: Seq<Coord>, rs: Seq<Seq<Coord>>, le: bool)
    ensures
        rings_bytes(seq![e] + rs, le) == ring_bytes(e, le) + rings_bytes(rs, le),
    decreases rs.len(),
{
    let whole = seq![e] + rs;
    if rs.len() == 0 {
        assert(whole =~= seq![e]);
        assert(whole.drop_last() =~= Seq::<Seq<Coord>>::empty());
        assert(rings_bytes(whole.drop_last(), le) == Seq::<u8>::empty());
        assert(rings_bytes(whole, le) == rings_bytes(whole.drop_last(), le) + ring_bytes(e, le));
        assert(rings_bytes(rs, le) == Seq::<u8>::empty());
        assert(ring_bytes(e, le) + rings_bytes(rs, le) =~= ring_bytes(e, le));
        assert(Seq::<u8>::empty() + ring_bytes(e, le) =~= ring_bytes(e, le));
    } else {
        lemma_rings_bytes_cons(e, rs.drop_last(), le);
        assert(whole.drop_last() =~= seq![e] + rs.drop_last());
        assert(whole.last() == rs.last());
        assert(rings_bytes(whole, le) == rings_bytes(whole.drop_last(), le) + ring_bytes(rs.last(), le));
        assert(ring_bytes(e, le) + rings_bytes(rs.drop_last(), le) + ring_bytes(rs.last(), le) =~= ring_bytes(e, le)
            + (rings_bytes(rs.drop_last(), le) + ring_bytes(rs.last(), le)));
    }
}

proof fn lemma_read_polygon_body(s: Seq<u8>, pos: int, p: PolygonModel, le: bool)
    requires
        holds_at(s, pos, polygon_body_bytes(p, le)),
        polygon_fits(p),
    ensures
        parse_polygon_body(s, pos, le) == Some((p, pos + polygon_body_bytes(p, le).len())),
{
    if p.exterior.len() == 0 && p.interiors.len() == 0 {
        lemma_read_u32(s, pos, 0u32, le);
        assert(p.exterior =~= Seq::<Coord>::empty());
        assert(p.interiors =~= Seq::<Seq<Coord>>::empty());
        assert(polygon_of_rings(Seq::empty()) == p);
    } else {
        let rings = seq![p.exterior] + p.interiors;
        lemma_rings_bytes_cons(p.exterior, p.interiors, le);
        assert(polygon_body_bytes(p, le) =~= count_bytes(1 + p.interiors.len(), le) + (ring_bytes(p.exterior, le) + rings_bytes(p.interiors, le)));
        lemma_holds_split(s, pos, count_bytes(1 + p.interiors.len(), le), ring_bytes(p.exterior, le) + rings_bytes(p.interiors, le));
        lemma_read_u32(s, pos, (1 + p.interiors.len()) as u32, le);
        assert(rings_fit(rings)) by {
            assert forall|i: int| 0 <= i < rings.len() implies #[trigger] fits_u32(rings[i].len()) by {
                if i > 0 {
                    assert(rings[i] == p.interiors[i - 1]);
                }
            }
        }
        assert(rings.len() == 1 + p.interiors.len());
        lemma_read_rings(s, pos + 4, rings, le);
        assert(rings.subrange(1, rings.len() as int) =~= p.interiors);
        assert(polygon_of_rings(rings) == p);
    }
}

proof fn lemma_read_point_member(s: Seq<u8>, pos: int, c: Coord, le: bool)
    requires
        holds_at(s, pos, header_bytes(1, le) + coord_bytes(c, le)),
    ensures
        parse_geom(s, pos) == Some((GeomModel::Point(c), pos + 21)),
{
    lemma_holds_split(s, pos, header_bytes(1, le), coord_bytes(c, le));
    lemma_read_header(s, pos, 1, le);
    lemma_read_coord(s, pos + 5, c, le);
}

proof fn lemma_read_line_member(s: Seq<u8>, pos: int, r: Seq<Coord>, le: bool)
    requires
        holds_at(s, pos, header_bytes(2, le) + ring_bytes(r, le)),
        fits_u32(r.len()),
    ensures
        parse_geom(s, pos) == Some((GeomModel::LineString(r), pos + 5 + ring_bytes(r, le).len())),
{
    lemma_holds_split(s, pos, header_bytes(2, le), ring_bytes(r, le));
    lemma_read_header(s, pos, 2, le);
    lemma_read_ring(s, pos + 5, r, le);
}

proof fn lemma_read_polygon_member(s: Seq<u8>, pos: int, p: PolygonModel, le: bool)
    requires
        holds_at(s, pos, header_bytes(3, le) + polygon_body_bytes(p, le)),
        polygon_fits(p),
    ensures
        parse_geom(s, pos) == Some((GeomModel::Polygon(p), pos + 5 + polygon_body_bytes(p, le).len())),
{
    lemma_holds_split(s, pos, header_bytes(3, le), polygon_body_bytes(p, le));
    lemma_read_header(s, pos, 3, le);
    lemma_read_polygon_body(s, pos + 5, p, le);
}

proof fn lemma_read_point_members(s: Seq<u8>, pos: int, ps: Seq<Coord>, le: bool)
    requires
        holds_at(s, pos, point_members_bytes(ps, le)),
    ensures
        parse_members(s, pos, ps.len(), 4) == Some((
            ps.map_values(|c: Coord| GeomModel::Point(c)),
            pos + point_members_bytes(ps, le).len(),
        )),
    decreases ps.len(),
{
    if ps.len() > 0 {
        let init = ps.drop_last();
        assert(point_members_bytes(ps, le) =~= point_members_bytes(init, le) + (header_bytes(1, le) + coord_bytes(ps.last(), le)));
        lemma_holds_split(s, pos, point_members_bytes(init, le), header_bytes(1, le) + coord_bytes(ps.last(), le));
        lemma_read_point_members(s, pos, init, le);
        lemma_read_point_member(s, pos + point_members_bytes(init, le).len(), ps.last(), le);
        assert(init.map_values(|c: Coord| GeomModel::Point(c)).push(GeomModel::Point(ps.last()))
            =~= ps.map_values(|c: Coord| GeomModel::Point(c)));
    } else {
        assert(ps.map_values(|c: Coord| GeomModel::Point(c)) =~= Seq::<GeomModel>::empty());
    }
}

proof fn lemma_read_line_members(s: Seq<u8>, pos: int, ls: Seq<Seq<Coord>>, le: bool)
    requires
        holds_at(s, pos, line_members_bytes(ls, le)),
        rings_fit(ls),
    ensures
        parse_members(s, pos, ls.len(), 5) == Some((
            ls.map_values(|r: Seq<Coord>| GeomModel::LineString(r)),
            pos + line_members_bytes(ls, le).len(),
        )),
    decreases ls.len(),
{
    if ls.len() > 0 {
        let init = ls.drop_last();
        assert(line_members_bytes(ls, le) =~= line_members_bytes(init, le) + (header_bytes(2, le) + ring_bytes(ls.last(), le)));
        lemma_holds_split(s, pos, line_members_bytes(init, le), header_bytes(2, le) + ring_bytes(ls.last(), le));
        assert(rings_fit(init)) by {
            assert forall|i: int| 0 <= i < init.len() implies #[trigger] fits_u32(init[i].len()) by {
                assert(init[i] == ls[i]);
            }
        }
        lemma_read_line_members(s, pos, init, le);
        assert(fits_u32(ls[ls.len() - 1].len()));
        lemma_read_line_member(s, pos + line_members_bytes(init, le).len(), ls.last(), le);
        assert(init.map_values(|r: Seq<Coord>| GeomModel::LineString(r)).push(GeomModel::LineString(ls.last()))
            =~= ls.map_values(|r: Seq<Coord>| GeomModel::LineString(r)));
    } else {
        assert(ls.map_values(|r: Seq<Coord>| GeomModel::LineString(r)) =~= Seq::<GeomModel>::empty());
    }
}

proof fn lemma_read_polygon_members(s: Seq<u8>, pos: int, ps: Seq<PolygonModel>, le: bool)
    requires
        holds_at(s, pos, polygon_members_bytes(ps, le)),
        polygons_fit(ps),
    ensures
        parse_members(s, pos, ps.len(), 6) == Some((
            ps.map_values(|p: PolygonModel| GeomModel::Polygon(p)),
            pos + polygon_members_bytes(ps, le).len(),
        )),
    decreases ps.len(),
{
    if ps.len() > 0 {
        let init = ps.drop_last();
        assert(polygon_members_bytes(ps, le) =~= polygon_members_bytes(init, le) + (header_bytes(3, le) + polygon_body_bytes(ps.last(), le)));
        lemma_holds_split(s, pos, polygon_members_bytes(init, le), header_bytes(3, le) + polygon_body_bytes(ps.last(), le));
        assert(polygons_fit(init)) by {
            assert forall|i: int| 0 <= i < init.len() implies #[trigger] polygon_fits(init[i]) by {
                assert(init[i] == ps[i]);
            }
        }
        lemma_read_polygon_members(s, pos, init, le);
        assert(polygon_fits(ps[ps.len() - 1]));
        lemma_read_polygon_member(s, pos + polygon_members_bytes(init, le).len(), ps.last(), le);
        assert(init.map_values(|p: PolygonModel| GeomModel::Polygon(p)).push(GeomModel::Polygon(ps.last()))
            =~= ps.map_values(|p: PolygonModel| GeomModel::Polygon(p)));
    } else {
        assert(ps.map_values(|p: PolygonModel| GeomModel::Polygon(p)) =~= Seq::<GeomModel>::empty());
    }
}

proof fn lemma_read_multipoint(s: Seq<u8>, pos: int, ps: Seq<Coord>, le: bool)
    requires
        holds_at(s, pos, encode(GeomModel::MultiPoint(ps), le)),
        encodable(GeomModel::MultiPoint(ps)),
    ensures
        parse_geom(s, pos) == Some((GeomModel::MultiPoint(ps), pos + encode(GeomModel::MultiPoint(ps), le).len())),
{
    let g = GeomModel::MultiPoint(ps);
    assert(encode(g, le) =~= header_bytes(4, le) + (count_bytes(ps.len(), le) + point_members_bytes(ps, le)));
    lemma_holds_split(s, pos, header_bytes(4, le), count_bytes(ps.len(), le) + point_members_bytes(ps, le));
    lemma_holds_split(s, pos + 5, count_bytes(ps.len(), le), point_members_bytes(ps, le));
    lemma_read_header(s, pos, 4, le);
    lemma_read_u32(s, pos + 5, ps.len() as u32, le);
    lemma_read_point_members(s, pos + 9, ps, le);
    assert(ps.map_values(|c: Coord| GeomModel::Point(c)).map_values(|m: GeomModel| m->Point_0) =~= ps);
}

proof fn lemma_read_multilinestring(s: Seq<u8>, pos: int, ls: Seq<Seq<Coord>>, le: bool)
    requires
        holds_at(s, pos, encode(GeomModel::MultiLineString(ls), le)),
        encodable(GeomModel::MultiLineString(ls)),
    ensures
        parse_geom(s, pos) == Some((GeomModel::MultiLineString(ls), pos + encode(GeomModel::MultiLineString(ls), le).len())),
{
    let g = GeomModel::MultiLineString(ls);
    assert(encode(g, le) =~= header_bytes(5, le) + (count_bytes(ls.len(), le) + line_members_bytes(ls, le)));
    lemma_holds_split(s, pos, header_bytes(5, le), count_bytes(ls.len(), le) + line_members_bytes(ls, le));
    lemma_holds_split(s, pos + 5, count_bytes(ls.len(), le), line_members_bytes(ls, le));
    lemma_read_header(s, pos, 5, le);
    lemma_read_u32(s, pos + 5, ls.len() as u32, le);
    lemma_read_line_members(s, pos + 9, ls, le);
    assert(ls.map_values(|r: Seq<Coord>| GeomModel::LineString(r)).map_values(|m: GeomModel| m->LineString_0) =~= ls);
}

proof fn lemma_read_multipolygon(s: Seq<u8>, pos: int, ps: Seq<PolygonModel>, le: bool)
    requires
        holds_at(s, pos, encode(GeomModel::MultiPolygon(ps), le)),
        encodable(GeomModel::MultiPolygon(ps)),
    ensures
        parse_geom(s, pos) == Some((GeomModel::MultiPolygon(ps), pos + encode(GeomModel::MultiPolygon(ps), le).len())),
{
    let g = GeomModel::MultiPolygon(ps);
    assert(encode(g, le) =~= header_bytes(6, le) + (count_bytes(ps.len(), le) + polygon_members_bytes(ps, le)));
    lemma_holds_split(s, pos, header_bytes(6, le), count_bytes(ps.len(), le) + polygon_members_bytes(ps, le));
    lemma_holds_split(s, pos + 5, count_bytes(ps.len(), le), polygon_members_bytes(ps, le));
    lemma_read_header(s, pos, 6, le);
    lemma_read_u32(s, pos + 5, ps.len() as u32, le);
    lemma_read_polygon_members(s, pos + 9, ps, le);
    assert(ps.map_values(|p: PolygonModel| GeomModel::Polygon(p)).map_values(|m: GeomModel| m->Polygon_0) =~= ps);
}

/// The form in which a geometry comes back from its WKB: a `Line` as a
/// two-vertex line string, a `Rect` and a `Triangle` as their polygons, the
/// members of a collection likewise; every other geometry as it is.
pub open spec fn normalize(g: GeomModel) -> GeomModel
    decreases g,
{
    match g {
        GeomModel::Line(a, b) => GeomModel::LineString(seq![a, b]),
        GeomModel::Rect(a, b) => GeomModel::Polygon(rect_polygon(a, b)),
        GeomModel::Triangle(a, b, c) => GeomModel::Polygon(triangle_polygon(a, b, c)),
        GeomModel::GeometryCollection(items) => GeomModel::GeometryCollection(normalize_all(items)),
        _ => g,
    }
}

/// `normalize` applied to every geometry of a sequence.
pub open spec fn normalize_all(items: Seq<GeomModel>) -> Seq<GeomModel>
    decreases items,
{
    if items.len() == 0 {
        Seq::empty()
    } else {
        normalize_all(items.subrange(0, items.len() - 1)).push(normalize(items[items.len() - 1]))
    }
}

proof fn lemma_read_geom(s: Seq<u8>, pos: int, g: GeomModel, le: bool)
    requires
        holds_at(s, pos, encode(g, le)),
        encodable(g),
    ensures
        parse_geom(s, pos) == Some((normalize(g), pos + encode(g, le).len())),
    decreases g,
{
    match g {
        GeomModel::Point(c) => {
            lemma_read_point_member(s, pos, c, le);
        },
        GeomModel::Line(a, b) => {
            lemma_read_line_member(s, pos, seq![a, b], le);
        },
        GeomModel::LineString(ls) => {
            lemma_read_line_member(s, pos, ls, le);
        },
        GeomModel::Polygon(p) => {
            lemma_read_polygon_member(s, pos, p, le);
        },
        GeomModel::Rect(a, b) => {
            lemma_read_polygon_member(s, pos, rect_polygon(a, b), le);
        },
        GeomModel::Triangle(a, b, c) => {
            lemma_read_polygon_member(s, pos, triangle_polygon(a, b, c), le);
        },
        GeomModel::MultiPoint(ps) => {
            lemma_read_multipoint(s, pos, ps, le);
        },
        GeomModel::MultiLineString(ls) => {
            lemma_read_multilinestring(s, pos, ls, le);
        },
        GeomModel::MultiPolygon(ps) => {
            lemma_read_multipolygon(s, pos, ps, le);
        },
        GeomModel::GeometryCollection(items) => {
            assert(encode(g, le) =~= header_bytes(7, le) + (count_bytes(items.len(), le) + encode_all(items, le)));
            lemma_holds_split(s, pos, header_bytes(7, le), count_bytes(items.len(), le) + encode_all(items, le));
            lemma_holds_split(s, pos + 5, count_bytes(items.len(), le), encode_all(items, le));
            lemma_read_header(s, pos, 7, le);
            lemma_read_u32(s, pos + 5, items.len() as u32, le);
            lemma_read_all(s, pos + 9, items, le);
        },
    }
}

proof fn lemma_read_all(s: Seq<u8>, pos: int, items: Seq<GeomModel>, le: bool)
    requires
        holds_at(s, pos, encode_all(items, le)),
        all_encodable(items),
    ensures
        parse_members(s, pos, items.len(), 7) == Some((normalize_all(items), pos + encode_all(items, le).len())),
    decreases items,
{
    if items.len() > 0 {
        let init = items.subrange(0, items.len() - 1);
        let last = items[items.len() - 1];
        lemma_holds_split(s, pos, encode_all(init, le), encode(last, le));
        lemma_read_all(s, pos, init, le);
        lemma_read_geom(s, pos + encode_all(init, le).len(), last, le);
        assert(init.len() == (items.len() - 1) as nat);
    }
}

/// Reading back what the WKB writer wrote gives the geometry again, in the
/// form of [`normalize`], in either byte order: for every geometry whose
/// counts fit 32 bits, `decode(encode(g, le)) == normalize(g)`.
pub proof fn law_wkb_round_trip_in_order(g: GeomModel, le: bool)
    requires
        encodable(g),
    ensures
        decode_spec(encode(g, le)) == Some(normalize(g)),
{
    let e = encode(g, le);
    assert(e.subrange(0, e.len() as int) =~= e);
    lemma_read_geom(e, 0, g, le);
}

/// Reading back what the WKB writer wrote (little endian) gives the
/// geometry again: `decode(to_wkb(g)) == normalize(g)`.
pub proof fn law_wkb_round_trip(g: GeomModel)
    requires
        encodable(g),
    ensures
        decode_spec(encode(g, true)) == Some(normalize(g)),
{
    law_wkb_round_trip_in_order(g, true);
}

/// The reader does not depend on the byte order: the big-endian and the
/// little-endian WKB of a geometry decode to the same geometry.
pub proof fn law_wkb_byte_order_independent(g: GeomModel)
    requires
        encodable(g),
    ensures
        decode_spec(encode(g, false)) == decode_spec(encode(g, true)),
        decode_spec(encode(g, false)) == Some(normalize(g)),
{
    law_wkb_round_trip_in_order(g, true);
    law_wkb_round_trip_in_order(g, false);
}

} // verus!
