//! Removal of consecutive repeated vertices (`ST_RemoveRepeatedPoints`).

use vstd::prelude::*;
use crate::coord::{Coord, coord_eq, coord_eq_spec};
use crate::geom::{Geom, GeomModel, Polygon, PolygonModel, option_view, polygons_view, rings_view};
use crate::editing::{close_ring, close_ring_exec};

verus! {

/// A coordinate sequence with every vertex dropped that equals (as doubles
/// compare) the last vertex kept before it.
pub open spec fn dedup_coords(s: Seq<Coord>) -> Seq<Coord>
    decreases s.len(),
{
    if s.len() == 0 {
        s
    } else {
        let d = dedup_coords(s.drop_last());
        if d.len() > 0 && coord_eq_spec(d.last(), s.last()) {
            d
        } else {
            d.push(s.last())
        }
    }
}

/// Every ring deduplicated.
pub open spec fn dedup_rings(rs: Seq<Seq<Coord>>) -> Seq<Seq<Coord>> {
    rs.map_values(|r: Seq<Coord>| dedup_coords(r))
}

/// A polygon rebuilt from its deduplicated rings; polygon construction closes
/// each ring again.
pub open spec fn dedup_polygon(p: PolygonModel) -> PolygonModel {
    PolygonModel {
        exterior: close_ring(dedup_coords(p.exterior)),
        interiors: p.interiors.map_values(|r: Seq<Coord>| close_ring(dedup_coords(r))),
    }
}

/// `ST_RemoveRepeatedPoints`: consecutive repeated vertices removed from line
/// strings, the members of multi line strings, and the rings of polygons and
/// multipolygons; every other geometry unchanged.
pub open spec fn remove_repeated_spec(g: GeomModel) -> GeomModel {
    match g {
        GeomModel::LineString(ls) => GeomModel::LineString(dedup_coords(ls)),
        GeomModel::MultiLineString(ls) => GeomModel::MultiLineString(dedup_rings(ls)),
        GeomModel::Polygon(p) => GeomModel::Polygon(dedup_polygon(p)),
        GeomModel::MultiPolygon(ps) => GeomModel::MultiPolygon(
            ps.map_values(|p: PolygonModel| dedup_polygon(p)),
        ),
        _ => g,
    }
}

/// The vertices of `v` without consecutive repeats.
pub fn dedup_vertices(v: &Vec<Coord>) -> (r: Vec<Coord>)
    ensures
        r@ == dedup_coords(v@),
{
    let mut out: Vec<Coord> = Vec::new();
    let mut i: usize = 0;
    while i < v.len()
        invariant
            i <= v.len(),
            out@ == dedup_coords(v@.subrange(0, i as int)),
        decreases v.len() - i,
    {
        assert(v@.subrange(0, i + 1).drop_last() =~= v@.subrange(0, i as int));
        let c = v[i];
        if out.len() == 0 || !coord_eq(&out[out.len() - 1], &c) {
            out.push(c);
        }
        i = i + 1;
    }
    assert(v@.subrange(0, v.len() as int) =~= v@);
    out
}

fn dedup_ring_list(rs: &Vec<Vec<Coord>>, close: bool) -> (r: Vec<Vec<Coord>>)
    ensures
        rings_view(r@) == rings_view(rs@).map_values(
            |x: Seq<Coord>| if close { close_ring(dedup_coords(x)) } else { dedup_coords(x) },
        ),
{
    let ghost f = |x: Seq<Coord>| if close { close_ring(dedup_coords(x)) } else { dedup_coords(x) };
    let mut out: Vec<Vec<Coord>> = Vec::new();
    let mut i: usize = 0;
    while i < rs.len()
        invariant
            i <= rs.len(),
            f == (|x: Seq<Coord>| if close { close_ring(dedup_coords(x)) } else { dedup_coords(x) }),
            rings_view(out@) =~= rings_view(rs@).subrange(0, i as int).map_values(f),
        decreases rs.len() - i,
    {
        let mut q = dedup_vertices(&rs[i]);
        if close {
            close_ring_exec(&mut q);
        }
        let ghost prev = out@;
        out.push(q);
        proof {
            assert(rings_view(out@) =~= rings_view(prev).push(q@));
            assert(rings_view(rs@).subrange(0, i + 1) =~= rings_view(rs@).subrange(0, i as int).push(rs@[i as int]@));
        }
        i = i + 1;
    }
    assert(rings_view(rs@).subrange(0, rs.len() as int) =~= rings_view(rs@));
    out
}

fn dedup_polygon_exec(p: &Polygon) -> (r: Polygon)
    ensures
        r@ == dedup_polygon(p@),
{
    let mut ext = dedup_vertices(&p.exterior);
    close_ring_exec(&mut ext);
    let ints = dedup_ring_list(&p.interiors, true);
    let r = Polygon { exterior: ext, interiors: ints };
    assert(r@.interiors =~= dedup_polygon(p@).interiors);
    r
}

/// `ST_RemoveRepeatedPoints(geom)`: drop consecutive duplicate vertices.
pub fn remove_repeated_points(g: &Geom) -> (r: Option<Geom>)
    ensures
        option_view(r) == Some(remove_repeated_spec(g@)),
{
    match g {
        Geom::LineString(ls) => Some(Geom::LineString(dedup_vertices(ls))),
        Geom::MultiLineString(ls) => {
            let out = dedup_ring_list(ls, false);
            assert(rings_view(out@) =~= dedup_rings(rings_view(ls@)));
            Some(Geom::MultiLineString(out))
        },
        Geom::Polygon(p) => Some(Geom::Polygon(dedup_polygon_exec(p))),
        Geom::MultiPolygon(ps) => {
            let mut out: Vec<Polygon> = Vec::new();
            let mut i: usize = 0;
            while i < ps.len()
                invariant
                    i <= ps.len(),
                    polygons_view(out@) =~= polygons_view(ps@).subrange(0, i as int).map_values(
                        |q: PolygonModel| dedup_polygon(q),
                    ),
                decreases ps.len() - i,
            {
                let q = dedup_polygon_exec(&ps[i]);
                let ghost prev = out@;
                out.push(q);
                proof {
                    assert(polygons_view(out@) =~= polygons_view(prev).push(q@));
                    assert(polygons_view(ps@).subrange(0, i + 1) =~= polygons_view(ps@).subrange(0, i as int).push(ps@[i as int]@));
                }
                i = i + 1;
            }
            assert(polygons_view(ps@).subrange(0, ps.len() as int) =~= polygons_view(ps@));
            Some(Geom::MultiPolygon(out))
        },
        _ => Some(crate::geom::clone_geom(g)),
    }
}

} // verus!
