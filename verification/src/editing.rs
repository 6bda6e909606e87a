//! Structural editing: reversal, vertex extraction, boundaries, line
//! construction and the polygonal part of a geometry.

use vstd::prelude::*;
use crate::coord::{Coord, coord_eq_spec};
use crate::geom::{
    Geom, GeomModel, Polygon, PolygonModel, clone_coords, clone_polygon, geoms_view,
    lemma_geoms_view, option_view, polygons_view, rings_view,
};
use crate::accessors::{line_closed, point_coord, point_coord_spec};

verus! {

// ----- ring closing -------------------------------------------------------------

/// A ring as polygon construction leaves it: unchanged when it is empty or its
/// first and last vertices are equal, otherwise with its first vertex appended.
pub open spec fn close_ring(r: Seq<Coord>) -> Seq<Coord> {
    if r.len() == 0 || line_closed(r) {
        r
    } else {
        r.push(r[0])
    }
}

pub(crate) fn close_ring_exec(r: &mut Vec<Coord>)
    ensures
        final(r)@ == close_ring(old(r)@),
{
    if r.len() > 0 && !crate::coord::coord_eq(&r[0], &r[r.len() - 1]) {
        let first = r[0];
        r.push(first);
    }
}

// ----- reversal ---------------------------------------------------------------------

/// A ring with its vertex order reversed.
pub open spec fn reversed_rings(rs: Seq<Seq<Coord>>) -> Seq<Seq<Coord>> {
    rs.map_values(|r: Seq<Coord>| r.reverse())
}

/// A polygon rebuilt from its reversed rings; polygon construction closes each ring.
pub open spec fn reverse_polygon(p: PolygonModel) -> PolygonModel {
    PolygonModel {
        exterior: close_ring(p.exterior.reverse()),
        interiors: p.interiors.map_values(|r: Seq<Coord>| close_ring(r.reverse())),
    }
}

/// `ST_Reverse`: the vertex order of every linear part reversed — a line's
/// end points swapped, line strings, the members of multi line strings, and
/// every ring of polygons and multipolygons reversed; points, rectangles,
/// triangles and collections unchanged.
pub open spec fn reverse_spec(g: GeomModel) -> GeomModel {
    match g {
        GeomModel::Line(a, b) => GeomModel::Line(b, a),
        GeomModel::LineString(ls) => GeomModel::LineString(ls.reverse()),
        GeomModel::MultiLineString(ls) => GeomModel::MultiLineString(reversed_rings(ls)),
        GeomModel::Polygon(p) => GeomModel::Polygon(reverse_polygon(p)),
        GeomModel::MultiPolygon(ps) => GeomModel::MultiPolygon(ps.map_values(|p: PolygonModel| reverse_polygon(p))),
        _ => g,
    }
}

fn reversed(v: &Vec<Coord>) -> (r: Vec<Coord>)
    ensures
        r@ == v@.reverse(),
{
    let mut r: Vec<Coord> = Vec::new();
    let mut i: usize = v.len();
    while i > 0
        invariant
            i <= v.len(),
            r@ == v@.subrange(i as int, v.len() as int).reverse(),
        decreases i,
    {
        i = i - 1;
        r.push(v[i]);
        assert(r@ =~= v@.subrange(i as int, v.len() as int).reverse());
    }
    assert(v@.subrange(0, v.len() as int) =~= v@);
    r
}

fn reverse_polygon_exec(p: &Polygon) -> (r: Polygon)
    ensures
        r@ == reverse_polygon(p@),
{
    let mut ext = reversed(&p.exterior);
    close_ring_exec(&mut ext);
    let mut ints: Vec<Vec<Coord>> = Vec::new();
    let mut i: usize = 0;
    while i < p.interiors.len()
        invariant
            i <= p.interiors.len(),
            rings_view(ints@) =~= rings_view(p.interiors@).subrange(0, i as int).map_values(
                |r: Seq<Coord>| close_ring(r.reverse()),
            ),
        decreases p.interiors.len() - i,
    {
        let mut q = reversed(&p.interiors[i]);
        close_ring_exec(&mut q);
        let ghost prev = ints@;
        ints.push(q);
        proof {
            assert(rings_view(ints@) =~= rings_view(prev).push(q@));
            assert(rings_view(p.interiors@).subrange(0, i + 1) =~= rings_view(p.interiors@).subrange(0, i as int).push(p.interiors@[i as int]@));
        }
        i = i + 1;
    }
    assert(rings_view(p.interiors@).subrange(0, p.interiors.len() as int) =~= rings_view(p.interiors@));
    let r = Polygon { exterior: ext, interiors: ints };
    assert(r@.interiors =~= reverse_polygon(p@).interiors);
    r
}

/// `ST_Reverse(geom)` — reverse vertex order.
pub fn reverse_geom(g: &Geom) -> (r: Option<Geom>)
    ensures
        option_view(r) == Some(reverse_spec(g@)),
{
    match g {
        Geom::LineString(ls) => Some(Geom::LineString(reversed(ls))),
        Geom::MultiLineString(ls) => {
            let mut out: Vec<Vec<Coord>> = Vec::new();
            let mut i: usize = 0;
            while i < ls.len()
                invariant
                    i <= ls.len(),
                    rings_view(out@) =~= reversed_rings(rings_view(ls@).subrange(0, i as int)),
                decreases ls.len() - i,
            {
                let x = reversed(&ls[i]);
                let ghost prev = out@;
                out.push(x);
                proof {
                    assert(rings_view(out@) =~= rings_view(prev).push(x@));
                    assert(rings_view(ls@).subrange(0, i + 1) =~= rings_view(ls@).subrange(0, i as int).push(ls@[i as int]@));
                }
                i = i + 1;
            }
            assert(rings_view(ls@).subrange(0, ls.len() as int) =~= rings_view(ls@));
            Some(Geom::MultiLineString(out))
        },
        Geom::Line(a, b) => Some(Geom::Line(*b, *a)),
        Geom::Polygon(p) => Some(Geom::Polygon(reverse_polygon_exec(p))),
        Geom::MultiPolygon(ps) => {
            let mut out: Vec<Polygon> = Vec::new();
            let mut i: usize = 0;
            while i < ps.len()
                invariant
                    i <= ps.len(),
                    polygons_view(out@) =~= polygons_view(ps@).subrange(0, i as int).map_values(
                        |q: PolygonModel| reverse_polygon(q),
                    ),
                decreases ps.len() - i,
            {
                let q = reverse_polygon_exec(&ps[i]);
                let ghost prev = out@;
                out.push(q);
                proof {
                    assert(polygons_view(out@) =~= polygons_view(prev).push(q@));
                    assert(polygons_view(ps@).subrange(0, i + 1) =~= polygons_view(ps@).subrange(0, i as int).push(ps@[i as int]@));
                }
                i = i + 1;
            }
            assert(polygons_view(ps@).subrange(0, ps.len() as int) =~= polygons_view(ps@));
            Some(Geom::MultiPolygon(out))
        },
        _ => Some(crate::geom::clone_geom(g)),
    }
}


// ----- vertices ------------------------------------------------------------------------

/// The concatenation of a sequence of rings.
pub open spec fn flatten(rs: Seq<Seq<Coord>>) -> Seq<Coord>
    decreases rs.len(),
{
    if rs.len() == 0 {
        Seq::empty()
    } else {
        flatten(rs.drop_last()) + rs.last()
    }
}

/// The vertices of a polygon: exterior ring, then each interior ring.
pub open spec fn polygon_coords(p: PolygonModel) -> Seq<Coord> {
    p.exterior + flatten(p.interiors)
}

/// The vertices of a sequence of polygons, polygon after polygon.
pub open spec fn polygons_coords(ps: Seq<PolygonModel>) -> Seq<Coord>
    decreases ps.len(),
{
    if ps.len() == 0 {
        Seq::empty()
    } else {
        polygons_coords(ps.drop_last()) + polygon_coords(ps.last())
    }
}

/// Every coordinate of a geometry in storage order: a `Line` its two end
/// points, a `Rect` its min and max corners, a `Triangle` its three vertices,
/// a collection the coordinates of its members in turn.
pub open spec fn coords_of(g: GeomModel) -> Seq<Coord>
    decreases g,
{
    match g {
        GeomModel::Point(c) => seq![c],
        GeomModel::Line(a, b) => seq![a, b],
        GeomModel::LineString(ls) => ls,
        GeomModel::Polygon(p) => polygon_coords(p),
        GeomModel::MultiPoint(ps) => ps,
        GeomModel::MultiLineString(ls) => flatten(ls),
        GeomModel::MultiPolygon(ps) => polygons_coords(ps),
        GeomModel::GeometryCollection(items) => coords_of_all(items),
        GeomModel::Rect(a, b) => seq![a, b],
        GeomModel::Triangle(a, b, c) => seq![a, b, c],
    }
}

/// The coordinates of a sequence of geometries, one after the other.
pub open spec fn coords_of_all(items: Seq<GeomModel>) -> Seq<Coord>
    decreases items,
{
    if items.len() == 0 {
        Seq::empty()
    } else {
        coords_of_all(items.subrange(0, items.len() - 1)) + coords_of(items[items.len() - 1])
    }
}

/// The four corners of a rectangle with lower corner `lo` and upper corner
/// `hi`, counter-clockwise from the (max x, min y) corner.
pub open spec fn rect_corners(lo: Coord, hi: Coord) -> Seq<Coord> {
    seq![
        Coord { x: hi.x, y: lo.y },
        Coord { x: hi.x, y: hi.y },
        Coord { x: lo.x, y: hi.y },
        Coord { x: lo.x, y: lo.y },
    ]
}

/// Every vertex of a geometry, as `ST_Points` lists them: as
/// [`coords_of`], except that a `Rect` gives its four corners.
pub open spec fn vertices_of(g: GeomModel) -> Seq<Coord>
    decreases g,
{
    match g {
        GeomModel::Rect(a, b) => rect_corners(a, b),
        GeomModel::GeometryCollection(items) => vertices_of_all(items),
        _ => coords_of(g),
    }
}

/// The vertices of a sequence of geometries, one after the other.
pub open spec fn vertices_of_all(items: Seq<GeomModel>) -> Seq<Coord>
    decreases items,
{
    if items.len() == 0 {
        Seq::empty()
    } else {
        vertices_of_all(items.subrange(0, items.len() - 1)) + vertices_of(items[items.len() - 1])
    }
}

/// The coordinates that a collection pass gathers: every vertex when
/// `corners` (rectangles by their four corners), the stored coordinates otherwise.
pub open spec fn listing(g: GeomModel, corners: bool) -> Seq<Coord> {
    if corners { vertices_of(g) } else { coords_of(g) }
}

/// [`listing`] of a sequence of geometries.
pub open spec fn listing_all(items: Seq<GeomModel>, corners: bool) -> Seq<Coord> {
    if corners { vertices_of_all(items) } else { coords_of_all(items) }
}

fn extend_coords(out: &mut Vec<Coord>, src: &Vec<Coord>)
    ensures
        final(out)@ == old(out)@ + src@,
{
    let mut i: usize = 0;
    while i < src.len()
        invariant
            i <= src.len(),
            out@ == old(out)@ + src@.subrange(0, i as int),
        decreases src.len() - i,
    {
        out.push(src[i]);
        i = i + 1;
        assert(out@ =~= old(out)@ + src@.subrange(0, i as int));
    }
    assert(src@.subrange(0, src.len() as int) =~= src@);
}

fn extend_rings(out: &mut Vec<Coord>, rs: &Vec<Vec<Coord>>)
    ensures
        final(out)@ == old(out)@ + flatten(rings_view(rs@)),
{
    let ghost rv = rings_view(rs@);
    let mut i: usize = 0;
    while i < rs.len()
        invariant
            i <= rs.len(),
            rv == rings_view(rs@),
            out@ == old(out)@ + flatten(rv.subrange(0, i as int)),
        decreases rs.len() - i,
    {
        extend_coords(out, &rs[i]);
        proof {
            assert(rv.subrange(0, i + 1).drop_last() =~= rv.subrange(0, i as int));
            assert(out@ =~= old(out)@ + flatten(rv.subrange(0, i + 1)));
        }
        i = i + 1;
    }
    assert(rv.subrange(0, rs.len() as int) =~= rv);
}

fn extend_polygon(out: &mut Vec<Coord>, p: &Polygon)
    ensures
        final(out)@ == old(out)@ + polygon_coords(p@),
{
    extend_coords(out, &p.exterior);
    extend_rings(out, &p.interiors);
    assert(out@ =~= old(out)@ + polygon_coords(p@));
}

fn extend_polygons(out: &mut Vec<Coord>, ps: &Vec<Polygon>)
    ensures
        final(out)@ == old(out)@ + polygons_coords(polygons_view(ps@)),
{
    let ghost pv = polygons_view(ps@);
    let mut i: usize = 0;
    while i < ps.len()
        invariant
            i <= ps.len(),
            pv == polygons_view(ps@),
            out@ == old(out)@ + polygons_coords(pv.subrange(0, i as int)),
        decreases ps.len() - i,
    {
        extend_polygon(out, &ps[i]);
        proof {
            assert(pv.subrange(0, i + 1).drop_last() =~= pv.subrange(0, i as int));
            assert(out@ =~= old(out)@ + polygons_coords(pv.subrange(0, i + 1)));
        }
        i = i + 1;
    }
    assert(pv.subrange(0, ps.len() as int) =~= pv);
}

#[verifier::loop_isolation(false)]
fn collect_coords(g: &Geom, out: &mut Vec<Coord>, corners: bool)
    ensures
        final(out)@ == old(out)@ + listing(g@, corners),
    decreases g,
{
    match g {
        Geom::Point(c) => {
            out.push(*c);
        },
        Geom::Line(a, b) => {
            out.push(*a);
            out.push(*b);
        },
        Geom::LineString(ls) => extend_coords(out, ls),
        Geom::Polygon(p) => extend_polygon(out, p),
        Geom::MultiPoint(ps) => extend_coords(out, ps),
        Geom::MultiLineString(ls) => extend_rings(out, ls),
        Geom::MultiPolygon(ps) => extend_polygons(out, ps),
        Geom::GeometryCollection(items) => {
            let ghost iv = geoms_view(items@);
            let ghost start = out@;
            proof {
                lemma_geoms_view(items@);
            }
            let mut i: usize = 0;
            while i < items.len()
                invariant
                    i <= items.len(),
                    out@ == start + listing_all(iv.subrange(0, i as int), corners),
                decreases items.len() - i,
            {
                proof {
                    assert(decreases_to!(*g => (*g)->GeometryCollection_0));
                    assert(decreases_to!(*items => items@));
                    assert(decreases_to!(items@ => items@[i as int]));
                }
                collect_coords(&items[i], out, corners);
                proof {
                    let sub = iv.subrange(0, i + 1);
                    assert(sub.subrange(0, sub.len() - 1) =~= iv.subrange(0, i as int));
                    assert(sub[sub.len() - 1] == items@[i as int]@);
                    assert(out@ =~= start + listing_all(sub, corners));
                }
                i = i + 1;
            }
            assert(iv.subrange(0, items.len() as int) =~= iv);
        },
        Geom::Rect(a, b) => {
            if corners {
                out.push(Coord { x: b.x, y: a.y });
                out.push(Coord { x: b.x, y: b.y });
                out.push(Coord { x: a.x, y: b.y });
                out.push(Coord { x: a.x, y: a.y });
            } else {
                out.push(*a);
                out.push(*b);
            }
        },
        Geom::Triangle(a, b, c) => {
            out.push(*a);
            out.push(*b);
            out.push(*c);
        },
    }
    assert(out@ =~= old(out)@ + listing(g@, corners));
}

/// All coordinates of a geometry, flattened.
pub fn all_coords(g: &Geom) -> (r: Vec<Coord>)
    ensures
        r@ == coords_of(g@),
{
    let mut out: Vec<Coord> = Vec::new();
    collect_coords(g, &mut out, false);
    assert(out@ =~= coords_of(g@));
    out
}

/// `ST_Points(geom)` — every vertex as a MultiPoint, in storage order: ring
/// by ring, member by member, with repeated and ring-closing vertices kept; a
/// `Rect` gives its four corners.
pub fn points(g: &Geom) -> (r: Option<Geom>)
    ensures
        option_view(r) == Some(GeomModel::MultiPoint(vertices_of(g@))),
{
    let mut out: Vec<Coord> = Vec::new();
    collect_coords(g, &mut out, true);
    assert(out@ =~= vertices_of(g@));
    Some(Geom::MultiPoint(out))
}

// ----- boundary -------------------------------------------------------------------

/// The rings of a polygon: exterior first, then the interiors.
pub open spec fn polygon_rings(p: PolygonModel) -> Seq<Seq<Coord>> {
    seq![p.exterior] + p.interiors
}

/// The rings of a sequence of polygons, polygon after polygon.
pub open spec fn polygons_rings(ps: Seq<PolygonModel>) -> Seq<Seq<Coord>>
    decreases ps.len(),
{
    if ps.len() == 0 {
        Seq::empty()
    } else {
        polygons_rings(ps.drop_last()) + polygon_rings(ps.last())
    }
}

/// The empty geometry collection.
pub open spec fn empty_collection() -> GeomModel {
    GeomModel::GeometryCollection(Seq::empty())
}

/// `ST_Boundary`: the rings of (multi)polygons as a multi line string; the two
/// end points of an open line string of at least two vertices; an empty
/// collection for a closed or shorter line string and for any other geometry.
pub open spec fn boundary_spec(g: GeomModel) -> GeomModel {
    match g {
        GeomModel::Polygon(p) => GeomModel::MultiLineString(polygon_rings(p)),
        GeomModel::MultiPolygon(ps) => GeomModel::MultiLineString(polygons_rings(ps)),
        GeomModel::LineString(ls) => if ls.len() >= 2 && !coord_eq_spec(ls[0], ls[ls.len() - 1]) {
            GeomModel::MultiPoint(seq![ls[0], ls[ls.len() - 1]])
        } else {
            empty_collection()
        },
        _ => empty_collection(),
    }
}

fn push_polygon_rings(out: &mut Vec<Vec<Coord>>, p: &Polygon)
    ensures
        rings_view(final(out)@) == rings_view(old(out)@) + polygon_rings(p@),
{
    out.push(clone_coords(&p.exterior));
    let mut i: usize = 0;
    while i < p.interiors.len()
        invariant
            i <= p.interiors.len(),
            rings_view(out@) =~= rings_view(old(out)@) + seq![p.exterior@] + rings_view(
                p.interiors@,
            ).subrange(0, i as int),
        decreases p.interiors.len() - i,
    {
        let ghost prev = out@;
        let r = clone_coords(&p.interiors[i]);
        out.push(r);
        proof {
            assert(rings_view(out@) =~= rings_view(prev).push(r@));
            assert(rings_view(p.interiors@).subrange(0, i + 1) =~= rings_view(p.interiors@).subrange(0, i as int).push(p.interiors@[i as int]@));
        }
        i = i + 1;
    }
    assert(rings_view(p.interiors@).subrange(0, p.interiors.len() as int) =~= rings_view(p.interiors@));
    assert(rings_view(out@) =~= rings_view(old(out)@) + polygon_rings(p@));
}

/// `ST_Boundary(geom)` — topological boundary: polygon → MultiLineString of rings,
/// LineString → MultiPoint of endpoints (if open) or empty (if closed).
pub fn boundary(g: &Geom) -> (r: Option<Geom>)
    ensures
        option_view(r) == Some(boundary_spec(g@)),
{
    let empty: Vec<Geom> = Vec::new();
    proof {
        assert(geoms_view(empty@) =~= Seq::<GeomModel>::empty());
    }
    match g {
        Geom::Polygon(p) => {
            let mut out: Vec<Vec<Coord>> = Vec::new();
            push_polygon_rings(&mut out, p);
            assert(rings_view(out@) =~= polygon_rings(p@));
            Some(Geom::MultiLineString(out))
        },
        Geom::MultiPolygon(ps) => {
            let ghost pv = polygons_view(ps@);
            let mut out: Vec<Vec<Coord>> = Vec::new();
            let mut i: usize = 0;
            while i < ps.len()
                invariant
                    i <= ps.len(),
                    pv == polygons_view(ps@),
                    rings_view(out@) == polygons_rings(pv.subrange(0, i as int)),
                decreases ps.len() - i,
            {
                push_polygon_rings(&mut out, &ps[i]);
                proof {
                    assert(pv.subrange(0, i + 1).drop_last() =~= pv.subrange(0, i as int));
                }
                i = i + 1;
            }
            assert(pv.subrange(0, ps.len() as int) =~= pv);
            Some(Geom::MultiLineString(out))
        },
        Geom::LineString(ls) => {
            if ls.len() >= 2 && !crate::coord::coord_eq(&ls[0], &ls[ls.len() - 1]) {
                let mut pts: Vec<Coord> = Vec::new();
                pts.push(ls[0]);
                pts.push(ls[ls.len() - 1]);
                assert(pts@ =~= seq![ls@[0], ls@[ls@.len() - 1]]);
                Some(Geom::MultiPoint(pts))
            } else {
                Some(Geom::GeometryCollection(empty))
            }
        },
        _ => Some(Geom::GeometryCollection(empty)),
    }
}

// ----- construction ------------------------------------------------------------------

/// `ST_MakeLine(a, b)`: the two-vertex line string from point `a` to point `b`.
pub open spec fn make_line_spec(a: GeomModel, b: GeomModel) -> Option<GeomModel> {
    match (point_coord_spec(a), point_coord_spec(b)) {
        (Some(pa), Some(pb)) => Some(GeomModel::LineString(seq![pa, pb])),
        _ => None,
    }
}

/// `ST_MakeLine(a, b)` — line string through the point coordinates of `a`
/// then `b`; nothing unless both are points.
pub fn make_line(a: &Geom, b: &Geom) -> (r: Option<Geom>)
    ensures
        option_view(r) == make_line_spec(a@, b@),
{
    let pa = point_coord(a)?;
    let pb = point_coord(b)?;
    let mut v: Vec<Coord> = Vec::new();
    v.push(pa);
    v.push(pb);
    assert(v@ =~= seq![pa, pb]);
    Some(Geom::LineString(v))
}

// ----- polygonal part ------------------------------------------------------------------

/// The polygons that a single member of a collection contributes.
pub open spec fn member_polygons(g: GeomModel) -> Seq<PolygonModel> {
    match g {
        GeomModel::Polygon(p) => seq![p],
        GeomModel::MultiPolygon(ps) => ps,
        _ => Seq::empty(),
    }
}

/// The polygons of a sequence of collection members, member after member.
pub open spec fn members_polygons(items: Seq<GeomModel>) -> Seq<PolygonModel>
    decreases items.len(),
{
    if items.len() == 0 {
        Seq::empty()
    } else {
        members_polygons(items.drop_last()) + member_polygons(items.last())
    }
}

/// The areal part of a geometry: a polygon itself, the polygons of a
/// multipolygon, the polygons and multipolygon members of a collection (one
/// level deep), nothing for any other geometry.
pub open spec fn multi_polygon_spec(g: GeomModel) -> Seq<PolygonModel> {
    match g {
        GeomModel::Polygon(p) => seq![p],
        GeomModel::MultiPolygon(ps) => ps,
        GeomModel::GeometryCollection(items) => members_polygons(items),
        _ => Seq::empty(),
    }
}

fn push_polygons(out: &mut Vec<Polygon>, ps: &Vec<Polygon>)
    ensures
        polygons_view(final(out)@) == polygons_view(old(out)@) + polygons_view(ps@),
{
    let mut i: usize = 0;
    while i < ps.len()
        invariant
            i <= ps.len(),
            polygons_view(out@) =~= polygons_view(old(out)@) + polygons_view(ps@).subrange(0, i as int),
        decreases ps.len() - i,
    {
        let ghost prev = out@;
        let q = clone_polygon(&ps[i]);
        out.push(q);
        proof {
            assert(polygons_view(out@) =~= polygons_view(prev).push(q@));
            assert(polygons_view(ps@).subrange(0, i + 1) =~= polygons_view(ps@).subrange(0, i as int).push(ps@[i as int]@));
        }
        i = i + 1;
    }
    assert(polygons_view(ps@).subrange(0, ps.len() as int) =~= polygons_view(ps@));
}

/// Reduce a geometry to its areal (polygonal) part, as the polygons of a
/// `MultiPolygon`. Non-areal geometries contribute no polygon.
pub fn to_multi_polygon(g: &Geom) -> (r: Vec<Polygon>)
    ensures
        polygons_view(r@) == multi_polygon_spec(g@),
{
    let mut out: Vec<Polygon> = Vec::new();
    match g {
        Geom::Polygon(p) => {
            out.push(clone_polygon(p));
            assert(polygons_view(out@) =~= seq![p@]);
        },
        Geom::MultiPolygon(ps) => {
            push_polygons(&mut out, ps);
            assert(polygons_view(out@) =~= polygons_view(ps@));
        },
        Geom::GeometryCollection(items) => {
            let ghost iv = geoms_view(items@);
            proof {
                lemma_geoms_view(items@);
            }
            let mut i: usize = 0;
            while i < items.len()
                invariant
                    i <= items.len(),
                    iv == geoms_view(items@),
                    iv.len() == items@.len(),
                    forall|k: int| 0 <= k < items@.len() ==> #[trigger] iv[k] == items@[k]@,
                    polygons_view(out@) == members_polygons(iv.subrange(0, i as int)),
                decreases items.len() - i,
            {
                let ghost before = polygons_view(out@);
                match &items[i] {
                    Geom::Polygon(p) => {
                        let q = clone_polygon(p);
                        out.push(q);
                        assert(polygons_view(out@) =~= before + seq![p@]);
                    },
                    Geom::MultiPolygon(ps) => {
                        push_polygons(&mut out, ps);
                    },
                    _ => {
                        assert(polygons_view(out@) =~= before + Seq::<PolygonModel>::empty());
                    },
                }
                proof {
                    assert(iv.subrange(0, i + 1).drop_last() =~= iv.subrange(0, i as int));
                    assert(iv[i as int] == items@[i as int]@);
                }
                i = i + 1;
            }
            assert(iv.subrange(0, items.len() as int) =~= iv);
        },
        _ => {
            assert(polygons_view(out@) =~= Seq::<PolygonModel>::empty());
        },
    }
    out
}

} // verus!
