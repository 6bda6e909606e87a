//! `ST_DelaunayTriangles` and `ST_VoronoiLines`: the vertices of a geometry
//! are triangulated and the result is assembled into triangles, or into the
//! dual edges between circumcenters. The triangulation itself (point indices
//! and half-edge twins) and the circumcenters are computed in floating point
//! by functions that the caller hands in; everything around them is here.

use vstd::prelude::*;
use crate::coord::Coord;
use crate::geom::{Geom, GeomModel, geom_view, geoms_view};
use crate::editing::{all_coords, coords_of};

verus! {

/// Every index of the first `3 * (t.len() / 3)` entries of `t` (the complete
/// triples) addresses a point of `pts`.
pub open spec fn triangle_indices_valid(pts: Seq<Coord>, t: Seq<usize>) -> bool {
    forall|k: int| 0 <= k < 3 * (t.len() / 3) ==> #[trigger] t[k] < pts.len()
}

/// The triangle of the `k`-th index triple.
pub open spec fn triangle_of(pts: Seq<Coord>, t: Seq<usize>, k: int) -> GeomModel {
    GeomModel::Triangle(pts[t[3 * k] as int], pts[t[3 * k + 1] as int], pts[t[3 * k + 2] as int])
}

/// The collection of the triangles of every complete index triple, in order.
pub open spec fn delaunay_spec(pts: Seq<Coord>, t: Seq<usize>) -> GeomModel {
    GeomModel::GeometryCollection(Seq::new((t.len() / 3) as nat, |k: int| triangle_of(pts, t, k)))
}

/// `ST_DelaunayTriangles` assembly: one `Triangle` per index triple of the
/// triangulation `t` of the points `pts`, gathered in a collection.
pub fn delaunay_triangles_from(pts: &Vec<Coord>, t: &Vec<usize>) -> (r: Geom)
    requires
        triangle_indices_valid(pts@, t@),
    ensures
        r@ == delaunay_spec(pts@, t@),
{
    let mut out: Vec<Geom> = Vec::new();
    let mut i: usize = 0;
    while t.len() - i > 2
        invariant
            i % 3 == 0,
            i <= t.len(),
            3 * out@.len() == i,
            triangle_indices_valid(pts@, t@),
            geoms_view(out@) =~= Seq::new(out@.len(), |k: int| triangle_of(pts@, t@, k)),
        decreases t.len() - i,
    {
        assert(i + 2 < 3 * (t.len() / 3)) by (nonlinear_arith)
            requires
                i % 3 == 0,
                i + 2 < t.len(),
        ;
        let ghost k = out@.len() as int;
        let a = pts[t[i]];
        let b = pts[t[i + 1]];
        let c = pts[t[i + 2]];
        let ghost prev = out@;
        out.push(Geom::Triangle(a, b, c));
        assert(out@.subrange(0, out@.len() - 1) =~= prev);
        assert(3 * k == i);
        assert(geoms_view(out@) == geoms_view(out@.subrange(0, out@.len() - 1)).push(geom_view(out@[out@.len() - 1])));
        assert(geom_view(out@[out@.len() - 1]) == triangle_of(pts@, t@, k));
        assert(geoms_view(out@) == geoms_view(prev).push(triangle_of(pts@, t@, k)));
        i = i + 3;
    }
    assert(out@.len() == t.len() / 3) by (nonlinear_arith)
        requires
            i % 3 == 0,
            i <= t.len(),
            i + 2 >= t.len(),
            3 * out@.len() == i,
    ;
    Geom::GeometryCollection(out)
}

/// The half-edges that carry a Voronoi edge: those with a twin, each pair
/// counted once from its lower-numbered half. A hull half-edge has no twin
/// and holds `usize::MAX` (the triangulator's `EMPTY`).
pub open spec fn is_dual_edge(h: Seq<usize>, e: int) -> bool {
    h[e] != usize::MAX && e < h[e]
}

/// Every dual edge joins two triangles that have a circumcenter in `ccs`.
pub open spec fn dual_edges_valid(ccs: Seq<Coord>, h: Seq<usize>) -> bool {
    forall|e: int| 0 <= e < h.len() && #[trigger] is_dual_edge(h, e) ==> e / 3 < ccs.len() && h[e] / 3 < ccs.len()
}

/// The Voronoi edges of the half-edges `0 .. n`, in half-edge order: for each
/// dual half-edge `e`, the segment from the circumcenter of its triangle to
/// the circumcenter of its twin's triangle.
pub open spec fn voronoi_edges(ccs: Seq<Coord>, h: Seq<usize>, n: int) -> Seq<GeomModel>
    decreases n,
{
    if n <= 0 {
        Seq::empty()
    } else if is_dual_edge(h, n - 1) {
        voronoi_edges(ccs, h, n - 1).push(
            GeomModel::LineString(seq![ccs[(n - 1) / 3], ccs[(h[n - 1] / 3) as int]]),
        )
    } else {
        voronoi_edges(ccs, h, n - 1)
    }
}

/// `ST_VoronoiLines` assembly: the interior Voronoi edges of a triangulation,
/// given its half-edge twins `h` and the circumcenter of each triangle.
/// Hull edges (no twin) are omitted. Returns a collection of two-point line strings.
pub fn voronoi_lines_from(ccs: &Vec<Coord>, h: &Vec<usize>) -> (r: Geom)
    requires
        dual_edges_valid(ccs@, h@),
    ensures
        r@ == GeomModel::GeometryCollection(voronoi_edges(ccs@, h@, h@.len() as int)),
{
    let mut lines: Vec<Geom> = Vec::new();
    let mut e: usize = 0;
    while e < h.len()
        invariant
            e <= h.len(),
            dual_edges_valid(ccs@, h@),
            geoms_view(lines@) == voronoi_edges(ccs@, h@, e as int),
        decreases h.len() - e,
    {
        let opp = h[e];
        if opp != usize::MAX && e < opp {
            assert(is_dual_edge(h@, e as int));
            let t1 = e / 3;
            let t2 = opp / 3;
            let mut seg: Vec<Coord> = Vec::new();
            seg.push(ccs[t1]);
            seg.push(ccs[t2]);
            assert(seg@ =~= seq![ccs@[t1 as int], ccs@[t2 as int]]);
            let ghost prev = lines@;
            lines.push(Geom::LineString(seg));
            assert(lines@.subrange(0, lines@.len() - 1) =~= prev);
            assert(geoms_view(lines@) == geoms_view(lines@.subrange(0, lines@.len() - 1)).push(geom_view(lines@[lines@.len() - 1])));
            assert(geoms_view(lines@) == geoms_view(prev).push(
                GeomModel::LineString(seq![ccs@[e as int / 3], ccs@[(h@[e as int] / 3) as int]]),
            ));
        } else {
            assert(!is_dual_edge(h@, e as int));
        }
        e = e + 1;
    }
    Geom::GeometryCollection(lines)
}


/// A Delaunay triangulation of a point list, as a triangulator reports it:
/// `triangles` holds three point indices per triangle; `halfedges[e]` is the
/// twin of half-edge `e` (the edge from point `triangles[e]` to the next
/// point of its triangle) in the adjacent triangle, or `usize::MAX` for a
/// hull edge.
pub struct Triangulation {
    pub triangles: Vec<usize>,
    pub halfedges: Vec<usize>,
}

/// The shape that a triangulator guarantees for a list of `n` points:
/// complete index triples, one half-edge per triangle corner, every point
/// index below `n`, and every twin a half-edge of the same triangulation.
pub open spec fn triangulation_fits(n: nat, t: Triangulation) -> bool {
    &&& t.triangles@.len() % 3 == 0
    &&& t.halfedges@.len() == t.triangles@.len()
    &&& forall|k: int| 0 <= k < t.triangles@.len() ==> #[trigger] t.triangles@[k] < n
    &&& forall|e: int| 0 <= e < t.halfedges@.len() ==> #[trigger] t.halfedges@[e] == usize::MAX || t.halfedges@[e] < t.halfedges@.len()
}

/// `triangulate` can be called on every point list and always returns a
/// triangulation of the shape above.
pub open spec fn is_triangulator<T: Fn(&Vec<Coord>) -> Triangulation>(triangulate: T) -> bool {
    &&& forall|p: &Vec<Coord>| call_requires(triangulate, (p,))
    &&& forall|p: &Vec<Coord>, t: Triangulation| call_ensures(triangulate, (p,), t) ==> triangulation_fits(p@.len(), t)
}

/// `ST_DelaunayTriangles(geom)`: the Delaunay triangles of all vertices of the
/// geometry, as a collection of `Triangle`s; `None` for fewer than three vertices.
pub fn delaunay_triangles<T: Fn(&Vec<Coord>) -> Triangulation>(g: &Geom, triangulate: T) -> (r: Option<Geom>)
    requires
        is_triangulator(triangulate),
    ensures
        r is None <==> coords_of(g@).len() < 3,
        r matches Some(x) ==> exists|p: Vec<Coord>, t: Triangulation|
            #![trigger call_ensures(triangulate, (&p,), t)]
            p@ == coords_of(g@) && call_ensures(triangulate, (&p,), t) && x@ == delaunay_spec(p@, t.triangles@),
{
    let pts = all_coords(g);
    if pts.len() < 3 {
        return None;
    }
    let t = triangulate(&pts);
    assert(triangulation_fits(pts@.len(), t));
    assert forall|k: int| 0 <= k < 3 * (t.triangles@.len() / 3) implies #[trigger] t.triangles@[k] < pts@.len() by {
        assert(3 * (t.triangles@.len() / 3) <= t.triangles@.len()) by (nonlinear_arith);
    }
    let r = delaunay_triangles_from(&pts, &t.triangles);
    assert(call_ensures(triangulate, (&pts,), t));
    Some(r)
}

/// The circumcenters that `circumcenter` gives for every triangle of `t` over `p`.
pub open spec fn circumcenters_of<C: Fn(Coord, Coord, Coord) -> Coord>(
    circumcenter: C,
    p: Seq<Coord>,
    t: Seq<usize>,
    ccs: Seq<Coord>,
) -> bool {
    &&& ccs.len() == t.len() / 3
    &&& forall|k: int| 0 <= k < ccs.len() ==> call_ensures(
        circumcenter,
        (p[t[3 * k] as int], p[t[3 * k + 1] as int], p[t[3 * k + 2] as int]),
        #[trigger] ccs[k],
    )
}

/// `ST_VoronoiLines(geom)`: the interior Voronoi edges of all vertices of the
/// geometry, derived as the dual of their Delaunay triangulation (the
/// circumcenters of each two triangles that share an edge, joined); `None`
/// for fewer than three vertices.
pub fn voronoi_lines<T, C>(g: &Geom, triangulate: T, circumcenter: C) -> (r: Option<Geom>) where
    T: Fn(&Vec<Coord>) -> Triangulation,
    C: Fn(Coord, Coord, Coord) -> Coord,

    requires
        is_triangulator(triangulate),
        forall|a: Coord, b: Coord, c: Coord| call_requires(circumcenter, (a, b, c)),
    ensures
        r is None <==> coords_of(g@).len() < 3,
        r matches Some(x) ==> exists|p: Vec<Coord>, t: Triangulation, ccs: Seq<Coord>|
            #![trigger call_ensures(triangulate, (&p,), t), circumcenters_of(circumcenter, p@, t.triangles@, ccs)]
            p@ == coords_of(g@) && call_ensures(triangulate, (&p,), t)
                && circumcenters_of(circumcenter, p@, t.triangles@, ccs)
                && x@ == GeomModel::GeometryCollection(voronoi_edges(ccs, t.halfedges@, t.halfedges@.len() as int)),
{
    let pts = all_coords(g);
    if pts.len() < 3 {
        return None;
    }
    let t = triangulate(&pts);
    assert(triangulation_fits(pts@.len(), t));
    let tl = t.triangles.len();
    let mut ccs: Vec<Coord> = Vec::new();
    let mut k: usize = 0;
    while k < tl / 3
        invariant
            k <= tl / 3,
            tl == t.triangles@.len(),
            triangulation_fits(pts@.len(), t),
            forall|a: Coord, b: Coord, c: Coord| call_requires(circumcenter, (a, b, c)),
            ccs@.len() == k,
            forall|j: int| 0 <= j < k ==> call_ensures(
                circumcenter,
                (pts@[t.triangles@[3 * j] as int], pts@[t.triangles@[3 * j + 1] as int], pts@[t.triangles@[3 * j + 2] as int]),
                #[trigger] ccs@[j],
            ),
        decreases tl / 3 - k,
    {
        assert(3 * k + 2 < tl) by (nonlinear_arith)
            requires
                k < tl / 3,
        ;
        let i = 3 * k;
        let c = circumcenter(pts[t.triangles[i]], pts[t.triangles[i + 1]], pts[t.triangles[i + 2]]);
        ccs.push(c);
        k = k + 1;
    }
    assert(circumcenters_of(circumcenter, pts@, t.triangles@, ccs@));
    let hl = t.halfedges.len();
    assert forall|e: int| 0 <= e < hl && #[trigger] is_dual_edge(t.halfedges@, e) implies e / 3 < ccs@.len()
        && t.halfedges@[e] / 3 < ccs@.len() by {
        let o = t.halfedges@[e] as int;
        assert(o < hl);
        assert(e / 3 < tl / 3 && o / 3 < tl / 3) by (nonlinear_arith)
            requires
                0 <= e < tl,
                0 <= o < tl,
                tl % 3 == 0,
        ;
    }
    let r = voronoi_lines_from(&ccs, &t.halfedges);
    assert(call_ensures(triangulate, (&pts,), t));
    Some(r)
}

} // verus!
