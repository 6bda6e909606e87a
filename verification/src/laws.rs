//! Properties that relate the structural functions to one another.

use vstd::prelude::*;
use crate::coord::{Coord, coord_eq_spec};
use crate::geom::{GeomModel, PolygonModel};
use crate::accessors::{
    dimension_of, end_point_spec, exterior_ring_spec, geometry_count, geometry_n_spec, i32_or_zero,
    interior_ring_count, interior_ring_n_spec, is_closed_spec, is_ring_spec, line_closed,
    max_dimension, point_count, point_n_spec, polygon_points, start_point_spec, sum_lens,
    sum_point_counts, sum_polygon_points,
};
use crate::repeated::{dedup_coords, dedup_polygon, dedup_rings, remove_repeated_spec};
use crate::editing::{
    boundary_spec, close_ring, empty_collection, flatten, vertices_of, vertices_of_all,
    polygon_coords, polygons_coords, reverse_polygon, reverse_spec, reversed_rings,
};

verus! {

/// A ring that polygon construction leaves as it is: empty, or with equal
/// first and last vertices.
pub open spec fn ring_is_closed(r: Seq<Coord>) -> bool {
    r.len() == 0 || line_closed(r)
}

/// Every ring of the polygon is closed.
pub open spec fn polygon_rings_closed(p: PolygonModel) -> bool {
    ring_is_closed(p.exterior) && forall|i: int| 0 <= i < p.interiors.len() ==> #[trigger] ring_is_closed(p.interiors[i])
}

proof fn lemma_reverse_closed_ring(r: Seq<Coord>)
    requires
        ring_is_closed(r),
    ensures
        close_ring(r.reverse()) == r.reverse(),
        close_ring(r.reverse().reverse()) == r,
{
    assert(r.reverse().reverse() =~= r);
    if r.len() > 0 {
        assert(r.reverse()[0] == r[r.len() - 1]);
        assert(r.reverse()[r.len() - 1] == r[0]);
    }
}

proof fn lemma_reverse_polygon_involution(p: PolygonModel)
    requires
        polygon_rings_closed(p),
    ensures
        reverse_polygon(reverse_polygon(p)) == p,
{
    lemma_reverse_closed_ring(p.exterior);
    let q = reverse_polygon(p);
    assert(q.exterior == p.exterior.reverse());
    assert forall|i: int| 0 <= i < p.interiors.len() implies #[trigger] q.interiors[i] == p.interiors[i].reverse() by {
        assert(ring_is_closed(p.interiors[i]));
        lemma_reverse_closed_ring(p.interiors[i]);
    }
    let qq = reverse_polygon(q);
    assert forall|i: int| 0 <= i < p.interiors.len() implies #[trigger] qq.interiors[i] == p.interiors[i] by {
        assert(ring_is_closed(p.interiors[i]));
        lemma_reverse_closed_ring(p.interiors[i]);
        assert(q.interiors[i] == p.interiors[i].reverse());
    }
    assert(qq.interiors =~= p.interiors);
    assert(qq.exterior == p.exterior);
}

/// The polygons of the geometry (a polygon, or the members of a
/// multipolygon) have closed rings.
pub open spec fn polygons_closed(g: GeomModel) -> bool {
    match g {
        GeomModel::Polygon(p) => polygon_rings_closed(p),
        GeomModel::MultiPolygon(ps) => forall|i: int| 0 <= i < ps.len() ==> #[trigger] polygon_rings_closed(ps[i]),
        _ => true,
    }
}

/// Reversing twice gives the geometry back: `ST_Reverse(ST_Reverse(g)) = g`
/// for every geometry whose polygon rings are closed (every polygon that
/// polygon construction produces).
pub proof fn law_reverse_involution(g: GeomModel)
    requires
        polygons_closed(g),
    ensures
        reverse_spec(reverse_spec(g)) == g,
{
    match g {
        GeomModel::LineString(ls) => {
            assert(ls.reverse().reverse() =~= ls);
        },
        GeomModel::MultiLineString(ls) => {
            assert forall|i: int| 0 <= i < ls.len() implies reversed_rings(reversed_rings(ls))[i] == ls[i] by {
                assert(ls[i].reverse().reverse() =~= ls[i]);
            }
            assert(reversed_rings(reversed_rings(ls)) =~= ls);
        },
        GeomModel::Polygon(p) => {
            lemma_reverse_polygon_involution(p);
        },
        GeomModel::MultiPolygon(ps) => {
            let qs = ps.map_values(|p: PolygonModel| reverse_polygon(p));
            assert forall|i: int| 0 <= i < ps.len() implies qs.map_values(|p: PolygonModel| reverse_polygon(p))[i] == ps[i] by {
                assert(polygon_rings_closed(ps[i]));
                lemma_reverse_polygon_involution(ps[i]);
            }
            assert(qs.map_values(|p: PolygonModel| reverse_polygon(p)) =~= ps);
        },
        _ => {},
    }
}

/// `ST_IsRing` implies `ST_IsClosed`.
pub proof fn law_ring_is_closed(g: GeomModel)
    ensures
        is_ring_spec(g) ==> is_closed_spec(g),
{
}

/// The boundary of a line string is empty exactly when the line string is
/// closed or has fewer than two vertices.
pub proof fn law_line_boundary_empty_iff_closed(ls: Seq<Coord>)
    ensures
        (boundary_spec(GeomModel::LineString(ls)) == empty_collection()) <==> (is_closed_spec(
            GeomModel::LineString(ls),
        ) || ls.len() < 2),
{
}

/// No `Rect` and no `Triangle` anywhere in the geometry (their point count
/// includes a ring-closing vertex that `ST_Points` does not list).
pub open spec fn stores_all_vertices(g: GeomModel) -> bool
    decreases g,
{
    match g {
        GeomModel::Rect(_, _) | GeomModel::Triangle(_, _, _) => false,
        GeomModel::GeometryCollection(items) => all_store_all_vertices(items),
        _ => true,
    }
}

/// Every member stores all its vertices.
pub open spec fn all_store_all_vertices(items: Seq<GeomModel>) -> bool
    decreases items,
{
    if items.len() == 0 {
        true
    } else {
        all_store_all_vertices(items.subrange(0, items.len() - 1)) && stores_all_vertices(items[items.len() - 1])
    }
}

proof fn lemma_sum_lens_flatten(rs: Seq<Seq<Coord>>)
    ensures
        sum_lens(rs) == flatten(rs).len(),
    decreases rs.len(),
{
    if rs.len() > 0 {
        lemma_sum_lens_flatten(rs.drop_last());
    }
}

proof fn lemma_polygons_points(ps: Seq<PolygonModel>)
    ensures
        sum_polygon_points(ps) == polygons_coords(ps).len(),
    decreases ps.len(),
{
    if ps.len() > 0 {
        lemma_polygons_points(ps.drop_last());
        lemma_sum_lens_flatten(ps.last().interiors);
    }
}

proof fn lemma_point_count_coords(g: GeomModel)
    requires
        stores_all_vertices(g),
        vertices_of(g).len() <= i32::MAX,
    ensures
        point_count(g) == vertices_of(g).len(),
    decreases g,
{
    match g {
        GeomModel::MultiLineString(ls) => lemma_sum_lens_flatten(ls),
        GeomModel::Polygon(p) => lemma_sum_lens_flatten(p.interiors),
        GeomModel::MultiPolygon(ps) => lemma_polygons_points(ps),
        GeomModel::GeometryCollection(items) => lemma_point_counts_coords(items),
        _ => {},
    }
}

proof fn lemma_point_counts_coords(items: Seq<GeomModel>)
    requires
        all_store_all_vertices(items),
        vertices_of_all(items).len() <= i32::MAX,
    ensures
        sum_point_counts(items) == vertices_of_all(items).len(),
    decreases items,
{
    if items.len() > 0 {
        let init = items.subrange(0, items.len() - 1);
        let last = items[items.len() - 1];
        lemma_point_counts_coords(init);
        lemma_point_count_coords(last);
        assert(i32_or_zero(point_count(last)) == point_count(last));
    }
}

/// `ST_NumPoints` counts exactly the vertices that `ST_Points` lists:
/// the vertex count of `g` equals the number of coordinates of `ST_Points(g)`
/// for every geometry without `Rect` or `Triangle` whose coordinate count fits
/// an `i32`.
pub proof fn law_num_points_counts_points(g: GeomModel)
    requires
        stores_all_vertices(g),
        vertices_of(g).len() <= i32::MAX,
    ensures
        point_count(GeomModel::MultiPoint(vertices_of(g))) == point_count(g),
{
    lemma_point_count_coords(g);
}


// ----- removal of repeated vertices -----------------------------------------------------

/// No vertex equals (as doubles compare) the one right after it.
pub open spec fn no_adjacent_repeats(s: Seq<Coord>) -> bool {
    forall|i: int| 0 <= i < s.len() - 1 ==> !coord_eq_spec(#[trigger] s[i], s[i + 1])
}

/// After `ST_RemoveRepeatedPoints` no two consecutive vertices of a line are equal.
pub proof fn law_dedup_no_adjacent_repeats(s: Seq<Coord>)
    ensures
        no_adjacent_repeats(dedup_coords(s)),
    decreases s.len(),
{
    if s.len() > 0 {
        law_dedup_no_adjacent_repeats(s.drop_last());
        let d = dedup_coords(s.drop_last());
        if !(d.len() > 0 && coord_eq_spec(d.last(), s.last())) {
            let e = d.push(s.last());
            assert forall|i: int| 0 <= i < e.len() - 1 implies !coord_eq_spec(#[trigger] e[i], e[i + 1]) by {
                if i < d.len() - 1 {
                    assert(e[i] == d[i] && e[i + 1] == d[i + 1]);
                }
            }
        }
    }
}

proof fn lemma_dedup_keeps_unrepeated(s: Seq<Coord>)
    requires
        no_adjacent_repeats(s),
    ensures
        dedup_coords(s) == s,
    decreases s.len(),
{
    if s.len() > 0 {
        let t = s.drop_last();
        assert forall|i: int| 0 <= i < t.len() - 1 implies !coord_eq_spec(#[trigger] t[i], t[i + 1]) by {
            assert(t[i] == s[i] && t[i + 1] == s[i + 1]);
        }
        lemma_dedup_keeps_unrepeated(t);
        if t.len() > 0 {
            assert(!coord_eq_spec(s[s.len() - 2], s[s.len() - 1]));
        }
        assert(t.push(s.last()) =~= s);
    }
}

proof fn lemma_dedup_first(s: Seq<Coord>)
    requires
        s.len() > 0,
    ensures
        dedup_coords(s).len() > 0,
        dedup_coords(s)[0] == s[0],
    decreases s.len(),
{
    let t = s.drop_last();
    if s.len() > 1 {
        lemma_dedup_first(t);
        assert(t[0] == s[0]);
        assert(dedup_coords(t).push(s.last())[0] == dedup_coords(t)[0]);
    } else {
        assert(dedup_coords(t).len() == 0);
        assert(dedup_coords(t).push(s.last())[0] == s.last());
    }
}

/// Running the removal a second time changes nothing on a line.
pub proof fn law_dedup_idempotent(s: Seq<Coord>)
    ensures
        dedup_coords(dedup_coords(s)) == dedup_coords(s),
{
    law_dedup_no_adjacent_repeats(s);
    lemma_dedup_keeps_unrepeated(dedup_coords(s));
}

/// The ring is empty or its first vertex equals itself (has no NaN ordinate).
pub open spec fn ring_start_comparable(r: Seq<Coord>) -> bool {
    r.len() == 0 || coord_eq_spec(r[0], r[0])
}

/// Every ring of the polygon starts with a comparable vertex.
pub open spec fn polygon_starts_comparable(p: PolygonModel) -> bool {
    ring_start_comparable(p.exterior)
        && forall|i: int| 0 <= i < p.interiors.len() ==> #[trigger] ring_start_comparable(p.interiors[i])
}

/// The polygonal rings of a geometry start with comparable vertices.
pub open spec fn rings_start_comparable(g: GeomModel) -> bool {
    match g {
        GeomModel::Polygon(p) => polygon_starts_comparable(p),
        GeomModel::MultiPolygon(ps) => forall|i: int| 0 <= i < ps.len() ==> #[trigger] polygon_starts_comparable(ps[i]),
        _ => true,
    }
}

proof fn lemma_dedup_ring_idempotent(r: Seq<Coord>)
    requires
        ring_start_comparable(r),
    ensures
        close_ring(dedup_coords(close_ring(dedup_coords(r)))) == close_ring(dedup_coords(r)),
{
    let d = dedup_coords(r);
    law_dedup_no_adjacent_repeats(r);
    if r.len() > 0 {
        lemma_dedup_first(r);
    }
    let c = close_ring(d);
    if d.len() == 0 || line_closed(d) {
        lemma_dedup_keeps_unrepeated(d);
    } else {
        assert(c == d.push(d[0]));
        assert forall|i: int| 0 <= i < c.len() - 1 implies !coord_eq_spec(#[trigger] c[i], c[i + 1]) by {
            if i < d.len() - 1 {
                assert(c[i] == d[i] && c[i + 1] == d[i + 1]);
            } else {
                assert(c[i] == d.last() && c[i + 1] == d[0]);
            }
        }
        lemma_dedup_keeps_unrepeated(c);
        assert(line_closed(c));
    }
}

proof fn lemma_dedup_polygon_idempotent(p: PolygonModel)
    requires
        polygon_starts_comparable(p),
    ensures
        dedup_polygon(dedup_polygon(p)) == dedup_polygon(p),
{
    lemma_dedup_ring_idempotent(p.exterior);
    let q = dedup_polygon(p);
    assert forall|i: int| 0 <= i < p.interiors.len() implies dedup_polygon(q).interiors[i] == q.interiors[i] by {
        assert(ring_start_comparable(p.interiors[i]));
        lemma_dedup_ring_idempotent(p.interiors[i]);
    }
    assert(dedup_polygon(q).interiors =~= q.interiors);
}

/// `ST_RemoveRepeatedPoints` is idempotent: applying it to its own result
/// changes nothing, for every geometry whose polygon rings do not start with a
/// NaN vertex (such a ring is closed again on every pass).
pub proof fn law_remove_repeated_points_idempotent(g: GeomModel)
    requires
        rings_start_comparable(g),
    ensures
        remove_repeated_spec(remove_repeated_spec(g)) == remove_repeated_spec(g),
{
    match g {
        GeomModel::LineString(ls) => {
            law_dedup_idempotent(ls);
        },
        GeomModel::MultiLineString(ls) => {
            assert forall|i: int| 0 <= i < ls.len() implies dedup_rings(dedup_rings(ls))[i] == dedup_rings(ls)[i] by {
                law_dedup_idempotent(ls[i]);
            }
            assert(dedup_rings(dedup_rings(ls)) =~= dedup_rings(ls));
        },
        GeomModel::Polygon(p) => {
            lemma_dedup_polygon_idempotent(p);
        },
        GeomModel::MultiPolygon(ps) => {
            let qs = ps.map_values(|p: PolygonModel| dedup_polygon(p));
            assert forall|i: int| 0 <= i < ps.len() implies qs.map_values(|p: PolygonModel| dedup_polygon(p))[i] == qs[i] by {
                assert(polygon_starts_comparable(ps[i]));
                lemma_dedup_polygon_idempotent(ps[i]);
            }
            assert(qs.map_values(|p: PolygonModel| dedup_polygon(p)) =~= qs);
        },
        _ => {},
    }
}


// ----- indexed access ---------------------------------------------------------------------

/// The geometry is a multi-geometry or a collection.
pub open spec fn is_multi(g: GeomModel) -> bool {
    g is MultiPoint || g is MultiLineString || g is MultiPolygon || g is GeometryCollection
}

/// `ST_GeometryN(g, n)` gives a member exactly for the one-based indexes
/// `1 ..= ST_NumGeometries(g)` of a multi-geometry or collection.
pub proof fn law_geometry_n_in_range(g: GeomModel, n: i32)
    requires
        is_multi(g),
    ensures
        geometry_n_spec(g, n) is Some <==> 1 <= n <= geometry_count(g),
{
}

/// `ST_PointN(ls, 1)` is `ST_StartPoint(ls)` and `ST_PointN(ls, ST_NumPoints(ls))`
/// is `ST_EndPoint(ls)`, for every non-empty line string whose length fits an `i32`.
pub proof fn law_point_n_ends(ls: Seq<Coord>)
    requires
        0 < ls.len() <= i32::MAX,
    ensures
        point_n_spec(GeomModel::LineString(ls), 1) == start_point_spec(GeomModel::LineString(ls)),
        point_n_spec(GeomModel::LineString(ls), ls.len() as i32) == end_point_spec(GeomModel::LineString(ls)),
{
}

/// `ST_PointN(ls, n)` gives a vertex exactly for `1 ..= ST_NumPoints(ls)`.
pub proof fn law_point_n_in_range(ls: Seq<Coord>, n: i32)
    ensures
        point_n_spec(GeomModel::LineString(ls), n) is Some <==> 1 <= n <= ls.len(),
{
}

/// `ST_InteriorRingN(p, n)` gives a ring exactly for `1 ..= ST_NumInteriorRings(p)`.
pub proof fn law_interior_ring_n_in_range(p: PolygonModel, n: i32)
    ensures
        interior_ring_n_spec(GeomModel::Polygon(p), n) is Some
            <==> 1 <= n <= interior_ring_count(GeomModel::Polygon(p)),
{
}

// ----- dimension of a collection -------------------------------------------------------

proof fn lemma_max_dimension_is_max(items: Seq<GeomModel>)
    ensures
        forall|i: int| 0 <= i < items.len() ==> #[trigger] dimension_of(items[i]) <= max_dimension(items),
        items.len() == 0 ==> max_dimension(items) == 0,
        items.len() > 0 ==> exists|i: int| 0 <= i < items.len() && #[trigger] dimension_of(items[i]) == max_dimension(items),
    decreases items.len(),
{
    if items.len() > 0 {
        let init = items.subrange(0, items.len() - 1);
        lemma_max_dimension_is_max(init);
        let last = items.len() - 1;
        assert forall|i: int| 0 <= i < items.len() implies #[trigger] dimension_of(items[i]) <= max_dimension(items) by {
            if i < last {
                assert(items[i] == init[i]);
            }
        }
        crate::accessors::lemma_dimension_range(items[last]);
        if dimension_of(items[last]) == max_dimension(items) {
        } else {
            assert(init.len() > 0);
            assert(max_dimension(items) == max_dimension(init));
            let w = choose|i: int| 0 <= i < init.len() && #[trigger] dimension_of(init[i]) == max_dimension(init);
            assert(items[w] == init[w]);
            assert(dimension_of(items[w]) == max_dimension(items));
        }
    }
}

/// The dimension of a collection is the largest dimension of its members:
/// no member has a larger dimension, some member has exactly that dimension,
/// and the empty collection has dimension 0.
pub proof fn law_collection_dimension_is_max(items: Seq<GeomModel>)
    ensures
        forall|i: int| 0 <= i < items.len()
            ==> #[trigger] dimension_of(items[i]) <= dimension_of(GeomModel::GeometryCollection(items)),
        items.len() == 0 ==> dimension_of(GeomModel::GeometryCollection(items)) == 0,
        items.len() > 0 ==> exists|i: int| 0 <= i < items.len()
            && #[trigger] dimension_of(items[i]) == dimension_of(GeomModel::GeometryCollection(items)),
{
    lemma_max_dimension_is_max(items);
}

/// Reordering the members of a collection does not change its dimension.
pub proof fn law_collection_dimension_ignores_order(items: Seq<GeomModel>, other: Seq<GeomModel>)
    requires
        items.to_multiset() == other.to_multiset(),
    ensures
        dimension_of(GeomModel::GeometryCollection(items)) == dimension_of(GeomModel::GeometryCollection(other)),
{
    lemma_max_dimension_is_max(items);
    lemma_max_dimension_is_max(other);
    vstd::seq_lib::to_multiset_len(items);
    vstd::seq_lib::to_multiset_len(other);
    if items.len() > 0 {
        let a = choose|i: int| 0 <= i < items.len() && #[trigger] dimension_of(items[i]) == max_dimension(items);
        let b = choose|i: int| 0 <= i < other.len() && #[trigger] dimension_of(other[i]) == max_dimension(other);
        vstd::seq_lib::to_multiset_contains(items, items[a]);
        vstd::seq_lib::to_multiset_contains(other, items[a]);
        assert(items.contains(items[a]));
        let a2 = choose|j: int| 0 <= j < other.len() && other[j] == items[a];
        assert(dimension_of(other[a2]) <= max_dimension(other));
        vstd::seq_lib::to_multiset_contains(other, other[b]);
        vstd::seq_lib::to_multiset_contains(items, other[b]);
        assert(other.contains(other[b]));
        let b2 = choose|j: int| 0 <= j < items.len() && items[j] == other[b];
        assert(dimension_of(items[b2]) <= max_dimension(items));
    }
}

// ----- interior rings ----------------------------------------------------------------------

/// `ST_InteriorRingN(p, n)` is the n-th hole in storage order: for every
/// `1 <= n <= ST_NumInteriorRings(p)` it is the `(n + 1)`-th line of
/// `ST_Boundary(p)` (which lists the exterior ring, then the holes in order),
/// and `ST_ExteriorRing(p)` is the first line of that boundary.
pub proof fn law_interior_ring_n_follows_boundary(p: PolygonModel, n: i32)
    requires
        1 <= n <= interior_ring_count(GeomModel::Polygon(p)),
        n < i32::MAX,
    ensures
        interior_ring_n_spec(GeomModel::Polygon(p), n) == geometry_n_spec(
            boundary_spec(GeomModel::Polygon(p)),
            (n + 1) as i32,
        ),
        exterior_ring_spec(GeomModel::Polygon(p)) == geometry_n_spec(boundary_spec(GeomModel::Polygon(p)), 1),
{
    let rings = seq![p.exterior] + p.interiors;
    assert(rings[n as int] == p.interiors[n - 1]);
    assert(rings[0] == p.exterior);
}

} // verus!
