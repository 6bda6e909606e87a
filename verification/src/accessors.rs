//! Structural accessors and predicates: type names, dimensions, counts,
//! indexed access and the 2D/SRID stubs of this SRID-less, 2D-only extension.

use vstd::prelude::*;
use crate::coord::{Coord, coord_eq, coord_eq_spec};
use crate::geom::{
    Geom, GeomModel, Polygon, PolygonModel, clone_coords, clone_geom, clone_polygon, geoms_view,
    lemma_geoms_view, option_view, polygons_view, rings_view,
};

verus! {

// ----- counting in the model ------------------------------------------------

/// Total length of a sequence of rings.
pub open spec fn sum_lens(rs: Seq<Seq<Coord>>) -> nat
    decreases rs.len(),
{
    if rs.len() == 0 {
        0
    } else {
        sum_lens(rs.drop_last()) + rs.last().len()
    }
}

/// Number of vertices of a polygon: exterior ring plus every interior ring.
pub open spec fn polygon_points(p: PolygonModel) -> nat {
    p.exterior.len() + sum_lens(p.interiors)
}

/// Number of vertices of a sequence of polygons.
pub open spec fn sum_polygon_points(ps: Seq<PolygonModel>) -> nat
    decreases ps.len(),
{
    if ps.len() == 0 {
        0
    } else {
        sum_polygon_points(ps.drop_last()) + polygon_points(ps.last())
    }
}

/// Number of interior rings over a sequence of polygons.
pub open spec fn sum_interiors(ps: Seq<PolygonModel>) -> nat
    decreases ps.len(),
{
    if ps.len() == 0 {
        0
    } else {
        sum_interiors(ps.drop_last()) + ps.last().interiors.len()
    }
}

/// A count as `ST_NumPoints` reports it for a collection member: the count
/// itself when it fits an `i32`, otherwise nothing (zero).
pub open spec fn i32_or_zero(n: nat) -> nat {
    if n <= i32::MAX {
        n
    } else {
        0
    }
}

/// Vertex count of a geometry as `ST_NumPoints` defines it: a `Rect` counts
/// its five closed-ring vertices, a `Triangle` four, a collection the sum of
/// its members' counts (members whose count does not fit an `i32` add zero).
pub open spec fn point_count(g: GeomModel) -> nat
    decreases g,
{
    match g {
        GeomModel::Point(_) => 1,
        GeomModel::MultiPoint(ps) => ps.len(),
        GeomModel::Line(_, _) => 2,
        GeomModel::LineString(ls) => ls.len(),
        GeomModel::MultiLineString(ls) => sum_lens(ls),
        GeomModel::Polygon(p) => polygon_points(p),
        GeomModel::MultiPolygon(ps) => sum_polygon_points(ps),
        GeomModel::Rect(_, _) => 5,
        GeomModel::Triangle(_, _, _) => 4,
        GeomModel::GeometryCollection(items) => sum_point_counts(items),
    }
}

/// Sum of the member counts of a collection.
pub open spec fn sum_point_counts(items: Seq<GeomModel>) -> nat
    decreases items,
{
    if items.len() == 0 {
        0
    } else {
        sum_point_counts(items.subrange(0, items.len() - 1))
            + i32_or_zero(point_count(items[items.len() - 1]))
    }
}

/// A count as an `i32`, or nothing when it does not fit.
pub open spec fn count_to_i32(n: nat) -> Option<i32> {
    if n <= i32::MAX {
        Some(n as i32)
    } else {
        None
    }
}

/// The value that the capped counters below carry: the count, or `2^31` when
/// the count is `2^31` or more (one past the largest `i32`).
pub open spec fn capped(n: nat) -> nat {
    if n < 0x8000_0000 {
        n
    } else {
        0x8000_0000
    }
}

fn capped_add(a: u64, b: u64) -> (r: u64)
    requires
        a <= 0x8000_0000,
        b <= 0x8000_0000,
    ensures
        r == capped((a + b) as nat),
{
    let s = a + b;
    if s < 0x8000_0000 {
        s
    } else {
        0x8000_0000
    }
}

fn capped_len(n: usize) -> (r: u64)
    ensures
        r == capped(n as nat),
{
    if n < 0x8000_0000 {
        n as u64
    } else {
        0x8000_0000
    }
}

proof fn lemma_capped_sum(x: nat, y: nat)
    ensures
        capped(x + y) == capped(capped(x) + capped(y)),
{
}

fn capped_to_i32(c: u64) -> (r: Option<i32>)
    requires
        c <= 0x8000_0000,
    ensures
        forall|n: nat| c == capped(n) ==> r == count_to_i32(n),
{
    if c < 0x8000_0000 {
        Some(c as i32)
    } else {
        None
    }
}

fn ring_points_capped(rs: &Vec<Vec<Coord>>) -> (r: u64)
    ensures
        r == capped(sum_lens(rings_view(rs@))),
{
    let ghost rv = rings_view(rs@);
    let mut acc: u64 = 0;
    let mut i: usize = 0;
    while i < rs.len()
        invariant
            i <= rs.len(),
            rv == rings_view(rs@),
            acc == capped(sum_lens(rv.subrange(0, i as int))),
        decreases rs.len() - i,
    {
        proof {
            assert(rv.subrange(0, i + 1).drop_last() =~= rv.subrange(0, i as int));
            lemma_capped_sum(sum_lens(rv.subrange(0, i as int)), rs@[i as int]@.len());
        }
        let n = capped_len(rs[i].len());
        acc = capped_add(acc, n);
        i = i + 1;
    }
    assert(rv.subrange(0, rs.len() as int) =~= rv);
    acc
}

fn polygon_points_capped(p: &Polygon) -> (r: u64)
    ensures
        r == capped(polygon_points(p@)),
{
    let e = capped_len(p.exterior.len());
    let i = ring_points_capped(&p.interiors);
    proof {
        lemma_capped_sum(p@.exterior.len(), sum_lens(p@.interiors));
    }
    capped_add(e, i)
}

fn polygons_points_capped(ps: &Vec<Polygon>) -> (r: u64)
    ensures
        r == capped(sum_polygon_points(polygons_view(ps@))),
{
    let ghost pv = polygons_view(ps@);
    let mut acc: u64 = 0;
    let mut i: usize = 0;
    while i < ps.len()
        invariant
            i <= ps.len(),
            pv == polygons_view(ps@),
            acc == capped(sum_polygon_points(pv.subrange(0, i as int))),
        decreases ps.len() - i,
    {
        proof {
            assert(pv.subrange(0, i + 1).drop_last() =~= pv.subrange(0, i as int));
            lemma_capped_sum(sum_polygon_points(pv.subrange(0, i as int)), polygon_points(ps@[i as int]@));
        }
        let n = polygon_points_capped(&ps[i]);
        acc = capped_add(acc, n);
        i = i + 1;
    }
    assert(pv.subrange(0, ps.len() as int) =~= pv);
    acc
}

#[verifier::loop_isolation(false)]
fn point_count_capped(g: &Geom) -> (r: u64)
    ensures
        r == capped(point_count(g@)),
    decreases g,
{
    match g {
        Geom::Point(_) => 1,
        Geom::MultiPoint(ps) => capped_len(ps.len()),
        Geom::Line(_, _) => 2,
        Geom::LineString(ls) => capped_len(ls.len()),
        Geom::MultiLineString(ls) => ring_points_capped(ls),
        Geom::Polygon(p) => polygon_points_capped(p),
        Geom::MultiPolygon(ps) => polygons_points_capped(ps),
        Geom::Rect(_, _) => 5,
        Geom::Triangle(_, _, _) => 4,
        Geom::GeometryCollection(items) => {
            let ghost iv = geoms_view(items@);
            proof {
                lemma_geoms_view(items@);
            }
            let mut acc: u64 = 0;
            let mut i: usize = 0;
            while i < items.len()
                invariant
                    i <= items.len(),
                    acc == capped(sum_point_counts(iv.subrange(0, i as int))),
                decreases items.len() - i,
            {
                proof {
                    assert(decreases_to!(*g => (*g)->GeometryCollection_0));
                    assert(decreases_to!(*items => items@));
                    assert(decreases_to!(items@ => items@[i as int]));
                }
                let c = point_count_capped(&items[i]);
                let term: u64 = if c < 0x8000_0000 { c } else { 0 };
                proof {
                    let sub = iv.subrange(0, i + 1);
                    assert(sub.subrange(0, sub.len() - 1) =~= iv.subrange(0, i as int));
                    assert(sub[sub.len() - 1] == items@[i as int]@);
                    lemma_capped_sum(
                        sum_point_counts(iv.subrange(0, i as int)),
                        i32_or_zero(point_count(items@[i as int]@)),
                    );
                }
                acc = capped_add(acc, term);
                i = i + 1;
            }
            assert(iv.subrange(0, items.len() as int) =~= iv);
            acc
        },
    }
}

// ----- type name and dimension ----------------------------------------------

/// The OGC type name that `ST_GeometryType` reports for a geometry.
pub open spec fn geometry_type_name(g: GeomModel) -> Seq<char> {
    match g {
        GeomModel::Point(_) => "ST_Point"@,
        GeomModel::Line(_, _) => "ST_LineString"@,
        GeomModel::LineString(_) => "ST_LineString"@,
        GeomModel::Polygon(_) => "ST_Polygon"@,
        GeomModel::MultiPoint(_) => "ST_MultiPoint"@,
        GeomModel::MultiLineString(_) => "ST_MultiLineString"@,
        GeomModel::MultiPolygon(_) => "ST_MultiPolygon"@,
        GeomModel::GeometryCollection(_) => "ST_GeometryCollection"@,
        GeomModel::Rect(_, _) => "ST_Polygon"@,
        GeomModel::Triangle(_, _, _) => "ST_Polygon"@,
    }
}

/// `ST_GeometryType(geom)` — OGC style type name (e.g. `ST_Point`).
pub fn geometry_type(g: &Geom) -> (r: Option<String>)
    ensures
        r matches Some(s) && s@ == geometry_type_name(g@),
{
    let name = match g {
        Geom::Point(_) => "ST_Point",
        Geom::Line(_, _) => "ST_LineString",
        Geom::LineString(_) => "ST_LineString",
        Geom::Polygon(_) => "ST_Polygon",
        Geom::MultiPoint(_) => "ST_MultiPoint",
        Geom::MultiLineString(_) => "ST_MultiLineString",
        Geom::MultiPolygon(_) => "ST_MultiPolygon",
        Geom::GeometryCollection(_) => "ST_GeometryCollection",
        Geom::Rect(_, _) => "ST_Polygon",
        Geom::Triangle(_, _, _) => "ST_Polygon",
    };
    Some(String::from_str(name))
}

/// Inherent dimension: points 0, lines 1, areas 2, a collection the largest
/// dimension of its members (0 when empty).
pub open spec fn dimension_of(g: GeomModel) -> int
    decreases g,
{
    match g {
        GeomModel::Point(_) | GeomModel::MultiPoint(_) => 0,
        GeomModel::Line(_, _) | GeomModel::LineString(_) | GeomModel::MultiLineString(_) => 1,
        GeomModel::Polygon(_) | GeomModel::MultiPolygon(_) | GeomModel::Rect(_, _)
        | GeomModel::Triangle(_, _, _) => 2,
        GeomModel::GeometryCollection(items) => max_dimension(items),
    }
}

/// The largest dimension over a sequence of geometries, 0 when it is empty.
pub open spec fn max_dimension(items: Seq<GeomModel>) -> int
    decreases items,
{
    if items.len() == 0 {
        0
    } else {
        let a = max_dimension(items.subrange(0, items.len() - 1));
        let b = dimension_of(items[items.len() - 1]);
        if a < b {
            b
        } else {
            a
        }
    }
}

/// Dimensions lie between 0 and 2.
pub proof fn lemma_dimension_range(g: GeomModel)
    ensures
        0 <= dimension_of(g) <= 2,
    decreases g,
{
    if let GeomModel::GeometryCollection(items) = g {
        lemma_max_dimension_range(items);
    }
}

/// The largest dimension over a sequence lies between 0 and 2.
pub proof fn lemma_max_dimension_range(items: Seq<GeomModel>)
    ensures
        0 <= max_dimension(items) <= 2,
    decreases items,
{
    if items.len() > 0 {
        lemma_max_dimension_range(items.subrange(0, items.len() - 1));
        lemma_dimension_range(items[items.len() - 1]);
    }
}

/// `ST_Dimension(geom)` — inherent dimension (Point=0, Line=1, Polygon=2, ...).
#[verifier::loop_isolation(false)]
pub fn dimension(g: &Geom) -> (r: Option<i32>)
    ensures
        r == Some(dimension_of(g@) as i32),
    decreases g,
{
    proof {
        lemma_dimension_range(g@);
    }
    let dim: i32 = match g {
        Geom::Point(_) | Geom::MultiPoint(_) => 0,
        Geom::Line(_, _) | Geom::LineString(_) | Geom::MultiLineString(_) => 1,
        Geom::Polygon(_) | Geom::MultiPolygon(_) | Geom::Rect(_, _) | Geom::Triangle(_, _, _) => 2,
        Geom::GeometryCollection(items) => {
            let ghost iv = geoms_view(items@);
            proof {
                lemma_geoms_view(items@);
            }
            let mut best: i32 = 0;
            let mut i: usize = 0;
            while i < items.len()
                invariant
                    i <= items.len(),
                    best == max_dimension(iv.subrange(0, i as int)),
                decreases items.len() - i,
            {
                proof {
                    assert(decreases_to!(*g => (*g)->GeometryCollection_0));
                    assert(decreases_to!(*items => items@));
                    assert(decreases_to!(items@ => items@[i as int]));
                    lemma_max_dimension_range(iv.subrange(0, i as int));
                    lemma_dimension_range(items@[i as int]@);
                }
                let d = match dimension(&items[i]) {
                    Some(d) => d,
                    None => 0,
                };
                proof {
                    let sub = iv.subrange(0, i + 1);
                    assert(sub.subrange(0, sub.len() - 1) =~= iv.subrange(0, i as int));
                    assert(sub[sub.len() - 1] == items@[i as int]@);
                }
                if best < d {
                    best = d;
                }
                i = i + 1;
            }
            assert(iv.subrange(0, items.len() as int) =~= iv);
            best
        },
    };
    Some(dim)
}

// ----- counts -----------------------------------------------------------------

/// `ST_NumPoints(geom)` — total vertex count across the geometry; nothing
/// when the count does not fit an `i32`.
pub fn num_points(g: &Geom) -> (r: Option<i32>)
    ensures
        r == count_to_i32(point_count(g@)),
{
    let c = point_count_capped(g);
    capped_to_i32(c)
}

/// Number of member geometries: the length of a multi-geometry or collection, 1 otherwise.
pub open spec fn geometry_count(g: GeomModel) -> nat {
    match g {
        GeomModel::MultiPoint(ps) => ps.len(),
        GeomModel::MultiLineString(ls) => ls.len(),
        GeomModel::MultiPolygon(ps) => ps.len(),
        GeomModel::GeometryCollection(items) => items.len(),
        _ => 1,
    }
}

/// `ST_NumGeometries(geom)`.
pub fn num_geometries(g: &Geom) -> (r: Option<i32>)
    ensures
        r == count_to_i32(geometry_count(g@)),
{
    proof {
        if let Geom::GeometryCollection(items) = g {
            lemma_geoms_view(items@);
        }
    }
    let n: usize = match g {
        Geom::MultiPoint(ps) => ps.len(),
        Geom::MultiLineString(ls) => ls.len(),
        Geom::MultiPolygon(ps) => ps.len(),
        Geom::GeometryCollection(items) => items.len(),
        _ => 1,
    };
    capped_to_i32(capped_len(n))
}

/// Number of interior rings: of a polygon, summed over a multipolygon, 0 otherwise.
pub open spec fn interior_ring_count(g: GeomModel) -> nat {
    match g {
        GeomModel::Polygon(p) => p.interiors.len(),
        GeomModel::MultiPolygon(ps) => sum_interiors(ps),
        _ => 0,
    }
}

/// `ST_NumInteriorRings(geom)`.
pub fn num_interior_rings(g: &Geom) -> (r: Option<i32>)
    ensures
        r == count_to_i32(interior_ring_count(g@)),
{
    match g {
        Geom::Polygon(p) => capped_to_i32(capped_len(p.interiors.len())),
        Geom::MultiPolygon(ps) => {
            let ghost pv = polygons_view(ps@);
            let mut acc: u64 = 0;
            let mut i: usize = 0;
            while i < ps.len()
                invariant
                    i <= ps.len(),
                    pv == polygons_view(ps@),
                    acc == capped(sum_interiors(pv.subrange(0, i as int))),
                decreases ps.len() - i,
            {
                proof {
                    assert(pv.subrange(0, i + 1).drop_last() =~= pv.subrange(0, i as int));
                    lemma_capped_sum(sum_interiors(pv.subrange(0, i as int)), ps@[i as int]@.interiors.len());
                }
                let n = capped_len(ps[i].interiors.len());
                acc = capped_add(acc, n);
                i = i + 1;
            }
            assert(pv.subrange(0, ps.len() as int) =~= pv);
            capped_to_i32(acc)
        },
        _ => Some(0),
    }
}


// ----- emptiness and closedness -------------------------------------------------

/// A geometry without coordinate content: an empty multi-geometry, line
/// string or collection, or a polygon whose exterior ring is empty.
pub open spec fn is_empty_spec(g: GeomModel) -> bool {
    match g {
        GeomModel::Point(_) | GeomModel::Line(_, _) | GeomModel::Rect(_, _)
        | GeomModel::Triangle(_, _, _) => false,
        GeomModel::MultiPoint(ps) => ps.len() == 0,
        GeomModel::LineString(ls) => ls.len() == 0,
        GeomModel::MultiLineString(ls) => ls.len() == 0,
        GeomModel::Polygon(p) => p.exterior.len() == 0,
        GeomModel::MultiPolygon(ps) => ps.len() == 0,
        GeomModel::GeometryCollection(items) => items.len() == 0,
    }
}

/// `ST_IsEmpty(geom)` — true for geometries with no coordinate content.
pub fn is_empty(g: &Geom) -> (r: Option<bool>)
    ensures
        r == Some(is_empty_spec(g@)),
{
    proof {
        if let Geom::GeometryCollection(items) = g {
            lemma_geoms_view(items@);
        }
    }
    Some(
        match g {
            Geom::Point(_) | Geom::Line(_, _) | Geom::Rect(_, _) | Geom::Triangle(_, _, _) => false,
            Geom::MultiPoint(ps) => ps.len() == 0,
            Geom::LineString(ls) => ls.len() == 0,
            Geom::MultiLineString(ls) => ls.len() == 0,
            Geom::Polygon(p) => p.exterior.len() == 0,
            Geom::MultiPolygon(ps) => ps.len() == 0,
            Geom::GeometryCollection(items) => items.len() == 0,
        },
    )
}

/// A line string is closed when it has a first vertex and that vertex equals
/// the last one (as doubles compare).
pub open spec fn line_closed(ls: Seq<Coord>) -> bool {
    ls.len() > 0 && coord_eq_spec(ls[0], ls[ls.len() - 1])
}

/// Every line string of the sequence is closed.
pub open spec fn all_lines_closed_spec(ls: Seq<Seq<Coord>>) -> bool {
    forall|i: int| 0 <= i < ls.len() ==> #[trigger] line_closed(ls[i])
}

/// Closedness as `ST_IsClosed` reports it: line strings by their end points,
/// multi line strings when every member is closed, areal types always,
/// everything else never.
pub open spec fn is_closed_spec(g: GeomModel) -> bool {
    match g {
        GeomModel::LineString(ls) => line_closed(ls),
        GeomModel::MultiLineString(ls) => all_lines_closed_spec(ls),
        GeomModel::Polygon(_) | GeomModel::MultiPolygon(_) => true,
        _ => false,
    }
}

fn line_closed_exec(ls: &Vec<Coord>) -> (r: bool)
    ensures
        r == line_closed(ls@),
{
    ls.len() > 0 && coord_eq(&ls[0], &ls[ls.len() - 1])
}

fn all_lines_closed(ls: &Vec<Vec<Coord>>) -> (r: bool)
    ensures
        r == all_lines_closed_spec(rings_view(ls@)),
{
    let mut all = true;
    let mut i: usize = 0;
    while i < ls.len()
        invariant
            i <= ls.len(),
            all == (forall|j: int| 0 <= j < i ==> #[trigger] line_closed(ls@[j]@)),
        decreases ls.len() - i,
    {
        if !line_closed_exec(&ls[i]) {
            all = false;
        }
        i = i + 1;
    }
    proof {
        let rv = rings_view(ls@);
        if all {
            assert forall|j: int| 0 <= j < rv.len() implies #[trigger] line_closed(rv[j]) by {
                assert(rv[j] == ls@[j]@);
                assert(line_closed(ls@[j]@));
            }
            
        } else {
            let j = choose|j: int| 0 <= j < ls.len() && !#[trigger] line_closed(ls@[j]@);
            assert(0 <= j < ls.len());
            assert(rv.len() == ls.len());
            assert(rv[j] == ls@[j]@);
            assert(!line_closed(rv[j]));

        }
    }
    all
}

/// `ST_IsClosed(geom)`.
pub fn is_closed(g: &Geom) -> (r: Option<bool>)
    ensures
        r == Some(is_closed_spec(g@)),
{
    Some(
        match g {
            Geom::LineString(ls) => line_closed_exec(ls),
            Geom::MultiLineString(ls) => all_lines_closed(ls),
            Geom::Polygon(_) | Geom::MultiPolygon(_) => true,
            _ => false,
        },
    )
}

/// `ST_IsRing(geom)` — a line string of at least four vertices whose first and
/// last vertices are equal. (Simplicity is not tested.)
pub open spec fn is_ring_spec(g: GeomModel) -> bool {
    match g {
        GeomModel::LineString(ls) => ls.len() >= 4 && line_closed(ls),
        _ => false,
    }
}

/// `ST_IsRing(geom)` — true for a closed LineString of at least four vertices.
pub fn is_ring(g: &Geom) -> (r: Option<bool>)
    ensures
        r == Some(is_ring_spec(g@)),
{
    Some(
        match g {
            Geom::LineString(ls) => ls.len() >= 4 && line_closed_exec(ls),
            _ => false,
        },
    )
}

/// `ST_IsCollection(geom)`: multi-geometries and collections.
pub open spec fn is_collection_spec(g: GeomModel) -> bool {
    match g {
        GeomModel::MultiPoint(_) | GeomModel::MultiLineString(_) | GeomModel::MultiPolygon(_)
        | GeomModel::GeometryCollection(_) => true,
        _ => false,
    }
}

/// `ST_IsCollection(geom)`.
pub fn is_collection(g: &Geom) -> (r: Option<bool>)
    ensures
        r == Some(is_collection_spec(g@)),
{
    Some(
        match g {
            Geom::MultiPoint(_) | Geom::MultiLineString(_) | Geom::MultiPolygon(_)
            | Geom::GeometryCollection(_) => true,
            _ => false,
        },
    )
}

// ----- 2D / SRID stubs ------------------------------------------------------------

/// `ST_CoordDim(geom)` — this extension handles 2D WKB.
pub fn coord_dim(_g: &Geom) -> (r: Option<i32>)
    ensures
        r == Some(2i32),
{
    Some(2)
}

/// `ST_HasZ(geom)` — false (2D only).
pub fn has_z(_g: &Geom) -> (r: Option<bool>)
    ensures
        r == Some(false),
{
    Some(false)
}

/// `ST_HasM(geom)` — false (2D only).
pub fn has_m(_g: &Geom) -> (r: Option<bool>)
    ensures
        r == Some(false),
{
    Some(false)
}

/// `ST_ZMflag(geom)` — 0 (2D only).
pub fn zm_flag(_g: &Geom) -> (r: Option<i32>)
    ensures
        r == Some(0i32),
{
    Some(0)
}

/// `ST_SRID(geom)` — always 0: geometries carry no SRID.
pub fn srid(_g: &Geom) -> (r: Option<i32>)
    ensures
        r == Some(0i32),
{
    Some(0)
}

/// `ST_SetSRID(geom, srid)` — the geometry unchanged (geometries carry no SRID).
pub fn set_srid(g: &Geom, _srid: i32) -> (r: Option<Geom>)
    ensures
        option_view(r) == Some(g@),
{
    Some(clone_geom(g))
}

/// `ST_Force2D(geom)` — the geometry unchanged (it is already 2D).
pub fn force_2d(g: &Geom) -> (r: Option<Geom>)
    ensures
        option_view(r) == Some(g@),
{
    Some(clone_geom(g))
}

/// `ST_GeomFromWKB(blob)` — the decoded geometry, passed through unchanged.
pub fn geom_from_wkb(g: &Geom) -> (r: Option<Geom>)
    ensures
        option_view(r) == Some(g@),
{
    Some(clone_geom(g))
}

// ----- element access ---------------------------------------------------------------

/// The coordinate of a point geometry, nothing for any other geometry.
pub open spec fn point_coord_spec(g: GeomModel) -> Option<Coord> {
    match g {
        GeomModel::Point(c) => Some(c),
        _ => None,
    }
}

/// The `(x, y)` of a Point geometry, or `None` for non-points.
pub fn point_coord(g: &Geom) -> (r: Option<Coord>)
    ensures
        r == point_coord_spec(g@),
{
    match g {
        Geom::Point(c) => Some(*c),
        _ => None,
    }
}

/// The exterior ring of a polygon as a line string.
pub open spec fn exterior_ring_spec(g: GeomModel) -> Option<GeomModel> {
    match g {
        GeomModel::Polygon(p) => Some(GeomModel::LineString(p.exterior)),
        _ => None,
    }
}

/// `ST_ExteriorRing(geom)` — polygon's exterior ring as a LineString.
pub fn exterior_ring(g: &Geom) -> (r: Option<Geom>)
    ensures
        option_view(r) == exterior_ring_spec(g@),
{
    match g {
        Geom::Polygon(p) => Some(Geom::LineString(clone_coords(&p.exterior))),
        _ => None,
    }
}

/// The first vertex of a non-empty line string as a point.
pub open spec fn start_point_spec(g: GeomModel) -> Option<GeomModel> {
    match g {
        GeomModel::LineString(ls) => if ls.len() > 0 {
            Some(GeomModel::Point(ls[0]))
        } else {
            None
        },
        _ => None,
    }
}

/// The last vertex of a non-empty line string as a point.
pub open spec fn end_point_spec(g: GeomModel) -> Option<GeomModel> {
    match g {
        GeomModel::LineString(ls) => if ls.len() > 0 {
            Some(GeomModel::Point(ls[ls.len() - 1]))
        } else {
            None
        },
        _ => None,
    }
}

/// `ST_StartPoint(geom)` — first vertex of a LineString.
pub fn start_point(g: &Geom) -> (r: Option<Geom>)
    ensures
        option_view(r) == start_point_spec(g@),
{
    match g {
        Geom::LineString(ls) => if ls.len() > 0 {
            Some(Geom::Point(ls[0]))
        } else {
            None
        },
        _ => None,
    }
}

/// `ST_EndPoint(geom)` — last vertex of a LineString.
pub fn end_point(g: &Geom) -> (r: Option<Geom>)
    ensures
        option_view(r) == end_point_spec(g@),
{
    match g {
        Geom::LineString(ls) => if ls.len() > 0 {
            Some(Geom::Point(ls[ls.len() - 1]))
        } else {
            None
        },
        _ => None,
    }
}

/// The zero-based index that a one-based SQL index `n` designates.
pub open spec fn zero_based(n: i32) -> int {
    n - 1
}

/// `ST_GeometryN`: the `n`-th member (1-indexed) of a multi-geometry or collection.
pub open spec fn geometry_n_spec(g: GeomModel, n: i32) -> Option<GeomModel> {
    let i = zero_based(n);
    if i < 0 {
        None
    } else {
        match g {
            GeomModel::MultiPoint(ps) => if i < ps.len() { Some(GeomModel::Point(ps[i])) } else { None },
            GeomModel::MultiLineString(ls) => if i < ls.len() { Some(GeomModel::LineString(ls[i])) } else { None },
            GeomModel::MultiPolygon(ps) => if i < ps.len() { Some(GeomModel::Polygon(ps[i])) } else { None },
            GeomModel::GeometryCollection(items) => if i < items.len() { Some(items[i]) } else { None },
            _ => None,
        }
    }
}

/// `ST_GeometryN(geom, n)` — the n-th geometry of a collection (1-indexed).
pub fn geometry_n(g: &Geom, n: i32) -> (r: Option<Geom>)
    ensures
        option_view(r) == geometry_n_spec(g@, n),
{
    if n < 1 {
        return None;
    }
    let i = (n - 1) as usize;
    match g {
        Geom::MultiPoint(ps) => if i < ps.len() { Some(Geom::Point(ps[i])) } else { None },
        Geom::MultiLineString(ls) => if i < ls.len() {
            Some(Geom::LineString(clone_coords(&ls[i])))
        } else {
            None
        },
        Geom::MultiPolygon(ps) => if i < ps.len() {
            Some(Geom::Polygon(clone_polygon(&ps[i])))
        } else {
            None
        },
        Geom::GeometryCollection(items) => {
            proof {
                lemma_geoms_view(items@);
            }
            if i < items.len() {
                Some(clone_geom(&items[i]))
            } else {
                None
            }
        },
        _ => None,
    }
}

/// `ST_PointN`: the `n`-th vertex (1-indexed) of a line string as a point.
pub open spec fn point_n_spec(g: GeomModel, n: i32) -> Option<GeomModel> {
    let i = zero_based(n);
    match g {
        GeomModel::LineString(ls) => if 0 <= i < ls.len() { Some(GeomModel::Point(ls[i])) } else { None },
        _ => None,
    }
}

/// `ST_PointN(geom, n)` — the n-th vertex of a LineString (1-indexed).
pub fn point_n(g: &Geom, n: i32) -> (r: Option<Geom>)
    ensures
        option_view(r) == point_n_spec(g@, n),
{
    if n < 1 {
        return None;
    }
    let i = (n - 1) as usize;
    match g {
        Geom::LineString(ls) => if i < ls.len() { Some(Geom::Point(ls[i])) } else { None },
        _ => None,
    }
}

/// `ST_InteriorRingN`: the `n`-th interior ring (1-indexed) of a polygon.
pub open spec fn interior_ring_n_spec(g: GeomModel, n: i32) -> Option<GeomModel> {
    let i = zero_based(n);
    match g {
        GeomModel::Polygon(p) => if 0 <= i < p.interiors.len() {
            Some(GeomModel::LineString(p.interiors[i]))
        } else {
            None
        },
        _ => None,
    }
}

/// `ST_InteriorRingN(geom, n)` — the n-th hole of a Polygon (1-indexed).
pub fn interior_ring_n(g: &Geom, n: i32) -> (r: Option<Geom>)
    ensures
        option_view(r) == interior_ring_n_spec(g@, n),
{
    if n < 1 {
        return None;
    }
    let i = (n - 1) as usize;
    match g {
        Geom::Polygon(p) => if i < p.interiors.len() {
            Some(Geom::LineString(clone_coords(&p.interiors[i])))
        } else {
            None
        },
        _ => None,
    }
}

} // verus!
