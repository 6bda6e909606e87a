use vstd::prelude::*;
use crate::coord::Coord;

verus! {

/// A polygon: one exterior ring and any number of interior rings (holes).
#[derive(Debug, PartialEq, Eq)]
pub struct Polygon {
    pub exterior: Vec<Coord>,
    pub interiors: Vec<Vec<Coord>>,
}

/// A planar 2D geometry, variant for variant the geometry enum that the
/// spatial functions of this extension work on.
#[derive(Debug, PartialEq, Eq)]
pub enum Geom {
    Point(Coord),
    Line(Coord, Coord),
    LineString(Vec<Coord>),
    Polygon(Polygon),
    MultiPoint(Vec<Coord>),
    MultiLineString(Vec<Vec<Coord>>),
    MultiPolygon(Vec<Polygon>),
    GeometryCollection(Vec<Geom>),
    Rect(Coord, Coord),
    Triangle(Coord, Coord, Coord),
}

/// Mathematical model of a [`Polygon`].
pub struct PolygonModel {
    pub exterior: Seq<Coord>,
    pub interiors: Seq<Seq<Coord>>,
}

/// Mathematical model of a [`Geom`]: the same tree with sequences for vectors.
pub enum GeomModel {
    Point(Coord),
    Line(Coord, Coord),
    LineString(Seq<Coord>),
    Polygon(PolygonModel),
    MultiPoint(Seq<Coord>),
    MultiLineString(Seq<Seq<Coord>>),
    MultiPolygon(Seq<PolygonModel>),
    GeometryCollection(Seq<GeomModel>),
    Rect(Coord, Coord),
    Triangle(Coord, Coord, Coord),
}

/// The sequences held by a vector of rings.
pub open spec fn rings_view(rings: Seq<Vec<Coord>>) -> Seq<Seq<Coord>> {
    rings.map_values(|r: Vec<Coord>| r@)
}

impl View for Polygon {
    type V = PolygonModel;

    open spec fn view(&self) -> PolygonModel {
        PolygonModel { exterior: self.exterior@, interiors: rings_view(self.interiors@) }
    }
}

/// The models of a vector of polygons.
pub open spec fn polygons_view(ps: Seq<Polygon>) -> Seq<PolygonModel> {
    ps.map_values(|p: Polygon| p@)
}

/// The models of a sequence of geometries.
pub open spec fn geoms_view(gs: Seq<Geom>) -> Seq<GeomModel>
    decreases gs,
{
    if gs.len() == 0 {
        Seq::empty()
    } else {
        geoms_view(gs.subrange(0, gs.len() - 1)).push(geom_view(gs[gs.len() - 1]))
    }
}

/// The model of one geometry.
pub open spec fn geom_view(g: Geom) -> GeomModel
    decreases g,
{
    match g {
        Geom::Point(c) => GeomModel::Point(c),
        Geom::Line(a, b) => GeomModel::Line(a, b),
        Geom::LineString(ls) => GeomModel::LineString(ls@),
        Geom::Polygon(p) => GeomModel::Polygon(p@),
        Geom::MultiPoint(ps) => GeomModel::MultiPoint(ps@),
        Geom::MultiLineString(ls) => GeomModel::MultiLineString(rings_view(ls@)),
        Geom::MultiPolygon(ps) => GeomModel::MultiPolygon(polygons_view(ps@)),
        Geom::GeometryCollection(items) => GeomModel::GeometryCollection(geoms_view(items@)),
        Geom::Rect(a, b) => GeomModel::Rect(a, b),
        Geom::Triangle(a, b, c) => GeomModel::Triangle(a, b, c),
    }
}

/// The model of an optional geometry.
pub open spec fn option_view(o: Option<Geom>) -> Option<GeomModel> {
    match o {
        Some(g) => Some(g@),
        None => None,
    }
}

impl View for Geom {
    type V = GeomModel;

    open spec fn view(&self) -> GeomModel {
        geom_view(*self)
    }
}


/// `geoms_view` keeps the length and maps every element by its model.
pub proof fn lemma_geoms_view(gs: Seq<Geom>)
    ensures
        geoms_view(gs).len() == gs.len(),
        forall|i: int| 0 <= i < gs.len() ==> #[trigger] geoms_view(gs)[i] == geom_view(gs[i]),
    decreases gs.len(),
{
    if gs.len() > 0 {
        lemma_geoms_view(gs.subrange(0, gs.len() - 1));
    }
}

/// A copy of a coordinate sequence.
pub fn clone_coords(v: &Vec<Coord>) -> (r: Vec<Coord>)
    ensures
        r@ == v@,
{
    let mut r: Vec<Coord> = Vec::new();
    let mut i: usize = 0;
    while i < v.len()
        invariant
            i <= v.len(),
            r@ == v@.subrange(0, i as int),
        decreases v.len() - i,
    {
        r.push(v[i]);
        i = i + 1;
    }
    r
}

/// A copy of a sequence of rings.
pub fn clone_rings(v: &Vec<Vec<Coord>>) -> (r: Vec<Vec<Coord>>)
    ensures
        rings_view(r@) == rings_view(v@),
{
    let mut r: Vec<Vec<Coord>> = Vec::new();
    let mut i: usize = 0;
    while i < v.len()
        invariant
            i <= v.len(),
            rings_view(r@) == rings_view(v@.subrange(0, i as int)),
        decreases v.len() - i,
    {
        r.push(clone_coords(&v[i]));
        i = i + 1;
        assert(rings_view(v@.subrange(0, i as int)) =~= rings_view(v@.subrange(0, i - 1)).push(v@[i - 1]@));
    }
    assert(v@.subrange(0, v.len() as int) =~= v@);
    r
}

/// A copy of a polygon.
pub fn clone_polygon(p: &Polygon) -> (r: Polygon)
    ensures
        r@ == p@,
{
    Polygon { exterior: clone_coords(&p.exterior), interiors: clone_rings(&p.interiors) }
}

/// A copy of a sequence of polygons.
pub fn clone_polygons(v: &Vec<Polygon>) -> (r: Vec<Polygon>)
    ensures
        polygons_view(r@) == polygons_view(v@),
{
    let mut r: Vec<Polygon> = Vec::new();
    let mut i: usize = 0;
    while i < v.len()
        invariant
            i <= v.len(),
            polygons_view(r@) == polygons_view(v@.subrange(0, i as int)),
        decreases v.len() - i,
    {
        r.push(clone_polygon(&v[i]));
        i = i + 1;
        assert(polygons_view(v@.subrange(0, i as int)) =~= polygons_view(v@.subrange(0, i - 1)).push(v@[i - 1]@));
    }
    assert(v@.subrange(0, v.len() as int) =~= v@);
    r
}

/// A deep copy of a geometry.
#[verifier::loop_isolation(false)]
pub fn clone_geom(g: &Geom) -> (r: Geom)
    ensures
        r@ == g@,
    decreases g,
{
    match g {
        Geom::Point(c) => Geom::Point(*c),
        Geom::Line(a, b) => Geom::Line(*a, *b),
        Geom::LineString(ls) => Geom::LineString(clone_coords(ls)),
        Geom::Polygon(p) => Geom::Polygon(clone_polygon(p)),
        Geom::MultiPoint(ps) => Geom::MultiPoint(clone_coords(ps)),
        Geom::MultiLineString(ls) => Geom::MultiLineString(clone_rings(ls)),
        Geom::MultiPolygon(ps) => Geom::MultiPolygon(clone_polygons(ps)),
        Geom::GeometryCollection(items) => {
            let mut r: Vec<Geom> = Vec::new();
            let mut i: usize = 0;
            while i < items.len()
                invariant
                    i <= items.len(),
                    geoms_view(r@) == geoms_view(items@.subrange(0, i as int)),
                decreases items.len() - i,
            {
                proof {
                    assert(decreases_to!(*g => (*g)->GeometryCollection_0));
                    assert((*g)->GeometryCollection_0 == *items);
                    assert(decreases_to!(*items => items@));
                    assert(decreases_to!(items@ => items@[i as int]));
                }
                let c = clone_geom(&items[i]);
                let ghost prev = r@;
                r.push(c);
                i = i + 1;
                assert(r@.subrange(0, r@.len() - 1) =~= prev);
                assert(items@.subrange(0, i as int).subrange(0, i - 1) =~= items@.subrange(0, i - 1));
            }
            assert(items@.subrange(0, items.len() as int) =~= items@);
            Geom::GeometryCollection(r)
        },
        Geom::Rect(a, b) => Geom::Rect(*a, *b),
        Geom::Triangle(a, b, c) => Geom::Triangle(*a, *b, *c),
    }
}

} // verus!
