use sedonadb::accessors::{
    coord_dim, dimension, end_point, exterior_ring, force_2d, geom_from_wkb, geometry_n,
    geometry_type, has_m, has_z, interior_ring_n, is_closed, is_collection, is_empty, is_ring,
    num_geometries, num_interior_rings, num_points, point_coord, point_n, set_srid, srid,
    start_point, zm_flag,
};
use sedonadb::coord::{coord_eq, f64_bits_eq, Coord};
use sedonadb::geom::{clone_geom, Geom, Polygon};

fn c(x: f64, y: f64) -> Coord {
    Coord { x: x.to_bits(), y: y.to_bits() }
}

fn pt(x: f64, y: f64) -> Geom {
    Geom::Point(c(x, y))
}

fn ring(pts: &[(f64, f64)]) -> Vec<Coord> {
    pts.iter().map(|&(x, y)| c(x, y)).collect()
}

fn square_with_hole() -> Polygon {
    Polygon {
        exterior: ring(&[(0.0, 0.0), (4.0, 0.0), (4.0, 4.0), (0.0, 4.0), (0.0, 0.0)]),
        interiors: vec![ring(&[(1.0, 1.0), (2.0, 1.0), (2.0, 2.0), (1.0, 1.0)])],
    }
}

#[test]
fn dimension_and_type_names() {
    assert_eq!(dimension(&pt(0.0, 0.0)), Some(0));
    assert_eq!(geometry_type(&pt(0.0, 0.0)).as_deref(), Some("ST_Point"));
}

#[test]
fn type_names_of_every_kind() {
    let cases: Vec<(Geom, &str)> = vec![
        (pt(1.0, 2.0), "ST_Point"),
        (Geom::Line(c(0.0, 0.0), c(1.0, 1.0)), "ST_LineString"),
        (Geom::LineString(ring(&[(0.0, 0.0), (1.0, 1.0)])), "ST_LineString"),
        (Geom::Polygon(square_with_hole()), "ST_Polygon"),
        (Geom::MultiPoint(vec![]), "ST_MultiPoint"),
        (Geom::MultiLineString(vec![]), "ST_MultiLineString"),
        (Geom::MultiPolygon(vec![]), "ST_MultiPolygon"),
        (Geom::GeometryCollection(vec![]), "ST_GeometryCollection"),
        (Geom::Rect(c(0.0, 0.0), c(1.0, 1.0)), "ST_Polygon"),
        (Geom::Triangle(c(0.0, 0.0), c(1.0, 0.0), c(0.0, 1.0)), "ST_Polygon"),
    ];
    for (g, name) in cases {
        assert_eq!(geometry_type(&g).as_deref(), Some(name));
    }
}

#[test]
fn dimension_of_collections_is_the_largest_member() {
    let gc = Geom::GeometryCollection(vec![
        pt(0.0, 0.0),
        Geom::LineString(ring(&[(0.0, 0.0), (1.0, 1.0)])),
    ]);
    assert_eq!(dimension(&gc), Some(1));
    let nested = Geom::GeometryCollection(vec![gc, Geom::Polygon(square_with_hole())]);
    assert_eq!(dimension(&nested), Some(2));
    assert_eq!(dimension(&Geom::GeometryCollection(vec![])), Some(0));
    assert_eq!(dimension(&Geom::Rect(c(0.0, 0.0), c(1.0, 1.0))), Some(2));
    assert_eq!(dimension(&Geom::MultiLineString(vec![])), Some(1));
}

#[test]
fn num_points_counts_every_vertex() {
    assert_eq!(num_points(&pt(1.0, 1.0)), Some(1));
    assert_eq!(num_points(&Geom::Line(c(0.0, 0.0), c(1.0, 1.0))), Some(2));
    assert_eq!(num_points(&Geom::Polygon(square_with_hole())), Some(9));
    assert_eq!(num_points(&Geom::Rect(c(0.0, 0.0), c(1.0, 1.0))), Some(5));
    assert_eq!(num_points(&Geom::Triangle(c(0.0, 0.0), c(1.0, 0.0), c(0.0, 1.0))), Some(4));
    let gc = Geom::GeometryCollection(vec![
        pt(0.0, 0.0),
        Geom::MultiPolygon(vec![square_with_hole(), square_with_hole()]),
        Geom::MultiLineString(vec![ring(&[(0.0, 0.0), (1.0, 1.0), (2.0, 2.0)])]),
    ]);
    assert_eq!(num_points(&gc), Some(1 + 18 + 3));
}

#[test]
fn num_geometries_and_interior_rings() {
    assert_eq!(num_geometries(&pt(0.0, 0.0)), Some(1));
    assert_eq!(num_geometries(&Geom::MultiPoint(ring(&[(0.0, 0.0), (1.0, 1.0)]))), Some(2));
    assert_eq!(num_geometries(&Geom::GeometryCollection(vec![])), Some(0));
    assert_eq!(num_interior_rings(&Geom::Polygon(square_with_hole())), Some(1));
    assert_eq!(
        num_interior_rings(&Geom::MultiPolygon(vec![square_with_hole(), square_with_hole()])),
        Some(2)
    );
    assert_eq!(num_interior_rings(&pt(0.0, 0.0)), Some(0));
}

#[test]
fn emptiness_by_kind() {
    assert_eq!(is_empty(&pt(0.0, 0.0)), Some(false));
    assert_eq!(is_empty(&Geom::Rect(c(0.0, 0.0), c(0.0, 0.0))), Some(false));
    assert_eq!(is_empty(&Geom::LineString(vec![])), Some(true));
    assert_eq!(is_empty(&Geom::MultiPolygon(vec![])), Some(true));
    let hollow = Polygon { exterior: vec![], interiors: vec![ring(&[(1.0, 1.0)])] };
    assert_eq!(is_empty(&Geom::Polygon(hollow)), Some(true));
    assert_eq!(is_empty(&Geom::GeometryCollection(vec![Geom::GeometryCollection(vec![])])), Some(false));
}

#[test]
fn closedness_follows_double_equality() {
    let closed = Geom::LineString(ring(&[(0.0, 0.0), (1.0, 0.0), (0.0, 0.0)]));
    let open = Geom::LineString(ring(&[(0.0, 0.0), (1.0, 0.0)]));
    assert_eq!(is_closed(&closed), Some(true));
    assert_eq!(is_closed(&open), Some(false));
    assert_eq!(is_closed(&Geom::LineString(vec![])), Some(false));
    // +0 and -0 compare equal as doubles
    let signed_zero = Geom::LineString(ring(&[(0.0, 0.0), (1.0, 0.0), (-0.0, 0.0)]));
    assert_eq!(is_closed(&signed_zero), Some(true));
    // NaN equals nothing, not even itself
    let nan = Geom::LineString(ring(&[(f64::NAN, 0.0), (1.0, 0.0), (f64::NAN, 0.0)]));
    assert_eq!(is_closed(&nan), Some(false));
    assert_eq!(is_closed(&Geom::Polygon(square_with_hole())), Some(true));
    assert_eq!(is_closed(&Geom::MultiLineString(vec![])), Some(true));
    assert_eq!(is_closed(&pt(0.0, 0.0)), Some(false));
}

#[test]
fn rings_need_four_vertices_and_closure() {
    let tri = Geom::LineString(ring(&[(0.0, 0.0), (1.0, 0.0), (0.0, 1.0), (0.0, 0.0)]));
    assert_eq!(is_ring(&tri), Some(true));
    let short = Geom::LineString(ring(&[(0.0, 0.0), (1.0, 0.0), (0.0, 0.0)]));
    assert_eq!(is_ring(&short), Some(false));
    assert_eq!(is_ring(&Geom::Polygon(square_with_hole())), Some(false));
    // a ring is always closed
    assert_eq!(is_closed(&tri), Some(true));
}

#[test]
fn collections_and_constant_answers() {
    assert_eq!(is_collection(&Geom::MultiPoint(vec![])), Some(true));
    assert_eq!(is_collection(&Geom::GeometryCollection(vec![])), Some(true));
    assert_eq!(is_collection(&Geom::Polygon(square_with_hole())), Some(false));
    let g = pt(3.0, 4.0);
    assert_eq!(coord_dim(&g), Some(2));
    assert_eq!(has_z(&g), Some(false));
    assert_eq!(has_m(&g), Some(false));
    assert_eq!(zm_flag(&g), Some(0));
    assert_eq!(srid(&g), Some(0));
    assert_eq!(set_srid(&g, 4326), Some(pt(3.0, 4.0)));
    assert_eq!(force_2d(&g), Some(pt(3.0, 4.0)));
    assert_eq!(geom_from_wkb(&g), Some(pt(3.0, 4.0)));
}

#[test]
fn indexed_access_is_one_based() {
    let mp = Geom::MultiPoint(ring(&[(1.0, 1.0), (2.0, 2.0), (3.0, 3.0)]));
    assert_eq!(geometry_n(&mp, 1), Some(pt(1.0, 1.0)));
    assert_eq!(geometry_n(&mp, 3), Some(pt(3.0, 3.0)));
    assert_eq!(geometry_n(&mp, 0), None);
    assert_eq!(geometry_n(&mp, 4), None);
    assert_eq!(geometry_n(&mp, -1), None);
    assert_eq!(geometry_n(&mp, i32::MIN), None);
    assert_eq!(geometry_n(&pt(0.0, 0.0), 1), None);
    let gc = Geom::GeometryCollection(vec![pt(5.0, 5.0), Geom::Polygon(square_with_hole())]);
    assert_eq!(geometry_n(&gc, 2), Some(Geom::Polygon(square_with_hole())));

    let ls = Geom::LineString(ring(&[(0.0, 0.0), (1.0, 2.0), (3.0, 4.0)]));
    assert_eq!(point_n(&ls, 2), Some(pt(1.0, 2.0)));
    assert_eq!(point_n(&ls, 4), None);
    assert_eq!(point_n(&ls, 0), None);
    assert_eq!(start_point(&ls), point_n(&ls, 1));
    assert_eq!(end_point(&ls), point_n(&ls, 3));
    assert_eq!(start_point(&Geom::LineString(vec![])), None);
    assert_eq!(end_point(&pt(0.0, 0.0)), None);

    let poly = Geom::Polygon(square_with_hole());
    assert_eq!(
        interior_ring_n(&poly, 1),
        Some(Geom::LineString(ring(&[(1.0, 1.0), (2.0, 1.0), (2.0, 2.0), (1.0, 1.0)])))
    );
    assert_eq!(interior_ring_n(&poly, 2), None);
    assert_eq!(
        exterior_ring(&poly),
        Some(Geom::LineString(ring(&[(0.0, 0.0), (4.0, 0.0), (4.0, 4.0), (0.0, 4.0), (0.0, 0.0)])))
    );
    assert_eq!(exterior_ring(&ls), None);
    assert_eq!(point_coord(&pt(7.0, 8.0)), Some(c(7.0, 8.0)));
    assert_eq!(point_coord(&ls), None);
}

#[test]
fn double_equality_on_bit_patterns() {
    assert!(f64_bits_eq(0.0f64.to_bits(), (-0.0f64).to_bits()));
    assert!(!f64_bits_eq(f64::NAN.to_bits(), f64::NAN.to_bits()));
    assert!(f64_bits_eq(1.5f64.to_bits(), 1.5f64.to_bits()));
    assert!(!f64_bits_eq(1.5f64.to_bits(), 2.5f64.to_bits()));
    assert!(f64_bits_eq(f64::INFINITY.to_bits(), f64::INFINITY.to_bits()));
    assert!(coord_eq(&c(1.0, -0.0), &c(1.0, 0.0)));
    assert!(!coord_eq(&c(1.0, f64::NAN), &c(1.0, f64::NAN)));
}

#[test]
fn deep_copy_is_equal() {
    let g = Geom::GeometryCollection(vec![
        Geom::Polygon(square_with_hole()),
        Geom::GeometryCollection(vec![pt(1.0, 2.0)]),
        Geom::Triangle(c(0.0, 0.0), c(1.0, 0.0), c(0.0, 1.0)),
    ]);
    assert_eq!(clone_geom(&g), g);
}
