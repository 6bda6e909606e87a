use sedonadb::accessors::{is_closed, num_points};
use sedonadb::coord::Coord;
use sedonadb::editing::{all_coords, boundary, make_line, points, reverse_geom, to_multi_polygon};
use sedonadb::geom::{Geom, Polygon};
use sedonadb::repeated::{dedup_vertices, remove_repeated_points};

fn c(x: f64, y: f64) -> Coord {
    Coord { x: x.to_bits(), y: y.to_bits() }
}

fn pt(x: f64, y: f64) -> Geom {
    Geom::Point(c(x, y))
}

fn ring(pts: &[(f64, f64)]) -> Vec<Coord> {
    pts.iter().map(|&(x, y)| c(x, y)).collect()
}

fn square_with_hole() -> Polygon {
    Polygon {
        exterior: ring(&[(0.0, 0.0), (4.0, 0.0), (4.0, 4.0), (0.0, 4.0), (0.0, 0.0)]),
        interiors: vec![ring(&[(1.0, 1.0), (2.0, 1.0), (2.0, 2.0), (1.0, 1.0)])],
    }
}

#[test]
fn reverse_line_string_and_back() {
    let ls = Geom::LineString(ring(&[(0.0, 0.0), (1.0, 2.0), (3.0, 4.0)]));
    let r = reverse_geom(&ls).unwrap();
    assert_eq!(r, Geom::LineString(ring(&[(3.0, 4.0), (1.0, 2.0), (0.0, 0.0)])));
    assert_eq!(reverse_geom(&r).unwrap(), ls);
}

#[test]
fn reverse_polygon_reverses_every_ring() {
    let r = reverse_geom(&Geom::Polygon(square_with_hole())).unwrap();
    assert_eq!(
        r,
        Geom::Polygon(Polygon {
            exterior: ring(&[(0.0, 0.0), (0.0, 4.0), (4.0, 4.0), (4.0, 0.0), (0.0, 0.0)]),
            interiors: vec![ring(&[(1.0, 1.0), (2.0, 2.0), (2.0, 1.0), (1.0, 1.0)])],
        })
    );
    assert_eq!(reverse_geom(&r).unwrap(), Geom::Polygon(square_with_hole()));
}

#[test]
fn reverse_closes_open_polygon_rings() {
    let open = Polygon { exterior: ring(&[(0.0, 0.0), (1.0, 0.0), (1.0, 1.0)]), interiors: vec![] };
    let r = reverse_geom(&Geom::Polygon(open)).unwrap();
    assert_eq!(
        r,
        Geom::Polygon(Polygon {
            exterior: ring(&[(1.0, 1.0), (1.0, 0.0), (0.0, 0.0), (1.0, 1.0)]),
            interiors: vec![],
        })
    );
}

#[test]
fn reverse_multipolygon_and_line() {
    let mp = Geom::MultiPolygon(vec![Polygon {
        exterior: ring(&[(0.0, 0.0), (1.0, 0.0), (1.0, 1.0), (0.0, 0.0)]),
        interiors: vec![],
    }]);
    let r = reverse_geom(&mp).unwrap();
    assert_eq!(
        r,
        Geom::MultiPolygon(vec![Polygon {
            exterior: ring(&[(0.0, 0.0), (1.0, 1.0), (1.0, 0.0), (0.0, 0.0)]),
            interiors: vec![],
        }])
    );
    assert_eq!(reverse_geom(&r).unwrap(), mp);
    let line = Geom::Line(c(0.0, 0.0), c(3.0, 4.0));
    assert_eq!(reverse_geom(&line).unwrap(), Geom::Line(c(3.0, 4.0), c(0.0, 0.0)));
}

#[test]
fn reverse_leaves_other_kinds_alone() {
    let mp = Geom::MultiPoint(ring(&[(0.0, 0.0), (1.0, 1.0)]));
    assert_eq!(reverse_geom(&mp).unwrap(), Geom::MultiPoint(ring(&[(0.0, 0.0), (1.0, 1.0)])));
    let mls = Geom::MultiLineString(vec![ring(&[(0.0, 0.0), (1.0, 1.0)]), vec![]]);
    assert_eq!(
        reverse_geom(&mls).unwrap(),
        Geom::MultiLineString(vec![ring(&[(1.0, 1.0), (0.0, 0.0)]), vec![]])
    );
}

#[test]
fn points_lists_every_vertex_in_order() {
    let g = Geom::GeometryCollection(vec![
        pt(9.0, 9.0),
        Geom::Line(c(1.0, 1.0), c(2.0, 2.0)),
        Geom::Polygon(square_with_hole()),
        Geom::Rect(c(0.0, 0.0), c(5.0, 6.0)),
        Geom::Triangle(c(7.0, 7.0), c(8.0, 7.0), c(7.0, 8.0)),
    ]);
    let mut want = ring(&[(9.0, 9.0), (1.0, 1.0), (2.0, 2.0)]);
    want.extend(square_with_hole().exterior);
    want.extend(square_with_hole().interiors[0].clone());
    let mut stored = want.clone();
    stored.extend(ring(&[(0.0, 0.0), (5.0, 6.0), (7.0, 7.0), (8.0, 7.0), (7.0, 8.0)]));
    assert_eq!(all_coords(&g), stored);
    // a rectangle lists its four corners, counter-clockwise from (max x, min y)
    want.extend(ring(&[(5.0, 0.0), (5.0, 6.0), (0.0, 6.0), (0.0, 0.0), (7.0, 7.0), (8.0, 7.0), (7.0, 8.0)]));
    assert_eq!(points(&g), Some(Geom::MultiPoint(want)));
}

#[test]
fn num_points_matches_points_for_plain_geometries() {
    let g = Geom::GeometryCollection(vec![
        Geom::MultiPolygon(vec![square_with_hole()]),
        Geom::LineString(ring(&[(0.0, 0.0), (1.0, 1.0)])),
    ]);
    let n = match points(&g).unwrap() {
        Geom::MultiPoint(ps) => ps.len(),
        _ => panic!("points gives a multipoint"),
    };
    assert_eq!(num_points(&g), Some(n as i32));
}

#[test]
fn boundary_of_polygon_is_its_rings() {
    let b = boundary(&Geom::Polygon(square_with_hole())).unwrap();
    let p = square_with_hole();
    assert_eq!(b, Geom::MultiLineString(vec![p.exterior.clone(), p.interiors[0].clone()]));
    let bm = boundary(&Geom::MultiPolygon(vec![square_with_hole(), square_with_hole()])).unwrap();
    assert_eq!(
        bm,
        Geom::MultiLineString(vec![
            p.exterior.clone(),
            p.interiors[0].clone(),
            p.exterior.clone(),
            p.interiors[0].clone()
        ])
    );
}

#[test]
fn boundary_of_open_line_is_its_end_points() {
    let ls = Geom::LineString(ring(&[(0.0, 0.0), (1.0, 5.0), (2.0, 3.0)]));
    assert_eq!(boundary(&ls), Some(Geom::MultiPoint(ring(&[(0.0, 0.0), (2.0, 3.0)]))));
}

#[test]
fn boundary_of_closed_or_short_line_is_empty() {
    let closed = Geom::LineString(ring(&[(0.0, 0.0), (1.0, 0.0), (0.0, 0.0)]));
    assert_eq!(is_closed(&closed), Some(true));
    assert_eq!(boundary(&closed), Some(Geom::GeometryCollection(vec![])));
    let one = Geom::LineString(ring(&[(0.0, 0.0)]));
    assert_eq!(boundary(&one), Some(Geom::GeometryCollection(vec![])));
    assert_eq!(boundary(&pt(1.0, 1.0)), Some(Geom::GeometryCollection(vec![])));
    // NaN end points are never equal, so the line counts as open
    let nan = Geom::LineString(ring(&[(f64::NAN, 0.0), (f64::NAN, 0.0)]));
    assert_eq!(boundary(&nan), Some(Geom::MultiPoint(ring(&[(f64::NAN, 0.0), (f64::NAN, 0.0)]))));
}

#[test]
fn make_line_joins_two_points() {
    assert_eq!(
        make_line(&pt(1.0, 2.0), &pt(3.0, 4.0)),
        Some(Geom::LineString(ring(&[(1.0, 2.0), (3.0, 4.0)])))
    );
    assert_eq!(make_line(&pt(1.0, 2.0), &Geom::MultiPoint(vec![])), None);
    assert_eq!(make_line(&Geom::LineString(vec![]), &pt(1.0, 2.0)), None);
}

#[test]
fn polygonal_part_of_geometries() {
    let p = square_with_hole();
    assert_eq!(to_multi_polygon(&Geom::Polygon(square_with_hole())), vec![square_with_hole()]);
    let gc = Geom::GeometryCollection(vec![
        pt(0.0, 0.0),
        Geom::Polygon(square_with_hole()),
        Geom::MultiPolygon(vec![square_with_hole(), Polygon { exterior: vec![], interiors: vec![] }]),
        Geom::GeometryCollection(vec![Geom::Polygon(square_with_hole())]),
    ]);
    assert_eq!(
        to_multi_polygon(&gc),
        vec![p, square_with_hole(), Polygon { exterior: vec![], interiors: vec![] }]
    );
    assert_eq!(to_multi_polygon(&Geom::LineString(vec![])), vec![]);
    assert_eq!(to_multi_polygon(&Geom::Rect(c(0.0, 0.0), c(1.0, 1.0))), vec![]);
}

#[test]
fn repeated_vertices_are_dropped() {
    let ls = Geom::LineString(ring(&[(0.0, 0.0), (0.0, 0.0), (1.0, 1.0), (1.0, 1.0), (1.0, 1.0), (0.0, 0.0)]));
    let r = remove_repeated_points(&ls).unwrap();
    assert_eq!(r, Geom::LineString(ring(&[(0.0, 0.0), (1.0, 1.0), (0.0, 0.0)])));
    // a second pass changes nothing
    assert_eq!(remove_repeated_points(&r).unwrap(), r);
}

#[test]
fn repeated_vertices_follow_double_equality() {
    // -0 repeats +0; NaN never repeats
    let v = ring(&[(0.0, 1.0), (-0.0, 1.0), (f64::NAN, 1.0), (f64::NAN, 1.0)]);
    assert_eq!(dedup_vertices(&v), ring(&[(0.0, 1.0), (f64::NAN, 1.0), (f64::NAN, 1.0)]));
    assert_eq!(dedup_vertices(&vec![]), vec![]);
}

#[test]
fn repeated_vertices_in_polygons_keep_rings_closed() {
    let p = Polygon {
        exterior: ring(&[(0.0, 0.0), (0.0, 0.0), (4.0, 0.0), (4.0, 4.0), (0.0, 0.0)]),
        interiors: vec![ring(&[(1.0, 1.0), (1.0, 1.0)])],
    };
    let r = remove_repeated_points(&Geom::Polygon(p)).unwrap();
    assert_eq!(
        r,
        Geom::Polygon(Polygon {
            exterior: ring(&[(0.0, 0.0), (4.0, 0.0), (4.0, 4.0), (0.0, 0.0)]),
            interiors: vec![ring(&[(1.0, 1.0)])],
        })
    );
    assert_eq!(remove_repeated_points(&r).unwrap(), r);
    let mls = Geom::MultiLineString(vec![ring(&[(2.0, 2.0), (2.0, 2.0)])]);
    assert_eq!(remove_repeated_points(&mls).unwrap(), Geom::MultiLineString(vec![ring(&[(2.0, 2.0)])]));
    let mp = Geom::MultiPoint(ring(&[(2.0, 2.0), (2.0, 2.0)]));
    assert_eq!(remove_repeated_points(&mp).unwrap(), Geom::MultiPoint(ring(&[(2.0, 2.0), (2.0, 2.0)])));
}
