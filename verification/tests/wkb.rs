use geo::ConvexHull;
use geo_types::Geometry;
use sedonadb::coord::Coord;
use sedonadb::geom::{Geom, Polygon};
use sedonadb::wkb::{as_binary, from_wkb, to_wkb, WkbError};
use wkt::{ToWkt, TryFromWkt};

fn c(x: f64, y: f64) -> Coord {
    Coord { x: x.to_bits(), y: y.to_bits() }
}

fn ring(pts: &[(f64, f64)]) -> Vec<Coord> {
    pts.iter().map(|&(x, y)| c(x, y)).collect()
}

fn to_coord(k: geo_types::Coord<f64>) -> Coord {
    Coord { x: k.x.to_bits(), y: k.y.to_bits() }
}

fn from_coord(k: Coord) -> geo_types::Coord<f64> {
    geo_types::Coord { x: f64::from_bits(k.x), y: f64::from_bits(k.y) }
}

fn line_of(ls: &geo_types::LineString<f64>) -> Vec<Coord> {
    ls.0.iter().map(|k| to_coord(*k)).collect()
}

fn poly_of(p: &geo_types::Polygon<f64>) -> Polygon {
    Polygon { exterior: line_of(p.exterior()), interiors: p.interiors().iter().map(line_of).collect() }
}

fn geom_of(g: &Geometry<f64>) -> Geom {
    match g {
        Geometry::Point(p) => Geom::Point(to_coord(p.0)),
        Geometry::Line(l) => Geom::Line(to_coord(l.start), to_coord(l.end)),
        Geometry::LineString(ls) => Geom::LineString(line_of(ls)),
        Geometry::Polygon(p) => Geom::Polygon(poly_of(p)),
        Geometry::MultiPoint(mp) => Geom::MultiPoint(mp.0.iter().map(|p| to_coord(p.0)).collect()),
        Geometry::MultiLineString(m) => Geom::MultiLineString(m.0.iter().map(line_of).collect()),
        Geometry::MultiPolygon(m) => Geom::MultiPolygon(m.0.iter().map(poly_of).collect()),
        Geometry::GeometryCollection(gc) => Geom::GeometryCollection(gc.0.iter().map(geom_of).collect()),
        Geometry::Rect(r) => Geom::Rect(to_coord(r.min()), to_coord(r.max())),
        Geometry::Triangle(t) => Geom::Triangle(to_coord(t.0), to_coord(t.1), to_coord(t.2)),
    }
}

fn geo_line(v: &[Coord]) -> geo_types::LineString<f64> {
    geo_types::LineString(v.iter().map(|k| from_coord(*k)).collect())
}

fn geo_poly(p: &Polygon) -> geo_types::Polygon<f64> {
    geo_types::Polygon::new(geo_line(&p.exterior), p.interiors.iter().map(|r| geo_line(r)).collect())
}

fn geo_of(g: &Geom) -> Geometry<f64> {
    match g {
        Geom::Point(k) => Geometry::Point(geo_types::Point(from_coord(*k))),
        Geom::Line(a, b) => Geometry::Line(geo_types::Line::new(from_coord(*a), from_coord(*b))),
        Geom::LineString(ls) => Geometry::LineString(geo_line(ls)),
        Geom::Polygon(p) => Geometry::Polygon(geo_poly(p)),
        Geom::MultiPoint(ps) => Geometry::MultiPoint(geo_types::MultiPoint(
            ps.iter().map(|k| geo_types::Point(from_coord(*k))).collect(),
        )),
        Geom::MultiLineString(ls) => Geometry::MultiLineString(geo_types::MultiLineString(
            ls.iter().map(|r| geo_line(r)).collect(),
        )),
        Geom::MultiPolygon(ps) => Geometry::MultiPolygon(geo_types::MultiPolygon(ps.iter().map(geo_poly).collect())),
        Geom::GeometryCollection(items) => Geometry::GeometryCollection(geo_types::GeometryCollection(
            items.iter().map(geo_of).collect(),
        )),
        Geom::Rect(a, b) => Geometry::Rect(geo_types::Rect::new(from_coord(*a), from_coord(*b))),
        Geom::Triangle(a, b, k) => Geometry::Triangle(geo_types::Triangle(from_coord(*a), from_coord(*b), from_coord(*k))),
    }
}

fn point_bytes_le(x: f64, y: f64) -> Vec<u8> {
    let mut v = vec![1u8, 1, 0, 0, 0];
    v.extend_from_slice(&x.to_le_bytes());
    v.extend_from_slice(&y.to_le_bytes());
    v
}

#[test]
fn full_pipeline_through_wkb() {
    // from_wkb -> convex hull -> to_wkb, the path every ST_* call takes.
    let tri = Geom::Polygon(Polygon {
        exterior: ring(&[(0.0, 0.0), (4.0, 0.0), (2.0, 4.0), (0.0, 0.0)]),
        interiors: vec![],
    });
    let bytes = to_wkb(&tri).expect("serialize");
    let parsed = from_wkb(&bytes).expect("parse");
    let hull = Geometry::Polygon(geo_of(&parsed).convex_hull());
    let out = to_wkb(&geom_of(&hull)).expect("serialize");
    assert!(from_wkb(&out).is_ok());
}

fn dispatch_roundtrip(wkt_in: &str) -> Option<String> {
    let parsed = Geometry::<f64>::try_from_wkt_str(wkt_in).ok()?;
    let bytes = to_wkb(&geom_of(&parsed)).ok()?;
    let reparsed = from_wkb(&bytes).ok()?;
    Some(geo_of(&reparsed).wkt_string())
}

#[test]
fn isolate_value_dependent_bug() {
    for (wkt, label) in [
        ("POINT(1 2)", "POINT(1 2)"),
        ("POINT(3 4)", "POINT(3 4)"),
        ("POINT(0 0)", "POINT(0 0)"),
        ("POINT(1 0)", "POINT(1 0)"),
        ("POINT(2 0)", "POINT(2 0)"),
        ("POINT(3 0)", "POINT(3 0)"),
        ("POINT(4 0)", "POINT(4 0)"),
        ("POLYGON((0 0,1 0,1 1,0 1,0 0))", "POLYGON(1x1)"),
        ("POLYGON((0 0,4 0,4 4,0 4,0 0))", "POLYGON(4x4)"),
        ("LINESTRING(0 0, 3 4)", "LINESTRING"),
    ] {
        let got = dispatch_roundtrip(wkt);
        assert!(got.is_some(), "ROUNDTRIP FAILED (pure rust) for {label}: {wkt} -> {got:?}");
        println!("{label}: {got:?}");
    }
}

#[test]
fn point_is_written_as_little_endian_iso_wkb() {
    let bytes = to_wkb(&Geom::Point(c(1.0, 2.0))).unwrap();
    assert_eq!(bytes, point_bytes_le(1.0, 2.0));
    assert_eq!(as_binary(&Geom::Point(c(1.0, 2.0))), Some(point_bytes_le(1.0, 2.0)));
}

#[test]
fn line_string_bytes() {
    let bytes = to_wkb(&Geom::LineString(ring(&[(0.0, 0.0), (3.0, 4.0)]))).unwrap();
    let mut want = vec![1u8, 2, 0, 0, 0, 2, 0, 0, 0];
    for v in [0.0f64, 0.0, 3.0, 4.0] {
        want.extend_from_slice(&v.to_le_bytes());
    }
    assert_eq!(bytes, want);
}

#[test]
fn empty_polygon_has_no_rings() {
    let bytes = to_wkb(&Geom::Polygon(Polygon { exterior: vec![], interiors: vec![] })).unwrap();
    assert_eq!(bytes, vec![1u8, 3, 0, 0, 0, 0, 0, 0, 0]);
    assert_eq!(from_wkb(&bytes), Ok(Geom::Polygon(Polygon { exterior: vec![], interiors: vec![] })));
}

#[test]
fn wkb_round_trip_keeps_plain_geometries() {
    let poly = Polygon {
        exterior: ring(&[(0.0, 0.0), (4.0, 0.0), (4.0, 4.0), (0.0, 0.0)]),
        interiors: vec![ring(&[(1.0, 1.0), (2.0, 1.0), (2.0, 2.0), (1.0, 1.0)])],
    };
    let poly2 = Polygon { exterior: ring(&[(9.0, 9.0), (8.0, 9.0), (9.0, 9.0)]), interiors: vec![] };
    let g = Geom::GeometryCollection(vec![
        Geom::Point(c(-1.5, f64::NAN)),
        Geom::MultiPoint(ring(&[(1.0, 2.0), (3.0, 4.0)])),
        Geom::MultiLineString(vec![ring(&[(0.0, 0.0), (1.0, 1.0)]), vec![]]),
        Geom::MultiPolygon(vec![poly, poly2]),
        Geom::GeometryCollection(vec![]),
    ]);
    let bytes = to_wkb(&g).unwrap();
    assert_eq!(from_wkb(&bytes), Ok(g));
}

#[test]
fn wkb_round_trip_normalizes_line_rect_triangle() {
    let bytes = to_wkb(&Geom::Line(c(0.0, 0.0), c(1.0, 2.0))).unwrap();
    assert_eq!(from_wkb(&bytes), Ok(Geom::LineString(ring(&[(0.0, 0.0), (1.0, 2.0)]))));
    let bytes = to_wkb(&Geom::Rect(c(0.0, 0.0), c(2.0, 1.0))).unwrap();
    assert_eq!(
        from_wkb(&bytes),
        Ok(Geom::Polygon(Polygon {
            exterior: ring(&[(2.0, 0.0), (2.0, 1.0), (0.0, 1.0), (0.0, 0.0), (2.0, 0.0)]),
            interiors: vec![],
        }))
    );
    let bytes = to_wkb(&Geom::Triangle(c(0.0, 0.0), c(1.0, 0.0), c(0.0, 1.0))).unwrap();
    assert_eq!(
        from_wkb(&bytes),
        Ok(Geom::Polygon(Polygon {
            exterior: ring(&[(0.0, 0.0), (1.0, 0.0), (0.0, 1.0), (0.0, 0.0)]),
            interiors: vec![],
        }))
    );
}

#[test]
fn big_endian_input_is_read() {
    let mut v = vec![0u8, 0, 0, 0, 1];
    v.extend_from_slice(&1.0f64.to_be_bytes());
    v.extend_from_slice(&2.0f64.to_be_bytes());
    assert_eq!(from_wkb(&v), Ok(Geom::Point(c(1.0, 2.0))));
    let mut ls = vec![0u8, 0, 0, 0, 2, 0, 0, 0, 1];
    ls.extend_from_slice(&5.0f64.to_be_bytes());
    ls.extend_from_slice(&6.0f64.to_be_bytes());
    assert_eq!(from_wkb(&ls), Ok(Geom::LineString(ring(&[(5.0, 6.0)]))));
}

#[test]
fn ewkb_srid_is_skipped() {
    let mut v = vec![1u8, 1, 0, 0, 0x20];
    v.extend_from_slice(&4326u32.to_le_bytes());
    v.extend_from_slice(&1.0f64.to_le_bytes());
    v.extend_from_slice(&2.0f64.to_le_bytes());
    assert_eq!(from_wkb(&v), Ok(Geom::Point(c(1.0, 2.0))));
}

#[test]
fn malformed_input_is_refused() {
    let good = point_bytes_le(1.0, 2.0);
    let mut trailing = good.clone();
    trailing.push(0);
    assert_eq!(from_wkb(&trailing), Err(WkbError::Malformed));
    assert_eq!(from_wkb(&good[..good.len() - 1]), Err(WkbError::Malformed));
    assert_eq!(from_wkb(&[]), Err(WkbError::Malformed));
    let mut bad_order = good.clone();
    bad_order[0] = 2;
    assert_eq!(from_wkb(&bad_order), Err(WkbError::Malformed));
    // ISO Z point (1001) and EWKB Z flag are not 2D geometries
    let mut z = vec![1u8, 0xE9, 0x03, 0, 0];
    z.extend_from_slice(&[0u8; 24]);
    assert_eq!(from_wkb(&z), Err(WkbError::Malformed));
    let mut ez = vec![1u8, 1, 0, 0, 0x80];
    ez.extend_from_slice(&[0u8; 24]);
    assert_eq!(from_wkb(&ez), Err(WkbError::Malformed));
    // unknown type code
    let mut t8 = vec![1u8, 8, 0, 0, 0];
    t8.extend_from_slice(&[0u8; 4]);
    assert_eq!(from_wkb(&t8), Err(WkbError::Malformed));
    // a count that runs past the end
    assert_eq!(from_wkb(&[1u8, 2, 0, 0, 0, 0xff, 0xff, 0xff, 0xff]), Err(WkbError::Malformed));
    // EWKB SRID flag without the SRID
    assert_eq!(from_wkb(&[1u8, 1, 0, 0, 0x20]), Err(WkbError::Malformed));
}
