use geo_types::Geometry;
use sedonadb::coord::Coord;
use sedonadb::ewkt::{as_ewkt, ewkt_body, ewkt_text, geom_from_ewkt};
use sedonadb::geojson::as_geojson;
use sedonadb::geom::{Geom, Polygon};
use wkt::TryFromWkt;

fn c(x: f64, y: f64) -> Coord {
    Coord { x: x.to_bits(), y: y.to_bits() }
}

fn ring(pts: &[(f64, f64)]) -> Vec<Coord> {
    pts.iter().map(|&(x, y)| c(x, y)).collect()
}

fn shortest(b: u64) -> String {
    format!("{}", f64::from_bits(b))
}

fn json(g: &Geom) -> String {
    as_geojson(g, &shortest).unwrap()
}

#[test]
fn geojson_point_and_lines() {
    assert_eq!(json(&Geom::Point(c(1.0, 2.5))), r#"{"type":"Point","coordinates":[1,2.5]}"#);
    assert_eq!(
        json(&Geom::LineString(ring(&[(0.0, 0.0), (-1.5, 2.0)]))),
        r#"{"type":"LineString","coordinates":[[0,0],[-1.5,2]]}"#
    );
    assert_eq!(
        json(&Geom::MultiPoint(ring(&[(1.0, 2.0), (3.0, 4.0)]))),
        r#"{"type":"MultiPoint","coordinates":[[1,2],[3,4]]}"#
    );
    assert_eq!(
        json(&Geom::MultiLineString(vec![ring(&[(0.0, 0.0), (1.0, 1.0)]), ring(&[(2.0, 2.0)])])),
        r#"{"type":"MultiLineString","coordinates":[[[0,0],[1,1]],[[2,2]]]}"#
    );
    assert_eq!(json(&Geom::MultiLineString(vec![])), r#"{"type":"MultiLineString","coordinates":[]}"#);
    assert_eq!(json(&Geom::LineString(vec![])), r#"{"type":"LineString","coordinates":[]}"#);
}

#[test]
fn geojson_polygons() {
    let p = Polygon {
        exterior: ring(&[(0.0, 0.0), (4.0, 0.0), (4.0, 4.0), (0.0, 0.0)]),
        interiors: vec![ring(&[(1.0, 1.0), (2.0, 1.0), (2.0, 2.0), (1.0, 1.0)])],
    };
    assert_eq!(
        json(&Geom::Polygon(p)),
        r#"{"type":"Polygon","coordinates":[[[0,0],[4,0],[4,4],[0,0]],[[1,1],[2,1],[2,2],[1,1]]]}"#
    );
    let q = Polygon { exterior: ring(&[(5.0, 5.0), (6.0, 5.0), (5.0, 5.0)]), interiors: vec![] };
    let r = Polygon { exterior: vec![], interiors: vec![] };
    assert_eq!(
        json(&Geom::MultiPolygon(vec![q, r])),
        r#"{"type":"MultiPolygon","coordinates":[[[[5,5],[6,5],[5,5]]],[[]]]}"#
    );
}

#[test]
fn geojson_collection_lists_its_members() {
    let gc = Geom::GeometryCollection(vec![Geom::Point(c(1.0, 2.0))]);
    assert_eq!(
        json(&gc),
        r#"{"type":"GeometryCollection","geometries":[{"type":"Point","coordinates":[1,2]}]}"#
    );
    let nested = Geom::GeometryCollection(vec![
        Geom::Point(c(0.0, 0.0)),
        Geom::GeometryCollection(vec![]),
        Geom::LineString(ring(&[(1.0, 1.0), (2.0, 2.0)])),
    ]);
    assert_eq!(
        json(&nested),
        r#"{"type":"GeometryCollection","geometries":[{"type":"Point","coordinates":[0,0]},{"type":"GeometryCollection","geometries":[]},{"type":"LineString","coordinates":[[1,1],[2,2]]}]}"#
    );
}

#[test]
fn geojson_line_rect_triangle_use_their_shapes() {
    assert_eq!(
        json(&Geom::Line(c(0.0, 0.0), c(1.0, 1.0))),
        r#"{"type":"LineString","coordinates":[[0,0],[1,1]]}"#
    );
    assert_eq!(
        json(&Geom::Rect(c(0.0, 0.0), c(2.0, 1.0))),
        r#"{"type":"Polygon","coordinates":[[[2,0],[2,1],[0,1],[0,0],[2,0]]]}"#
    );
    assert_eq!(
        json(&Geom::Triangle(c(0.0, 0.0), c(1.0, 0.0), c(0.0, 1.0))),
        r#"{"type":"Polygon","coordinates":[[[0,0],[1,0],[0,1],[0,0]]]}"#
    );
}

#[test]
fn geojson_ordinates_come_from_the_formatter() {
    let fixed = |b: u64| format!("{:.1}", f64::from_bits(b));
    assert_eq!(
        as_geojson(&Geom::Point(c(1.0, 2.0)), &fixed).unwrap(),
        r#"{"type":"Point","coordinates":[1.0,2.0]}"#
    );
}

#[test]
fn ewkt_framing() {
    assert_eq!(ewkt_text(4326, "POINT(1 2)"), "SRID=4326;POINT(1 2)");
    assert_eq!(ewkt_text(0, "POINT EMPTY"), "SRID=0;POINT EMPTY");
    assert_eq!(ewkt_text(-7, "X"), "SRID=-7;X");
    assert_eq!(ewkt_text(i32::MIN, ""), "SRID=-2147483648;");
    assert_eq!(ewkt_text(i32::MAX, "P"), "SRID=2147483647;P");
}

#[test]
fn ewkt_body_strips_the_srid() {
    assert_eq!(ewkt_body("SRID=4326;POINT(1 2)"), "POINT(1 2)");
    assert_eq!(ewkt_body("POINT(1 2)"), "POINT(1 2)");
    assert_eq!(ewkt_body("SRID=4326"), "4326");
    assert_eq!(ewkt_body("SRID=;"), "");
    assert_eq!(ewkt_body(""), "");
    assert_eq!(ewkt_body("srid=1;P"), "srid=1;P");
}

#[test]
fn ewkt_round_trip() {
    for srid in [0, 1, 4326, -1, i32::MIN, i32::MAX] {
        for w in ["POINT(1 2)", "", "SRID=5;X", "a;b"] {
            assert_eq!(ewkt_body(&ewkt_text(srid, w)), w);
        }
    }
}

fn wkt_of(g: &Geom) -> Option<String> {
    match g {
        Geom::Point(k) => Some(format!("POINT({} {})", f64::from_bits(k.x), f64::from_bits(k.y))),
        _ => None,
    }
}

#[test]
fn as_ewkt_frames_the_text_writer() {
    assert_eq!(as_ewkt(&Geom::Point(c(1.0, 2.0)), 4326, wkt_of), Some("SRID=4326;POINT(1 2)".to_string()));
    assert_eq!(as_ewkt(&Geom::LineString(vec![]), 4326, wkt_of), None);
}

fn parse_point(s: &str) -> Option<Geom> {
    match Geometry::<f64>::try_from_wkt_str(s).ok()? {
        Geometry::Point(p) => Some(Geom::Point(Coord { x: p.x().to_bits(), y: p.y().to_bits() })),
        _ => None,
    }
}

#[test]
fn geom_from_ewkt_reads_the_body() {
    assert_eq!(geom_from_ewkt("SRID=4326;POINT(1 2)", parse_point), Some(Geom::Point(c(1.0, 2.0))));
    assert_eq!(geom_from_ewkt("POINT(3 4)", parse_point), Some(Geom::Point(c(3.0, 4.0))));
    assert_eq!(geom_from_ewkt("SRID=4326;", parse_point), None);
    assert_eq!(geom_from_ewkt("SRID=4326", parse_point), None);
}

#[test]
fn geom_from_ewkt_discards_any_srid_digits() {
    for n in ["", "0", "0012", "4326", "999999999999"] {
        let s = format!("SRID={n};POINT(1 2)");
        assert_eq!(geom_from_ewkt(&s, parse_point), parse_point("POINT(1 2)"));
    }
    assert_eq!(geom_from_ewkt("POINT(5 6)", parse_point), parse_point("POINT(5 6)"));
}

#[test]
fn as_ewkt_is_the_text_framed() {
    for g in [Geom::Point(c(1.0, 2.0)), Geom::Point(c(-0.5, 3.0)), Geom::MultiPoint(vec![])] {
        for srid in [0, 4326, -1, i32::MIN] {
            assert_eq!(as_ewkt(&g, srid, wkt_of), wkt_of(&g).map(|w| format!("SRID={srid};{w}")));
        }
    }
}
