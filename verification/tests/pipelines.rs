use sedonadb::coord::Coord;
use sedonadb::geom::Geom;
use sedonadb::geos_backend::{build_area, node, polygonize, voronoi_polygons};
use sedonadb::triangulation::{
    delaunay_triangles, delaunay_triangles_from, voronoi_lines, voronoi_lines_from, Triangulation,
};

fn c(x: f64, y: f64) -> Coord {
    Coord { x: x.to_bits(), y: y.to_bits() }
}

fn ring(pts: &[(f64, f64)]) -> Vec<Coord> {
    pts.iter().map(|&(x, y)| c(x, y)).collect()
}

fn delaunator_triangulate(pts: &Vec<Coord>) -> Triangulation {
    let p: Vec<delaunator::Point> = pts
        .iter()
        .map(|k| delaunator::Point { x: f64::from_bits(k.x), y: f64::from_bits(k.y) })
        .collect();
    let t = delaunator::triangulate(&p);
    Triangulation { triangles: t.triangles, halfedges: t.halfedges }
}

fn circumcenter(a: Coord, b: Coord, k: Coord) -> Coord {
    let (ax, ay) = (f64::from_bits(a.x), f64::from_bits(a.y));
    let (bx, by) = (f64::from_bits(b.x), f64::from_bits(b.y));
    let (cx, cy) = (f64::from_bits(k.x), f64::from_bits(k.y));
    let d = 2.0 * (ax * (by - cy) + bx * (cy - ay) + cx * (ay - by));
    if d.abs() < 1e-20 {
        return a;
    }
    let a2 = ax * ax + ay * ay;
    let b2 = bx * bx + by * by;
    let c2 = cx * cx + cy * cy;
    let ux = (a2 * (by - cy) + b2 * (cy - ay) + c2 * (ay - by)) / d;
    let uy = (a2 * (cx - bx) + b2 * (ax - cx) + c2 * (bx - ax)) / d;
    c(ux, uy)
}

fn square_points() -> Geom {
    Geom::MultiPoint(ring(&[(0.0, 0.0), (2.0, 0.0), (2.0, 2.0), (0.0, 2.0)]))
}

#[test]
fn delaunay_of_a_square_has_two_triangles() {
    let g = delaunay_triangles(&square_points(), delaunator_triangulate).expect("three or more points");
    let pts = ring(&[(0.0, 0.0), (2.0, 0.0), (2.0, 2.0), (0.0, 2.0)]);
    match g {
        Geom::GeometryCollection(items) => {
            assert_eq!(items.len(), 2);
            for t in items {
                match t {
                    Geom::Triangle(a, b, k) => {
                        assert!(pts.contains(&a) && pts.contains(&b) && pts.contains(&k));
                    },
                    other => panic!("expected a triangle, got {other:?}"),
                }
            }
        },
        other => panic!("expected a collection, got {other:?}"),
    }
}

#[test]
fn delaunay_needs_three_points() {
    let two = Geom::LineString(ring(&[(0.0, 0.0), (1.0, 1.0)]));
    assert_eq!(delaunay_triangles(&two, delaunator_triangulate), None);
    assert_eq!(voronoi_lines(&two, delaunator_triangulate, circumcenter), None);
}

#[test]
fn delaunay_assembly_follows_the_index_triples() {
    let pts = ring(&[(0.0, 0.0), (1.0, 0.0), (0.0, 1.0), (5.0, 5.0)]);
    // the last, incomplete triple is ignored
    let t = vec![0usize, 1, 2, 3, 2, 1, 0];
    assert_eq!(
        delaunay_triangles_from(&pts, &t),
        Geom::GeometryCollection(vec![
            Geom::Triangle(c(0.0, 0.0), c(1.0, 0.0), c(0.0, 1.0)),
            Geom::Triangle(c(5.0, 5.0), c(0.0, 1.0), c(1.0, 0.0)),
        ])
    );
}

#[test]
fn voronoi_of_a_square_has_one_interior_edge() {
    let g = voronoi_lines(&square_points(), delaunator_triangulate, circumcenter).expect("three or more points");
    assert_eq!(g, Geom::GeometryCollection(vec![Geom::LineString(ring(&[(1.0, 1.0), (1.0, 1.0)]))]));
}

#[test]
fn voronoi_assembly_pairs_twin_half_edges_once() {
    let ccs = ring(&[(1.0, 1.0), (2.0, 2.0)]);
    let e = usize::MAX;
    // half-edge 1 (triangle 0) is the twin of half-edge 4 (triangle 1)
    let h = vec![e, 4, e, e, 1, e];
    assert_eq!(
        voronoi_lines_from(&ccs, &h),
        Geom::GeometryCollection(vec![Geom::LineString(ring(&[(1.0, 1.0), (2.0, 2.0)]))])
    );
    assert_eq!(voronoi_lines_from(&ccs, &vec![e, e, e, e, e, e]), Geom::GeometryCollection(vec![]));
}

fn parse(b: &[u8]) -> Option<Vec<u8>> {
    if b.is_empty() { None } else { Some(b.to_vec()) }
}

fn reverse_op(h: Vec<u8>) -> Option<Vec<u8>> {
    let mut h = h;
    h.reverse();
    Some(h)
}

fn fail_op(_h: Vec<u8>) -> Option<Vec<u8>> {
    None
}

fn write(h: Vec<u8>) -> Option<Vec<u8>> {
    if h.len() > 3 { None } else { Some(h) }
}

#[test]
fn topology_pipelines_return_what_the_steps_produce() {
    assert_eq!(node(&[1, 2, 3], parse, reverse_op, write), Some(vec![3, 2, 1]));
    assert_eq!(polygonize(&[4, 5], parse, reverse_op, write), Some(vec![5, 4]));
    assert_eq!(build_area(&[6], parse, reverse_op, write), Some(vec![6]));
}

#[test]
fn topology_pipelines_fail_closed() {
    // parse fails
    assert_eq!(node(&[], parse, reverse_op, write), None);
    // the operation fails
    assert_eq!(polygonize(&[1], parse, fail_op, write), None);
    // writing fails
    assert_eq!(build_area(&[1, 2, 3, 4], parse, reverse_op, write), None);
}

fn diagram(g: &Vec<u8>, env: Option<&Vec<u8>>) -> Option<Vec<u8>> {
    let mut out = g.clone();
    if let Some(e) = env {
        out.extend_from_slice(e);
    }
    Some(out)
}

#[test]
fn voronoi_polygons_pipeline() {
    assert_eq!(voronoi_polygons(&[1], None, parse, diagram, write), Some(vec![1]));
    assert_eq!(voronoi_polygons(&[1], Some(&[2, 3]), parse, diagram, write), Some(vec![1, 2, 3]));
    // an envelope that does not parse fails the call
    assert_eq!(voronoi_polygons(&[1], Some(&[]), parse, diagram, write), None);
    assert_eq!(voronoi_polygons(&[], None, parse, diagram, write), None);
    assert_eq!(voronoi_polygons(&[1, 2], Some(&[3, 4]), parse, diagram, write), None);
}
