//! The fail-closed pipelines of the GEOS-backed topology operations:
//! WKB bytes in → GEOS geometry → operation → WKB bytes out. The three GEOS
//! steps are handed in by the caller (the GEOS library is linked outside this
//! crate); any step that fails makes the whole result `None`, so the caller
//! emits NULL and never a wrong geometry.

use vstd::prelude::*;

verus! {

/// What a fail-closed unary pipeline may return: bytes that `write` produced
/// from what `op` made of what `parse` read, or `None` when one of the three
/// steps returned `None`.
pub open spec fn unary_outcome<H, P, O, W>(parse: P, op: O, write: W, wkb: &[u8], r: Option<Vec<u8>>) -> bool where
    P: Fn(&[u8]) -> Option<H>,
    O: Fn(H) -> Option<H>,
    W: Fn(H) -> Option<Vec<u8>>,
 {
    match r {
        Some(b) => exists|h1: H, h2: H|
            call_ensures(parse, (wkb,), Some(h1)) && call_ensures(op, (h1,), Some(h2))
                && call_ensures(write, (h2,), Some(b)),
        None => call_ensures(parse, (wkb,), None::<H>) || exists|h1: H|
            call_ensures(parse, (wkb,), Some(h1)) && (call_ensures(op, (h1,), None::<H>) || exists|h2: H|
                call_ensures(op, (h1,), Some(h2)) && call_ensures(write, (h2,), None::<Vec<u8>>)),
    }
}

/// A unary topology operation as a fail-closed pipeline: `parse` the input
/// WKB, apply `op`, `write` the result as WKB.
fn unary_pipeline<H, P, O, W>(wkb: &[u8], parse: P, op: O, write: W) -> (r: Option<Vec<u8>>) where
    P: Fn(&[u8]) -> Option<H>,
    O: Fn(H) -> Option<H>,
    W: Fn(H) -> Option<Vec<u8>>,

    requires
        call_requires(parse, (wkb,)),
        forall|h: H| call_requires(op, (h,)),
        forall|h: H| call_requires(write, (h,)),
    ensures
        unary_outcome(parse, op, write, wkb, r),
{
    let g = match parse(wkb) {
        Some(g) => g,
        None => return None,
    };
    let out = match op(g) {
        Some(o) => o,
        None => return None,
    };
    write(out)
}

/// `ST_Node` — add nodes at every intersection of the linework, returning a
/// noded MultiLineString: parse, node, write; `None` when any step fails.
pub fn node<H, P, O, W>(wkb: &[u8], parse: P, node_op: O, write: W) -> (r: Option<Vec<u8>>) where
    P: Fn(&[u8]) -> Option<H>,
    O: Fn(H) -> Option<H>,
    W: Fn(H) -> Option<Vec<u8>>,

    requires
        call_requires(parse, (wkb,)),
        forall|h: H| call_requires(node_op, (h,)),
        forall|h: H| call_requires(write, (h,)),
    ensures
        unary_outcome(parse, node_op, write, wkb, r),
{
    unary_pipeline(wkb, parse, node_op, write)
}

/// `ST_Polygonize` — form a MultiPolygon from all constituent linestrings
/// that can be rings: parse, polygonize, write; `None` when any step fails.
pub fn polygonize<H, P, O, W>(wkb: &[u8], parse: P, polygonize_op: O, write: W) -> (r: Option<Vec<u8>>) where
    P: Fn(&[u8]) -> Option<H>,
    O: Fn(H) -> Option<H>,
    W: Fn(H) -> Option<Vec<u8>>,

    requires
        call_requires(parse, (wkb,)),
        forall|h: H| call_requires(polygonize_op, (h,)),
        forall|h: H| call_requires(write, (h,)),
    ensures
        unary_outcome(parse, polygonize_op, write, wkb, r),
{
    unary_pipeline(wkb, parse, polygonize_op, write)
}

/// `ST_BuildArea` — build an areal geometry from the linework of the input:
/// parse, build the area, write; `None` when any step fails.
pub fn build_area<H, P, O, W>(wkb: &[u8], parse: P, build_area_op: O, write: W) -> (r: Option<Vec<u8>>) where
    P: Fn(&[u8]) -> Option<H>,
    O: Fn(H) -> Option<H>,
    W: Fn(H) -> Option<Vec<u8>>,

    requires
        call_requires(parse, (wkb,)),
        forall|h: H| call_requires(build_area_op, (h,)),
        forall|h: H| call_requires(write, (h,)),
    ensures
        unary_outcome(parse, build_area_op, write, wkb, r),
{
    unary_pipeline(wkb, parse, build_area_op, write)
}

/// After the sites parsed to `g`: the envelope failed to parse, or the
/// diagram failed, or writing it failed.
pub open spec fn voronoi_step_failed<H, P, V, W>(parse: P, voronoi: V, write: W, g: &H, extend_to: Option<&[u8]>) -> bool where
    P: Fn(&[u8]) -> Option<H>,
    V: Fn(&H, Option<&H>) -> Option<H>,
    W: Fn(H) -> Option<Vec<u8>>,
 {
    match extend_to {
        None => call_ensures(voronoi, (g, None::<&H>), None::<H>) || exists|d: H|
            call_ensures(voronoi, (g, None::<&H>), Some(d)) && call_ensures(write, (d,), None::<Vec<u8>>),
        Some(env_wkb) => call_ensures(parse, (env_wkb,), None::<H>) || exists|e: H|
            call_ensures(parse, (env_wkb,), Some(e)) && (call_ensures(voronoi, (g, Some(&e)), None::<H>) || exists|d: H|
                call_ensures(voronoi, (g, Some(&e)), Some(d)) && call_ensures(write, (d,), None::<Vec<u8>>)),
    }
}

/// `ST_VoronoiPolygons` — bounded Voronoi diagram of the input points: parse
/// the sites, parse the optional envelope to extend the diagram to (a present
/// envelope that fails to parse fails the whole call), compute the diagram,
/// write it. The snapping tolerance travels inside `voronoi`.
pub fn voronoi_polygons<H, P, V, W>(wkb: &[u8], extend_to: Option<&[u8]>, parse: P, voronoi: V, write: W) -> (r: Option<Vec<u8>>) where
    P: Fn(&[u8]) -> Option<H>,
    V: Fn(&H, Option<&H>) -> Option<H>,
    W: Fn(H) -> Option<Vec<u8>>,

    requires
        forall|b: &[u8]| call_requires(parse, (b,)),
        forall|h: &H, e: Option<&H>| call_requires(voronoi, (h, e)),
        forall|h: H| call_requires(write, (h,)),
    ensures
        r matches Some(b) ==> exists|g: H, d: H|
            #![trigger call_ensures(parse, (wkb,), Some(g)), call_ensures(write, (d,), Some(b))]
            call_ensures(parse, (wkb,), Some(g)) && call_ensures(write, (d,), Some(b)) && match extend_to {
                None => call_ensures(voronoi, (&g, None::<&H>), Some(d)),
                Some(env_wkb) => exists|e: H| call_ensures(parse, (env_wkb,), Some(e)) && call_ensures(voronoi, (&g, Some(&e)), Some(d)),
            },
        r is None ==> call_ensures(parse, (wkb,), None::<H>) || exists|g: H|
            #![trigger call_ensures(parse, (wkb,), Some(g))]
            call_ensures(parse, (wkb,), Some(g)) && voronoi_step_failed(parse, voronoi, write, &g, extend_to),
{
    let g = match parse(wkb) {
        Some(g) => g,
        None => return None,
    };
    let result = match extend_to {
        Some(env_wkb) => {
            let e = match parse(env_wkb) {
                Some(e) => e,
                None => return None,
            };
            match voronoi(&g, Some(&e)) {
                Some(d) => {
                    assert(exists|e2: H| call_ensures(parse, (env_wkb,), Some(e2)) && call_ensures(voronoi, (&g, Some(&e2)), Some(d))) by {
                        assert(call_ensures(parse, (env_wkb,), Some(e)) && call_ensures(voronoi, (&g, Some(&e)), Some(d)));
                    }
                    d
                },
                None => return None,
            }
        },
        None => match voronoi(&g, None) {
            Some(d) => d,
            None => return None,
        },
    };
    let r = write(result);
    proof {
        if let Some(b) = &r {
            assert(match extend_to {
                None => call_ensures(voronoi, (&g, None::<&H>), Some(result)),
                Some(env_wkb) => exists|e: H| call_ensures(parse, (env_wkb,), Some(e)) && call_ensures(voronoi, (&g, Some(&e)), Some(result)),
            });
            assert(call_ensures(parse, (wkb,), Some(g)) && call_ensures(write, (result,), Some(*b)));
        }
    }
    r
}

} // verus!
