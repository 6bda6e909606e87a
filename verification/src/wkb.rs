//! ISO Well-Known Binary (2D) codec for [`Geom`].
//!
//! Reading accepts either byte order at every geometry header and the EWKB
//! SRID flag (the SRID is read and dropped: geometries here carry no SRID).
//! Z/M geometries, unknown type codes, truncated input, members of the wrong
//! type inside a multi-geometry and trailing bytes are refused (fail closed).
//! Writing emits little-endian ISO WKB.

use vstd::prelude::*;
use crate::coord::Coord;
use crate::geom::{Geom, GeomModel, Polygon, PolygonModel, geoms_view, lemma_geoms_view, polygons_view, rings_view};

verus! {

// ----- integers in byte sequences -----------------------------------------------

/// The `u32` whose little-endian bytes are `b0 b1 b2 b3`.
pub open spec fn u32_from_le(b0: u8, b1: u8, b2: u8, b3: u8) -> u32 {
    (b0 as u32) | ((b1 as u32) << 8u32) | ((b2 as u32) << 16u32) | ((b3 as u32) << 24u32)
}

/// The `u64` whose little-endian bytes are `b0 .. b7`.
pub open spec fn u64_from_le(b0: u8, b1: u8, b2: u8, b3: u8, b4: u8, b5: u8, b6: u8, b7: u8) -> u64 {
    (b0 as u64) | ((b1 as u64) << 8u64) | ((b2 as u64) << 16u64) | ((b3 as u64) << 24u64)
        | ((b4 as u64) << 32u64) | ((b5 as u64) << 40u64) | ((b6 as u64) << 48u64)
        | ((b7 as u64) << 56u64)
}

/// The `u32` stored at `pos` in byte order `le` (little endian when true).
pub open spec fn read_u32_spec(s: Seq<u8>, pos: int, le: bool) -> u32 {
    if le {
        u32_from_le(s[pos], s[pos + 1], s[pos + 2], s[pos + 3])
    } else {
        u32_from_le(s[pos + 3], s[pos + 2], s[pos + 1], s[pos])
    }
}

/// The `u64` stored at `pos` in byte order `le`.
pub open spec fn read_u64_spec(s: Seq<u8>, pos: int, le: bool) -> u64 {
    if le {
        u64_from_le(s[pos], s[pos + 1], s[pos + 2], s[pos + 3], s[pos + 4], s[pos + 5], s[pos + 6], s[pos + 7])
    } else {
        u64_from_le(s[pos + 7], s[pos + 6], s[pos + 5], s[pos + 4], s[pos + 3], s[pos + 2], s[pos + 1], s[pos])
    }
}

/// The coordinate stored at `pos`: two doubles, x then y.
pub open spec fn read_coord_spec(s: Seq<u8>, pos: int, le: bool) -> Coord {
    Coord { x: read_u64_spec(s, pos, le), y: read_u64_spec(s, pos + 8, le) }
}

fn read_u32(s: &[u8], pos: usize, le: bool) -> (r: u32)
    requires
        pos + 4 <= s.len(),
    ensures
        r == read_u32_spec(s@, pos as int, le),
{
    if le {
        (s[pos] as u32) | ((s[pos + 1] as u32) << 8u32) | ((s[pos + 2] as u32) << 16u32)
            | ((s[pos + 3] as u32) << 24u32)
    } else {
        (s[pos + 3] as u32) | ((s[pos + 2] as u32) << 8u32) | ((s[pos + 1] as u32) << 16u32)
            | ((s[pos] as u32) << 24u32)
    }
}

fn read_u64(s: &[u8], pos: usize, le: bool) -> (r: u64)
    requires
        pos + 8 <= s.len(),
    ensures
        r == read_u64_spec(s@, pos as int, le),
{
    if le {
        (s[pos] as u64) | ((s[pos + 1] as u64) << 8u64) | ((s[pos + 2] as u64) << 16u64)
            | ((s[pos + 3] as u64) << 24u64) | ((s[pos + 4] as u64) << 32u64)
            | ((s[pos + 5] as u64) << 40u64) | ((s[pos + 6] as u64) << 48u64)
            | ((s[pos + 7] as u64) << 56u64)
    } else {
        (s[pos + 7] as u64) | ((s[pos + 6] as u64) << 8u64) | ((s[pos + 5] as u64) << 16u64)
            | ((s[pos + 4] as u64) << 24u64) | ((s[pos + 3] as u64) << 32u64)
            | ((s[pos + 2] as u64) << 40u64) | ((s[pos + 1] as u64) << 48u64)
            | ((s[pos] as u64) << 56u64)
    }
}

fn read_coord(s: &[u8], pos: usize, le: bool) -> (r: Coord)
    requires
        pos + 16 <= s.len(),
    ensures
        r == read_coord_spec(s@, pos as int, le),
{
    Coord { x: read_u64(s, pos, le), y: read_u64(s, pos + 8, le) }
}

// ----- the grammar ---------------------------------------------------------------------

/// WKB type codes of the 2D geometry types.
pub open spec fn is_base_code(code: u32) -> bool {
    1 <= code <= 7
}

/// A geometry header at `pos`: byte order flag (0 big, 1 little endian) and
/// type word. The type word is a 2D code 1..7, possibly carrying the EWKB SRID
/// flag `0x20000000`, in which case a 4-byte SRID follows and is skipped.
/// Yields the byte order, the type code and the position after the header.
pub open spec fn parse_header(s: Seq<u8>, pos: int) -> Option<(bool, u32, int)> {
    if pos < 0 || pos + 5 > s.len() || s[pos] > 1 {
        None
    } else {
        let le = s[pos] == 1;
        let t = read_u32_spec(s, pos + 1, le);
        if is_base_code(t) {
            Some((le, t, pos + 5))
        } else if 0x2000_0001 <= t <= 0x2000_0007 && pos + 9 <= s.len() {
            Some((le, (t - 0x2000_0000) as u32, pos + 9))
        } else {
            None
        }
    }
}

/// `n` coordinates stored back to back from `pos`.
pub open spec fn coords_at(s: Seq<u8>, pos: int, n: nat, le: bool) -> Seq<Coord> {
    Seq::new(n, |i: int| read_coord_spec(s, pos + 16 * i, le))
}

/// A point sequence at `pos`: a `u32` count, then that many coordinates.
pub open spec fn parse_coords(s: Seq<u8>, pos: int, le: bool) -> Option<(Seq<Coord>, int)> {
    if pos < 0 || pos + 4 > s.len() {
        None
    } else {
        let n = read_u32_spec(s, pos, le);
        if pos + 4 + 16 * n > s.len() {
            None
        } else {
            Some((coords_at(s, pos + 4, n as nat, le), pos + 4 + 16 * n))
        }
    }
}

/// `k` point sequences in a row from `pos`.
pub open spec fn parse_rings(s: Seq<u8>, pos: int, k: nat, le: bool) -> Option<(Seq<Seq<Coord>>, int)>
    decreases k,
{
    if k == 0 {
        Some((Seq::empty(), pos))
    } else {
        match parse_rings(s, pos, (k - 1) as nat, le) {
            Some((rs, p)) => match parse_coords(s, p, le) {
                Some((r, q)) => Some((rs.push(r), q)),
                None => None,
            },
            None => None,
        }
    }
}

/// The polygon that a ring list makes: the first ring is the exterior, the
/// rest are holes; no ring at all is the empty polygon.
pub open spec fn polygon_of_rings(rs: Seq<Seq<Coord>>) -> PolygonModel {
    if rs.len() == 0 {
        PolygonModel { exterior: Seq::empty(), interiors: Seq::empty() }
    } else {
        PolygonModel { exterior: rs[0], interiors: rs.subrange(1, rs.len() as int) }
    }
}

/// A polygon body at `pos`: a `u32` ring count, then the rings.
pub open spec fn parse_polygon_body(s: Seq<u8>, pos: int, le: bool) -> Option<(PolygonModel, int)> {
    if pos < 0 || pos + 4 > s.len() {
        None
    } else {
        match parse_rings(s, pos + 4, read_u32_spec(s, pos, le) as nat, le) {
            Some((rs, q)) => Some((polygon_of_rings(rs), q)),
            None => None,
        }
    }
}

/// A member of a multi-geometry of type `code` must have the matching
/// single type (4 holds points, 5 line strings, 6 polygons); a collection (7)
/// holds anything.
pub open spec fn member_fits(code: u32, m: GeomModel) -> bool {
    if code == 4 {
        m is Point
    } else if code == 5 {
        m is LineString
    } else if code == 6 {
        m is Polygon
    } else {
        true
    }
}

/// One complete geometry at `pos`, and the position after it.
pub open spec fn parse_geom(s: Seq<u8>, pos: int) -> Option<(GeomModel, int)>
    decreases s.len() - pos, 0nat,
{
    if pos < 0 || pos > s.len() {
        None
    } else {
        match parse_header(s, pos) {
            None => None,
            Some((le, code, p)) => if code == 1 {
                if p + 16 > s.len() {
                    None
                } else {
                    Some((GeomModel::Point(read_coord_spec(s, p, le)), p + 16))
                }
            } else if code == 2 {
                match parse_coords(s, p, le) {
                    Some((cs, q)) => Some((GeomModel::LineString(cs), q)),
                    None => None,
                }
            } else if code == 3 {
                match parse_polygon_body(s, p, le) {
                    Some((poly, q)) => Some((GeomModel::Polygon(poly), q)),
                    None => None,
                }
            } else if p + 4 > s.len() {
                None
            } else {
                match parse_members(s, p + 4, read_u32_spec(s, p, le) as nat, code) {
                    Some((ms, q)) => Some((multi_of_members(code, ms), q)),
                    None => None,
                }
            },
        }
    }
}

/// `k` member geometries in a row from `pos`, each fitting type `code`.
pub open spec fn parse_members(s: Seq<u8>, pos: int, k: nat, code: u32) -> Option<(Seq<GeomModel>, int)>
    decreases s.len() - pos, k + 1,
{
    if pos < 0 || pos > s.len() {
        None
    } else if k == 0 {
        Some((Seq::empty(), pos))
    } else {
        match parse_members(s, pos, (k - 1) as nat, code) {
            Some((ms, p)) => if pos <= p <= s.len() {
                match parse_geom(s, p) {
                    Some((m, q)) => if member_fits(code, m) {
                        Some((ms.push(m), q))
                    } else {
                        None
                    },
                    None => None,
                }
            } else {
                None
            },
            None => None,
        }
    }
}

/// The multi-geometry of type `code` made of the parsed members.
pub open spec fn multi_of_members(code: u32, ms: Seq<GeomModel>) -> GeomModel {
    if code == 4 {
        GeomModel::MultiPoint(ms.map_values(|m: GeomModel| m->Point_0))
    } else if code == 5 {
        GeomModel::MultiLineString(ms.map_values(|m: GeomModel| m->LineString_0))
    } else if code == 6 {
        GeomModel::MultiPolygon(ms.map_values(|m: GeomModel| m->Polygon_0))
    } else {
        GeomModel::GeometryCollection(ms)
    }
}

/// The geometry that a complete WKB buffer holds: one geometry that uses up
/// every byte.
pub open spec fn decode_spec(s: Seq<u8>) -> Option<GeomModel> {
    match parse_geom(s, 0) {
        Some((g, q)) => if q == s.len() {
            Some(g)
        } else {
            None
        },
        None => None,
    }
}


// ----- facts about the grammar -----------------------------------------------------

/// Parsed rings end within the buffer, after where they start, and number `k`.
pub proof fn lemma_parse_rings_bounds(s: Seq<u8>, pos: int, k: nat, le: bool)
    requires
        0 <= pos <= s.len(),
    ensures
        parse_rings(s, pos, k, le) matches Some((rs, q)) ==> pos <= q <= s.len() && rs.len() == k,
    decreases k,
{
    if k > 0 {
        lemma_parse_rings_bounds(s, pos, (k - 1) as nat, le);
    }
}

/// Once `k` rings fail to parse, more rings fail too.
pub proof fn lemma_parse_rings_fail(s: Seq<u8>, pos: int, k: nat, k2: nat, le: bool)
    requires
        k <= k2,
        parse_rings(s, pos, k, le) is None,
    ensures
        parse_rings(s, pos, k2, le) is None,
    decreases k2,
{
    if k < k2 {
        lemma_parse_rings_fail(s, pos, k, (k2 - 1) as nat, le);
    }
}

/// A parsed geometry ends within the buffer and strictly after where it starts.
pub proof fn lemma_parse_geom_bounds(s: Seq<u8>, pos: int)
    ensures
        parse_geom(s, pos) matches Some((g, q)) ==> pos < q <= s.len(),
    decreases s.len() - pos, 0nat,
{
    if 0 <= pos <= s.len() {
        if let Some((le, code, p)) = parse_header(s, pos) {
            if code == 3 && p + 4 <= s.len() {
                lemma_parse_rings_bounds(s, p + 4, read_u32_spec(s, p, le) as nat, le);
            } else if 4 <= code && p + 4 <= s.len() {
                lemma_parse_members_bounds(s, p + 4, read_u32_spec(s, p, le) as nat, code);
            }
        }
    }
}

/// Parsed members end within the buffer, not before where they start, and number `k`.
pub proof fn lemma_parse_members_bounds(s: Seq<u8>, pos: int, k: nat, code: u32)
    ensures
        parse_members(s, pos, k, code) matches Some((ms, q)) ==> pos <= q <= s.len() && ms.len() == k,
    decreases s.len() - pos, k + 1,
{
    if 0 <= pos <= s.len() && k > 0 {
        lemma_parse_members_bounds(s, pos, (k - 1) as nat, code);
        if let Some((ms, p)) = parse_members(s, pos, (k - 1) as nat, code) {
            if pos <= p <= s.len() {
                lemma_parse_geom_bounds(s, p);
            }
        }
    }
}

/// Once `k` members fail to parse, more members fail too.
pub proof fn lemma_parse_members_fail(s: Seq<u8>, pos: int, k: nat, k2: nat, code: u32)
    requires
        0 <= pos <= s.len(),
        k <= k2,
        parse_members(s, pos, k, code) is None,
    ensures
        parse_members(s, pos, k2, code) is None,
    decreases k2,
{
    if k < k2 {
        lemma_parse_members_fail(s, pos, k, (k2 - 1) as nat, code);
    }
}

// ----- reading ---------------------------------------------------------------------------

/// Why a byte buffer is not a geometry, or a geometry not a byte buffer.
#[derive(Debug, Clone, Copy, PartialEq, Eq)]
pub enum WkbError {
    /// The bytes are not one complete 2D ISO/EWKB geometry.
    Malformed,
    /// A count of the geometry does not fit the 32-bit counts of WKB.
    TooLarge,
}

fn parse_header_exec(s: &[u8], pos: usize) -> (r: Option<(bool, u32, usize)>)
    requires
        pos <= s.len(),
    ensures
        r matches Some((le, code, p)) ==> parse_header(s@, pos as int) == Some((le, code, p as int)),
        r is None ==> parse_header(s@, pos as int) is None,
{
    if s.len() - pos < 5 || s[pos] > 1 {
        return None;
    }
    let le = s[pos] == 1;
    let t = read_u32(s, pos + 1, le);
    if 1 <= t && t <= 7 {
        Some((le, t, pos + 5))
    } else if 0x2000_0001 <= t && t <= 0x2000_0007 && s.len() - pos >= 9 {
        Some((le, t - 0x2000_0000, pos + 9))
    } else {
        None
    }
}

fn parse_coords_exec(s: &[u8], pos: usize, le: bool) -> (r: Option<(Vec<Coord>, usize)>)
    requires
        pos <= s.len(),
    ensures
        r matches Some((v, q)) ==> parse_coords(s@, pos as int, le) == Some((v@, q as int)),
        r is None ==> parse_coords(s@, pos as int, le) is None,
{
    if s.len() - pos < 4 {
        return None;
    }
    let n = read_u32(s, pos, le);
    let avail = s.len() - pos - 4;
    if (n as usize) > avail / 16 {
        assert(pos + 4 + 16 * n > s.len()) by (nonlinear_arith)
            requires
                n > avail / 16,
                avail == s.len() - pos - 4,
        ;
        return None;
    }
    assert(16 * n <= avail) by (nonlinear_arith)
        requires
            n <= avail / 16,
    ;
    let mut v: Vec<Coord> = Vec::new();
    let mut i: u32 = 0;
    let mut p: usize = pos + 4;
    while i < n
        invariant
            i <= n,
            16 * n <= avail,
            avail == s.len() - pos - 4,
            p == pos + 4 + 16 * i,
            v@ =~= coords_at(s@, pos + 4, i as nat, le),
        decreases n - i,
    {
        let c = read_coord(s, p, le);
        v.push(c);
        i = i + 1;
        p = p + 16;
    }
    Some((v, p))
}

fn parse_polygon_body_exec(s: &[u8], pos: usize, le: bool) -> (r: Option<(Polygon, usize)>)
    requires
        pos <= s.len(),
    ensures
        r matches Some((poly, q)) ==> parse_polygon_body(s@, pos as int, le) == Some((poly@, q as int)),
        r is None ==> parse_polygon_body(s@, pos as int, le) is None,
{
    if s.len() - pos < 4 {
        return None;
    }
    let nr = read_u32(s, pos, le);
    let mut rings: Vec<Vec<Coord>> = Vec::new();
    let mut i: u32 = 0;
    let mut p: usize = pos + 4;
    while i < nr
        invariant
            i <= nr,
            nr == read_u32_spec(s@, pos as int, le),
            pos + 4 <= s.len(),
            p <= s.len(),
            parse_rings(s@, pos + 4, i as nat, le) == Some((rings_view(rings@), p as int)),
        decreases nr - i,
    {
        match parse_coords_exec(s, p, le) {
            Some((r, q)) => {
                proof {
                    lemma_parse_rings_bounds(s@, pos + 4, (i + 1) as nat, le);
                }
                let ghost prev = rings@;
                rings.push(r);
                assert(rings_view(rings@) =~= rings_view(prev).push(r@));
                i = i + 1;
                p = q;
            },
            None => {
                proof {
                    lemma_parse_rings_fail(s@, pos + 4, (i + 1) as nat, nr as nat, le);
                }
                return None;
            },
        }
    }
    let ghost rv = rings_view(rings@);
    if rings.len() == 0 {
        let poly = Polygon { exterior: Vec::new(), interiors: Vec::new() };
        assert(poly@.exterior =~= Seq::<Coord>::empty());
        assert(poly@.interiors =~= Seq::<Seq<Coord>>::empty());
        Some((poly, p))
    } else {
        let ext = rings.remove(0);
        assert(rings_view(rings@) =~= rv.subrange(1, rv.len() as int));
        assert(ext@ == rv[0]);
        let poly = Polygon { exterior: ext, interiors: rings };
        assert(poly@ == polygon_of_rings(rv));
        Some((poly, p))
    }
}


fn parse_geom_at(s: &[u8], pos: usize) -> (r: Option<(Geom, usize)>)
    requires
        pos <= s.len(),
    ensures
        r matches Some((g, q)) ==> parse_geom(s@, pos as int) == Some((g@, q as int)),
        r is None ==> parse_geom(s@, pos as int) is None,
    decreases s.len() - pos,
{
    let (le, code, p) = match parse_header_exec(s, pos) {
        Some(h) => h,
        None => return None,
    };
    if code == 1 {
        if s.len() - p < 16 {
            return None;
        }
        let c = read_coord(s, p, le);
        Some((Geom::Point(c), p + 16))
    } else if code == 2 {
        match parse_coords_exec(s, p, le) {
            Some((cs, q)) => Some((Geom::LineString(cs), q)),
            None => None,
        }
    } else if code == 3 {
        match parse_polygon_body_exec(s, p, le) {
            Some((poly, q)) => Some((Geom::Polygon(poly), q)),
            None => None,
        }
    } else {
        if s.len() - p < 4 {
            return None;
        }
        let n = read_u32(s, p, le);
        let start = p + 4;
        let mut pts: Vec<Coord> = Vec::new();
        let mut lines: Vec<Vec<Coord>> = Vec::new();
        let mut polys: Vec<Polygon> = Vec::new();
        let mut items: Vec<Geom> = Vec::new();
        let ghost mut ms: Seq<GeomModel> = Seq::empty();
        proof {
            assert(pts@ =~= ms.map_values(|m: GeomModel| m->Point_0));
            assert(rings_view(lines@) =~= ms.map_values(|m: GeomModel| m->LineString_0));
            assert(polygons_view(polys@) =~= ms.map_values(|m: GeomModel| m->Polygon_0));
            assert(geoms_view(items@) =~= ms);
        }
        let mut i: u32 = 0;
        let mut q: usize = start;
        while i < n
            invariant
                i <= n,
                n == read_u32_spec(s@, p as int, le),
                parse_header(s@, pos as int) == Some((le, code, p as int)),
                4 <= code <= 7,
                start == p + 4,
                pos < start <= q <= s.len(),
                parse_members(s@, start as int, i as nat, code) == Some((ms, q as int)),
                code == 4 ==> pts@ == ms.map_values(|m: GeomModel| m->Point_0),
                code == 5 ==> rings_view(lines@) == ms.map_values(|m: GeomModel| m->LineString_0),
                code == 6 ==> polygons_view(polys@) == ms.map_values(|m: GeomModel| m->Polygon_0),
                code == 7 ==> geoms_view(items@) == ms,
            decreases n - i,
        {
            match parse_geom_at(s, q) {
                Some((m, q2)) => {
                    proof {
                        lemma_parse_geom_bounds(s@, q as int);
                    }
                    let ghost mm = m@;
                    let ghost ms2 = ms.push(mm);
                    if code == 4 {
                        match m {
                            Geom::Point(c) => {
                                pts.push(c);
                                assert(pts@ =~= ms2.map_values(|m: GeomModel| m->Point_0));
                            },
                            _ => {
                                proof {
                                    lemma_parse_members_fail(s@, start as int, (i + 1) as nat, n as nat, code);
                                }
                                return None;
                            },
                        }
                    } else if code == 5 {
                        match m {
                            Geom::LineString(v) => {
                                let ghost prev = lines@;
                                lines.push(v);
                                assert(rings_view(lines@) =~= rings_view(prev).push(mm->LineString_0));
                                assert(rings_view(lines@) =~= ms2.map_values(|m: GeomModel| m->LineString_0));
                            },
                            _ => {
                                proof {
                                    lemma_parse_members_fail(s@, start as int, (i + 1) as nat, n as nat, code);
                                }
                                return None;
                            },
                        }
                    } else if code == 6 {
                        match m {
                            Geom::Polygon(pg) => {
                                let ghost prev = polys@;
                                polys.push(pg);
                                assert(polygons_view(polys@) =~= polygons_view(prev).push(mm->Polygon_0));
                                assert(polygons_view(polys@) =~= ms2.map_values(|m: GeomModel| m->Polygon_0));
                            },
                            _ => {
                                proof {
                                    lemma_parse_members_fail(s@, start as int, (i + 1) as nat, n as nat, code);
                                }
                                return None;
                            },
                        }
                    } else {
                        let ghost prev = items@;
                        items.push(m);
                        assert(items@.subrange(0, items@.len() - 1) =~= prev);
                        assert(geoms_view(items@) =~= ms2);
                    }
                    proof {
                        ms = ms2;
                    }
                    q = q2;
                    i = i + 1;
                },
                None => {
                    proof {
                        lemma_parse_members_fail(s@, start as int, (i + 1) as nat, n as nat, code);
                    }
                    return None;
                },
            }
        }
        let g = if code == 4 {
            Geom::MultiPoint(pts)
        } else if code == 5 {
            Geom::MultiLineString(lines)
        } else if code == 6 {
            Geom::MultiPolygon(polys)
        } else {
            Geom::GeometryCollection(items)
        };
        assert(g@ == multi_of_members(code, ms));
        Some((g, q))
    }
}

/// Decode a complete ISO-WKB (or EWKB) buffer into a geometry.
pub fn from_wkb(bytes: &[u8]) -> (r: Result<Geom, WkbError>)
    ensures
        r matches Ok(g) ==> decode_spec(bytes@) == Some(g@),
        r matches Err(e) ==> decode_spec(bytes@) is None && e == WkbError::Malformed,
{
    match parse_geom_at(bytes, 0) {
        Some((g, q)) => if q == bytes.len() {
            Ok(g)
        } else {
            Err(WkbError::Malformed)
        },
        None => Err(WkbError::Malformed),
    }
}


// ----- writing ---------------------------------------------------------------------------

/// Little-endian bytes of a `u32`.
pub open spec fn u32_le_bytes(v: u32) -> Seq<u8> {
    seq![
        (v & 0xffu32) as u8,
        ((v >> 8u32) & 0xffu32) as u8,
        ((v >> 16u32) & 0xffu32) as u8,
        ((v >> 24u32) & 0xffu32) as u8,
    ]
}

/// Little-endian bytes of a `u64`.
pub open spec fn u64_le_bytes(v: u64) -> Seq<u8> {
    seq![
        (v & 0xffu64) as u8,
        ((v >> 8u64) & 0xffu64) as u8,
        ((v >> 16u64) & 0xffu64) as u8,
        ((v >> 24u64) & 0xffu64) as u8,
        ((v >> 32u64) & 0xffu64) as u8,
        ((v >> 40u64) & 0xffu64) as u8,
        ((v >> 48u64) & 0xffu64) as u8,
        ((v >> 56u64) & 0xffu64) as u8,
    ]
}

/// The bytes of a `u32` in byte order `le` (little endian when `le`).
pub open spec fn u32_bytes(v: u32, le: bool) -> Seq<u8> {
    if le { u32_le_bytes(v) } else { u32_le_bytes(v).reverse() }
}

/// The bytes of a `u64` in byte order `le`.
pub open spec fn u64_bytes(v: u64, le: bool) -> Seq<u8> {
    if le { u64_le_bytes(v) } else { u64_le_bytes(v).reverse() }
}

/// The byte-order flag of a WKB header: 1 for little endian, 0 for big endian.
pub open spec fn order_byte(le: bool) -> u8 {
    if le { 1 } else { 0 }
}

/// A count as WKB stores it (the caller ensures that it fits 32 bits).
pub open spec fn count_bytes(n: nat, le: bool) -> Seq<u8> {
    u32_bytes(n as u32, le)
}

/// A coordinate: x then y, each a double in byte order `le`.
pub open spec fn coord_bytes(c: Coord, le: bool) -> Seq<u8> {
    u64_bytes(c.x, le) + u64_bytes(c.y, le)
}

/// Coordinates back to back.
pub open spec fn coords_bytes(cs: Seq<Coord>, le: bool) -> Seq<u8>
    decreases cs.len(),
{
    if cs.len() == 0 {
        Seq::empty()
    } else {
        coords_bytes(cs.drop_last(), le) + coord_bytes(cs.last(), le)
    }
}

/// A geometry header in byte order `le` with type code `code`.
pub open spec fn header_bytes(code: u32, le: bool) -> Seq<u8> {
    seq![order_byte(le)] + u32_bytes(code, le)
}

/// A point sequence: its count, then its coordinates.
pub open spec fn ring_bytes(r: Seq<Coord>, le: bool) -> Seq<u8> {
    count_bytes(r.len(), le) + coords_bytes(r, le)
}

/// Point sequences back to back.
pub open spec fn rings_bytes(rs: Seq<Seq<Coord>>, le: bool) -> Seq<u8>
    decreases rs.len(),
{
    if rs.len() == 0 {
        Seq::empty()
    } else {
        rings_bytes(rs.drop_last(), le) + ring_bytes(rs.last(), le)
    }
}

/// A polygon body: the ring count, then exterior and interior rings; the
/// empty polygon (empty exterior, no holes) has no ring.
pub open spec fn polygon_body_bytes(p: PolygonModel, le: bool) -> Seq<u8> {
    if p.exterior.len() == 0 && p.interiors.len() == 0 {
        count_bytes(0, le)
    } else {
        count_bytes(1 + p.interiors.len(), le) + ring_bytes(p.exterior, le) + rings_bytes(p.interiors, le)
    }
}

/// The polygon of a `Rect`: its ring from the (max x, min y) corner counter-clockwise.
pub open spec fn rect_polygon(lo: Coord, hi: Coord) -> PolygonModel {
    PolygonModel {
        exterior: seq![
            Coord { x: hi.x, y: lo.y },
            Coord { x: hi.x, y: hi.y },
            Coord { x: lo.x, y: hi.y },
            Coord { x: lo.x, y: lo.y },
            Coord { x: hi.x, y: lo.y },
        ],
        interiors: Seq::empty(),
    }
}

/// The polygon of a `Triangle`: its three vertices and the first again.
pub open spec fn triangle_polygon(a: Coord, b: Coord, c: Coord) -> PolygonModel {
    PolygonModel { exterior: seq![a, b, c, a], interiors: Seq::empty() }
}

/// Point members of a multipoint, each a complete point geometry.
pub open spec fn point_members_bytes(ps: Seq<Coord>, le: bool) -> Seq<u8>
    decreases ps.len(),
{
    if ps.len() == 0 {
        Seq::empty()
    } else {
        point_members_bytes(ps.drop_last(), le) + header_bytes(1, le) + coord_bytes(ps.last(), le)
    }
}

/// Line string members of a multi line string.
pub open spec fn line_members_bytes(ls: Seq<Seq<Coord>>, le: bool) -> Seq<u8>
    decreases ls.len(),
{
    if ls.len() == 0 {
        Seq::empty()
    } else {
        line_members_bytes(ls.drop_last(), le) + header_bytes(2, le) + ring_bytes(ls.last(), le)
    }
}

/// Polygon members of a multipolygon.
pub open spec fn polygon_members_bytes(ps: Seq<PolygonModel>, le: bool) -> Seq<u8>
    decreases ps.len(),
{
    if ps.len() == 0 {
        Seq::empty()
    } else {
        polygon_members_bytes(ps.drop_last(), le) + header_bytes(3, le) + polygon_body_bytes(ps.last(), le)
    }
}

/// ISO WKB of a geometry in byte order `le` (the writer uses little endian;
/// the reader accepts both). A `Line` is written as a two-vertex
/// line string, a `Rect` and a `Triangle` as their polygons.
pub open spec fn encode(g: GeomModel, le: bool) -> Seq<u8>
    decreases g,
{
    match g {
        GeomModel::Point(c) => header_bytes(1, le) + coord_bytes(c, le),
        GeomModel::Line(a, b) => header_bytes(2, le) + ring_bytes(seq![a, b], le),
        GeomModel::LineString(ls) => header_bytes(2, le) + ring_bytes(ls, le),
        GeomModel::Polygon(p) => header_bytes(3, le) + polygon_body_bytes(p, le),
        GeomModel::MultiPoint(ps) => header_bytes(4, le) + count_bytes(ps.len(), le) + point_members_bytes(ps, le),
        GeomModel::MultiLineString(ls) => header_bytes(5, le) + count_bytes(ls.len(), le) + line_members_bytes(ls, le),
        GeomModel::MultiPolygon(ps) => header_bytes(6, le) + count_bytes(ps.len(), le) + polygon_members_bytes(ps, le),
        GeomModel::GeometryCollection(items) => header_bytes(7, le) + count_bytes(items.len(), le) + encode_all(items, le),
        GeomModel::Rect(a, b) => header_bytes(3, le) + polygon_body_bytes(rect_polygon(a, b), le),
        GeomModel::Triangle(a, b, c) => header_bytes(3, le) + polygon_body_bytes(triangle_polygon(a, b, c), le),
    }
}

/// Geometries encoded back to back.
pub open spec fn encode_all(items: Seq<GeomModel>, le: bool) -> Seq<u8>
    decreases items,
{
    if items.len() == 0 {
        Seq::empty()
    } else {
        encode_all(items.subrange(0, items.len() - 1), le) + encode(items[items.len() - 1], le)
    }
}

/// A count that WKB can store.
pub open spec fn fits_u32(n: nat) -> bool {
    n <= u32::MAX
}

/// Every ring of the sequence has a storable count.
pub open spec fn rings_fit(rs: Seq<Seq<Coord>>) -> bool {
    forall|i: int| 0 <= i < rs.len() ==> #[trigger] fits_u32(rs[i].len())
}

/// Every count of a polygon (rings, and vertices of each ring) is storable.
pub open spec fn polygon_fits(p: PolygonModel) -> bool {
    fits_u32(p.exterior.len()) && fits_u32(1 + p.interiors.len()) && rings_fit(p.interiors)
}

/// Every polygon of the sequence is storable.
pub open spec fn polygons_fit(ps: Seq<PolygonModel>) -> bool {
    forall|i: int| 0 <= i < ps.len() ==> #[trigger] polygon_fits(ps[i])
}

/// Every count in the geometry fits the 32-bit counts of WKB.
pub open spec fn encodable(g: GeomModel) -> bool
    decreases g,
{
    match g {
        GeomModel::LineString(ls) => fits_u32(ls.len()),
        GeomModel::Polygon(p) => polygon_fits(p),
        GeomModel::MultiPoint(ps) => fits_u32(ps.len()),
        GeomModel::MultiLineString(ls) => fits_u32(ls.len()) && rings_fit(ls),
        GeomModel::MultiPolygon(ps) => fits_u32(ps.len()) && polygons_fit(ps),
        GeomModel::GeometryCollection(items) => fits_u32(items.len()) && all_encodable(items),
        _ => true,
    }
}

/// Every geometry of the sequence is encodable.
pub open spec fn all_encodable(items: Seq<GeomModel>) -> bool
    decreases items,
{
    if items.len() == 0 {
        true
    } else {
        all_encodable(items.subrange(0, items.len() - 1)) && encodable(items[items.len() - 1])
    }
}

fn push_u32(out: &mut Vec<u8>, v: u32)
    ensures
        final(out)@ == old(out)@ + u32_le_bytes(v),
{
    out.push((v & 0xffu32) as u8);
    out.push(((v >> 8u32) & 0xffu32) as u8);
    out.push(((v >> 16u32) & 0xffu32) as u8);
    out.push(((v >> 24u32) & 0xffu32) as u8);
    assert(out@ =~= old(out)@ + u32_le_bytes(v));
}

fn push_u64(out: &mut Vec<u8>, v: u64)
    ensures
        final(out)@ == old(out)@ + u64_le_bytes(v),
{
    out.push((v & 0xffu64) as u8);
    out.push(((v >> 8u64) & 0xffu64) as u8);
    out.push(((v >> 16u64) & 0xffu64) as u8);
    out.push(((v >> 24u64) & 0xffu64) as u8);
    out.push(((v >> 32u64) & 0xffu64) as u8);
    out.push(((v >> 40u64) & 0xffu64) as u8);
    out.push(((v >> 48u64) & 0xffu64) as u8);
    out.push(((v >> 56u64) & 0xffu64) as u8);
    assert(out@ =~= old(out)@ + u64_le_bytes(v));
}

fn push_coord(out: &mut Vec<u8>, c: Coord)
    ensures
        final(out)@ == old(out)@ + coord_bytes(c, true),
{
    push_u64(out, c.x);
    push_u64(out, c.y);
    assert(out@ =~= old(out)@ + coord_bytes(c, true));
}

fn push_header(out: &mut Vec<u8>, code: u32)
    ensures
        final(out)@ == old(out)@ + header_bytes(code, true),
{
    out.push(1u8);
    push_u32(out, code);
    assert(out@ =~= old(out)@ + header_bytes(code, true));
}

fn push_count(out: &mut Vec<u8>, n: usize) -> (ok: bool)
    ensures
        ok == fits_u32(n as nat),
        ok ==> final(out)@ == old(out)@ + count_bytes(n as nat, true),
{
    if n > 0xffff_ffffusize {
        return false;
    }
    push_u32(out, n as u32);
    true
}

fn push_ring(out: &mut Vec<u8>, r: &Vec<Coord>) -> (ok: bool)
    ensures
        ok == fits_u32(r@.len()),
        ok ==> final(out)@ == old(out)@ + ring_bytes(r@, true),
{
    if !push_count(out, r.len()) {
        return false;
    }
    let ghost mid = out@;
    let mut i: usize = 0;
    while i < r.len()
        invariant
            i <= r.len(),
            out@ == mid + coords_bytes(r@.subrange(0, i as int), true),
        decreases r.len() - i,
    {
        push_coord(out, r[i]);
        proof {
            assert(r@.subrange(0, i + 1).drop_last() =~= r@.subrange(0, i as int));
            assert(out@ =~= mid + coords_bytes(r@.subrange(0, i + 1), true));
        }
        i = i + 1;
    }
    assert(r@.subrange(0, r.len() as int) =~= r@);
    assert(out@ =~= old(out)@ + ring_bytes(r@, true));
    true
}

fn push_rings(out: &mut Vec<u8>, rs: &Vec<Vec<Coord>>) -> (ok: bool)
    ensures
        ok == rings_fit(rings_view(rs@)),
        ok ==> final(out)@ == old(out)@ + rings_bytes(rings_view(rs@), true),
{
    let ghost rv = rings_view(rs@);
    let mut i: usize = 0;
    while i < rs.len()
        invariant
            i <= rs.len(),
            rv == rings_view(rs@),
            rings_fit(rv.subrange(0, i as int)),
            out@ == old(out)@ + rings_bytes(rv.subrange(0, i as int), true),
        decreases rs.len() - i,
    {
        if !push_ring(out, &rs[i]) {
            assert(!fits_u32(rv[i as int].len()));
            return false;
        }
        proof {
            assert(rv.subrange(0, i + 1).drop_last() =~= rv.subrange(0, i as int));
            assert(out@ =~= old(out)@ + rings_bytes(rv.subrange(0, i + 1), true));
            assert forall|j: int| 0 <= j < i + 1 implies #[trigger] fits_u32(rv.subrange(0, i + 1)[j].len()) by {
                if j < i {
                    assert(rv.subrange(0, i + 1)[j] == rv.subrange(0, i as int)[j]);
                }
            }
        }
        i = i + 1;
    }
    assert(rv.subrange(0, rs.len() as int) =~= rv);
    true
}

fn push_polygon_body(out: &mut Vec<u8>, p: &Polygon) -> (ok: bool)
    ensures
        ok == polygon_fits(p@),
        ok ==> final(out)@ == old(out)@ + polygon_body_bytes(p@, true),
{
    if p.exterior.len() > 0xffff_ffffusize || p.interiors.len() >= 0xffff_ffffusize {
        return false;
    }
    if p.exterior.len() == 0 && p.interiors.len() == 0 {
        push_u32(out, 0);
        assert(rings_fit(rings_view(p.interiors@)));
        return true;
    }
    push_u32(out, (p.interiors.len() + 1) as u32);
    let ghost start = out@;
    if !push_ring(out, &p.exterior) {
        return false;
    }
    let ghost mid = out@;
    if !push_rings(out, &p.interiors) {
        return false;
    }
    assert(out@ =~= old(out)@ + polygon_body_bytes(p@, true));
    true
}


fn push_point_members(out: &mut Vec<u8>, ps: &Vec<Coord>)
    ensures
        final(out)@ == old(out)@ + point_members_bytes(ps@, true),
{
    let mut i: usize = 0;
    while i < ps.len()
        invariant
            i <= ps.len(),
            out@ == old(out)@ + point_members_bytes(ps@.subrange(0, i as int), true),
        decreases ps.len() - i,
    {
        push_header(out, 1);
        push_coord(out, ps[i]);
        proof {
            assert(ps@.subrange(0, i + 1).drop_last() =~= ps@.subrange(0, i as int));
            assert(out@ =~= old(out)@ + point_members_bytes(ps@.subrange(0, i + 1), true));
        }
        i = i + 1;
    }
    assert(ps@.subrange(0, ps.len() as int) =~= ps@);
}

fn push_line_members(out: &mut Vec<u8>, ls: &Vec<Vec<Coord>>) -> (ok: bool)
    ensures
        ok == rings_fit(rings_view(ls@)),
        ok ==> final(out)@ == old(out)@ + line_members_bytes(rings_view(ls@), true),
{
    let ghost rv = rings_view(ls@);
    let mut i: usize = 0;
    while i < ls.len()
        invariant
            i <= ls.len(),
            rv == rings_view(ls@),
            rings_fit(rv.subrange(0, i as int)),
            out@ == old(out)@ + line_members_bytes(rv.subrange(0, i as int), true),
        decreases ls.len() - i,
    {
        push_header(out, 2);
        if !push_ring(out, &ls[i]) {
            assert(!fits_u32(rv[i as int].len()));
            return false;
        }
        proof {
            assert(rv.subrange(0, i + 1).drop_last() =~= rv.subrange(0, i as int));
            assert(out@ =~= old(out)@ + line_members_bytes(rv.subrange(0, i + 1), true));
            assert forall|j: int| 0 <= j < i + 1 implies #[trigger] fits_u32(rv.subrange(0, i + 1)[j].len()) by {
                if j < i {
                    assert(rv.subrange(0, i + 1)[j] == rv.subrange(0, i as int)[j]);
                }
            }
        }
        i = i + 1;
    }
    assert(rv.subrange(0, ls.len() as int) =~= rv);
    true
}

fn push_polygon_members(out: &mut Vec<u8>, ps: &Vec<Polygon>) -> (ok: bool)
    ensures
        ok == polygons_fit(polygons_view(ps@)),
        ok ==> final(out)@ == old(out)@ + polygon_members_bytes(polygons_view(ps@), true),
{
    let ghost pv = polygons_view(ps@);
    let mut i: usize = 0;
    while i < ps.len()
        invariant
            i <= ps.len(),
            pv == polygons_view(ps@),
            polygons_fit(pv.subrange(0, i as int)),
            out@ == old(out)@ + polygon_members_bytes(pv.subrange(0, i as int), true),
        decreases ps.len() - i,
    {
        push_header(out, 3);
        if !push_polygon_body(out, &ps[i]) {
            assert(!polygon_fits(pv[i as int]));
            return false;
        }
        proof {
            assert(pv.subrange(0, i + 1).drop_last() =~= pv.subrange(0, i as int));
            assert(out@ =~= old(out)@ + polygon_members_bytes(pv.subrange(0, i + 1), true));
            assert forall|j: int| 0 <= j < i + 1 implies #[trigger] polygon_fits(pv.subrange(0, i + 1)[j]) by {
                if j < i {
                    assert(pv.subrange(0, i + 1)[j] == pv.subrange(0, i as int)[j]);
                }
            }
        }
        i = i + 1;
    }
    assert(pv.subrange(0, ps.len() as int) =~= pv);
    true
}

#[verifier::loop_isolation(false)]
fn write_geom(out: &mut Vec<u8>, g: &Geom) -> (ok: bool)
    ensures
        ok == encodable(g@),
        ok ==> final(out)@ == old(out)@ + encode(g@, true),
    decreases g,
{
    match g {
        Geom::Point(c) => {
            push_header(out, 1);
            push_coord(out, *c);
        },
        Geom::Line(a, b) => {
            push_header(out, 2);
            let mut v: Vec<Coord> = Vec::new();
            v.push(*a);
            v.push(*b);
            assert(v@ =~= seq![*a, *b]);
            push_ring(out, &v);
        },
        Geom::LineString(ls) => {
            push_header(out, 2);
            if !push_ring(out, ls) {
                return false;
            }
        },
        Geom::Polygon(p) => {
            push_header(out, 3);
            if !push_polygon_body(out, p) {
                return false;
            }
        },
        Geom::MultiPoint(ps) => {
            push_header(out, 4);
            if !push_count(out, ps.len()) {
                return false;
            }
            push_point_members(out, ps);
        },
        Geom::MultiLineString(ls) => {
            push_header(out, 5);
            if !push_count(out, ls.len()) {
                return false;
            }
            if !push_line_members(out, ls) {
                return false;
            }
        },
        Geom::MultiPolygon(ps) => {
            push_header(out, 6);
            if !push_count(out, ps.len()) {
                return false;
            }
            if !push_polygon_members(out, ps) {
                return false;
            }
        },
        Geom::GeometryCollection(items) => {
            proof {
                lemma_geoms_view(items@);
            }
            push_header(out, 7);
            if !push_count(out, items.len()) {
                return false;
            }
            let ghost iv = geoms_view(items@);
            let ghost mid = out@;
            let mut i: usize = 0;
            while i < items.len()
                invariant
                    i <= items.len(),
                    all_encodable(iv.subrange(0, i as int)),
                    out@ == mid + encode_all(iv.subrange(0, i as int), true),
                decreases items.len() - i,
            {
                proof {
                    assert(decreases_to!(*g => (*g)->GeometryCollection_0));
                    assert(decreases_to!(*items => items@));
                    assert(decreases_to!(items@ => items@[i as int]));
                }
                let ghost sub = iv.subrange(0, i + 1);
                proof {
                    assert(sub.subrange(0, sub.len() - 1) =~= iv.subrange(0, i as int));
                    assert(sub[sub.len() - 1] == items@[i as int]@);
                }
                if !write_geom(out, &items[i]) {
                    proof {
                        lemma_all_encodable_prefix(iv, i + 1);
                        assert(iv.subrange(0, items.len() as int) =~= iv);
                    }
                    return false;
                }
                i = i + 1;
            }
            assert(iv.subrange(0, items.len() as int) =~= iv);
        },
        Geom::Rect(a, b) => {
            push_header(out, 3);
            let mut ext: Vec<Coord> = Vec::new();
            ext.push(Coord { x: b.x, y: a.y });
            ext.push(Coord { x: b.x, y: b.y });
            ext.push(Coord { x: a.x, y: b.y });
            ext.push(Coord { x: a.x, y: a.y });
            ext.push(Coord { x: b.x, y: a.y });
            let p = Polygon { exterior: ext, interiors: Vec::new() };
            assert(p@.exterior =~= rect_polygon(*a, *b).exterior);
            assert(p@.interiors =~= rect_polygon(*a, *b).interiors);
            push_polygon_body(out, &p);
        },
        Geom::Triangle(a, b, c) => {
            push_header(out, 3);
            let mut ext: Vec<Coord> = Vec::new();
            ext.push(*a);
            ext.push(*b);
            ext.push(*c);
            ext.push(*a);
            let p = Polygon { exterior: ext, interiors: Vec::new() };
            assert(p@.exterior =~= triangle_polygon(*a, *b, *c).exterior);
            assert(p@.interiors =~= triangle_polygon(*a, *b, *c).interiors);
            push_polygon_body(out, &p);
        },
    }
    assert(out@ =~= old(out)@ + encode(g@, true));
    true
}

/// A sequence is encodable only if each of its prefixes is.
proof fn lemma_all_encodable_prefix(items: Seq<GeomModel>, k: int)
    requires
        0 <= k <= items.len(),
        !all_encodable(items.subrange(0, k)),
    ensures
        !all_encodable(items),
    decreases items.len(),
{
    if k < items.len() {
        assert(items.subrange(0, items.len() - 1).subrange(0, k) =~= items.subrange(0, k));
        lemma_all_encodable_prefix(items.subrange(0, items.len() - 1), k);
    } else {
        assert(items.subrange(0, k) =~= items);
    }
}

/// `ST_AsBinary` encoding: little-endian ISO WKB of a geometry, or
/// `TooLarge` when one of its counts does not fit 32 bits.
pub fn to_wkb(g: &Geom) -> (r: Result<Vec<u8>, WkbError>)
    ensures
        r matches Ok(b) ==> encodable(g@) && b@ == encode(g@, true),
        r matches Err(e) ==> !encodable(g@) && e == WkbError::TooLarge,
{
    let mut out: Vec<u8> = Vec::new();
    if write_geom(&mut out, g) {
        assert(out@ =~= encode(g@, true));
        Ok(out)
    } else {
        Err(WkbError::TooLarge)
    }
}

/// `ST_AsBinary(geom)` — ISO-WKB bytes.
pub fn as_binary(g: &Geom) -> (r: Option<Vec<u8>>)
    ensures
        r matches Some(b) ==> encodable(g@) && b@ == encode(g@, true),
        r is None ==> !encodable(g@),
{
    match to_wkb(g) {
        Ok(b) => Some(b),
        Err(_) => None,
    }
}

} // verus!
