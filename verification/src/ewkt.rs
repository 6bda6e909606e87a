//! Extended WKT framing: `SRID=<n>;<wkt>`. Geometries here carry no SRID, so
//! the SRID lives in the text only; the WKT itself is written and read by
//! functions that the caller hands in.

use vstd::prelude::*;
use crate::geom::{Geom, option_view};

verus! {

/// The prefix that opens an EWKT text.
pub open spec fn srid_prefix() -> Seq<char> {
    seq!['S', 'R', 'I', 'D', '=']
}

/// The character of a decimal digit `d` (0..=9).
pub open spec fn digit_char(d: nat) -> char {
    if d == 0 { '0' }
    else if d == 1 { '1' }
    else if d == 2 { '2' }
    else if d == 3 { '3' }
    else if d == 4 { '4' }
    else if d == 5 { '5' }
    else if d == 6 { '6' }
    else if d == 7 { '7' }
    else if d == 8 { '8' }
    else { '9' }
}

/// Decimal digits of a natural number, most significant first, no leading zero.
pub open spec fn digits(n: nat) -> Seq<char>
    decreases n,
{
    if n < 10 {
        seq![digit_char(n)]
    } else {
        digits(n / 10).push(digit_char(n % 10))
    }
}

/// Decimal text of an integer: a minus sign for negative numbers, then the digits.
pub open spec fn decimal(n: int) -> Seq<char> {
    if n < 0 {
        seq!['-'] + digits((-n) as nat)
    } else {
        digits(n as nat)
    }
}

/// The position of the first `c` in `s` at or after `from`, or -1.
pub open spec fn find_char(s: Seq<char>, c: char, from: int) -> int
    decreases s.len() - from,
{
    if from < 0 || from >= s.len() {
        -1
    } else if s[from] == c {
        from
    } else {
        find_char(s, c, from + 1)
    }
}

/// The WKT inside an EWKT text: after `SRID=`, the text after the first `;`
/// (or everything after `SRID=` when no `;` follows); a text without the
/// prefix is WKT already.
pub open spec fn ewkt_body_spec(s: Seq<char>) -> Seq<char> {
    if s.len() >= 5 && s.subrange(0, 5) == srid_prefix() {
        let rest = s.subrange(5, s.len() as int);
        let k = find_char(rest, ';', 0);
        if k < 0 {
            rest
        } else {
            rest.subrange(k + 1, rest.len() as int)
        }
    } else {
        s
    }
}

/// The EWKT text of a WKT text and an SRID.
pub open spec fn ewkt_text_spec(srid: i32, wkt: Seq<char>) -> Seq<char> {
    srid_prefix() + decimal(srid as int) + seq![';'] + wkt
}

/// The WKT part of `s`, as `ST_GeomFromEWKT` reads it (the SRID is discarded).
pub fn ewkt_body(s: &str) -> (r: &str)
    ensures
        r@ == ewkt_body_spec(s@),
{
    let n = s.unicode_len();
    if n >= 5 && s.get_char(0) == 'S' && s.get_char(1) == 'R' && s.get_char(2) == 'I'
        && s.get_char(3) == 'D' && s.get_char(4) == '=' {
        assert(s@.subrange(0, 5) =~= srid_prefix());
        let ghost rest = s@.subrange(5, n as int);
        // one pass over the characters, remembering the first `;` after the prefix
        let mut semi: Option<usize> = None;
        let mut k: usize = 0;
        for c in it: s.chars()
            invariant
                k == it.index(),
                it.seq() == s@,
                n == s@.len(),
                rest == s@.subrange(5, n as int),
                match semi {
                    Some(p) => 5 <= p < k && find_char(rest, ';', 0) == p - 5,
                    None => k <= 5 || find_char(rest, ';', 0) == find_char(rest, ';', k - 5),
                },
        {
            if semi.is_none() && k >= 5 && c == ';' {
                assert(rest[k - 5] == ';');
                semi = Some(k);
            }
            k = k + 1;
        }
        match semi {
            Some(p) => {
                let r = s.substring_char(p + 1, n);
                assert(r@ =~= rest.subrange(p - 5 + 1, rest.len() as int));
                r
            },
            None => {
                assert(find_char(rest, ';', n - 5) == -1);
                s.substring_char(5, n)
            },
        }
    } else {
        proof {
            if s@.len() >= 5 && s@.subrange(0, 5) == srid_prefix() {
                assert(s@[0] == s@.subrange(0, 5)[0]);
                assert(s@[1] == s@.subrange(0, 5)[1]);
                assert(s@[2] == s@.subrange(0, 5)[2]);
                assert(s@[3] == s@.subrange(0, 5)[3]);
                assert(s@[4] == s@.subrange(0, 5)[4]);
            }
        }
        s
    }
}


fn digit_str(d: u32) -> (r: &'static str)
    requires
        d < 10,
    ensures
        r@ == seq![digit_char(d as nat)],
{
    proof {
        reveal_strlit("0");
        reveal_strlit("1");
        reveal_strlit("2");
        reveal_strlit("3");
        reveal_strlit("4");
        reveal_strlit("5");
        reveal_strlit("6");
        reveal_strlit("7");
        reveal_strlit("8");
        reveal_strlit("9");
    }
    let r = if d == 0 { "0" }
    else if d == 1 { "1" }
    else if d == 2 { "2" }
    else if d == 3 { "3" }
    else if d == 4 { "4" }
    else if d == 5 { "5" }
    else if d == 6 { "6" }
    else if d == 7 { "7" }
    else if d == 8 { "8" }
    else { "9" };
    assert(r@ =~= seq![digit_char(d as nat)]);
    r
}

fn append_digits(out: &mut String, m: u32)
    ensures
        final(out)@ == old(out)@ + digits(m as nat),
    decreases m,
{
    if m < 10 {
        out.append(digit_str(m));
    } else {
        append_digits(out, m / 10);
        out.append(digit_str(m % 10));
        assert(out@ =~= old(out)@ + digits(m as nat));
    }
}

/// `ST_AsEWKT` framing: `SRID=<srid>;` followed by the WKT text.
pub fn ewkt_text(srid: i32, wkt: &str) -> (r: String)
    ensures
        r@ == ewkt_text_spec(srid, wkt@),
{
    proof {
        reveal_strlit("SRID=");
        reveal_strlit("-");
        reveal_strlit(";");
    }
    let mut out = String::from_str("SRID=");
    assert(out@ =~= srid_prefix());
    if srid < 0 {
        out.append("-");
        let m: u32 = (0i64 - (srid as i64)) as u32;
        append_digits(&mut out, m);
        assert(out@ =~= srid_prefix() + decimal(srid as int));
    } else {
        append_digits(&mut out, srid as u32);
        assert(out@ =~= srid_prefix() + decimal(srid as int));
    }
    out.append(";");
    out.append(wkt);
    assert(out@ =~= ewkt_text_spec(srid, wkt@));
    out
}

proof fn lemma_digits_no_semicolon(n: nat)
    ensures
        forall|i: int| 0 <= i < digits(n).len() ==> digits(n)[i] != ';',
    decreases n,
{
    if n >= 10 {
        lemma_digits_no_semicolon(n / 10);
        let d = digits(n);
        let p = digits(n / 10);
        assert forall|i: int| 0 <= i < d.len() implies d[i] != ';' by {
            if i < p.len() {
                assert(d[i] == p[i]);
            } else {
                assert(d[i] == digit_char(n % 10));
            }
        }
    }
}

proof fn lemma_find_after(s: Seq<char>, k: int, i: int)
    requires
        0 <= i <= k < s.len(),
        s[k] == ';',
        forall|j: int| i <= j < k ==> s[j] != ';',
    ensures
        find_char(s, ';', i) == k,
    decreases k - i,
{
    if i < k {
        lemma_find_after(s, k, i + 1);
    }
}

/// Whatever stands between `SRID=` and the first `;` is discarded: for
/// every SRID text `n` without a `;` (any string of decimal digits among
/// them) and every text `w`, the WKT read from `SRID=<n>;<w>` is `w`.
pub proof fn law_ewkt_body_after_srid(n: Seq<char>, w: Seq<char>)
    requires
        forall|j: int| 0 <= j < n.len() ==> n[j] != ';',
    ensures
        ewkt_body_spec(srid_prefix() + n + seq![';'] + w) == w,
{
    let s = srid_prefix() + n + seq![';'] + w;
    assert(s.subrange(0, 5) =~= srid_prefix());
    let rest = s.subrange(5, s.len() as int);
    assert(rest =~= n + seq![';'] + w);
    assert forall|j: int| 0 <= j < n.len() implies rest[j] != ';' by {
        assert(rest[j] == n[j]);
    }
    lemma_find_after(rest, n.len() as int, 0);
    assert(rest.subrange(n.len() as int + 1, rest.len() as int) =~= w);
}

/// A text that does not open with `SRID=` is read as WKT unchanged.
pub proof fn law_ewkt_body_plain(w: Seq<char>)
    requires
        !(w.len() >= 5 && w.subrange(0, 5) == srid_prefix()),
    ensures
        ewkt_body_spec(w) == w,
{
}

/// Reading back the WKT of an EWKT text gives the WKT that was framed:
/// `ewkt_body(ewkt_text(srid, w)) == w` for every SRID and every text `w`.
pub proof fn law_ewkt_round_trip(srid: i32, wkt: Seq<char>)
    ensures
        ewkt_body_spec(ewkt_text_spec(srid, wkt)) == wkt,
{
    let dec = decimal(srid as int);
    if srid < 0 {
        lemma_digits_no_semicolon((-srid) as nat);
        assert forall|j: int| 0 <= j < dec.len() implies dec[j] != ';' by {
            if j > 0 {
                assert(dec[j] == digits((-srid) as nat)[j - 1]);
            }
        }
    } else {
        lemma_digits_no_semicolon(srid as nat);
    }
    law_ewkt_body_after_srid(dec, wkt);
}

/// The text of an optional string.
pub open spec fn text_view(o: Option<String>) -> Option<Seq<char>> {
    match o {
        Some(t) => Some(t@),
        None => None,
    }
}

/// The EWKT text that frames an optional WKT text.
pub open spec fn framed(srid: i32, o: Option<String>) -> Option<Seq<char>> {
    match o {
        Some(w) => Some(ewkt_text_spec(srid, w@)),
        None => None,
    }
}

/// `as_text` gives equal texts (or `None` alike) for equal geometries.
pub open spec fn is_deterministic_writer<W: Fn(&Geom) -> Option<String>>(as_text: W) -> bool {
    forall|g1: &Geom, g2: &Geom, o1: Option<String>, o2: Option<String>|
        #![trigger call_ensures(as_text, (g1,), o1), call_ensures(as_text, (g2,), o2)]
        call_ensures(as_text, (g1,), o1) && call_ensures(as_text, (g2,), o2) && g1@ == g2@
            ==> text_view(o1) == text_view(o2)
}

/// `parse_wkt` reads equal geometries (or `None` alike) from equal texts.
pub open spec fn is_deterministic_reader<P: Fn(&str) -> Option<Geom>>(parse_wkt: P) -> bool {
    forall|t1: &str, t2: &str, o1: Option<Geom>, o2: Option<Geom>|
        #![trigger call_ensures(parse_wkt, (t1,), o1), call_ensures(parse_wkt, (t2,), o2)]
        call_ensures(parse_wkt, (t1,), o1) && call_ensures(parse_wkt, (t2,), o2) && t1@ == t2@
            ==> option_view(o1) == option_view(o2)
}

/// `ST_AsEWKT(geom, srid)`: `SRID=<srid>;` followed by the WKT of the
/// geometry as `as_text` writes it; `None` when `as_text` gives none. With a
/// deterministic writer this is `as_text(g)` framed, whatever run of the
/// writer one compares with.
pub fn as_ewkt<W: Fn(&Geom) -> Option<String>>(g: &Geom, srid: i32, as_text: W) -> (r: Option<String>)
    requires
        call_requires(as_text, (g,)),
    ensures
        exists|w: Option<String>| #[trigger] call_ensures(as_text, (g,), w) && framed(srid, w) == text_view(r),
        is_deterministic_writer(as_text) ==> forall|w: Option<String>|
            #[trigger] call_ensures(as_text, (g,), w) ==> framed(srid, w) == text_view(r),
{
    let w = as_text(g);
    let r = match &w {
        Some(wkt) => Some(ewkt_text(srid, wkt.as_str())),
        None => None,
    };
    assert(framed(srid, w) == text_view(r));
    r
}

/// `ST_GeomFromEWKT(text)`: the WKT after an optional `SRID=<n>;` prefix,
/// read by `parse_wkt` (the SRID is discarded). With a deterministic reader
/// this is what `parse_wkt` reads from that WKT, whatever run of the reader
/// one compares with.
pub fn geom_from_ewkt<P: Fn(&str) -> Option<Geom>>(s: &str, parse_wkt: P) -> (r: Option<Geom>)
    requires
        forall|t: &str| call_requires(parse_wkt, (t,)),
    ensures
        exists|b: &str| b@ == ewkt_body_spec(s@) && #[trigger] call_ensures(parse_wkt, (b,), r),
        is_deterministic_reader(parse_wkt) ==> forall|t: &str, o: Option<Geom>|
            t@ == ewkt_body_spec(s@) && #[trigger] call_ensures(parse_wkt, (t,), o)
                ==> option_view(o) == option_view(r),
{
    let body = ewkt_body(s);
    parse_wkt(body)
}

// ----- reading the SRID back ------------------------------------------------------------

/// `c` is one of the ten decimal digit characters.
pub open spec fn is_digit(c: char) -> bool {
    '0' <= c && c <= '9'
}

/// The value of a decimal digit character: its distance from `'0'`.
pub open spec fn digit_value(c: char) -> int {
    c as int - '0' as int
}

/// The value of a run of decimal digits, read most significant first.
pub open spec fn unsigned_value(s: Seq<char>) -> int
    decreases s.len(),
{
    if s.len() == 0 {
        0
    } else {
        10 * unsigned_value(s.drop_last()) + digit_value(s.last())
    }
}

/// The value of a base-10 integer text: an optional `-`, then digits.
pub open spec fn signed_value(s: Seq<char>) -> int {
    if s.len() > 0 && s[0] == '-' {
        -unsigned_value(s.drop_first())
    } else {
        unsigned_value(s)
    }
}

/// The digits of a base-10 integer text: the text after an optional leading `-`.
pub open spec fn integer_digits(s: Seq<char>) -> Seq<char> {
    if s.len() > 0 && s[0] == '-' { s.drop_first() } else { s }
}

/// `s` is a base-10 integer text: an optional leading `-`, then at least one digit.
pub open spec fn is_integer_text(s: Seq<char>) -> bool {
    integer_digits(s).len() > 0 && forall|j: int| 0 <= j < integer_digits(s).len()
        ==> #[trigger] is_digit(integer_digits(s)[j])
}

proof fn lemma_digits_read_back(n: nat)
    ensures
        digits(n).len() > 0,
        forall|j: int| 0 <= j < digits(n).len() ==> #[trigger] is_digit(digits(n)[j]),
        unsigned_value(digits(n)) == n,
    decreases n,
{
    if n >= 10 {
        lemma_digits_read_back(n / 10);
        let d = digits(n);
        let p = digits(n / 10);
        assert(d.drop_last() =~= p);
        assert forall|j: int| 0 <= j < d.len() implies #[trigger] is_digit(d[j]) by {
            if j < p.len() {
                assert(d[j] == p[j]);
            }
        }
        vstd::arithmetic::div_mod::lemma_fundamental_div_mod(n as int, 10);
        assert(d.last() == digit_char(n % 10));
        assert(digit_value(digit_char(n % 10)) == n % 10);
        assert(unsigned_value(d) == 10 * unsigned_value(p) + digit_value(d.last()));
        assert(10 * (n / 10) + n % 10 == n) by (nonlinear_arith);
    } else {
        let d = digits(n);
        assert(d.drop_last() =~= Seq::<char>::empty());
        assert(unsigned_value(d.drop_last()) == 0);
        assert(digit_value(digit_char(n)) == n);
    }
}

/// The SRID written into an EWKT text reads back as the SRID: for every
/// `i32` SRID and every WKT text, what stands between `SRID=` and the first
/// `;` is a base-10 integer text whose value is the SRID.
pub proof fn law_ewkt_srid_reads_back(srid: i32, wkt: Seq<char>)
    ensures
        ({
            let t = ewkt_text_spec(srid, wkt);
            let k = find_char(t, ';', 5);
            &&& t.subrange(0, 5) == srid_prefix()
            &&& 5 < k
            &&& is_integer_text(t.subrange(5, k))
            &&& signed_value(t.subrange(5, k)) == srid
        }),
{
    let t = ewkt_text_spec(srid, wkt);
    let dec = decimal(srid as int);
    assert(t.subrange(0, 5) =~= srid_prefix());
    let m: nat = if srid < 0 { (-srid) as nat } else { srid as nat };
    lemma_digits_read_back(m);
    lemma_digits_no_semicolon(m);
    let ds = digits(m);
    assert(ds[0] != '-') by {
        assert(is_digit(ds[0]));
    }
    assert forall|j: int| 0 <= j < dec.len() implies dec[j] != ';' by {
        if srid < 0 {
            if j > 0 {
                assert(dec[j] == ds[j - 1]);
            }
        }
    }
    assert forall|j: int| 5 <= j < 5 + dec.len() implies t[j] != ';' by {
        assert(t[j] == dec[j - 5]);
    }
    let k: int = 5 + dec.len() as int;
    assert(t[k] == ';');
    lemma_find_after(t, k, 5);
    assert(t.subrange(5, k) =~= dec);
    if srid < 0 {
        assert(dec.drop_first() =~= ds);
    }
}

} // verus!
