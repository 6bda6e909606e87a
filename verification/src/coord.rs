use vstd::prelude::*;

verus! {

/// A planar coordinate. `x` and `y` hold the IEEE-754 binary64 bit patterns
/// of the two ordinates, so every value of the double type (NaN included) has
/// exactly one representation here and survives any copy unchanged.
#[derive(Clone, Copy, Debug, PartialEq, Eq)]
pub struct Coord {
    pub x: u64,
    pub y: u64,
}

/// The exponent field of a binary64 value.
pub open spec fn exponent_bits(b: u64) -> u64 {
    b & 0x7ff0_0000_0000_0000u64
}

/// The mantissa field of a binary64 value.
pub open spec fn mantissa_bits(b: u64) -> u64 {
    b & 0x000f_ffff_ffff_ffffu64
}

/// `b` encodes a NaN: all exponent bits set and a non-zero mantissa.
pub open spec fn is_nan_bits(b: u64) -> bool {
    exponent_bits(b) == 0x7ff0_0000_0000_0000u64 && mantissa_bits(b) != 0
}

/// `b` encodes positive or negative zero.
pub open spec fn is_zero_bits(b: u64) -> bool {
    b & 0x7fff_ffff_ffff_ffffu64 == 0
}

/// IEEE-754 equality of two binary64 values given by their bit patterns:
/// NaN equals nothing, `+0` equals `-0`, every other value equals only itself.
pub open spec fn f64_eq(a: u64, b: u64) -> bool {
    !is_nan_bits(a) && !is_nan_bits(b) && (a == b || (is_zero_bits(a) && is_zero_bits(b)))
}

/// Equality of two coordinates as the double type compares them, ordinate by ordinate.
pub open spec fn coord_eq_spec(a: Coord, b: Coord) -> bool {
    f64_eq(a.x, b.x) && f64_eq(a.y, b.y)
}

/// IEEE-754 equality of two binary64 bit patterns.
pub fn f64_bits_eq(a: u64, b: u64) -> (r: bool)
    ensures
        r == f64_eq(a, b),
{
    let a_nan = (a & 0x7ff0_0000_0000_0000u64) == 0x7ff0_0000_0000_0000u64
        && (a & 0x000f_ffff_ffff_ffffu64) != 0;
    let b_nan = (b & 0x7ff0_0000_0000_0000u64) == 0x7ff0_0000_0000_0000u64
        && (b & 0x000f_ffff_ffff_ffffu64) != 0;
    if a_nan || b_nan {
        false
    } else {
        a == b || ((a & 0x7fff_ffff_ffff_ffffu64) == 0 && (b & 0x7fff_ffff_ffff_ffffu64) == 0)
    }
}

/// Coordinate equality with the semantics of comparing two double-typed coordinates.
pub fn coord_eq(a: &Coord, b: &Coord) -> (r: bool)
    ensures
        r == coord_eq_spec(*a, *b),
{
    f64_bits_eq(a.x, b.x) && f64_bits_eq(a.y, b.y)
}

} // verus!
