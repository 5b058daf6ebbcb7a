//! Edge weights: double-precision complex numbers of the `num` crate.
//!
//! A weight is opaque to the verifier. Everything the diagram logic needs of
//! one is obtained through the small trusted functions of this module, each of
//! which makes one call into `num` and gives its result a name. Nothing is
//! claimed about the arithmetic itself: the names stand for what `num`
//! computes, and the rest of the library is proved for whatever that is. The
//! one thing the contracts do take for granted is that the same operands
//! always give the same result. Each function called is made of conversions
//! from integers, comparisons and the basic operations on doubles, and of the
//! square root, all of which are exactly rounded.
//!
//! The comparison of weights within a fixed tolerance is built on top of
//! these functions in verified code, on the bit pattern of a squared
//! magnitude.

use vstd::prelude::*;
use num::complex::Complex64;

verus! {

/// The complex number type of `num`, carried through the library as an opaque value.
#[verifier::external_type_specification]
#[verifier::external_body]
#[verifier::reject_recursive_types(T)]
pub struct ExComplex<T>(num::complex::Complex<T>);

/// The complex number whose real and imaginary parts are the given integers.
pub uninterp spec fn complex_of(re: int, im: int) -> Complex64;

/// The sum `a + b` as `num` computes it.
pub uninterp spec fn complex_sum(a: Complex64, b: Complex64) -> Complex64;

/// The difference `a - b` as `num` computes it.
pub uninterp spec fn complex_difference(a: Complex64, b: Complex64) -> Complex64;

/// The product `a * b` as `num` computes it.
pub uninterp spec fn complex_product(a: Complex64, b: Complex64) -> Complex64;

/// The quotient `a / b` as `num` computes it.
pub uninterp spec fn complex_quotient(a: Complex64, b: Complex64) -> Complex64;

/// The square root of the non-negative integer `n`, as a complex number
/// without imaginary part, as `num` computes it.
pub uninterp spec fn complex_root_of(n: int) -> Complex64;

/// The squared magnitude of `a` as `num` computes it, the sum of the squares
/// of its two parts, given as the bit pattern of the resulting IEEE-754
/// double. Where the result is not a number, this is the bit pattern of
/// some value that is not a number.
pub uninterp spec fn complex_norm_sqr(a: Complex64) -> u64;

/// Bit pattern of positive infinity. Only the bit patterns of values that
/// are not a number, and of negative values, lie above it.
pub const INFINITY_BITS: u64 = 0x7FF0_0000_0000_0000;

/// Whether both parts of `a` are zero, as `num` tells.
pub uninterp spec fn complex_is_zero(a: Complex64) -> bool;

/// The tolerance is ten to the power of minus ten. This is the bit pattern
/// of the IEEE-754 double nearest to its square.
///
/// A squared magnitude is never negative, and on non-negative doubles the
/// order of the bit patterns is the order of the values, so a squared
/// magnitude lies below the squared tolerance exactly when its bit pattern
/// lies below this constant. The bit patterns of infinity and of every
/// not-a-number value lie above it.
pub const TOLERANCE_SQUARED: u64 = 0x3BC7_9CA1_0C92_4223;

/// The weight one.
pub open spec fn unit() -> Complex64 {
    complex_of(1, 0)
}

/// The weight zero.
pub open spec fn null() -> Complex64 {
    complex_of(0, 0)
}

/// Two weights are the same weight when the squared magnitude of their
/// difference lies below the squared tolerance.
pub open spec fn same_weight(a: Complex64, b: Complex64) -> bool {
    complex_norm_sqr(complex_difference(a, b)) < TOLERANCE_SQUARED
}

/// A weight is negligible when it is the same weight as zero.
pub open spec fn negligible(w: Complex64) -> bool {
    same_weight(w, null())
}

/// A weight is exactly zero when both of its parts are zero.
pub open spec fn exactly_zero(w: Complex64) -> bool {
    complex_is_zero(w)
}

/// Trusted: `c64` of `num`, which converts the two integers to doubles, a
/// conversion that loses nothing, and makes them the parts of a complex
/// number. The contract names the result and takes it to be determined by
/// the two integers.
#[verifier::external_body]
pub(crate) fn weight_of(re: i32, im: i32) -> (w: Complex64)
    ensures
        w == complex_of(re as int, im as int),
{
    num::complex::c64(re, im)
}

/// Trusted: `Add::add` of `num`'s `Complex`, which adds the parts
/// componentwise. The contract names the result and takes it to be determined
/// by the two operands.
#[verifier::external_body]
pub(crate) fn weight_sum(a: Complex64, b: Complex64) -> (w: Complex64)
    ensures
        w == complex_sum(a, b),
{
    a + b
}

/// Trusted: `Sub::sub` of `num`'s `Complex`, which subtracts the parts
/// componentwise. The contract names the result and takes it to be determined
/// by the two operands.
#[verifier::external_body]
pub(crate) fn weight_difference(a: Complex64, b: Complex64) -> (w: Complex64)
    ensures
        w == complex_difference(a, b),
{
    a - b
}

/// Trusted: `Mul::mul` of `num`'s `Complex`. The contract names the result
/// and takes it to be determined by the two operands.
#[verifier::external_body]
pub(crate) fn weight_product(a: Complex64, b: Complex64) -> (w: Complex64)
    ensures
        w == complex_product(a, b),
{
    a * b
}

/// Trusted: `Div::div` of `num`'s `Complex`. Division of doubles does not
/// panic, whatever the divisor. The contract names the result and takes it to
/// be determined by the two operands.
#[verifier::external_body]
pub(crate) fn weight_quotient(a: Complex64, b: Complex64) -> (w: Complex64)
    ensures
        w == complex_quotient(a, b),
{
    a / b
}

/// Trusted: `c64` of `num` on `n` and zero, then `Complex::sqrt` of `num`.
/// The operand has a real part that is not negative and an imaginary part
/// of zero, for which `sqrt` takes the square root of the real part, an
/// exactly rounded operation, and keeps the imaginary part. The contract
/// names the result and takes it to be determined by `n`.
#[verifier::external_body]
pub(crate) fn weight_root_of(n: u32) -> (w: Complex64)
    ensures
        w == complex_root_of(n as int),
{
    num::complex::c64(n, 0).sqrt()
}

/// Trusted: `Complex::norm_sqr` of `num`, two products and a sum of doubles,
/// whose result is handed out as its bit pattern (std's `to_bits`). The
/// contract names the result and takes it to be determined by the operand,
/// except where it is not a number: the bits of such a result are left open,
/// and the contract says only that they lie above those of infinity.
#[verifier::external_body]
pub(crate) fn weight_norm_sqr(a: Complex64) -> (bits: u64)
    ensures
        bits == complex_norm_sqr(a) || (bits > INFINITY_BITS && complex_norm_sqr(a) > INFINITY_BITS),
{
    a.norm_sqr().to_bits()
}

/// Trusted: `Zero::is_zero` of `num` for `Complex`, which tells whether both
/// parts compare equal to zero. The contract names the result.
#[verifier::external_body]
pub(crate) fn weight_is_zero(a: Complex64) -> (none: bool)
    ensures
        none == complex_is_zero(a),
{
    num::Zero::is_zero(&a)
}

/// The weight one.
pub fn one() -> (w: Complex64)
    ensures
        w == unit(),
{
    weight_of(1, 0)
}

/// The weight zero.
pub fn zero() -> (w: Complex64)
    ensures
        w == null(),
{
    weight_of(0, 0)
}

/// Whether `a` and `b` are the same weight within the tolerance.
pub fn weights_match(a: Complex64, b: Complex64) -> (same: bool)
    ensures
        same == same_weight(a, b),
{
    weight_norm_sqr(weight_difference(a, b)) < TOLERANCE_SQUARED
}

/// Whether `w` is the same weight as zero within the tolerance.
pub fn is_negligible(w: Complex64) -> (small: bool)
    ensures
        small == negligible(w),
{
    weights_match(w, zero())
}

/// Whether both parts of `w` are exactly zero.
pub fn is_exactly_zero(w: Complex64) -> (none: bool)
    ensures
        none == exactly_zero(w),
{
    weight_is_zero(w)
}

} // verus!
