//! The one source of randomness: 32-bit draws from the thread-local generator,
//! and what is made of a draw.
use crate::fixed::raw_difference;
use crate::fixed::raw_product;
use crate::fixed::Fixed;
use crate::fixed::MAX_RAW;
use crate::fixed::ONE_RAW;
use vstd::prelude::*;

verus! {

/// Draws 32 bits from the thread-local generator of `rand`, by
/// `rand::random::<u32>()`.  Nothing is claimed of the value drawn.  The call
/// panics only where the generator cannot be seeded from the operating system.
#[verifier::external_body]
pub(crate) fn random_bits() -> (bits: u32) {
    rand::random::<u32>()
}

/// `u` lies in `[0, 1)`, as every draw does.
pub open spec fn is_fraction(u: Fixed) -> bool {
    0 <= u@ < ONE_RAW
}

/// The point that lies `u` of the way from `min` to `max`:
/// `min + (max - min) * u`.
pub open spec fn range_point(min: Fixed, max: Fixed, u: Fixed) -> Fixed {
    min.plus(max.minus(min).times(u))
}

/// The scalar in `[0, 1)` whose fractional bits are `bits`.
pub fn fraction_from_bits(bits: u32) -> (u: Fixed)
    ensures
        u@ == bits,
        is_fraction(u),
{
    Fixed { raw: bits as i64 }
}

/// A scalar drawn uniformly from `[0, 1)`.
pub fn random_fraction() -> (u: Fixed)
    ensures
        is_fraction(u),
{
    fraction_from_bits(random_bits())
}

/// The point that lies `u` of the way from `min` to `max`.  For a fraction
/// `u` of `[0, 1)` and `min < max` it is a point of `[min, max)`.
pub fn range_from_fraction(min: Fixed, max: Fixed, u: Fixed) -> (r: Fixed)
    ensures
        r == range_point(min, max, u),
        min.in_range() && min@ < max@ && is_fraction(u) ==> min@ <= r@ < max@,
{
    let r = min.add(max.sub(min).mul(u));
    proof {
        if min.in_range() && min@ < max@ && is_fraction(u) {
            lemma_fraction_of_span(raw_difference(max@, min@), u@);
        }
    }
    r
}

/// A proper fraction of a positive span is a shorter span that is not negative.
pub proof fn lemma_fraction_of_span(span: int, u: int)
    requires
        0 < span <= MAX_RAW,
        0 <= u < ONE_RAW,
    ensures
        0 <= raw_product(span, u) < span,
{
    let exact = span * u;
    assert(0 <= exact < span * ONE_RAW) by (nonlinear_arith)
        requires
            exact == span * u,
            0 < span,
            0 <= u < ONE_RAW,
    ;
    assert(exact / (ONE_RAW as int) < span) by (nonlinear_arith)
        requires
            0 <= exact < span * ONE_RAW,
            ONE_RAW > 0,
    ;
    assert(0 <= exact / (ONE_RAW as int)) by (nonlinear_arith)
        requires
            0 <= exact,
            ONE_RAW > 0,
    ;
}

} // verus!
