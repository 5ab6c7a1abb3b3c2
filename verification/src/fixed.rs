//! Signed fixed-point scalars: 32 fractional bits in an `i64`, with arithmetic
//! that saturates instead of overflowing.
//!
//! A scalar with raw value `r` stands for the number `r / 2^32`.  Every
//! operation is total: a result that would leave the range is moved to the
//! nearest end of it, a division by zero gives the end of the range on the
//! side of the dividend, and the square root of a negative number is zero.
//! Products and ratios are rounded toward zero, square roots down.
//!
//! The range is symmetric: the least raw value in use is `-MAX_RAW`.  The
//! one `i64` below it can be written into `raw` by hand; every operation
//! takes it, and none returns it.
use vstd::prelude::*;

verus! {

/// Raw value of the scalar one.
pub const ONE_RAW: i64 = 0x1_0000_0000;

/// Largest raw value; the smallest one in use is its negation.
pub const MAX_RAW: i64 = 0x7fff_ffff_ffff_ffff;

/// A fixed-point scalar.  `raw` holds the number scaled by `2^32`.
#[derive(Clone, Copy, Debug, PartialEq, Eq, Structural)]
pub struct Fixed {
    pub raw: i64,
}

/// The value nearest to `v` in the symmetric range of raw values.
pub open spec fn saturate(v: int) -> int {
    if v > MAX_RAW {
        MAX_RAW as int
    } else if v < -MAX_RAW {
        -MAX_RAW
    } else {
        v
    }
}

/// Absolute value of an integer.
pub open spec fn magnitude(v: int) -> int {
    if v < 0 {
        -v
    } else {
        v
    }
}

/// The quotient `n / d` rounded toward zero, for `d != 0`.
pub open spec fn quotient(n: int, d: int) -> int {
    if (n < 0) == (d < 0) {
        magnitude(n) / magnitude(d)
    } else {
        -(magnitude(n) / magnitude(d))
    }
}

/// Raw value of the sum of the scalars with raw values `a` and `b`.
pub open spec fn raw_sum(a: int, b: int) -> int {
    saturate(a + b)
}

/// Raw value of the difference of the scalars with raw values `a` and `b`.
pub open spec fn raw_difference(a: int, b: int) -> int {
    saturate(a - b)
}

/// Raw value of the negation of the scalar with raw value `a`.
pub open spec fn raw_negation(a: int) -> int {
    saturate(-a)
}

/// Raw value of the product of the scalars with raw values `a` and `b`:
/// the exact product, rounded toward zero, then saturated.
pub open spec fn raw_product(a: int, b: int) -> int {
    saturate(quotient(a * b, ONE_RAW as int))
}

/// Raw value of the ratio of the scalars with raw values `a` and `b`: the
/// exact ratio, rounded toward zero, then saturated.  A zero divisor gives
/// the end of the range that has the sign of `a`, and zero for `a == 0`.
pub open spec fn raw_ratio(a: int, b: int) -> int {
    if b != 0 {
        saturate(quotient(a * ONE_RAW, b))
    } else if a > 0 {
        MAX_RAW as int
    } else if a < 0 {
        -MAX_RAW
    } else {
        0
    }
}

/// `r` is the raw value of the square root of the scalar with the positive
/// raw value `v`, rounded down.
pub open spec fn is_raw_root(r: int, v: int) -> bool {
    0 <= r && r * r <= v * ONE_RAW < (r + 1) * (r + 1)
}

/// Raw value of the square root of the scalar with raw value `v`, rounded
/// down; zero where `v` is not positive.
pub open spec fn raw_root(v: int) -> int {
    if v <= 0 {
        0
    } else {
        choose|r: int| is_raw_root(r, v)
    }
}

/// `r` is the square root of the integer `n`, rounded down.
pub open spec fn is_int_root(r: int, n: int) -> bool {
    0 <= r && r * r <= n < (r + 1) * (r + 1)
}

/// The square root of the integer `n`, rounded down; zero where `n` is not
/// positive.
pub open spec fn int_root(n: int) -> int {
    if n <= 0 {
        0
    } else {
        choose|r: int| is_int_root(r, n)
    }
}

/// Magnitude of a raw value as an unsigned integer.
pub(crate) fn raw_magnitude(raw: i64) -> (m: u128)
    ensures
        m == magnitude(raw as int),
        m <= 0x8000_0000_0000_0000,
{
    if raw < 0 {
        let wide: i128 = raw as i128;
        (-wide) as u128
    } else {
        raw as u128
    }
}

/// The scalar of magnitude `m`, or of the largest magnitude where `m` is
/// larger, with the given sign.
fn from_magnitude(m: u128, negative: bool) -> (r: Fixed)
    ensures
        r@ == saturate(
            if negative {
                -(m as int)
            } else {
                m as int
            },
        ),
{
    let capped: i64 = if m > MAX_RAW as u128 {
        MAX_RAW
    } else {
        m as i64
    };
    if negative {
        Fixed { raw: -capped }
    } else {
        Fixed { raw: capped }
    }
}

impl Fixed {
    /// The raw value as a mathematical integer.
    pub open spec fn view(self) -> int {
        self.raw as int
    }

    /// The scalar with raw value `v`, for `v` in the range of `i64`.
    pub open spec fn of(v: int) -> Fixed {
        Fixed { raw: v as i64 }
    }

    /// The scalar that stands for the integer `n`.
    pub open spec fn whole(n: int) -> Fixed {
        Fixed::of(saturate(n * ONE_RAW))
    }

    /// The raw value lies in the symmetric range, as that of every result
    /// of an operation does.
    pub open spec fn in_range(self) -> bool {
        -MAX_RAW <= self.raw
    }

    /// The sum, saturated.
    pub open spec fn plus(self, rhs: Fixed) -> Fixed {
        Fixed::of(raw_sum(self@, rhs@))
    }

    /// The difference, saturated.
    pub open spec fn minus(self, rhs: Fixed) -> Fixed {
        Fixed::of(raw_difference(self@, rhs@))
    }

    /// The product, rounded toward zero and saturated.
    pub open spec fn times(self, rhs: Fixed) -> Fixed {
        Fixed::of(raw_product(self@, rhs@))
    }

    /// The ratio, rounded toward zero and saturated.
    pub open spec fn over(self, rhs: Fixed) -> Fixed {
        Fixed::of(raw_ratio(self@, rhs@))
    }

    /// The negation, saturated.
    pub open spec fn negated(self) -> Fixed {
        Fixed::of(raw_negation(self@))
    }

    /// The square root, rounded down; zero for a negative scalar.
    pub open spec fn sqrt_spec(self) -> Fixed {
        Fixed::of(raw_root(self@))
    }

    /// The absolute value, saturated.
    pub open spec fn abs_spec(self) -> Fixed {
        Fixed::of(saturate(magnitude(self@)))
    }

    /// The smaller of two scalars.
    pub open spec fn min_spec(self, other: Fixed) -> Fixed {
        if other.raw < self.raw {
            other
        } else {
            self
        }
    }

    /// `self`, moved into the interval from `min` to `max`.
    pub open spec fn clamp_spec(self, min: Fixed, max: Fixed) -> Fixed {
        if self.raw < min.raw {
            min
        } else if self.raw > max.raw {
            max
        } else {
            self
        }
    }

    /// The scalar with the given raw value, moved into the symmetric range.
    pub fn from_raw(raw: i64) -> (r: Fixed)
        ensures
            r == Fixed::of(saturate(raw as int)),
    {
        if raw < -MAX_RAW {
            Fixed { raw: -MAX_RAW }
        } else {
            Fixed { raw }
        }
    }

    /// The raw value.
    pub fn raw(self) -> (r: i64)
        ensures
            r == self@,
    {
        self.raw
    }

    /// Zero.
    pub fn zero() -> (r: Fixed)
        ensures
            r == Fixed::whole(0),
            r@ == 0,
    {
        Fixed { raw: 0 }
    }

    /// One.
    pub fn one() -> (r: Fixed)
        ensures
            r == Fixed::whole(1),
            r@ == ONE_RAW,
    {
        Fixed { raw: ONE_RAW }
    }

    /// The largest scalar, which stands in for an unbounded value.
    pub fn max_value() -> (r: Fixed)
        ensures
            r == Fixed::of(MAX_RAW as int),
    {
        Fixed { raw: MAX_RAW }
    }

    /// The scalar that stands for the integer `n`.
    pub fn from_int(n: i32) -> (r: Fixed)
        ensures
            r == Fixed::whole(n as int),
    {
        let wide: i128 = (n as i128) * (ONE_RAW as i128);
        if wide < -(MAX_RAW as i128) {
            Fixed { raw: -MAX_RAW }
        } else {
            Fixed { raw: wide as i64 }
        }
    }

    /// The scalar that stands for `num / den`, rounded toward zero.
    pub fn from_ratio(num: i32, den: i32) -> (r: Fixed)
        ensures
            r == Fixed::whole(num as int).over(Fixed::whole(den as int)),
    {
        Fixed::from_int(num).div(Fixed::from_int(den))
    }

    /// The whole part: the scalar rounded toward zero.
    pub fn to_int(self) -> (n: i32)
        ensures
            n == quotient(self@, ONE_RAW as int),
    {
        let whole: u128 = raw_magnitude(self.raw) / 0x1_0000_0000;
        if self.raw < 0 {
            (-(whole as i64)) as i32
        } else {
            whole as i32
        }
    }

    /// Negation.  It is exact but for the one raw value under the range.
    pub fn neg(self) -> (r: Fixed)
        ensures
            r == self.negated(),
            self.in_range() ==> r@ == -self@,
    {
        if self.raw < -MAX_RAW {
            Fixed { raw: MAX_RAW }
        } else {
            Fixed { raw: -self.raw }
        }
    }

    /// Saturating sum.
    pub fn add(self, rhs: Fixed) -> (r: Fixed)
        ensures
            r == self.plus(rhs),
    {
        let wide: i128 = self.raw as i128 + rhs.raw as i128;
        if wide > MAX_RAW as i128 {
            Fixed { raw: MAX_RAW }
        } else if wide < -(MAX_RAW as i128) {
            Fixed { raw: -MAX_RAW }
        } else {
            Fixed { raw: wide as i64 }
        }
    }

    /// Saturating difference.
    pub fn sub(self, rhs: Fixed) -> (r: Fixed)
        ensures
            r == self.minus(rhs),
    {
        let wide: i128 = self.raw as i128 - rhs.raw as i128;
        if wide > MAX_RAW as i128 {
            Fixed { raw: MAX_RAW }
        } else if wide < -(MAX_RAW as i128) {
            Fixed { raw: -MAX_RAW }
        } else {
            Fixed { raw: wide as i64 }
        }
    }

    /// Saturating product, rounded toward zero.
    pub fn mul(self, rhs: Fixed) -> (r: Fixed)
        ensures
            r == self.times(rhs),
    {
        let left: u128 = raw_magnitude(self.raw);
        let right: u128 = raw_magnitude(rhs.raw);
        assert(left * right <= 0x8000_0000_0000_0000 * 0x8000_0000_0000_0000)
            by (nonlinear_arith)
            requires
                left <= 0x8000_0000_0000_0000,
                right <= 0x8000_0000_0000_0000,
        ;
        let scaled: u128 = (left * right) / (ONE_RAW as u128);
        let negative: bool = (self.raw < 0 && rhs.raw > 0) || (self.raw > 0 && rhs.raw < 0);
        proof {
            lemma_product_sign(self@, rhs@);
        }
        from_magnitude(scaled, negative)
    }

    /// Saturating ratio, rounded toward zero.  Division by zero gives the
    /// end of the range on the side of `self`, and zero for zero.
    pub fn div(self, rhs: Fixed) -> (r: Fixed)
        ensures
            r == self.over(rhs),
    {
        if rhs.raw == 0 {
            if self.raw > 0 {
                Fixed { raw: MAX_RAW }
            } else if self.raw < 0 {
                Fixed { raw: -MAX_RAW }
            } else {
                Fixed { raw: 0 }
            }
        } else {
            let left: u128 = raw_magnitude(self.raw);
            let right: u128 = raw_magnitude(rhs.raw);
            assert(left * (ONE_RAW as u128) == left * 0x1_0000_0000);
            let scaled: u128 = (left * (ONE_RAW as u128)) / right;
            let negative: bool = (self.raw < 0) != (rhs.raw < 0);
            proof {
                lemma_product_sign(self@, ONE_RAW as int);
            }
            from_magnitude(scaled, negative)
        }
    }

    /// Absolute value.
    pub fn abs(self) -> (r: Fixed)
        ensures
            r == self.abs_spec(),
            r@ >= 0,
    {
        from_magnitude(raw_magnitude(self.raw), false)
    }

    /// The smaller of two scalars.
    pub fn min(self, other: Fixed) -> (r: Fixed)
        ensures
            r == self.min_spec(other),
    {
        if other.raw < self.raw {
            other
        } else {
            self
        }
    }

    /// Square root, rounded down: the greatest scalar whose square, taken
    /// exactly, does not exceed `self`.  Zero for a negative scalar.
    pub fn sqrt(self) -> (r: Fixed)
        ensures
            r == self.sqrt_spec(),
            self@ > 0 ==> is_raw_root(r@, self@),
            self@ <= 0 ==> r@ == 0,
            0 <= r@ < 0x1_0000_0000_0000,
    {
        if self.raw <= 0 {
            return Fixed { raw: 0 };
        }
        let target: u128 = (self.raw as u128) * (ONE_RAW as u128);
        let mut low: u128 = 0;
        let mut high: u128 = 0x1_0000_0000_0000;
        while high - low > 1
            invariant
                low < high <= 0x1_0000_0000_0000,
                low * low <= target < high * high,
            decreases high - low,
        {
            let middle: u128 = low + (high - low) / 2;
            assert(middle * middle <= 0x1_0000_0000_0000 * 0x1_0000_0000_0000)
                by (nonlinear_arith)
                requires
                    middle <= 0x1_0000_0000_0000,
            ;
            if middle * middle <= target {
                low = middle;
            } else {
                high = middle;
            }
        }
        proof {
            assert(is_raw_root(low as int, self@));
            lemma_raw_root_unique(low as int, raw_root(self@), self@);
        }
        Fixed { raw: low as i64 }
    }
}

/// The square root of an integer that is not negative, rounded down.
pub(crate) fn int_sqrt(n: u128) -> (r: u128)
    ensures
        r == int_root(n as int),
        is_int_root(r as int, n as int),
        r < 0x1_0000_0000_0000_0000,
{
    let mut low: u128 = 0;
    let mut high: u128 = 0x1_0000_0000_0000_0000;
    assert(n < 0x1_0000_0000_0000_0000 * 0x1_0000_0000_0000_0000) by (nonlinear_arith)
        requires
            n <= 0xffff_ffff_ffff_ffff_ffff_ffff_ffff_ffff,
    ;
    while high - low > 1
        invariant
            low < high <= 0x1_0000_0000_0000_0000,
            low * low <= n < high * high,
        decreases high - low,
    {
        let middle: u128 = low + (high - low) / 2;
        assert(middle * middle <= 0xffff_ffff_ffff_ffff * 0xffff_ffff_ffff_ffff)
            by (nonlinear_arith)
            requires
                middle <= 0xffff_ffff_ffff_ffff,
        ;
        if middle * middle <= n {
            low = middle;
        } else {
            high = middle;
        }
    }
    proof {
        assert(is_int_root(low as int, n as int));
        lemma_int_root(n as int);
        lemma_int_root_unique(low as int, int_root(n as int), n as int);
    }
    low
}

/// Every integer that is not negative has a rounded-down square root.
pub proof fn lemma_int_root(n: int)
    requires
        n >= 0,
    ensures
        is_int_root(int_root(n), n),
{
    if n > 0 {
        assert(n < (n + 1) * (n + 1)) by (nonlinear_arith)
            requires
                n > 0,
        ;
        let r = lemma_root_below(n, n);
        assert(is_int_root(r, n));
    }
}

/// At most one integer is the rounded-down square root of `n`.
pub proof fn lemma_int_root_unique(r: int, s: int, n: int)
    requires
        is_int_root(r, n),
        is_int_root(s, n),
    ensures
        r == s,
{
    if r < s {
        assert((r + 1) * (r + 1) <= s * s) by (nonlinear_arith)
            requires
                0 <= r,
                r + 1 <= s,
        ;
    } else if s < r {
        assert((s + 1) * (s + 1) <= r * r) by (nonlinear_arith)
            requires
                0 <= s,
                s + 1 <= r,
        ;
    }
}

/// At most one raw value is the rounded-down square root of `v`.
pub proof fn lemma_raw_root_unique(r: int, s: int, v: int)
    requires
        is_raw_root(r, v),
        is_raw_root(s, v),
    ensures
        r == s,
{
    if r < s {
        assert((r + 1) * (r + 1) <= s * s) by (nonlinear_arith)
            requires
                0 <= r,
                r + 1 <= s,
        ;
    } else if s < r {
        assert((s + 1) * (s + 1) <= r * r) by (nonlinear_arith)
            requires
                0 <= s,
                s + 1 <= r,
        ;
    }
}

/// Some `r` with `r * r <= target` has `(r + 1) * (r + 1) > target`; it is
/// found by counting down from `start`.
proof fn lemma_root_below(target: int, start: int) -> (r: int)
    requires
        0 < target,
        0 <= start,
        target < (start + 1) * (start + 1),
    ensures
        0 <= r && r * r <= target < (r + 1) * (r + 1),
    decreases start,
{
    if start * start <= target {
        start
    } else {
        assert(start > 0) by (nonlinear_arith)
            requires
                start * start > target,
                target > 0,
                start >= 0,
        ;
        lemma_root_below(target, start - 1)
    }
}

/// Every positive raw value has a rounded-down square root.
pub proof fn lemma_raw_root_exists(v: int)
    requires
        v > 0,
    ensures
        is_raw_root(raw_root(v), v),
{
    let target = v * ONE_RAW;
    assert(target > 0 && target < (target + 1) * (target + 1)) by (nonlinear_arith)
        requires
            target == v * ONE_RAW,
            v > 0,
            ONE_RAW > 0,
    ;
    let r = lemma_root_below(target, target);
    assert(is_raw_root(r, v));
}

/// The square root of a scalar is not negative and has at most 48 bits.
pub proof fn lemma_sqrt_bounds(a: Fixed)
    ensures
        0 <= raw_root(a@) < 0x1_0000_0000_0000,
        a.sqrt_spec()@ == raw_root(a@),
{
    if a@ > 0 {
        lemma_raw_root_exists(a@);
        let r = raw_root(a@);
        assert(r < 0x1_0000_0000_0000) by (nonlinear_arith)
            requires
                0 <= r,
                r * r <= a@ * ONE_RAW,
                a@ <= MAX_RAW,
                ONE_RAW == 0x1_0000_0000,
                MAX_RAW == 0x7fff_ffff_ffff_ffff,
        ;
    }
}

/// The magnitude of a product is the product of the magnitudes, and a
/// product is negative exactly when one factor is negative and the other
/// positive.
pub proof fn lemma_product_sign(a: int, b: int)
    ensures
        magnitude(a * b) == magnitude(a) * magnitude(b),
        (a * b < 0) == ((a < 0 && b > 0) || (a > 0 && b < 0)),
{
    assert(magnitude(a * b) == magnitude(a) * magnitude(b) && ((a * b < 0) == ((a < 0 && b > 0)
        || (a > 0 && b < 0)))) by (nonlinear_arith)
        requires
            magnitude(a) == if a < 0 {
                -a
            } else {
                a
            },
            magnitude(b) == if b < 0 {
                -b
            } else {
                b
            },
            magnitude(a * b) == if a * b < 0 {
                -(a * b)
            } else {
                a * b
            },
    ;
}

/// Rounding toward zero keeps the order of quotients by a positive divisor.
pub proof fn lemma_quotient_ordered(n: int, m: int, d: int)
    requires
        n <= m,
        0 < d,
    ensures
        quotient(n, d) <= quotient(m, d),
{
    if n >= 0 {
        vstd::arithmetic::div_mod::lemma_div_is_ordered(n, m, d);
    } else if m < 0 {
        vstd::arithmetic::div_mod::lemma_div_is_ordered(-m, -n, d);
    } else {
        vstd::arithmetic::div_mod::lemma_div_is_ordered(0, -n, d);
        vstd::arithmetic::div_mod::lemma_div_is_ordered(0, m, d);
    }
}

/// Division by a scalar that is not negative keeps the order.
pub proof fn lemma_over_ordered(a: Fixed, b: Fixed, d: Fixed)
    requires
        a@ <= b@,
        d@ >= 0,
    ensures
        a.over(d)@ <= b.over(d)@,
{
    if d@ > 0 {
        assert(a@ * ONE_RAW <= b@ * ONE_RAW) by (nonlinear_arith)
            requires
                a@ <= b@,
                ONE_RAW > 0,
        ;
        lemma_quotient_ordered(a@ * ONE_RAW, b@ * ONE_RAW, d@);
    }
}

/// One is neutral in products.
pub proof fn lemma_times_one(a: Fixed)
    ensures
        a.times(Fixed::whole(1))@ == saturate(a@),
        Fixed::whole(1).times(a)@ == saturate(a@),
{
    lemma_product_sign(a@, ONE_RAW as int);
    lemma_product_sign(ONE_RAW as int, a@);
    assert(ONE_RAW * a@ == a@ * ONE_RAW) by (nonlinear_arith);
    vstd::arithmetic::div_mod::lemma_div_multiples_vanish(magnitude(a@), ONE_RAW as int);
}

/// A scalar between zero and one, as a factor, makes nothing larger: the
/// product of it and a scalar that is not negative lies between zero and
/// that scalar.
pub proof fn lemma_times_fraction(a: Fixed, b: Fixed)
    requires
        0 <= a@,
        0 <= b@ <= ONE_RAW,
    ensures
        0 <= a.times(b)@ <= a@,
        0 <= b.times(a)@ <= a@,
{
    let exact = a@ * b@;
    assert(0 <= exact <= a@ * ONE_RAW && b@ * a@ == exact) by (nonlinear_arith)
        requires
            exact == a@ * b@,
            0 <= a@,
            0 <= b@ <= ONE_RAW,
    ;
    vstd::arithmetic::div_mod::lemma_div_is_ordered(0, exact, ONE_RAW as int);
    vstd::arithmetic::div_mod::lemma_div_is_ordered(exact, a@ * ONE_RAW, ONE_RAW as int);
    vstd::arithmetic::div_mod::lemma_div_multiples_vanish(a@, ONE_RAW as int);
}

/// A ratio of a scalar by one that is no smaller in magnitude is at most one
/// in magnitude; and so is the ratio of the one raw value under the range
/// by the largest scalar.
pub proof fn lemma_over_within_one(x: Fixed, d: Fixed)
    requires
        d@ > 0,
        magnitude(x@) * ONE_RAW < (ONE_RAW + 1) * d@,
    ensures
        magnitude(x.over(d)@) <= ONE_RAW,
{
    let exact = magnitude(x@ * ONE_RAW);
    let whole = exact / d@;
    lemma_product_sign(x@, ONE_RAW as int);
    vstd::arithmetic::div_mod::lemma_fundamental_div_mod(exact, d@);
    vstd::arithmetic::div_mod::lemma_mod_bound(exact, d@);
    vstd::arithmetic::div_mod::lemma_div_pos_is_pos(exact, d@);
    assert(whole <= ONE_RAW) by (nonlinear_arith)
        requires
            exact == d@ * whole + exact % d@,
            0 <= exact % d@,
            exact < (ONE_RAW + 1) * d@,
            d@ > 0,
            whole >= 0,
    ;
}

/// What rounding costs a ratio: with `u` for the ratio of `x` by the
/// positive scalar `d`, the product `u d` falls short of `x` scaled by
/// `2^32` by less than `d`, in magnitude, and does not exceed it.
pub proof fn lemma_over_error(x: Fixed, d: Fixed)
    requires
        d@ > 0,
        magnitude(x@) * ONE_RAW < (ONE_RAW + 1) * d@,
    ensures
        magnitude(x.over(d)@) * d@ <= magnitude(x@) * ONE_RAW < magnitude(x.over(d)@) * d@ + d@,
        magnitude(x.over(d)@) <= ONE_RAW,
{
    let exact = magnitude(x@ * ONE_RAW);
    let whole = exact / d@;
    lemma_over_within_one(x, d);
    lemma_product_sign(x@, ONE_RAW as int);
    vstd::arithmetic::div_mod::lemma_fundamental_div_mod(exact, d@);
    vstd::arithmetic::div_mod::lemma_mod_bound(exact, d@);
    vstd::arithmetic::div_mod::lemma_div_pos_is_pos(exact, d@);
    assert(whole * d@ <= exact < whole * d@ + d@) by (nonlinear_arith)
        requires
            exact == d@ * whole + exact % d@,
            0 <= exact % d@ < d@,
    ;
    assert(whole <= ONE_RAW) by (nonlinear_arith)
        requires
            whole * d@ <= exact,
            exact < (ONE_RAW + 1) * d@,
            d@ > 0,
            whole >= 0,
    ;
}

/// A ratio by a positive scalar has the sign of the dividend, or is zero.
pub proof fn lemma_over_keeps_sign(a: Fixed, d: Fixed)
    requires
        d@ > 0,
    ensures
        a@ >= 0 ==> a.over(d)@ >= 0,
        a@ <= 0 ==> a.over(d)@ <= 0,
{
    lemma_product_sign(a@, ONE_RAW as int);
    vstd::arithmetic::div_mod::lemma_div_is_ordered(0, magnitude(a@ * ONE_RAW), d@);
}

/// A product whose exact value lies in the range is that value rounded
/// toward zero: it differs from it by less than one raw unit, is no
/// larger in magnitude, and does not exceed it where it is not negative.
pub proof fn lemma_times_error(a: Fixed, b: Fixed)
    requires
        magnitude(a@ * b@) <= MAX_RAW * ONE_RAW,
    ensures
        a@ * b@ - ONE_RAW < a.times(b)@ * ONE_RAW < a@ * b@ + ONE_RAW,
        magnitude(a.times(b)@) * ONE_RAW <= magnitude(a@ * b@),
        a@ * b@ >= 0 ==> 0 <= a.times(b)@ * ONE_RAW <= a@ * b@,
        a@ * b@ <= 0 ==> a@ * b@ <= a.times(b)@ * ONE_RAW <= 0,
{
    let exact = magnitude(a@ * b@);
    let whole = exact / (ONE_RAW as int);
    vstd::arithmetic::div_mod::lemma_fundamental_div_mod(exact, ONE_RAW as int);
    vstd::arithmetic::div_mod::lemma_mod_bound(exact, ONE_RAW as int);
    assert(whole * ONE_RAW <= exact < whole * ONE_RAW + ONE_RAW && whole >= 0) by (nonlinear_arith)
        requires
            exact == ONE_RAW * whole + exact % (ONE_RAW as int),
            0 <= exact % (ONE_RAW as int) < ONE_RAW,
            exact >= 0,
            ONE_RAW > 0,
    ;
    assert(whole <= MAX_RAW) by (nonlinear_arith)
        requires
            whole * ONE_RAW <= exact,
            exact <= MAX_RAW * ONE_RAW,
            ONE_RAW > 0,
    ;
    assert((-whole) * ONE_RAW == -(whole * ONE_RAW)) by (nonlinear_arith);
}

/// A factor that is not negative keeps the order of products.
pub proof fn lemma_times_ordered(a: Fixed, b: Fixed, g: Fixed)
    requires
        a@ <= b@,
        g@ >= 0,
    ensures
        a.times(g)@ <= b.times(g)@,
        g.times(a)@ <= g.times(b)@,
{
    assert(a@ * g@ <= b@ * g@ && g@ * a@ == a@ * g@ && g@ * b@ == b@ * g@) by (nonlinear_arith)
        requires
            a@ <= b@,
            g@ >= 0,
    ;
    lemma_quotient_ordered(a@ * g@, b@ * g@, ONE_RAW as int);
}

/// The product of two scalars of one sign is not negative.
pub proof fn lemma_times_same_sign(a: Fixed, b: Fixed)
    requires
        (a@ >= 0 && b@ >= 0) || (a@ <= 0 && b@ <= 0),
    ensures
        a.times(b)@ >= 0,
{
    lemma_product_sign(a@, b@);
}

/// A scalar times itself is not negative.
pub proof fn lemma_square_bounds(a: Fixed)
    ensures
        a.times(a)@ >= 0,
{
    lemma_product_sign(a@, a@);
}

/// Negation goes through the saturating sum of two scalars.
pub proof fn lemma_plus_negated(a: Fixed, b: Fixed)
    requires
        a.in_range(),
        b.in_range(),
    ensures
        a.negated().plus(b.negated()) == a.plus(b).negated(),
{
}

/// A product changes sign with its second factor.
pub proof fn lemma_times_negated(a: Fixed, b: Fixed)
    requires
        b.in_range(),
    ensures
        a.times(b.negated()) == a.times(b).negated(),
        a.times(b).in_range(),
{
    lemma_product_sign(a@, b@);
    lemma_product_sign(a@, -b@);
    assert(a@ * (-b@) == -(a@ * b@)) by (nonlinear_arith);
}

} // verus!
