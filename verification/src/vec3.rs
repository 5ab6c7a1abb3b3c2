//! Three-component vectors of fixed-point scalars, used alike as points,
//! displacements, directions and colours.  No vector is held to unit
//! length: where a direction must have it, the caller takes `unit_vector`.
use crate::fixed::lemma_plus_negated;
use crate::fixed::int_root;
use crate::fixed::int_sqrt;
use crate::fixed::lemma_int_root;
use crate::fixed::lemma_over_error;
use crate::fixed::lemma_over_within_one;
use crate::fixed::lemma_product_sign;
use crate::fixed::magnitude;
use crate::fixed::raw_magnitude;
use crate::fixed::saturate;
use crate::fixed::MAX_RAW;
use crate::fixed::lemma_times_negated;
use crate::fixed::Fixed;
use crate::fixed::ONE_RAW;
use crate::random::is_fraction;
use crate::random::random_fraction;
use crate::random::range_from_fraction;
use crate::random::range_point;
use vstd::prelude::*;

verus! {

/// Raw value of the bound under which a component counts as zero: `1e-8`,
/// rounded down.
pub const NEAR_ZERO_RAW: i64 = 42;

/// Raw value of the least length from which the unit vector of a vector has
/// unit length within `UNIT_SLACK_RAW`: `2^-11`.  The parts of a shorter
/// vector have too few bits for that.
pub const MIN_LENGTH_RAW: i64 = 0x20_0000;

/// Raw value of the bound on how far the squared length of a unit vector
/// lies from one: three raw units for each unit of `2^32 / MIN_LENGTH_RAW`.
pub const UNIT_SLACK_RAW: i64 = 6144;

/// A colour: red, green and blue in `x`, `y` and `z`.
pub type Color = Vec3;

/// A point in space.
pub type Point3 = Vec3;

/// A vector of three scalars.
#[derive(Clone, Copy, Debug, PartialEq, Eq, Structural)]
pub struct Vec3 {
    pub x: Fixed,
    pub y: Fixed,
    pub z: Fixed,
}

impl Vec3 {
    /// Every component lies in the symmetric range.
    pub open spec fn in_range(self) -> bool {
        self.x.in_range() && self.y.in_range() && self.z.in_range()
    }

    /// The zero vector.
    pub open spec fn zeroes_spec() -> Vec3 {
        Vec3 { x: Fixed::whole(0), y: Fixed::whole(0), z: Fixed::whole(0) }
    }

    /// The vector of ones.
    pub open spec fn ones_spec() -> Vec3 {
        Vec3 { x: Fixed::whole(1), y: Fixed::whole(1), z: Fixed::whole(1) }
    }

    /// Every component lies in `[0, 1)`.
    pub open spec fn all_fractions(self) -> bool {
        is_fraction(self.x) && is_fraction(self.y) && is_fraction(self.z)
    }

    /// Every component lies in `[0, 1]`: as a filter, such a colour makes
    /// nothing brighter.
    pub open spec fn in_unit_cube(self) -> bool {
        0 <= self.x@ <= ONE_RAW && 0 <= self.y@ <= ONE_RAW && 0 <= self.z@ <= ONE_RAW
    }

    /// The sum, component by component.
    pub open spec fn plus(self, rhs: Vec3) -> Vec3 {
        Vec3 { x: self.x.plus(rhs.x), y: self.y.plus(rhs.y), z: self.z.plus(rhs.z) }
    }

    /// The difference, component by component.
    pub open spec fn minus(self, rhs: Vec3) -> Vec3 {
        Vec3 { x: self.x.minus(rhs.x), y: self.y.minus(rhs.y), z: self.z.minus(rhs.z) }
    }

    /// The product, component by component.
    pub open spec fn times(self, rhs: Vec3) -> Vec3 {
        Vec3 { x: self.x.times(rhs.x), y: self.y.times(rhs.y), z: self.z.times(rhs.z) }
    }

    /// Every component multiplied by `rhs`.
    pub open spec fn scaled(self, rhs: Fixed) -> Vec3 {
        Vec3 { x: self.x.times(rhs), y: self.y.times(rhs), z: self.z.times(rhs) }
    }

    /// Every component divided by `rhs`.
    pub open spec fn over(self, rhs: Fixed) -> Vec3 {
        Vec3 { x: self.x.over(rhs), y: self.y.over(rhs), z: self.z.over(rhs) }
    }

    /// Every component negated.
    pub open spec fn negated(self) -> Vec3 {
        Vec3 { x: self.x.negated(), y: self.y.negated(), z: self.z.negated() }
    }

    /// The dot product: `x x' + y y' + z z'`, summed from the left.
    pub open spec fn dot_spec(self, other: Vec3) -> Fixed {
        self.x.times(other.x).plus(self.y.times(other.y)).plus(self.z.times(other.z))
    }

    /// The sum of the squares of the raw values, taken exactly.
    pub open spec fn squares_sum(self) -> int {
        self.x@ * self.x@ + self.y@ * self.y@ + self.z@ * self.z@
    }

    /// The square of the length: the exact sum of the squares, rounded down
    /// once to a scalar, and saturated.
    pub open spec fn length_squared_spec(self) -> Fixed {
        Fixed::of(saturate(self.squares_sum() / (ONE_RAW as int)))
    }

    /// The length: the square root of the exact sum of the squares, rounded
    /// down to a scalar, and saturated.
    pub open spec fn length_spec(self) -> Fixed {
        Fixed::of(saturate(int_root(self.squares_sum())))
    }

    /// The vector has unit length as nearly as rounding lets a unit vector
    /// have: its squared length differs from one by at most
    /// `UNIT_SLACK_RAW`, which is under `1.5e-6`.
    pub open spec fn is_unit(self) -> bool {
        ONE_RAW - UNIT_SLACK_RAW <= self.length_squared_spec()@ <= ONE_RAW + UNIT_SLACK_RAW
    }

    /// No part of the vector exceeds one in magnitude.
    pub open spec fn in_unit_box(self) -> bool {
        magnitude(self.x@) <= ONE_RAW && magnitude(self.y@) <= ONE_RAW && magnitude(self.z@)
            <= ONE_RAW
    }

    /// Every component is closer to zero than `1e-8`.
    pub open spec fn near_zero_spec(self) -> bool {
        self.x.abs_spec()@ < NEAR_ZERO_RAW && self.y.abs_spec()@ < NEAR_ZERO_RAW
            && self.z.abs_spec()@ < NEAR_ZERO_RAW
    }

    /// The cross product.
    pub open spec fn cross_spec(self, other: Vec3) -> Vec3 {
        Vec3 {
            x: self.y.times(other.z).minus(self.z.times(other.y)),
            y: self.z.times(other.x).minus(self.x.times(other.z)),
            z: self.x.times(other.y).minus(self.y.times(other.x)),
        }
    }

    /// The vector divided by its length.
    pub open spec fn unit_spec(self) -> Vec3 {
        self.over(self.length_spec())
    }

    /// The point that lies, in each component, as far from `min` to `max` as
    /// the fractions `u` say.
    pub open spec fn range_points(min: Fixed, max: Fixed, u: Vec3) -> Vec3 {
        Vec3 {
            x: range_point(min, max, u.x),
            y: range_point(min, max, u.y),
            z: range_point(min, max, u.z),
        }
    }

    /// The vector with the given components.
    pub fn new(x: Fixed, y: Fixed, z: Fixed) -> (v: Vec3)
        ensures
            v == (Vec3 { x, y, z }),
    {
        Vec3 { x, y, z }
    }

    /// The zero vector, and the colour black.
    pub fn zeroes() -> (v: Vec3)
        ensures
            v == Vec3::zeroes_spec(),
    {
        Vec3::new(Fixed::zero(), Fixed::zero(), Fixed::zero())
    }

    /// The vector of ones, and the colour white.
    pub fn ones() -> (v: Vec3)
        ensures
            v == Vec3::ones_spec(),
    {
        Vec3::new(Fixed::one(), Fixed::one(), Fixed::one())
    }

    /// A vector whose components are drawn uniformly from `[0, 1)`.
    pub fn random() -> (v: Vec3)
        ensures
            v.all_fractions(),
    {
        let x = random_fraction();
        let y = random_fraction();
        let z = random_fraction();
        Vec3::new(x, y, z)
    }

    /// The vector that `random_range` returns when its draws are `u`.
    pub fn range_from_fractions(min: Fixed, max: Fixed, u: &Vec3) -> (v: Vec3)
        ensures
            v == Vec3::range_points(min, max, *u),
            min.in_range() && min@ < max@ && u.all_fractions() ==> min@ <= v.x@ < max@ && min@
                <= v.y@ < max@ && min@ <= v.z@ < max@,
    {
        Vec3::new(
            range_from_fraction(min, max, u.x),
            range_from_fraction(min, max, u.y),
            range_from_fraction(min, max, u.z),
        )
    }

    /// A vector whose components are drawn uniformly from `[min, max)`, for
    /// `min < max`.
    pub fn random_range(min: Fixed, max: Fixed) -> (v: Vec3)
        ensures
            exists|u: Vec3| u.all_fractions() && v == #[trigger] Vec3::range_points(min, max, u),
            min.in_range() && min@ < max@ ==> min@ <= v.x@ < max@ && min@ <= v.y@ < max@ && min@
                <= v.z@ < max@,
    {
        let u = Vec3::random();
        let v = Vec3::range_from_fractions(min, max, &u);
        assert(v == Vec3::range_points(min, max, u));
        v
    }

    /// The sum of the squares of the raw values.
    fn squares(&self) -> (sum: u128)
        ensures
            sum == self.squares_sum(),
    {
        let x: u128 = raw_magnitude(self.x.raw);
        let y: u128 = raw_magnitude(self.y.raw);
        let z: u128 = raw_magnitude(self.z.raw);
        proof {
            lemma_product_sign(self.x@, self.x@);
            lemma_product_sign(self.y@, self.y@);
            lemma_product_sign(self.z@, self.z@);
            assert(x * x <= 0x8000_0000_0000_0000 * 0x8000_0000_0000_0000 && y * y
                <= 0x8000_0000_0000_0000 * 0x8000_0000_0000_0000 && z * z
                <= 0x8000_0000_0000_0000 * 0x8000_0000_0000_0000) by (nonlinear_arith)
                requires
                    x <= 0x8000_0000_0000_0000,
                    y <= 0x8000_0000_0000_0000,
                    z <= 0x8000_0000_0000_0000,
            ;
        }
        x * x + y * y + z * z
    }

    /// The length of the vector: the square root of the exact sum of the
    /// squares, rounded down.  It is exact to one raw unit, but for a vector
    /// too long for its length to be held, whose length is the largest
    /// scalar.
    pub fn length(&self) -> (r: Fixed)
        ensures
            r == self.length_spec(),
            r@ >= 0,
            r@ * r@ <= self.squares_sum(),
            r@ < MAX_RAW ==> self.squares_sum() < (r@ + 1) * (r@ + 1),
    {
        let root: u128 = int_sqrt(self.squares());
        if root > MAX_RAW as u128 {
            proof {
                assert(MAX_RAW * MAX_RAW <= root * root) by (nonlinear_arith)
                    requires
                        MAX_RAW <= root,
                        MAX_RAW >= 0,
                ;
            }
            Fixed { raw: MAX_RAW }
        } else {
            Fixed { raw: root as i64 }
        }
    }

    /// The square of the length of the vector: the exact sum of the squares,
    /// rounded down once.
    pub fn length_squared(&self) -> (r: Fixed)
        ensures
            r == self.length_squared_spec(),
            r@ >= 0,
    {
        let whole: u128 = self.squares() / 0x1_0000_0000;
        if whole > MAX_RAW as u128 {
            Fixed { raw: MAX_RAW }
        } else {
            Fixed { raw: whole as i64 }
        }
    }

    /// Whether every component is closer to zero than `1e-8`.
    pub fn near_zero(&self) -> (r: bool)
        ensures
            r == self.near_zero_spec(),
    {
        let s = Fixed { raw: NEAR_ZERO_RAW };
        (self.x.abs().raw < s.raw) && (self.y.abs().raw < s.raw) && (self.z.abs().raw < s.raw)
    }

    /// The dot product.
    pub fn dot(&self, other: &Vec3) -> (r: Fixed)
        ensures
            r == self.dot_spec(*other),
    {
        self.x.mul(other.x).add(self.y.mul(other.y)).add(self.z.mul(other.z))
    }

    /// The cross product.
    pub fn cross(&self, other: &Vec3) -> (r: Vec3)
        ensures
            r == self.cross_spec(*other),
    {
        Vec3::new(
            self.y.mul(other.z).sub(self.z.mul(other.y)),
            self.z.mul(other.x).sub(self.x.mul(other.z)),
            self.x.mul(other.y).sub(self.y.mul(other.x)),
        )
    }

    /// The vector divided by its length.  The zero vector, which alone has
    /// length zero, comes back unchanged.  No part of the result exceeds one
    /// in magnitude.  The result has unit length as nearly as its parts
    /// let it have: its squared length is at most six raw units under one,
    /// and it is within `UNIT_SLACK_RAW` of one for a vector that is at
    /// least `MIN_LENGTH_RAW` long; a shorter vector has too few bits for
    /// that.
    pub fn unit_vector(&self) -> (r: Vec3)
        ensures
            r == self.unit_spec(),
            r.in_unit_box(),
            self.squares_sum() == 0 ==> r == Vec3::zeroes_spec(),
            0 < self.length_spec()@ < MAX_RAW ==> r.length_squared_spec()@ >= ONE_RAW - 6,
            MIN_LENGTH_RAW <= self.length_spec()@ < MAX_RAW ==> r.is_unit(),
    {
        let length = self.length();
        proof {
            lemma_unit_in_box(*self);
            if 0 < self.length_spec()@ < MAX_RAW {
                lemma_unit_length(*self);
            }
        }
        self.div(length)
    }

    /// The vector with every component negated.
    pub fn neg(self) -> (r: Vec3)
        ensures
            r == self.negated(),
    {
        Vec3 { x: self.x.neg(), y: self.y.neg(), z: self.z.neg() }
    }

    /// The sum of two vectors.
    pub fn add(self, rhs: Vec3) -> (r: Vec3)
        ensures
            r == self.plus(rhs),
    {
        Vec3 { x: self.x.add(rhs.x), y: self.y.add(rhs.y), z: self.z.add(rhs.z) }
    }

    /// The difference of two vectors.
    pub fn sub(self, rhs: Vec3) -> (r: Vec3)
        ensures
            r == self.minus(rhs),
    {
        Vec3 { x: self.x.sub(rhs.x), y: self.y.sub(rhs.y), z: self.z.sub(rhs.z) }
    }

    /// The product of two vectors, component by component, as a colour is
    /// filtered by another.
    pub fn mul(self, rhs: Vec3) -> (r: Vec3)
        ensures
            r == self.times(rhs),
    {
        Vec3 { x: self.x.mul(rhs.x), y: self.y.mul(rhs.y), z: self.z.mul(rhs.z) }
    }

    /// The vector with every component multiplied by `rhs`.
    pub fn scale(self, rhs: Fixed) -> (r: Vec3)
        ensures
            r == self.scaled(rhs),
    {
        Vec3 { x: self.x.mul(rhs), y: self.y.mul(rhs), z: self.z.mul(rhs) }
    }

    /// The vector with every component divided by `rhs`.
    pub fn div(self, rhs: Fixed) -> (r: Vec3)
        ensures
            r == self.over(rhs),
    {
        Vec3 { x: self.x.div(rhs), y: self.y.div(rhs), z: self.z.div(rhs) }
    }

    /// Adds `other` to the vector.
    pub fn add_assign(&mut self, other: &Vec3)
        ensures
            *final(self) == old(self).plus(*other),
    {
        self.x = self.x.add(other.x);
        self.y = self.y.add(other.y);
        self.z = self.z.add(other.z);
    }

    /// Multiplies every component by `value`.
    pub fn mul_assign(&mut self, value: Fixed)
        ensures
            *final(self) == old(self).scaled(value),
    {
        self.x = self.x.mul(value);
        self.y = self.y.mul(value);
        self.z = self.z.mul(value);
    }

    /// Divides every component by `value`.
    pub fn div_assign(&mut self, value: Fixed)
        ensures
            *final(self) == old(self).over(value),
    {
        self.x = self.x.div(value);
        self.y = self.y.div(value);
        self.z = self.z.div(value);
    }
}

/// The squared length of a vector is not negative.
pub proof fn lemma_length_squared_bounds(a: Vec3)
    ensures
        a.squares_sum() >= 0,
        a.length_squared_spec()@ >= 0,
        a.length_squared_spec()@ * ONE_RAW <= a.squares_sum(),
        a.length_squared_spec()@ < MAX_RAW ==> a.squares_sum() < (a.length_squared_spec()@ + 1)
            * ONE_RAW,
{
    let sum = a.squares_sum();
    assert(a.x@ * a.x@ >= 0 && a.y@ * a.y@ >= 0 && a.z@ * a.z@ >= 0) by (nonlinear_arith);
    vstd::arithmetic::div_mod::lemma_fundamental_div_mod(sum, ONE_RAW as int);
    vstd::arithmetic::div_mod::lemma_mod_bound(sum, ONE_RAW as int);
    vstd::arithmetic::div_mod::lemma_div_pos_is_pos(sum, ONE_RAW as int);
    assert(ONE_RAW * (sum / (ONE_RAW as int)) == (sum / (ONE_RAW as int)) * ONE_RAW)
        by (nonlinear_arith);
    assert((sum / (ONE_RAW as int) + 1) * ONE_RAW == (sum / (ONE_RAW as int)) * ONE_RAW + ONE_RAW)
        by (nonlinear_arith);
}

/// The length of a vector is the root of the sum of its squares, rounded
/// down, as far as it can be held; and no part of the vector is longer,
/// but for a part that lies under the range.
pub proof fn lemma_length_bounds(a: Vec3)
    ensures
        0 <= a.length_spec()@ <= MAX_RAW,
        a.length_spec()@ * a.length_spec()@ <= a.squares_sum(),
        a.length_spec()@ < MAX_RAW ==> a.squares_sum() < (a.length_spec()@ + 1) * (
        a.length_spec()@ + 1),
        a.length_spec()@ < MAX_RAW ==> magnitude(a.x@) <= a.length_spec()@ && magnitude(a.y@)
            <= a.length_spec()@ && magnitude(a.z@) <= a.length_spec()@,
        a.length_spec()@ == 0 <==> a.squares_sum() == 0,
{
    let sum = a.squares_sum();
    let length = a.length_spec()@;
    let root = int_root(sum);
    assert(a.x@ * a.x@ >= 0 && a.y@ * a.y@ >= 0 && a.z@ * a.z@ >= 0) by (nonlinear_arith);
    lemma_int_root(sum);
    if root > MAX_RAW {
        assert(MAX_RAW * MAX_RAW <= root * root) by (nonlinear_arith)
            requires
                MAX_RAW <= root,
                MAX_RAW >= 0,
        ;
    } else {
        lemma_part_under_root(a.x@, sum, root);
        lemma_part_under_root(a.y@, sum, root);
        lemma_part_under_root(a.z@, sum, root);
    }
}

/// No part of the unit vector of a vector exceeds one in magnitude, and the
/// unit vector of the zero vector is the zero vector.
pub proof fn lemma_unit_in_box(a: Vec3)
    ensures
        a.unit_spec().in_unit_box(),
        a.squares_sum() == 0 ==> a.unit_spec() == Vec3::zeroes_spec(),
{
    let length = a.length_spec();
    lemma_length_bounds(a);
    if length@ == 0 {
        assert(a.x@ == 0 && a.y@ == 0 && a.z@ == 0) by (nonlinear_arith)
            requires
                a.x@ * a.x@ + a.y@ * a.y@ + a.z@ * a.z@ == 0,
        ;
    } else {
        lemma_over_within_one(a.x, length);
        lemma_over_within_one(a.y, length);
        lemma_over_within_one(a.z, length);
    }
}

/// One part of a unit vector against the part it is made from: with `u`
/// for the ratio of `x` by the length `d`, the square of `u d` is at most
/// the square of `x` scaled by `2^32`, and falls short of it by at most
/// twice that scaled magnitude times `d`.
proof fn lemma_unit_part(x: Fixed, d: Fixed) -> (squares: (int, int))
    requires
        d@ > 0,
        magnitude(x@) <= d@,
    ensures
        squares.0 == x.over(d)@ * x.over(d)@ * (d@ * d@),
        squares.1 == x@ * x@ * (ONE_RAW * ONE_RAW),
        squares.1 - 2 * (ONE_RAW * (d@ * d@)) <= squares.0 <= squares.1,
{
    let one = ONE_RAW as int;
    let u = magnitude(x.over(d)@);
    let m = magnitude(x@);
    lemma_over_error(x, d);
    let low = u * d@;
    let high = m * one;
    assert(low * low <= high * high) by (nonlinear_arith)
        requires
            0 <= low <= high,
    ;
    assert(low * low >= high * high - 2 * (high * d@)) by (nonlinear_arith)
        requires
            0 <= low <= high < low + d@,
            d@ > 0,
    ;
    assert(high * d@ <= one * (d@ * d@)) by (nonlinear_arith)
        requires
            high == m * one,
            0 <= m <= d@,
            one > 0,
    ;
    assert(low * low == x.over(d)@ * x.over(d)@ * (d@ * d@)) by (nonlinear_arith)
        requires
            low == u * d@,
            u == magnitude(x.over(d)@),
            magnitude(x.over(d)@) == if x.over(d)@ < 0 {
                -x.over(d)@
            } else {
                x.over(d)@
            },
    ;
    assert(high * high == x@ * x@ * (one * one)) by (nonlinear_arith)
        requires
            high == m * one,
            m == if x@ < 0 {
                -x@
            } else {
                x@
            },
    ;
    (low * low, high * high)
}

/// The unit vector of a vector that is not the zero vector, and whose
/// length can be held, has a squared length of at least one less six raw
/// units; and of at most one and `UNIT_SLACK_RAW` where the vector is at
/// least `MIN_LENGTH_RAW` long.
pub proof fn lemma_unit_length(a: Vec3)
    requires
        0 < a.length_spec()@ < MAX_RAW,
    ensures
        a.unit_spec().length_squared_spec()@ >= ONE_RAW - 6,
        a.length_spec()@ >= MIN_LENGTH_RAW ==> a.unit_spec().is_unit(),
{
    let one = ONE_RAW as int;
    let length = a.length_spec();
    let d = length@;
    let unit = a.unit_spec();
    let sum = a.squares_sum();
    let total = unit.squares_sum();
    lemma_length_bounds(a);
    let (ux, sx) = lemma_unit_part(a.x, length);
    let (uy, sy) = lemma_unit_part(a.y, length);
    let (uz, sz) = lemma_unit_part(a.z, length);
    let dd = d * d;
    assert(dd > 0) by (nonlinear_arith)
        requires
            dd == d * d,
            d > 0,
    ;
    assert(total * dd == ux + uy + uz) by (nonlinear_arith)
        requires
            total == unit.x@ * unit.x@ + unit.y@ * unit.y@ + unit.z@ * unit.z@,
            ux == unit.x@ * unit.x@ * dd,
            uy == unit.y@ * unit.y@ * dd,
            uz == unit.z@ * unit.z@ * dd,
    ;
    assert(sum * (one * one) == sx + sy + sz) by (nonlinear_arith)
        requires
            sum == a.x@ * a.x@ + a.y@ * a.y@ + a.z@ * a.z@,
            sx == a.x@ * a.x@ * (one * one),
            sy == a.y@ * a.y@ * (one * one),
            sz == a.z@ * a.z@ * (one * one),
    ;
    // from below
    assert(total >= (one - 6) * one) by (nonlinear_arith)
        requires
            total * dd >= sum * (one * one) - 6 * (one * dd),
            sum >= dd,
            dd > 0,
            one > 0,
    ;
    vstd::arithmetic::div_mod::lemma_div_is_ordered((one - 6) * one, total, one);
    vstd::arithmetic::div_mod::lemma_div_multiples_vanish(one - 6, one);
    // from above
    lemma_unit_in_box(a);
    assert(total <= 3 * (one * one)) by (nonlinear_arith)
        requires
            total == unit.x@ * unit.x@ + unit.y@ * unit.y@ + unit.z@ * unit.z@,
            magnitude(unit.x@) <= one,
            magnitude(unit.y@) <= one,
            magnitude(unit.z@) <= one,
            magnitude(unit.x@) == if unit.x@ < 0 {
                -unit.x@
            } else {
                unit.x@
            },
            magnitude(unit.y@) == if unit.y@ < 0 {
                -unit.y@
            } else {
                unit.y@
            },
            magnitude(unit.z@) == if unit.z@ < 0 {
                -unit.z@
            } else {
                unit.z@
            },
    ;
    vstd::arithmetic::div_mod::lemma_div_is_ordered(total, 3 * (one * one), one);
    vstd::arithmetic::div_mod::lemma_div_multiples_vanish(3 * one, one);
    assert(3 * (one * one) == (3 * one) * one) by (nonlinear_arith);
    if d >= MIN_LENGTH_RAW {
        assert(total < (one + UNIT_SLACK_RAW) * one) by (nonlinear_arith)
            requires
                total * dd <= sum * (one * one),
                sum < (d + 1) * (d + 1),
                dd == d * d,
                d >= 0x20_0000,
                one == 0x1_0000_0000,
                UNIT_SLACK_RAW == 6144,
                total >= 0,
        ;
        vstd::arithmetic::div_mod::lemma_div_is_ordered(
            total,
            (one + UNIT_SLACK_RAW) * one,
            one,
        );
        vstd::arithmetic::div_mod::lemma_div_multiples_vanish(one + UNIT_SLACK_RAW, one);
    }
}

/// A number whose square is at most `sum` is at most the root of `sum` in
/// magnitude.
proof fn lemma_part_under_root(part: int, sum: int, root: int)
    requires
        part * part <= sum,
        0 <= root,
        sum < (root + 1) * (root + 1),
    ensures
        magnitude(part) <= root,
{
    if magnitude(part) > root {
        assert(part * part >= (root + 1) * (root + 1)) by (nonlinear_arith)
            requires
                magnitude(part) >= root + 1,
                root >= 0,
                magnitude(part) == if part < 0 {
                    -part
                } else {
                    part
                },
        ;
    }
}

/// The dot product changes sign with its second vector.
pub proof fn lemma_dot_negated(a: Vec3, b: Vec3)
    requires
        b.in_range(),
    ensures
        a.dot_spec(b.negated()) == a.dot_spec(b).negated(),
{
    lemma_times_negated(a.x, b.x);
    lemma_times_negated(a.y, b.y);
    lemma_times_negated(a.z, b.z);
    lemma_plus_negated(a.x.times(b.x), a.y.times(b.y));
    lemma_plus_negated(a.x.times(b.x).plus(a.y.times(b.y)), a.z.times(b.z));
}

/// Every vector scaled by zero is the zero vector.
pub proof fn lemma_scaled_by_zero(a: Vec3)
    ensures
        a.scaled(Fixed::whole(0)) == Vec3::zeroes_spec(),
{
    assert(a.x@ * 0 == 0 && a.y@ * 0 == 0 && a.z@ * 0 == 0) by (nonlinear_arith);
}

} // verus!
