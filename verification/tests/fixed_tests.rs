use pathtracer::fixed::Fixed;
use pathtracer::fixed::MAX_RAW;
use pathtracer::fixed::ONE_RAW;

fn fx(v: f64) -> Fixed {
    Fixed::from_raw((v * 4294967296.0).round() as i64)
}

fn fl(a: Fixed) -> f64 {
    a.raw as f64 / 4294967296.0
}

#[test]
fn one_has_thirty_two_fraction_bits() {
    assert_eq!(ONE_RAW, 1i64 << 32);
    assert_eq!(Fixed::one().raw, 4294967296);
    assert_eq!(Fixed::zero().raw, 0);
    assert_eq!(Fixed::max_value().raw, i64::MAX);
    assert_eq!(MAX_RAW, i64::MAX);
}

#[test]
fn from_int_scales_by_one() {
    assert_eq!(Fixed::from_int(3).raw, 3 * ONE_RAW);
    assert_eq!(Fixed::from_int(-1000).raw, -1000 * ONE_RAW);
    assert_eq!(Fixed::from_int(i32::MAX).raw, (i32::MAX as i64) * ONE_RAW);
}

#[test]
fn from_int_of_least_integer_saturates() {
    assert_eq!(Fixed::from_int(i32::MIN).raw, -i64::MAX);
}

#[test]
fn from_raw_moves_least_value_into_range() {
    assert_eq!(Fixed::from_raw(i64::MIN).raw, -i64::MAX);
    assert_eq!(Fixed::from_raw(-5).raw, -5);
    assert_eq!(Fixed::from_raw(7).raw(), 7);
}

#[test]
fn from_ratio_rounds_toward_zero() {
    assert_eq!(Fixed::from_ratio(1, 2).raw, 2147483648);
    assert_eq!(Fixed::from_ratio(7, 10).raw, 3006477107);
    assert_eq!(Fixed::from_ratio(-7, 10).raw, -3006477107);
    assert_eq!(Fixed::from_ratio(1, 1000).raw, 4294967);
    assert_eq!(Fixed::from_ratio(1, 100000000).raw, 42);
    assert_eq!(Fixed::from_ratio(3, 2).raw, 6442450944);
}

#[test]
fn add_and_sub_are_exact_in_range() {
    assert_eq!(fx(1.5).add(fx(2.25)).raw, fx(3.75).raw);
    assert_eq!(fx(1.5).sub(fx(2.25)).raw, fx(-0.75).raw);
}

#[test]
fn add_and_sub_saturate() {
    let max = Fixed::max_value();
    assert_eq!(max.add(Fixed::one()).raw, i64::MAX);
    assert_eq!(max.neg().sub(Fixed::one()).raw, -i64::MAX);
    assert_eq!(max.add(max).raw, i64::MAX);
    assert_eq!(max.neg().add(max.neg()).raw, -i64::MAX);
}

#[test]
fn neg_is_exact_and_saturates_at_the_least_value() {
    assert_eq!(fx(2.5).neg().raw, fx(-2.5).raw);
    assert_eq!(Fixed { raw: i64::MIN }.neg().raw, i64::MAX);
    assert_eq!(Fixed::zero().neg().raw, 0);
}

#[test]
fn mul_rounds_toward_zero() {
    assert_eq!(fx(1.5).mul(fx(2.0)).raw, fx(3.0).raw);
    assert_eq!(fx(-1.5).mul(fx(2.0)).raw, fx(-3.0).raw);
    assert_eq!(fx(-1.5).mul(fx(-2.0)).raw, fx(3.0).raw);
    // one raw unit times one half is less than a raw unit: zero from both sides
    assert_eq!(Fixed { raw: 1 }.mul(fx(0.5)).raw, 0);
    assert_eq!(Fixed { raw: -1 }.mul(fx(0.5)).raw, 0);
    assert_eq!(Fixed { raw: 3 }.mul(fx(0.5)).raw, 1);
    assert_eq!(Fixed { raw: -3 }.mul(fx(0.5)).raw, -1);
}

#[test]
fn mul_saturates() {
    let big = Fixed::from_int(100000);
    assert_eq!(big.mul(big).raw, i64::MAX);
    assert_eq!(big.mul(big.neg()).raw, -i64::MAX);
    assert_eq!(Fixed { raw: i64::MIN }.mul(Fixed { raw: i64::MIN }).raw, i64::MAX);
}

#[test]
fn div_rounds_toward_zero() {
    assert_eq!(fx(1.0).div(fx(4.0)).raw, fx(0.25).raw);
    assert_eq!(fx(-1.0).div(fx(4.0)).raw, fx(-0.25).raw);
    assert_eq!(fx(1.0).div(fx(3.0)).raw, 1431655765);
    assert_eq!(fx(-1.0).div(fx(3.0)).raw, -1431655765);
    assert_eq!(fx(1.0).div(fx(-3.0)).raw, -1431655765);
}

#[test]
fn div_by_zero_gives_the_end_of_the_range() {
    assert_eq!(fx(1.0).div(Fixed::zero()).raw, i64::MAX);
    assert_eq!(fx(-1.0).div(Fixed::zero()).raw, -i64::MAX);
    assert_eq!(Fixed::zero().div(Fixed::zero()).raw, 0);
}

#[test]
fn div_saturates() {
    assert_eq!(Fixed::from_int(100000).div(Fixed { raw: 1 }).raw, i64::MAX);
    assert_eq!(Fixed::from_int(-100000).div(Fixed { raw: 1 }).raw, -i64::MAX);
}

#[test]
fn sqrt_of_squares_is_exact() {
    assert_eq!(fx(4.0).sqrt().raw, fx(2.0).raw);
    assert_eq!(fx(0.25).sqrt().raw, fx(0.5).raw);
    assert_eq!(fx(1.0).sqrt().raw, fx(1.0).raw);
    assert_eq!(fx(25.0).sqrt().raw, fx(5.0).raw);
}

#[test]
fn sqrt_rounds_down() {
    // sqrt(2) * 2^32 = 6074001000.0...
    let r = fx(2.0).sqrt();
    assert_eq!(r.raw, 6074000999);
    let square = (r.raw as i128) * (r.raw as i128);
    let next = (r.raw as i128 + 1) * (r.raw as i128 + 1);
    let target = (fx(2.0).raw as i128) << 32;
    assert!(square <= target && target < next);
}

#[test]
fn sqrt_bounds_hold_for_the_largest_scalar() {
    let r = Fixed::max_value().sqrt();
    let square = (r.raw as i128) * (r.raw as i128);
    let next = (r.raw as i128 + 1) * (r.raw as i128 + 1);
    let target = (i64::MAX as i128) << 32;
    assert!(square <= target && target < next);
}

#[test]
fn sqrt_of_what_is_not_positive_is_zero() {
    assert_eq!(Fixed::zero().sqrt().raw, 0);
    assert_eq!(fx(-4.0).sqrt().raw, 0);
}

#[test]
fn abs_and_min() {
    assert_eq!(fx(-2.5).abs().raw, fx(2.5).raw);
    assert_eq!(fx(2.5).abs().raw, fx(2.5).raw);
    assert_eq!(Fixed { raw: i64::MIN }.abs().raw, i64::MAX);
    assert_eq!(fx(1.0).min(fx(2.0)).raw, fx(1.0).raw);
    assert_eq!(fx(3.0).min(fx(2.0)).raw, fx(2.0).raw);
}

#[test]
fn to_int_rounds_toward_zero() {
    assert_eq!(fx(2.75).to_int(), 2);
    assert_eq!(fx(-2.75).to_int(), -2);
    assert_eq!(fx(255.744).to_int(), 255);
    assert_eq!(Fixed::max_value().to_int(), i32::MAX);
    assert_eq!(Fixed { raw: i64::MIN }.to_int(), i32::MIN);
}

#[test]
fn a_factor_between_zero_and_one_makes_nothing_larger() {
    let colors = [0.0, 0.1, 0.37, 0.5, 0.99, 1.0, 17.0];
    let factors = [0.0, 0.2, 0.5, 0.999, 1.0];
    for c in colors {
        for f in factors {
            let p = fx(c).mul(fx(f));
            assert!(p.raw >= 0);
            assert!(p.raw <= fx(c).raw);
        }
    }
}

#[test]
fn values_convert_back_within_a_raw_unit() {
    assert!((fl(fx(0.7)) - 0.7).abs() < 1e-9);
    assert!((fl(Fixed::from_ratio(7, 10)) - 0.7).abs() < 1e-9);
}
