use pathtracer::fixed::Fixed;
use pathtracer::fixed::ONE_RAW;
use pathtracer::random::fraction_from_bits;
use pathtracer::random::random_fraction;
use pathtracer::random::range_from_fraction;
use pathtracer::ray::Ray;
use pathtracer::vec3::Vec3;
use pathtracer::vec3::MIN_LENGTH_RAW;
use pathtracer::vec3::NEAR_ZERO_RAW;
use pathtracer::vec3::UNIT_SLACK_RAW;

fn fx(v: f64) -> Fixed {
    Fixed::from_raw((v * 4294967296.0).round() as i64)
}

fn v3(x: f64, y: f64, z: f64) -> Vec3 {
    Vec3::new(fx(x), fx(y), fx(z))
}

#[test]
fn constructors() {
    let v = v3(1.0, -2.0, 3.5);
    assert_eq!(v.x, fx(1.0));
    assert_eq!(v.y, fx(-2.0));
    assert_eq!(v.z, fx(3.5));
    assert_eq!(Vec3::zeroes(), v3(0.0, 0.0, 0.0));
    assert_eq!(Vec3::ones(), v3(1.0, 1.0, 1.0));
}

#[test]
fn sums_and_differences() {
    assert_eq!(v3(1.0, 2.0, 3.0).add(v3(0.5, -2.0, 1.0)), v3(1.5, 0.0, 4.0));
    assert_eq!(v3(1.0, 2.0, 3.0).sub(v3(0.5, -2.0, 1.0)), v3(0.5, 4.0, 2.0));
    assert_eq!(v3(1.0, -2.0, 0.0).neg(), v3(-1.0, 2.0, 0.0));
}

#[test]
fn products_and_quotients() {
    assert_eq!(v3(1.0, 2.0, 3.0).mul(v3(0.5, -2.0, 1.0)), v3(0.5, -4.0, 3.0));
    assert_eq!(v3(1.0, 2.0, 3.0).scale(fx(2.0)), v3(2.0, 4.0, 6.0));
    assert_eq!(v3(1.0, 2.0, 3.0).div(fx(2.0)), v3(0.5, 1.0, 1.5));
}

#[test]
fn assignments_change_the_vector_in_place() {
    let mut v = v3(1.0, 2.0, 3.0);
    v.add_assign(&v3(1.0, 1.0, 1.0));
    assert_eq!(v, v3(2.0, 3.0, 4.0));
    v.mul_assign(fx(0.5));
    assert_eq!(v, v3(1.0, 1.5, 2.0));
    v.div_assign(fx(0.25));
    assert_eq!(v, v3(4.0, 6.0, 8.0));
}

#[test]
fn dot_and_cross() {
    assert_eq!(v3(1.0, 2.0, 3.0).dot(&v3(4.0, -5.0, 6.0)), fx(12.0));
    assert_eq!(v3(1.0, 0.0, 0.0).cross(&v3(0.0, 1.0, 0.0)), v3(0.0, 0.0, 1.0));
    assert_eq!(v3(0.0, 1.0, 0.0).cross(&v3(1.0, 0.0, 0.0)), v3(0.0, 0.0, -1.0));
    assert_eq!(v3(1.0, 2.0, 3.0).cross(&v3(4.0, 5.0, 6.0)), v3(-3.0, 6.0, -3.0));
}

#[test]
fn lengths() {
    assert_eq!(v3(3.0, 4.0, 0.0).length_squared(), fx(25.0));
    assert_eq!(v3(3.0, 4.0, 0.0).length(), fx(5.0));
    assert_eq!(v3(0.0, 0.0, 0.0).length(), fx(0.0));
}

#[test]
fn unit_vector_of_an_axis_is_exact() {
    assert_eq!(v3(0.0, 5.0, 0.0).unit_vector(), v3(0.0, 1.0, 0.0));
    assert_eq!(v3(0.0, 0.0, -0.25).unit_vector(), v3(0.0, 0.0, -1.0));
}

#[test]
fn unit_vector_has_length_one_within_rounding() {
    let u = v3(1.0, 2.0, -2.0).unit_vector();
    assert_eq!(u.x.raw(), 1431655765);
    assert_eq!(u.y.raw(), 2863311530);
    assert_eq!(u.z.raw(), -2863311530);
    let len = u.length().raw();
    assert!((len - ONE_RAW).abs() < 16);
    assert!((u.x.raw() - fx(1.0 / 3.0).raw()).abs() < 4);
    assert!((u.y.raw() - fx(2.0 / 3.0).raw()).abs() < 4);
    assert!((u.z.raw() - fx(-2.0 / 3.0).raw()).abs() < 4);
}

#[test]
fn the_length_is_exact_to_a_raw_unit() {
    let vectors = [
        v3(3.0, 4.0, 0.0),
        v3(0.1, 0.2, 0.3),
        v3(-1000.0, 0.001, 17.5),
        Vec3::new(Fixed::from_raw(3000001), fx(0.0), fx(0.0)),
        Vec3::new(Fixed::from_raw(1), Fixed::from_raw(-1), Fixed::from_raw(1)),
        Vec3::new(Fixed::from_raw(70000), Fixed::from_raw(3), fx(0.0)),
        v3(1.0e9, -1.0e9, 1.0e9),
    ];
    for v in vectors {
        let sum = (v.x.raw() as i128).pow(2) + (v.y.raw() as i128).pow(2)
            + (v.z.raw() as i128).pow(2);
        let length = v.length().raw() as i128;
        assert!(length * length <= sum);
        assert!(sum < (length + 1) * (length + 1));
        // the squared length is saturated where it cannot be held
        assert_eq!(v.length_squared().raw() as i128, (sum >> 32).min(i64::MAX as i128));
    }
    assert_eq!(v3(0.1, 0.2, 0.3).length().raw(), 1607029611);
    assert_eq!(v3(0.1, 0.2, 0.3).length_squared().raw(), 601295421);
}

#[test]
fn the_length_of_a_vector_too_long_to_measure_is_the_largest_scalar() {
    let far = Vec3::new(Fixed::max_value(), Fixed::max_value(), fx(0.0));
    assert_eq!(far.length().raw(), i64::MAX);
    assert_eq!(far.length_squared().raw(), i64::MAX);
    let unit = far.unit_vector();
    assert_eq!(unit, v3(1.0, 1.0, 0.0));
    let least = Vec3::new(Fixed { raw: i64::MIN }, Fixed { raw: i64::MIN }, fx(0.0));
    assert_eq!(least.unit_vector(), v3(-1.0, -1.0, 0.0));
}

#[test]
fn the_unit_vector_of_a_short_vector_stays_in_the_unit_box() {
    let tiny = Vec3::new(Fixed::from_raw(3000001), fx(0.0), fx(0.0));
    assert_eq!(tiny.unit_vector(), v3(1.0, 0.0, 0.0));
    let least = Vec3::new(Fixed::from_raw(-2), fx(0.0), fx(0.0));
    assert_eq!(least.unit_vector(), v3(-1.0, 0.0, 0.0));
    let corner = Vec3::new(Fixed::from_raw(1), Fixed::from_raw(1), fx(0.0));
    assert_eq!(corner.unit_vector(), v3(1.0, 1.0, 0.0));
    let skew = Vec3::new(Fixed::from_raw(70000), Fixed::from_raw(-3), Fixed::from_raw(1));
    let unit = skew.unit_vector();
    for part in [unit.x, unit.y, unit.z] {
        assert!(part.raw().abs() <= ONE_RAW);
    }
    assert!(unit.length_squared().raw() >= ONE_RAW - 6);
}

#[test]
fn the_unit_vector_of_a_vector_long_enough_has_unit_length() {
    assert_eq!(MIN_LENGTH_RAW, 1 << 21);
    assert_eq!(UNIT_SLACK_RAW, 6144);
    let vectors = [
        v3(1.0, 2.0, -2.0),
        v3(0.1, 0.2, 0.3),
        v3(-1000.0, 0.001, 17.5),
        v3(0.0, 0.0, -2.0),
        v3(123456.0, -654321.0, 0.5),
        Vec3::new(Fixed::from_raw(1 << 21), fx(0.0), fx(0.0)),
        Vec3::new(Fixed::from_raw(1300000), Fixed::from_raw(-1300000), Fixed::from_raw(1300000)),
        Vec3::new(Fixed::from_raw(3000001), Fixed::from_raw(17), Fixed::from_raw(-250000)),
    ];
    for v in vectors {
        assert!(v.length().raw() >= MIN_LENGTH_RAW);
        let unit = v.unit_vector();
        let squared = unit.length_squared().raw();
        assert!(ONE_RAW - 6 <= squared && squared <= ONE_RAW + UNIT_SLACK_RAW);
        for part in [unit.x, unit.y, unit.z] {
            assert!(part.raw().abs() <= ONE_RAW);
        }
        // it points where the vector points
        assert!(unit.dot(&v).raw() > 0);
        assert_eq!(unit, v.div(v.length()));
    }
    assert_eq!(v3(0.0, 0.0, -2.0).unit_vector(), v3(0.0, 0.0, -1.0));
}

#[test]
fn unit_vector_of_the_zero_vector_is_the_zero_vector() {
    assert_eq!(Vec3::zeroes().unit_vector(), Vec3::zeroes());
}

#[test]
fn near_zero_holds_under_the_bound_only() {
    assert_eq!(NEAR_ZERO_RAW, 42);
    let under = Fixed::from_raw(41);
    let at = Fixed::from_raw(42);
    assert!(Vec3::zeroes().near_zero());
    assert!(Vec3::new(under, under.neg(), under).near_zero());
    assert!(!Vec3::new(at, under, under).near_zero());
    assert!(!Vec3::new(under, at.neg(), under).near_zero());
    assert!(!Vec3::new(under, under, at).near_zero());
    assert!(!v3(0.0, 0.0, 1.0).near_zero());
}

#[test]
fn ray_at_walks_along_the_direction() {
    let r = Ray { orig: v3(1.0, 2.0, 3.0), dir: v3(0.0, -1.0, 2.0) };
    assert_eq!(r.at(fx(0.0)), v3(1.0, 2.0, 3.0));
    assert_eq!(r.at(fx(2.5)), v3(1.0, -0.5, 8.0));
    assert_eq!(r.at(fx(-1.0)), v3(1.0, 3.0, 1.0));
}

#[test]
fn a_fraction_holds_the_bits_drawn() {
    assert_eq!(fraction_from_bits(0).raw(), 0);
    assert_eq!(fraction_from_bits(1).raw(), 1);
    assert_eq!(fraction_from_bits(0x8000_0000), fx(0.5));
    assert_eq!(fraction_from_bits(u32::MAX).raw(), ONE_RAW - 1);
}

#[test]
fn range_from_fraction_is_linear() {
    let lo = fx(-1.0);
    let hi = fx(1.0);
    assert_eq!(range_from_fraction(lo, hi, fx(0.0)), fx(-1.0));
    assert_eq!(range_from_fraction(lo, hi, fx(0.5)), fx(0.0));
    assert_eq!(range_from_fraction(lo, hi, fx(0.75)), fx(0.5));
    assert_eq!(range_from_fraction(fx(0.5), fx(1.0), fx(0.5)), fx(0.75));
    let top = range_from_fraction(lo, hi, fraction_from_bits(u32::MAX));
    assert!(top.raw() < hi.raw());
}

#[test]
fn range_from_fractions_works_by_component() {
    let u = v3(0.0, 0.5, 0.25);
    assert_eq!(Vec3::range_from_fractions(fx(-1.0), fx(1.0), &u), v3(-1.0, 0.0, -0.5));
}

#[test]
fn draws_lie_in_their_ranges() {
    for _ in 0..2000 {
        let u = random_fraction();
        assert!(0 <= u.raw() && u.raw() < ONE_RAW);
        let r = range_from_fraction(fx(-1.0), fx(1.0), u);
        assert!(-ONE_RAW <= r.raw() && r.raw() < ONE_RAW);
        let v = Vec3::random();
        assert!(0 <= v.x.raw() && v.x.raw() < ONE_RAW);
        assert!(0 <= v.y.raw() && v.y.raw() < ONE_RAW);
        assert!(0 <= v.z.raw() && v.z.raw() < ONE_RAW);
        let w = Vec3::random_range(fx(0.5), fx(1.0));
        assert!(fx(0.5).raw() <= w.x.raw() && w.x.raw() < ONE_RAW);
        assert!(fx(0.5).raw() <= w.y.raw() && w.y.raw() < ONE_RAW);
        assert!(fx(0.5).raw() <= w.z.raw() && w.z.raw() < ONE_RAW);
    }
}

#[test]
fn draws_differ_from_one_another() {
    let first = random_fraction();
    let mut differs = false;
    for _ in 0..64 {
        if random_fraction() != first {
            differs = true;
        }
    }
    assert!(differs);
}

#[test]
fn draws_cover_both_halves_of_the_range() {
    let mut low = 0;
    let mut high = 0;
    for _ in 0..4000 {
        if random_fraction().raw() < ONE_RAW / 2 {
            low += 1;
        } else {
            high += 1;
        }
    }
    assert!(low > 1500 && high > 1500);
}
