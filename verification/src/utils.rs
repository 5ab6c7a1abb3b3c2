//! Sampling of directions, and the colour that a ray brings back.
use crate::fixed::int_root;
use crate::fixed::is_int_root;
use crate::fixed::lemma_int_root;
use crate::fixed::lemma_int_root_unique;
use crate::fixed::lemma_times_fraction;
use crate::fixed::lemma_times_ordered;
use crate::fixed::lemma_times_one;
use crate::fixed::Fixed;
use crate::fixed::MAX_RAW;
use crate::fixed::ONE_RAW;
use crate::hittable::Hittable;
use crate::hittable::HittableList;
use crate::material::lemma_scatter_conserves;
use crate::material::Material;
use crate::material::ScatterSample;
use crate::random::is_fraction;
use crate::random::random_fraction;
use crate::random::range_from_fraction;
use crate::random::range_point;
use crate::ray::Ray;
use crate::sphere::Sphere;
use crate::vec3::lemma_length_bounds;
use crate::vec3::lemma_length_squared_bounds;
use crate::vec3::lemma_scaled_by_zero;
use crate::vec3::MIN_LENGTH_RAW;
use crate::vec3::Color;
use crate::vec3::Vec3;
use vstd::prelude::*;

verus! {

/// How often a sample is drawn again before the centre is taken in its place.
pub const MAX_ATTEMPTS: u32 = 64;

/// Raw value of the least ray parameter at which a hit counts: `0.001`,
/// rounded down.  It keeps a scattered ray from hitting the surface that it
/// leaves.
pub const SHADOW_BIAS_RAW: i64 = 4294967;

/// Raw value of one half.
pub const HALF_RAW: i64 = 0x8000_0000;

/// Raw value of the green part of the sky's colour: `0.7`, rounded down.
pub const SKY_GREEN_RAW: i64 = 3006477107;

/// The colour of the sky straight above: `(0.5, 0.7, 1.0)`.
pub open spec fn sky_spec() -> Color {
    Vec3 { x: Fixed::of(HALF_RAW as int), y: Fixed::of(SKY_GREEN_RAW as int), z: Fixed::whole(1) }
}

/// How far the background has gone from white to the sky's colour in the
/// direction `dir`: half of the height of the unit direction above `-1`,
/// held between zero and one.
pub open spec fn sky_share(dir: Vec3) -> Fixed {
    Fixed::of(HALF_RAW as int).times(dir.unit_spec().y.plus(Fixed::whole(1))).clamp_spec(
        Fixed::whole(0),
        Fixed::whole(1),
    )
}

/// The colour of the background behind the ray `r`: white toward the
/// ground, the sky's colour straight above, and blended linearly between.
#[verifier::opaque]
pub open spec fn background_spec(r: Ray) -> Color {
    Vec3::ones_spec().scaled(Fixed::whole(1).minus(sky_share(r.dir))).plus(
        sky_spec().scaled(sky_share(r.dir)),
    )
}

/// `p` lies inside the unit sphere about the origin.
pub open spec fn inside_unit_sphere(p: Vec3) -> bool {
    p.length_squared_spec()@ < ONE_RAW
}

/// The centre of the unit sphere lies inside it.
pub proof fn lemma_centre_inside()
    ensures
        inside_unit_sphere(Vec3::zeroes_spec()),
        Vec3::zeroes_spec().z@ == 0,
{
    let zero = Fixed::whole(0);
    assert(zero@ * zero@ == 0) by (nonlinear_arith)
        requires
            zero@ == 0,
    ;
}

/// `x`, moved into the interval from `min` to `max`.
pub fn clamp(x: Fixed, min: Fixed, max: Fixed) -> (r: Fixed)
    ensures
        r == x.clamp_spec(min, max),
        min@ <= max@ ==> min@ <= r@ <= max@,
{
    if x.raw < min.raw {
        min
    } else if x.raw > max.raw {
        max
    } else {
        x
    }
}

/// Raw value of the number of radians in a degree: `pi / 180`, rounded down.
pub const DEGREE_RAW: i64 = 74961320;

/// The angle of `degrees` degrees, in radians.
pub fn degrees_to_radians(degrees: Fixed) -> (r: Fixed)
    ensures
        r == degrees.times(Fixed::of(DEGREE_RAW as int)),
{
    degrees.mul(Fixed { raw: DEGREE_RAW })
}

/// The point of the cube from `-1` to `1` in every direction that the
/// fractions `u` give.
pub open spec fn cube_point(u: Vec3) -> Vec3 {
    Vec3::range_points(Fixed::whole(-1), Fixed::whole(1), u)
}

/// The point of the square from `-1` to `1` in the plane `z = 0` that the
/// fractions `x` and `y` give.
pub open spec fn square_point(x: Fixed, y: Fixed) -> Vec3 {
    Vec3 {
        x: range_point(Fixed::whole(-1), Fixed::whole(1), x),
        y: range_point(Fixed::whole(-1), Fixed::whole(1), y),
        z: Fixed::whole(0),
    }
}

/// A point drawn from inside the unit sphere: the first of at most
/// `MAX_ATTEMPTS` uniform draws from the cube around it that falls inside,
/// or the centre where none does.
pub fn random_in_unit_sphere() -> (p: Vec3)
    ensures
        inside_unit_sphere(p),
        p == Vec3::zeroes_spec() || exists|u: Vec3|
            u.all_fractions() && p == #[trigger] cube_point(u),
{
    let mut attempt: u32 = 0;
    while attempt < MAX_ATTEMPTS
        invariant
            attempt <= MAX_ATTEMPTS,
        decreases MAX_ATTEMPTS - attempt,
    {
        let u = Vec3::random();
        let p: Vec3 = Vec3::range_from_fractions(Fixed::from_int(-1), Fixed::one(), &u);
        if p.length_squared().raw < ONE_RAW {
            assert(p == cube_point(u));
            return p;
        }
        attempt += 1;
    }
    proof {
        lemma_centre_inside();
    }
    Vec3::zeroes()
}

/// `p` is a point of which a direction can be taken: it lies inside the
/// unit sphere, and at least `MIN_LENGTH_RAW` from its centre.
pub open spec fn gives_direction(p: Vec3) -> bool {
    inside_unit_sphere(p) && p.length_spec()@ >= MIN_LENGTH_RAW
}

/// The direction that is taken where no draw gives one: along the first
/// axis.
pub open spec fn fallback_direction() -> Vec3 {
    Vec3 { x: Fixed::whole(1), y: Fixed::whole(0), z: Fixed::whole(0) }
}

/// A point inside the unit sphere is less than one long.
pub proof fn lemma_inside_is_short(p: Vec3)
    requires
        inside_unit_sphere(p),
    ensures
        0 <= p.length_spec()@ < ONE_RAW,
{
    lemma_length_bounds(p);
    lemma_length_squared_bounds(p);
    let sum = p.squares_sum();
    let length = p.length_spec()@;
    vstd::arithmetic::div_mod::lemma_fundamental_div_mod(sum, ONE_RAW as int);
    vstd::arithmetic::div_mod::lemma_mod_bound(sum, ONE_RAW as int);
    assert(sum < ONE_RAW * ONE_RAW) by (nonlinear_arith)
        requires
            sum == ONE_RAW * (sum / (ONE_RAW as int)) + sum % (ONE_RAW as int),
            sum % (ONE_RAW as int) < ONE_RAW,
            sum / (ONE_RAW as int) < ONE_RAW,
            ONE_RAW > 0,
    ;
    assert(length < ONE_RAW) by (nonlinear_arith)
        requires
            length * length <= sum,
            sum < ONE_RAW * ONE_RAW,
            length >= 0,
    ;
}

/// The direction along the first axis is the unit vector of a point that
/// gives a direction, and has unit length.
pub proof fn lemma_fallback_direction()
    ensures
        fallback_direction().is_unit(),
        fallback_direction().in_unit_box(),
        exists|p: Vec3| gives_direction(p) && fallback_direction() == #[trigger] p.unit_spec(),
{
    let half = Fixed::of(HALF_RAW as int);
    let p = Vec3 { x: half, y: Fixed::whole(0), z: Fixed::whole(0) };
    let zero = Fixed::whole(0);
    assert(zero@ * zero@ == 0 && half@ * half@ == HALF_RAW * HALF_RAW) by (nonlinear_arith)
        requires
            zero@ == 0,
            half@ == HALF_RAW,
    ;
    assert(p.squares_sum() == HALF_RAW * HALF_RAW);
    assert(is_int_root(HALF_RAW as int, HALF_RAW * HALF_RAW)) by (nonlinear_arith);
    lemma_int_root(HALF_RAW * HALF_RAW);
    lemma_int_root_unique(HALF_RAW as int, int_root(HALF_RAW * HALF_RAW), HALF_RAW * HALF_RAW);
    assert(p.length_spec() == half);
    assert(HALF_RAW * HALF_RAW == 0x4000_0000 * ONE_RAW) by (nonlinear_arith)
        requires
            HALF_RAW == 0x8000_0000,
            ONE_RAW == 0x1_0000_0000,
    ;
    vstd::arithmetic::div_mod::lemma_div_multiples_vanish(0x4000_0000, ONE_RAW as int);
    assert(inside_unit_sphere(p));
    assert(HALF_RAW * ONE_RAW == ONE_RAW * HALF_RAW) by (nonlinear_arith);
    vstd::arithmetic::div_mod::lemma_div_multiples_vanish(ONE_RAW as int, HALF_RAW as int);
    assert(0 * ONE_RAW == 0);
    assert(p.unit_spec() == fallback_direction());
    assert(gives_direction(p));
    let one = Fixed::whole(1);
    assert(one@ * one@ == ONE_RAW * ONE_RAW) by (nonlinear_arith)
        requires
            one@ == ONE_RAW,
    ;
    assert(fallback_direction().squares_sum() == ONE_RAW * ONE_RAW);
    vstd::arithmetic::div_mod::lemma_div_multiples_vanish(ONE_RAW as int, ONE_RAW as int);
}

/// A direction drawn at random: the unit vector of the first of at most
/// `MAX_ATTEMPTS` points drawn from inside the unit sphere that lies at
/// least `MIN_LENGTH_RAW` from the centre, or the first axis where none
/// does.  A point closer to the centre has too few bits to give a
/// direction of unit length.
pub fn random_unit_vector() -> (v: Vec3)
    ensures
        v.is_unit(),
        v.in_unit_box(),
        exists|p: Vec3| gives_direction(p) && v == #[trigger] p.unit_spec(),
{
    let mut attempt: u32 = 0;
    while attempt < MAX_ATTEMPTS
        invariant
            attempt <= MAX_ATTEMPTS,
        decreases MAX_ATTEMPTS - attempt,
    {
        let p = random_in_unit_sphere();
        if p.length().raw >= MIN_LENGTH_RAW {
            proof {
                lemma_inside_is_short(p);
            }
            return p.unit_vector();
        }
        attempt += 1;
    }
    proof {
        lemma_fallback_direction();
    }
    Vec3::new(Fixed::one(), Fixed::zero(), Fixed::zero())
}

/// A point drawn from inside the unit disk of the plane `z = 0`: the first
/// of at most `MAX_ATTEMPTS` uniform draws from the square around it that
/// falls inside, or the centre where none does.
pub fn random_in_unit_disk() -> (p: Vec3)
    ensures
        inside_unit_sphere(p),
        p.z@ == 0,
        p == Vec3::zeroes_spec() || exists|x: Fixed, y: Fixed|
            is_fraction(x) && is_fraction(y) && p == #[trigger] square_point(x, y),
{
    let mut attempt: u32 = 0;
    while attempt < MAX_ATTEMPTS
        invariant
            attempt <= MAX_ATTEMPTS,
        decreases MAX_ATTEMPTS - attempt,
    {
        let x = random_fraction();
        let y = random_fraction();
        let p: Vec3 = Vec3::new(
            range_from_fraction(Fixed::from_int(-1), Fixed::one(), x),
            range_from_fraction(Fixed::from_int(-1), Fixed::one(), y),
            Fixed::zero(),
        );
        if p.length_squared().raw < ONE_RAW {
            assert(p == square_point(x, y));
            return p;
        }
        attempt += 1;
    }
    proof {
        lemma_centre_inside();
    }
    Vec3::zeroes()
}

/// What is left of `color` after it has passed the `filters`, the first
/// one first.
pub open spec fn filtered(color: Color, filters: Seq<Color>) -> Color
    decreases filters.len(),
{
    if filters.len() == 0 {
        color
    } else {
        filtered(color, filters.drop_last()).times(filters.last())
    }
}

/// No energy is made: a colour that passes filters of the unit cube, however
/// many, comes out with no part stronger than it went in, and none negative.
pub proof fn lemma_filters_never_amplify(color: Color, filters: Seq<Color>)
    requires
        0 <= color.x@ && 0 <= color.y@ && 0 <= color.z@,
        forall|i: int| 0 <= i < filters.len() ==> (#[trigger] filters[i]).in_unit_cube(),
    ensures
        0 <= filtered(color, filters).x@ <= color.x@,
        0 <= filtered(color, filters).y@ <= color.y@,
        0 <= filtered(color, filters).z@ <= color.z@,
    decreases filters.len(),
{
    if filters.len() > 0 {
        let rest = filters.drop_last();
        assert forall|i: int| 0 <= i < rest.len() implies (#[trigger] rest[i]).in_unit_cube() by {
            assert(rest[i] == filters[i]);
        }
        lemma_filters_never_amplify(color, rest);
        let inner = filtered(color, rest);
        lemma_times_fraction(inner.x, filters.last().x);
        lemma_times_fraction(inner.y, filters.last().y);
        lemma_times_fraction(inner.z, filters.last().z);
    }
}

/// Straight up the background has the colour of the sky, and straight down
/// it is white, wherever the ray starts.
pub proof fn lemma_background_at_the_poles(r: Ray)
    requires
        r.dir.x@ == 0,
        r.dir.y@ == ONE_RAW || r.dir.y@ == -ONE_RAW,
        r.dir.z@ == 0,
    ensures
        r.dir.y@ == ONE_RAW ==> background_spec(r) == sky_spec(),
        r.dir.y@ == -ONE_RAW ==> background_spec(r) == Vec3::ones_spec(),
{
    reveal(background_spec);
    let one = Fixed::whole(1);
    let zero = Fixed::whole(0);
    let y = r.dir.y;
    // the length of the direction is one
    assert(r.dir.x@ * r.dir.x@ == 0 && r.dir.z@ * r.dir.z@ == 0) by (nonlinear_arith)
        requires
            r.dir.x@ == 0,
            r.dir.z@ == 0,
    ;
    assert(y@ * y@ == ONE_RAW * ONE_RAW) by (nonlinear_arith)
        requires
            y@ == ONE_RAW || y@ == -ONE_RAW,
    ;
    assert(is_int_root(ONE_RAW as int, ONE_RAW * ONE_RAW)) by (nonlinear_arith);
    lemma_int_root(ONE_RAW * ONE_RAW);
    lemma_int_root_unique(ONE_RAW as int, int_root(ONE_RAW * ONE_RAW), ONE_RAW * ONE_RAW);
    assert(r.dir.length_spec() == one);
    // so the direction is its own unit vector
    lemma_times_one(y);
    lemma_times_one(zero);
    assert(y@ * ONE_RAW == ONE_RAW * ONE_RAW || y@ * ONE_RAW == -(ONE_RAW * ONE_RAW))
        by (nonlinear_arith)
        requires
            y@ == ONE_RAW || y@ == -ONE_RAW,
    ;
    assert(r.dir.unit_spec().y == y);
    // and the share of the sky is one or zero
    let half = Fixed::of(HALF_RAW as int);
    assert(half.times(Fixed::of(2 * ONE_RAW)) == one) by {
        assert(HALF_RAW * (2 * ONE_RAW) == ONE_RAW * ONE_RAW) by (nonlinear_arith)
            requires
                HALF_RAW * 2 == ONE_RAW,
        ;
    }
    assert(half.times(zero) == zero) by {
        assert(HALF_RAW * 0 == 0);
    }
    lemma_times_one(one);
    lemma_times_one(sky_spec().x);
    lemma_times_one(sky_spec().y);
    lemma_scaled_by_zero(Vec3::ones_spec());
    lemma_scaled_by_zero(sky_spec());
}

/// The colour of the background behind the ray `r`.
pub fn background(r: &Ray) -> (c: Color)
    ensures
        c == background_spec(*r),
        c.in_unit_cube(),
{
    let unit_direction: Vec3 = r.dir.unit_vector();
    let t: Fixed = clamp(
        Fixed { raw: HALF_RAW }.mul(unit_direction.y.add(Fixed::one())),
        Fixed::zero(),
        Fixed::one(),
    );
    let sky = Color::new(Fixed { raw: HALF_RAW }, Fixed { raw: SKY_GREEN_RAW }, Fixed::one());
    proof {
        reveal(background_spec);
        lemma_background_bounded(*r);
    }
    Color::ones().scale(Fixed::one().sub(t)).add(sky.scale(t))
}

/// Every one of `samples` is one that can be drawn.
pub open spec fn all_drawable(samples: Seq<ScatterSample>) -> bool {
    forall|k: int| 0 <= k < samples.len() ==> (#[trigger] samples[k]).wf()
}

/// The sample for the bounce at hand: the first of `samples`, or the sample
/// of zeros where none is left.
pub open spec fn first_sample(samples: Seq<ScatterSample>) -> ScatterSample {
    if samples.len() > 0 {
        samples[0]
    } else {
        ScatterSample::none_spec()
    }
}

/// The samples for the bounces that follow the one at hand.
pub open spec fn later_samples(samples: Seq<ScatterSample>) -> Seq<ScatterSample> {
    if samples.len() > 0 {
        samples.skip(1)
    } else {
        samples
    }
}

/// The colour that the ray `r` brings back from the scene `world`, with at
/// most `depth` bounces, when the bounces draw `samples`, one each.
///
/// With no bounce left the colour is black.  A ray that hits nothing ahead
/// of `0.001` brings the background's colour.  A ray that hits a surface is
/// scattered by the surface's material, and brings what the scattered ray
/// brings with one bounce less, filtered by the material; where the
/// material swallows it, it brings black.
#[verifier::opaque]
pub open spec fn ray_color_spec(
    r: Ray,
    world: &HittableList,
    depth: int,
    samples: Seq<ScatterSample>,
) -> Color
    decreases depth,
{
    if depth <= 0 {
        Vec3::zeroes_spec()
    } else {
        match world.hit_spec(r, Fixed::of(SHADOW_BIAS_RAW as int), Fixed::of(MAX_RAW as int)) {
            None => background_spec(r),
            Some(hit) => match hit.mat.scatter_spec(r, hit, first_sample(samples)) {
                None => Vec3::zeroes_spec(),
                Some((scattered, attenuation)) => ray_color_spec(
                    scattered,
                    world,
                    depth - 1,
                    later_samples(samples),
                ).times(attenuation),
            },
        }
    }
}

/// What a ray brings back while bounces are left, by what it hits.
pub proof fn lemma_ray_color_unfolds(
    r: Ray,
    world: &HittableList,
    depth: int,
    samples: Seq<ScatterSample>,
)
    ensures
        depth <= 0 ==> ray_color_spec(r, world, depth, samples) == Vec3::zeroes_spec(),
        depth > 0 ==> ray_color_spec(r, world, depth, samples) == match world.hit_spec(
            r,
            Fixed::of(SHADOW_BIAS_RAW as int),
            Fixed::of(MAX_RAW as int),
        ) {
            None => background_spec(r),
            Some(hit) => match hit.mat.scatter_spec(r, hit, first_sample(samples)) {
                None => Vec3::zeroes_spec(),
                Some((scattered, attenuation)) => ray_color_spec(
                    scattered,
                    world,
                    depth - 1,
                    later_samples(samples),
                ).times(attenuation),
            },
        },
{
    reveal_with_fuel(ray_color_spec, 2);
}

/// A ray that is scattered brings what the scattered ray brings with one
/// bounce less and the samples that are left, filtered by the material.
pub proof fn lemma_ray_color_scattered(
    r: Ray,
    world: &HittableList,
    depth: int,
    sample: ScatterSample,
    later: Seq<ScatterSample>,
)
    requires
        depth > 0,
        world.hit_spec(r, Fixed::of(SHADOW_BIAS_RAW as int), Fixed::of(MAX_RAW as int)) is Some,
    ensures
        ray_color_spec(r, world, depth, seq![sample] + later) == match world.hit_spec(
            r,
            Fixed::of(SHADOW_BIAS_RAW as int),
            Fixed::of(MAX_RAW as int),
        )->0.mat.scatter_spec(
            r,
            world.hit_spec(r, Fixed::of(SHADOW_BIAS_RAW as int), Fixed::of(MAX_RAW as int))->0,
            sample,
        ) {
            None => Vec3::zeroes_spec(),
            Some((scattered, attenuation)) => ray_color_spec(
                scattered,
                world,
                depth - 1,
                later,
            ).times(attenuation),
        },
{
    let samples = seq![sample] + later;
    assert(first_sample(samples) == sample);
    assert(later_samples(samples) =~= later);
    lemma_ray_color_unfolds(r, world, depth, samples);
}

/// Where no material of the scene gives a colour back stronger than it
/// came in, no part of what a ray brings back is negative or exceeds one.
pub proof fn lemma_ray_color_bounded(
    r: Ray,
    world: &HittableList,
    depth: int,
    samples: Seq<ScatterSample>,
)
    requires
        world.conserves_energy(),
    ensures
        ray_color_spec(r, world, depth, samples).in_unit_cube(),
    decreases depth,
{
    lemma_ray_color_unfolds(r, world, depth, samples);
    if depth > 0 {
        let t_min = Fixed::of(SHADOW_BIAS_RAW as int);
        let t_max = Fixed::of(MAX_RAW as int);
        match world.hit_spec(r, t_min, t_max) {
            None => {
                lemma_background_bounded(r);
            },
            Some(hit) => {
                let i = HittableList::lemma_hit_among_is_of_an_object(
                    world.objects@,
                    r,
                    t_min,
                    t_max,
                );
                assert(hit.mat == world.objects@[i].m) by {
                    reveal(Sphere::record_at);
                }
                match hit.mat.scatter_spec(r, hit, first_sample(samples)) {
                    None => {},
                    Some((scattered, attenuation)) => {
                        lemma_scatter_conserves(*hit.mat, r, hit, first_sample(samples));
                        let later = later_samples(samples);
                        lemma_ray_color_bounded(scattered, world, depth - 1, later);
                        let incoming = ray_color_spec(scattered, world, depth - 1, later);
                        lemma_times_fraction(incoming.x, attenuation.x);
                        lemma_times_fraction(incoming.y, attenuation.y);
                        lemma_times_fraction(incoming.z, attenuation.z);
                    },
                }
            },
        }
    }
}

/// The channels of `color` rise from red over green to blue, as those of
/// the sky do.
pub open spec fn rising(color: Color) -> bool {
    color.x@ <= color.y@ <= color.z@
}

/// What a ray brings back from a surface is no brighter than the colour by
/// which the surface's material filters, where no material of the scene
/// gives a colour back stronger than it came in.
pub proof fn lemma_ray_color_under_filter(
    r: Ray,
    world: &HittableList,
    depth: int,
    samples: Seq<ScatterSample>,
)
    requires
        world.conserves_energy(),
        depth > 0,
        world.hit_spec(r, Fixed::of(SHADOW_BIAS_RAW as int), Fixed::of(MAX_RAW as int)) is Some,
    ensures
        ({
            let filter = world.hit_spec(
                r,
                Fixed::of(SHADOW_BIAS_RAW as int),
                Fixed::of(MAX_RAW as int),
            )->0.mat.filter();
            let color = ray_color_spec(r, world, depth, samples);
            0 <= color.x@ <= filter.x@ && 0 <= color.y@ <= filter.y@ && 0 <= color.z@
                <= filter.z@
        }),
{
    let t_min = Fixed::of(SHADOW_BIAS_RAW as int);
    let t_max = Fixed::of(MAX_RAW as int);
    let hit = world.hit_spec(r, t_min, t_max)->0;
    lemma_ray_color_unfolds(r, world, depth, samples);
    let i = HittableList::lemma_hit_among_is_of_an_object(world.objects@, r, t_min, t_max);
    assert(hit.mat == world.objects@[i].m) by {
        reveal(Sphere::record_at);
    }
    lemma_scatter_conserves(*hit.mat, r, hit, first_sample(samples));
    match hit.mat.scatter_spec(r, hit, first_sample(samples)) {
        None => {},
        Some((scattered, attenuation)) => {
            let later = later_samples(samples);
            lemma_ray_color_bounded(scattered, world, depth - 1, later);
            let incoming = ray_color_spec(scattered, world, depth - 1, later);
            lemma_times_fraction(attenuation.x, incoming.x);
            lemma_times_fraction(attenuation.y, incoming.y);
            lemma_times_fraction(attenuation.z, incoming.z);
        },
    }
}

/// In a scene whose materials filter all three channels alike, what a ray
/// brings back keeps the order of the sky's channels: red is no brighter
/// than green, and green no brighter than blue.
pub proof fn lemma_grey_scene_keeps_order(
    r: Ray,
    world: &HittableList,
    depth: int,
    samples: Seq<ScatterSample>,
)
    requires
        world.all_grey(),
    ensures
        rising(ray_color_spec(r, world, depth, samples)),
    decreases depth,
{
    lemma_ray_color_unfolds(r, world, depth, samples);
    if depth > 0 {
        let t_min = Fixed::of(SHADOW_BIAS_RAW as int);
        let t_max = Fixed::of(MAX_RAW as int);
        match world.hit_spec(r, t_min, t_max) {
            None => {
                lemma_background_rising(r);
            },
            Some(hit) => {
                let i = HittableList::lemma_hit_among_is_of_an_object(
                    world.objects@,
                    r,
                    t_min,
                    t_max,
                );
                assert(hit.mat == world.objects@[i].m) by {
                    reveal(Sphere::record_at);
                }
                lemma_scatter_conserves(*hit.mat, r, hit, first_sample(samples));
                match hit.mat.scatter_spec(r, hit, first_sample(samples)) {
                    None => {},
                    Some((scattered, attenuation)) => {
                        let later = later_samples(samples);
                        lemma_grey_scene_keeps_order(scattered, world, depth - 1, later);
                        let incoming = ray_color_spec(scattered, world, depth - 1, later);
                        lemma_times_ordered(incoming.x, incoming.y, attenuation.x);
                        lemma_times_ordered(incoming.y, incoming.z, attenuation.x);
                    },
                }
            },
        }
    }
}

/// The channels of the background rise from red over green to blue.
pub proof fn lemma_background_rising(r: Ray)
    ensures
        rising(background_spec(r)),
{
    reveal(background_spec);
    let t = sky_share(r.dir);
    lemma_times_ordered(sky_spec().x, sky_spec().y, t);
    lemma_times_ordered(sky_spec().y, sky_spec().z, t);
}

/// No part of the background's colour is negative or exceeds one.
pub proof fn lemma_background_bounded(r: Ray)
    ensures
        background_spec(r).in_unit_cube(),
{
    reveal(background_spec);
    let t = sky_share(r.dir);
    let rest = Fixed::whole(1).minus(t);
    lemma_times_one(rest);
    lemma_times_fraction(t, sky_spec().x);
    lemma_times_fraction(t, sky_spec().y);
    lemma_times_fraction(t, sky_spec().z);
}

/// The colour that the ray `r` brings back from the scene `world`, with at
/// most `depth` bounces, when the bounces take their draws from `samples`,
/// beginning at index `used`, one each, and zeros where `samples` ends.
#[verifier::rlimit(40)]
pub fn ray_color_with(
    r: &Ray,
    world: &HittableList,
    depth: i32,
    samples: &Vec<ScatterSample>,
    used: usize,
) -> (c: Color)
    ensures
        c == ray_color_spec(
            *r,
            world,
            depth as int,
            if used <= samples@.len() {
                samples@.skip(used as int)
            } else {
                Seq::empty()
            },
        ),
    decreases depth,
{
    let ghost rest = if used <= samples@.len() {
        samples@.skip(used as int)
    } else {
        Seq::empty()
    };
    proof {
        lemma_ray_color_unfolds(*r, world, depth as int, rest);
    }
    if depth <= 0 {
        return Color::zeroes();
    }
    let sample = if used < samples.len() {
        samples[used]
    } else {
        ScatterSample::none()
    };
    let next: usize = if used < samples.len() {
        used + 1
    } else {
        used
    };
    let ghost after = if next <= samples@.len() {
        samples@.skip(next as int)
    } else {
        Seq::empty()
    };
    proof {
        assert(sample == first_sample(rest));
        assert(after =~= later_samples(rest));
    }
    if let Some(hit) = world.hit(r, Fixed { raw: SHADOW_BIAS_RAW }, Fixed::max_value()) {
        if let Some((ray, color)) = hit.mat.scatter_with(r, &hit, &sample) {
            let incoming = ray_color_with(&ray, world, depth - 1, samples, next);
            return incoming.mul(color);
        }
        return Color::zeroes();
    }
    background(r)
}

/// The colour that the ray `r` brings back from the scene `world`, with at
/// most `depth` bounces, each of which draws its sample at random.
///
/// With no bounce left the colour is black, and a ray that hits nothing
/// brings the background's colour.  Where no material of the scene gives a
/// colour back stronger than it came in, no part of the result exceeds one.
#[verifier::rlimit(40)]
pub fn ray_color(r: &mut Ray, world: &HittableList, depth: i32) -> (c: Color)
    ensures
        *final(r) == *old(r),
        exists|samples: Seq<ScatterSample>|
            all_drawable(samples) && c == #[trigger] ray_color_spec(
                *old(r),
                world,
                depth as int,
                samples,
            ),
        depth <= 0 ==> c == Vec3::zeroes_spec(),
        depth > 0 && world.hit_spec(
            *old(r),
            Fixed::of(SHADOW_BIAS_RAW as int),
            Fixed::of(MAX_RAW as int),
        ) is None ==> c == background_spec(*old(r)),
        world.conserves_energy() ==> c.in_unit_cube(),
    decreases depth,
{
    proof {
        lemma_ray_color_unfolds(*r, world, depth as int, Seq::empty());
        assert(all_drawable(Seq::<ScatterSample>::empty()));
    }
    if depth <= 0 {
        return Color::zeroes();
    }
    if let Some(hit) = world.hit(r, Fixed { raw: SHADOW_BIAS_RAW }, Fixed::max_value()) {
        if let Some((mut ray, color)) = hit.mat.scatter(r, &hit) {
            let incoming = ray_color(&mut ray, world, depth - 1);
            proof {
                let sample = choose|sample: ScatterSample|
                    sample.wf() && Some((ray, color)) == #[trigger] hit.mat.scatter_spec(
                        *r,
                        hit,
                        sample,
                    );
                let later = choose|later: Seq<ScatterSample>|
                    all_drawable(later) && incoming == #[trigger] ray_color_spec(
                        ray,
                        world,
                        depth - 1,
                        later,
                    );
                lemma_ray_color_scattered(*r, world, depth as int, sample, later);
                assert(all_drawable(seq![sample] + later));
                if world.conserves_energy() {
                    lemma_ray_color_bounded(*r, world, depth as int, seq![sample] + later);
                }
            }
            return incoming.mul(color);
        }
        proof {
            let sample = choose|sample: ScatterSample|
                sample.wf() && None::<(Ray, Color)> == #[trigger] hit.mat.scatter_spec(
                    *r,
                    hit,
                    sample,
                );
            lemma_ray_color_scattered(*r, world, depth as int, sample, Seq::empty());
            assert(all_drawable(seq![sample] + Seq::empty()));
        }
        return Color::zeroes();
    }
    background(r)
}

} // verus!
