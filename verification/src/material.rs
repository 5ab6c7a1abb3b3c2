//! Surface materials: what becomes of a ray that hits a surface.
//!
//! Each material scatters with the help of a random sample.  `scatter` draws
//! the sample; `scatter_with` takes it as an argument and is exact.
use crate::config::ConfigError;
use crate::fixed::lemma_square_bounds;
use crate::fixed::lemma_times_error;
use crate::fixed::magnitude;
use crate::fixed::Fixed;
use crate::fixed::MAX_RAW;
use crate::fixed::ONE_RAW;
use crate::hittable::HitRecord;
use crate::random::is_fraction;
use crate::random::random_fraction;
use crate::ray::Ray;
use crate::utils::inside_unit_sphere;
use crate::utils::fallback_direction;
use crate::utils::lemma_centre_inside;
use crate::utils::lemma_fallback_direction;
use crate::utils::random_in_unit_sphere;
use crate::utils::random_unit_vector;
use crate::vec3::lemma_length_squared_bounds;
use crate::vec3::lemma_scaled_by_zero;
use crate::vec3::Color;
use crate::vec3::Vec3;
use crate::vec3::UNIT_SLACK_RAW;
use vstd::prelude::*;

verus! {

/// The mirror image of `v` at a surface with normal `n`:
/// `v - 2 (v . n) n`, computed as `v - ((n (v . n)) 2)`.
pub open spec fn reflect_spec(v: Vec3, n: Vec3) -> Vec3 {
    v.minus(n.scaled(v.dot_spec(n)).scaled(Fixed::whole(2)))
}

/// Cosine of the angle between the unit direction `uv`, reversed, and the
/// normal `n`, held to at most one.
pub open spec fn cos_theta_spec(uv: Vec3, n: Vec3) -> Fixed {
    uv.negated().dot_spec(n).min_spec(Fixed::whole(1))
}

/// The part of the refracted direction that is perpendicular to the normal.
pub open spec fn refract_perpendicular(uv: Vec3, n: Vec3, etai_over_etat: Fixed) -> Vec3 {
    uv.plus(n.scaled(cos_theta_spec(uv, n))).scaled(etai_over_etat)
}

/// The part of the refracted direction that is parallel to the normal.
pub open spec fn refract_parallel(uv: Vec3, n: Vec3, etai_over_etat: Fixed) -> Vec3 {
    n.scaled(
        Fixed::whole(-1).times(
            Fixed::whole(1).minus(
                refract_perpendicular(uv, n, etai_over_etat).length_squared_spec(),
            ).abs_spec().sqrt_spec(),
        ),
    )
}

/// The direction of the unit direction `uv` after it has passed a surface
/// with normal `n`, by Snell's law with the ratio `etai_over_etat` of the
/// refractive indices.
pub open spec fn refract_spec(uv: Vec3, n: Vec3, etai_over_etat: Fixed) -> Vec3 {
    refract_perpendicular(uv, n, etai_over_etat).plus(refract_parallel(uv, n, etai_over_etat))
}

/// Schlick's approximation of the share of light that a clear surface
/// reflects: `r0 + (1 - r0) (1 - cosine)^5` with
/// `r0 = ((1 - ref_idx) / (1 + ref_idx))^2`.
pub open spec fn reflectance_spec(cosine: Fixed, ref_idx: Fixed) -> Fixed {
    let one = Fixed::whole(1);
    let r0_sqrt = one.minus(ref_idx).over(one.plus(ref_idx));
    let r0 = r0_sqrt.times(r0_sqrt);
    let rest = one.minus(cosine);
    r0.plus(one.minus(r0).times(rest.times(rest).times(rest).times(rest).times(rest)))
}

pub fn reflect(v: &Vec3, n: &Vec3) -> (r: Vec3)
    ensures
        r == reflect_spec(*v, *n),
{
    v.sub(n.scale(v.dot(n)).scale(Fixed::from_int(2)))
}

pub fn refract(uv: &Vec3, n: &Vec3, etai_over_etat: Fixed) -> (r: Vec3)
    ensures
        r == refract_spec(*uv, *n, etai_over_etat),
{
    let cos_theta: Fixed = uv.neg().dot(n).min(Fixed::from_int(1));
    let r_out_perp: Vec3 = uv.add(n.scale(cos_theta)).scale(etai_over_etat);
    let r_out_parallel: Vec3 = n.scale(
        Fixed::from_int(-1).mul(Fixed::from_int(1).sub(r_out_perp.length_squared()).abs().sqrt()),
    );

    r_out_perp.add(r_out_parallel)
}

pub fn reflectance(cosine: Fixed, ref_idx: Fixed) -> (r: Fixed)
    ensures
        r == reflectance_spec(cosine, ref_idx),
{
    let one = Fixed::from_int(1);
    let r0_sqrt: Fixed = one.sub(ref_idx).div(one.add(ref_idx));
    let r0 = r0_sqrt.mul(r0_sqrt);

    let one_min_cosine = one.sub(cosine);
    let one_min_cosine_fifth = one_min_cosine.mul(one_min_cosine).mul(one_min_cosine).mul(
        one_min_cosine,
    ).mul(one_min_cosine);

    r0.add(one.sub(r0).mul(one_min_cosine_fifth))
}

/// What a surface does with a ray that hits it.
pub trait Material {
    /// The material gives no colour back stronger than it came in.
    spec fn conserves_energy(&self) -> bool;

    /// Scatters the ray `ray_in`, which hit the surface as `rec` records.
    /// The result is the scattered ray, which leaves from the point of the
    /// hit, and the colour by which the surface filters what that ray brings
    /// back; or nothing where the surface swallows the ray.
    fn scatter(&self, ray_in: &mut Ray, rec: &HitRecord) -> (res: Option<(Ray, Color)>)
        ensures
            *final(ray_in) == *old(ray_in),
            res matches Some((scattered, attenuation)) ==> scattered.orig == rec.p && (
            self.conserves_energy() ==> attenuation.in_unit_cube()),
    ;
}

/// A diffuse surface.
#[derive(Clone, Copy, Debug, PartialEq, Eq, Structural)]
pub struct Lambertian {
    pub albedo: Color,
}

impl Lambertian {
    /// The direction `normal + unit`, or `normal` where that sum is too
    /// close to zero to be a direction.
    pub open spec fn scatter_direction(normal: Vec3, unit: Vec3) -> Vec3 {
        if normal.plus(unit).near_zero_spec() {
            normal
        } else {
            normal.plus(unit)
        }
    }

    /// What `scatter` returns when its sample is `unit`.
    pub open spec fn scatter_spec(self, rec: HitRecord, unit: Vec3) -> Option<(Ray, Color)> {
        Some((Ray { orig: rec.p, dir: Self::scatter_direction(rec.normal, unit) }, self.albedo))
    }

    /// Scatters about the normal, `unit` being the random unit vector that
    /// is added to it.  A diffuse surface scatters every ray.
    pub fn scatter_with(&self, rec: &HitRecord, unit: &Vec3) -> (res: Option<(Ray, Color)>)
        ensures
            res == self.scatter_spec(*rec, *unit),
    {
        let mut scatter_direction = rec.normal.add(*unit);

        if scatter_direction.near_zero() {
            scatter_direction = rec.normal;
        }
        let scattered = Ray { orig: rec.p, dir: scatter_direction };

        Some((scattered, self.albedo))
    }
}

/// One part of the sum of normal and unit vector, times the same part of
/// the normal, and squared: with rounding, the product is more than half
/// the difference of the squares of the two parts less one raw unit, and
/// the square is at most twice the sum of the two squares.
proof fn lemma_diffuse_part(n: Fixed, u: Fixed)
    requires
        magnitude(n@) <= ONE_RAW,
        magnitude(u@) <= ONE_RAW,
    ensures
        n.plus(u)@ == n@ + u@,
        2 * (n.plus(u).times(n)@ * ONE_RAW) > n@ * n@ - u@ * u@ - 2 * ONE_RAW,
        magnitude(n.plus(u).times(n)@) <= 2 * ONE_RAW,
        n.plus(u)@ * n.plus(u)@ <= 2 * (n@ * n@) + 2 * (u@ * u@),
{
    let one = ONE_RAW as int;
    let d = n.plus(u);
    assert(magnitude(d@ * n@) <= 2 * one * one) by (nonlinear_arith)
        requires
            magnitude(d@) <= 2 * one,
            magnitude(n@) <= one,
            one > 0,
    ;
    assert(2 * one * one <= MAX_RAW * one) by (nonlinear_arith)
        requires
            one == 0x1_0000_0000,
            MAX_RAW == 0x7fff_ffff_ffff_ffff,
    ;
    lemma_times_error(d, n);
    assert(magnitude(d.times(n)@) <= 2 * one) by (nonlinear_arith)
        requires
            magnitude(d.times(n)@) * one <= magnitude(d@ * n@),
            magnitude(d@ * n@) <= 2 * one * one,
            one > 0,
    ;
    assert(2 * (d@ * n@) >= n@ * n@ - u@ * u@ && d@ * d@ <= 2 * (n@ * n@) + 2 * (u@ * u@))
        by (nonlinear_arith)
        requires
            d@ == n@ + u@,
    ;
}

/// A diffuse surface sends a ray on to the normal's side, and in a
/// direction at most two long: where the normal and the unit vector that
/// is added to it have unit length within rounding, the scattered direction
/// does not point against the normal by more than that rounding, and its
/// squared length exceeds four by no more than four times that rounding.
pub proof fn lemma_diffuse_leaves_on_normal_side(normal: Vec3, unit: Vec3)
    requires
        normal.is_unit(),
        normal.in_unit_box(),
        unit.is_unit(),
        unit.in_unit_box(),
    ensures
        Lambertian::scatter_direction(normal, unit).dot_spec(normal)@ >= -(UNIT_SLACK_RAW + 4),
        Lambertian::scatter_direction(normal, unit).length_squared_spec()@ <= 4 * ONE_RAW + 4
            * UNIT_SLACK_RAW + 4,
{
    let one = ONE_RAW as int;
    let direction = Lambertian::scatter_direction(normal, unit);
    lemma_length_squared_bounds(normal);
    lemma_length_squared_bounds(unit);
    if direction == normal {
        lemma_square_bounds(normal.x);
        lemma_square_bounds(normal.y);
        lemma_square_bounds(normal.z);
    } else {
        lemma_diffuse_part(normal.x, unit.x);
        lemma_diffuse_part(normal.y, unit.y);
        lemma_diffuse_part(normal.z, unit.z);
        lemma_length_squared_bounds(direction);
        let sum = direction.squares_sum();
        assert(sum <= 2 * normal.squares_sum() + 2 * unit.squares_sum());
        assert(direction.length_squared_spec()@ * one < 4 * (one + UNIT_SLACK_RAW + 1) * one);
    }
}

impl Material for Lambertian {
    open spec fn conserves_energy(&self) -> bool {
        self.albedo.in_unit_cube()
    }

    fn scatter(&self, ray_in: &mut Ray, rec: &HitRecord) -> (res: Option<(Ray, Color)>)
        ensures
            exists|unit: Vec3|
                unit.is_unit() && unit.in_unit_box() && res == #[trigger] self.scatter_spec(
                    *rec,
                    unit,
                ),
    {
        let unit = random_unit_vector();
        self.scatter_with(rec, &unit)
    }
}

/// A mirror, roughened by `fuzz`, which lies in `[0, 1]`.
#[derive(Clone, Copy, Debug, PartialEq, Eq, Structural)]
pub struct Metal {
    pub albedo: Color,
    pub fuzz: Fixed,
}

impl Metal {
    /// The fuzz lies in `[0, 1]`.
    pub open spec fn wf(self) -> bool {
        0 <= self.fuzz@ <= ONE_RAW
    }

    /// The metal of the given colour and fuzz, unless the fuzz lies outside
    /// `[0, 1]`.
    pub fn new(albedo: Color, fuzz: Fixed) -> (res: Result<Metal, ConfigError>)
        ensures
            res is Ok <==> 0 <= fuzz@ <= ONE_RAW,
            res matches Ok(metal) ==> metal == (Metal { albedo, fuzz }) && metal.wf(),
            res matches Err(e) ==> e == ConfigError::FuzzOutOfRange,
    {
        if fuzz.raw < 0 || fuzz.raw > ONE_RAW {
            Err(ConfigError::FuzzOutOfRange)
        } else {
            Ok(Metal { albedo, fuzz })
        }
    }

    /// The direction in which a ray leaves: the mirror image of the
    /// direction of `ray_in`, as long as that direction is, moved by `fuzz`
    /// times `sample`.
    pub open spec fn scatter_direction(self, ray_in: Ray, rec: HitRecord, sample: Vec3) -> Vec3 {
        reflect_spec(ray_in.dir, rec.normal).plus(sample.scaled(self.fuzz))
    }

    /// What `scatter` returns when its sample is `sample`: the ray is
    /// scattered where its new direction points away from the surface, and
    /// swallowed where it does not.
    pub open spec fn scatter_spec(self, ray_in: Ray, rec: HitRecord, sample: Vec3) -> Option<
        (Ray, Color),
    > {
        let dir = self.scatter_direction(ray_in, rec, sample);
        if dir.dot_spec(rec.normal)@ > 0 {
            Some((Ray { orig: rec.p, dir }, self.albedo))
        } else {
            None
        }
    }

    /// Reflects `ray_in`, `sample` being the random point of the unit sphere
    /// that roughens the reflection.
    pub fn scatter_with(&self, ray_in: &Ray, rec: &HitRecord, sample: &Vec3) -> (res: Option<
        (Ray, Color),
    >)
        ensures
            res == self.scatter_spec(*ray_in, *rec, *sample),
    {
        let reflected = reflect(&ray_in.dir, &rec.normal);
        let scattered = Ray { orig: rec.p, dir: reflected.add(sample.scale(self.fuzz)) };

        if scattered.dir.dot(&rec.normal).raw > 0 {
            Some((scattered, self.albedo))
        } else {
            None
        }
    }
}

/// The law of reflection: a metal without fuzz sends a ray on in the mirror
/// image of its direction, whatever the sample, and does so exactly where
/// that image points away from the surface; where it does not, the ray is
/// swallowed.
pub proof fn lemma_mirror_reflection(metal: Metal, ray_in: Ray, rec: HitRecord, sample: Vec3)
    requires
        metal.fuzz@ == 0,
    ensures
        metal.scatter_direction(ray_in, rec, sample) == reflect_spec(ray_in.dir, rec.normal),
        metal.scatter_spec(ray_in, rec, sample) is Some <==> reflect_spec(
            ray_in.dir,
            rec.normal,
        ).dot_spec(rec.normal)@ > 0,
        metal.scatter_spec(ray_in, rec, sample) matches Some((scattered, attenuation))
            ==> scattered.orig == rec.p && scattered.dir == reflect_spec(ray_in.dir, rec.normal)
            && attenuation == metal.albedo,
{
    lemma_scaled_by_zero(sample);
}

/// No part of `v` exceeds `2^20` in magnitude: products with it stay far
/// from the ends of the range.
pub open spec fn moderate(v: Vec3) -> bool {
    magnitude(v.x@) <= 0x10_0000 * ONE_RAW && magnitude(v.y@) <= 0x10_0000 * ONE_RAW && magnitude(
        v.z@,
    ) <= 0x10_0000 * ONE_RAW
}

/// `n` has about unit length: no part exceeds two in magnitude, and its
/// squared length is at least three quarters.
pub open spec fn nearly_unit(n: Vec3) -> bool {
    magnitude(n.x@) <= 2 * ONE_RAW && magnitude(n.y@) <= 2 * ONE_RAW && magnitude(n.z@) <= 2
        * ONE_RAW && n.length_squared_spec()@ >= 3 * (ONE_RAW / 4)
}

/// One part of the mirror image of a direction, times the same part of the
/// normal, against what exact arithmetic would give: with `s` standing for
/// the dot product of direction and normal, the rounding costs less than
/// six raw units.
proof fn lemma_mirror_part(v: Fixed, n: Fixed, s: Fixed)
    requires
        magnitude(v@) <= 0x10_0000 * ONE_RAW,
        magnitude(n@) <= 2 * ONE_RAW,
        -0x60_0000 * ONE_RAW <= s@ <= 0,
    ensures
        ({
            let q = v.times(n)@;
            let p = v.minus(n.times(s).times(Fixed::whole(2))).times(n)@;
            &&& p * (ONE_RAW * ONE_RAW) > q * (ONE_RAW * ONE_RAW) - 2 * (n@ * n@ * s@) - 6 * (
            ONE_RAW * ONE_RAW)
            &&& p * (ONE_RAW * ONE_RAW) < q * (ONE_RAW * ONE_RAW) - 2 * (n@ * n@ * s@) + 6 * (
            ONE_RAW * ONE_RAW)
            &&& magnitude(q) <= 0x20_0000 * ONE_RAW
            &&& magnitude(p) <= 0x1000_0000 * ONE_RAW
        }),
{
    let one = ONE_RAW as int;
    let q = v.times(n);
    let t = n.times(s);
    let u = t.times(Fixed::whole(2));
    let w = v.minus(u);
    let p = w.times(n);
    // the products stay in range
    assert(magnitude(v@ * n@) <= 0x20_0000 * one * one) by (nonlinear_arith)
        requires
            magnitude(v@) <= 0x10_0000 * one,
            magnitude(n@) <= 2 * one,
            one > 0,
    ;
    assert(magnitude(n@ * s@) <= 0xc0_0000 * one * one) by (nonlinear_arith)
        requires
            magnitude(n@) <= 2 * one,
            -0x60_0000 * one <= s@ <= 0,
            one > 0,
    ;
    assert(0x20_0000 * one * one <= MAX_RAW * one && 0xc0_0000 * one * one <= MAX_RAW * one
        && 0x1000_0000 * one * one <= MAX_RAW * one) by (nonlinear_arith)
        requires
            one == 0x1_0000_0000,
            MAX_RAW == 0x7fff_ffff_ffff_ffff,
    ;
    lemma_times_error(v, n);
    lemma_times_error(n, s);
    assert(magnitude(q@) <= 0x20_0000 * one) by (nonlinear_arith)
        requires
            magnitude(q@) * one <= magnitude(v@ * n@),
            magnitude(v@ * n@) <= 0x20_0000 * one * one,
            one > 0,
    ;
    assert(magnitude(t@) <= 0xc0_0000 * one) by (nonlinear_arith)
        requires
            magnitude(t@) * one <= magnitude(n@ * s@),
            magnitude(n@ * s@) <= 0xc0_0000 * one * one,
            one > 0,
    ;
    // doubling is exact
    assert(magnitude(t@ * (2 * one)) <= 0x180_0000 * one * one) by (nonlinear_arith)
        requires
            magnitude(t@) <= 0xc0_0000 * one,
            one > 0,
    ;
    assert(0x180_0000 * one * one <= MAX_RAW * one) by (nonlinear_arith)
        requires
            one == 0x1_0000_0000,
            MAX_RAW == 0x7fff_ffff_ffff_ffff,
    ;
    lemma_times_error(t, Fixed::whole(2));
    assert(u@ == 2 * t@) by (nonlinear_arith)
        requires
            t@ * (2 * one) - one < u@ * one < t@ * (2 * one) + one,
            one > 0,
    ;
    assert(w@ == v@ - 2 * t@);
    assert(magnitude(w@ * n@) <= 0x1000_0000 * one * one) by (nonlinear_arith)
        requires
            magnitude(w@) <= 0x200_0000 * one,
            magnitude(n@) <= 2 * one,
            one > 0,
    ;
    lemma_times_error(w, n);
    assert(magnitude(p@) <= 0x1000_0000 * one) by (nonlinear_arith)
        requires
            magnitude(p@) * one <= magnitude(w@ * n@),
            magnitude(w@ * n@) <= 0x1000_0000 * one * one,
            one > 0,
    ;
    // what the rounding of `t` costs
    let e = t@ * one - n@ * s@;
    assert(t@ * n@ * one == n@ * n@ * s@ + e * n@) by (nonlinear_arith)
        requires
            e == t@ * one - n@ * s@,
    ;
    assert(e * n@ <= 2 * one * one) by (nonlinear_arith)
        requires
            -one < e < one,
            magnitude(n@) <= 2 * one,
            one > 0,
    ;
    assert(w@ * n@ == v@ * n@ - 2 * (t@ * n@)) by (nonlinear_arith)
        requires
            w@ == v@ - 2 * t@,
    ;
    assert(p@ * (one * one) > q@ * (one * one) - 2 * (n@ * n@ * s@) - 6 * (one * one))
        by (nonlinear_arith)
        requires
            p@ * one > w@ * n@ - one,
            w@ * n@ == v@ * n@ - 2 * (t@ * n@),
            t@ * n@ * one <= n@ * n@ * s@ + 2 * one * one,
            q@ * one < v@ * n@ + one,
            one > 0,
    ;
    assert(e * n@ >= -(2 * one * one)) by (nonlinear_arith)
        requires
            -one < e < one,
            magnitude(n@) <= 2 * one,
            one > 0,
    ;
    assert(p@ * (one * one) < q@ * (one * one) - 2 * (n@ * n@ * s@) + 6 * (one * one))
        by (nonlinear_arith)
        requires
            p@ * one < w@ * n@ + one,
            w@ * n@ == v@ * n@ - 2 * (t@ * n@),
            t@ * n@ * one >= n@ * n@ * s@ - 2 * one * one,
            q@ * one > v@ * n@ - one,
            one > 0,
    ;
}

/// A mirror without fuzz sends a ray that comes against the normal on at
/// the angle at which it came: where the normal has unit length within
/// rounding and the direction is of moderate size, the mirror image has
/// with the normal the dot product of the direction, negated, within a
/// rounding that grows with that dot product.
pub proof fn lemma_mirror_keeps_angle(metal: Metal, ray_in: Ray, rec: HitRecord, sample: Vec3)
    requires
        metal.fuzz@ == 0,
        moderate(ray_in.dir),
        rec.normal.is_unit(),
        rec.normal.in_unit_box(),
        ray_in.dir.dot_spec(rec.normal)@ <= 0,
    ensures
        magnitude(
            metal.scatter_direction(ray_in, rec, sample).dot_spec(rec.normal)@
                + ray_in.dir.dot_spec(rec.normal)@,
        ) * ONE_RAW <= 2 * (UNIT_SLACK_RAW + 1) * (-ray_in.dir.dot_spec(rec.normal)@) + 18
            * ONE_RAW,
{
    let one = ONE_RAW as int;
    let v = ray_in.dir;
    let n = rec.normal;
    let s = v.dot_spec(n);
    lemma_mirror_reflection(metal, ray_in, rec, sample);
    lemma_mirror_part(v.x, n.x, Fixed::whole(0));
    lemma_mirror_part(v.y, n.y, Fixed::whole(0));
    lemma_mirror_part(v.z, n.z, Fixed::whole(0));
    let qx = v.x.times(n.x)@;
    let qy = v.y.times(n.y)@;
    let qz = v.z.times(n.z)@;
    assert(s@ == qx + qy + qz);
    lemma_length_squared_bounds(n);
    lemma_mirror_part(v.x, n.x, s);
    lemma_mirror_part(v.y, n.y, s);
    lemma_mirror_part(v.z, n.z, s);
    let image = reflect_spec(v, n);
    let px = image.x.times(n.x)@;
    let py = image.y.times(n.y)@;
    let pz = image.z.times(n.z)@;
    let turned = px + py + pz;
    assert(image.dot_spec(n)@ == turned);
    let squares = n.squares_sum();
    let off = squares - one * one;
    assert(n.x@ * n.x@ * s@ + n.y@ * n.y@ * s@ + n.z@ * n.z@ * s@ == one * one * s@ + off * s@)
        by (nonlinear_arith)
        requires
            squares == n.x@ * n.x@ + n.y@ * n.y@ + n.z@ * n.z@,
            off == squares - one * one,
    ;
    assert(-(UNIT_SLACK_RAW + 1) * one <= off <= (UNIT_SLACK_RAW + 1) * one) by (nonlinear_arith)
        requires
            off == squares - one * one,
            (one - UNIT_SLACK_RAW) * one <= squares < (one + UNIT_SLACK_RAW + 1) * one,
    ;
    assert(magnitude(off * s@) <= (UNIT_SLACK_RAW + 1) * one * (-s@)) by (nonlinear_arith)
        requires
            -(UNIT_SLACK_RAW + 1) * one <= off <= (UNIT_SLACK_RAW + 1) * one,
            s@ <= 0,
            magnitude(off * s@) == if off * s@ < 0 {
                -(off * s@)
            } else {
                off * s@
            },
    ;
    let unit = one * one;
    let shift = (turned + s@) * unit;
    assert(shift == px * unit + py * unit + pz * unit + (qx * unit + qy * unit + qz * unit))
        by (nonlinear_arith)
        requires
            shift == (turned + s@) * unit,
            turned == px + py + pz,
            s@ == qx + qy + qz,
    ;
    assert(one * one * s@ == qx * unit + qy * unit + qz * unit) by (nonlinear_arith)
        requires
            unit == one * one,
            s@ == qx + qy + qz,
    ;
    assert(-2 * (off * s@) - 18 * unit < shift < -2 * (off * s@) + 18 * unit);
    assert(magnitude(turned + s@) * unit == magnitude(shift)) by (nonlinear_arith)
        requires
            shift == (turned + s@) * unit,
            unit > 0,
            magnitude(turned + s@) == if turned + s@ < 0 {
                -(turned + s@)
            } else {
                turned + s@
            },
            magnitude(shift) == if shift < 0 {
                -shift
            } else {
                shift
            },
    ;
    assert(magnitude(turned + s@) * (one * one) <= 2 * ((UNIT_SLACK_RAW + 1) * one * (-s@)) + 18
        * (one * one));
    assert(magnitude(turned + s@) * one <= 2 * (UNIT_SLACK_RAW + 1) * (-s@) + 18 * one)
        by (nonlinear_arith)
        requires
            magnitude(turned + s@) * (one * one) <= 2 * ((UNIT_SLACK_RAW + 1) * one * (-s@)) + 18
                * (one * one),
            one > 0,
    ;
}

/// A mirror without fuzz never swallows a ray that comes against the
/// normal: where the normal has about unit length, the direction is of
/// moderate size and meets the normal at more than a grazing angle, which
/// is to say their dot product is under `-36` raw units, the mirror image
/// points away from the surface, and the ray is scattered.
pub proof fn lemma_mirror_scatters(metal: Metal, ray_in: Ray, rec: HitRecord, sample: Vec3)
    requires
        metal.fuzz@ == 0,
        moderate(ray_in.dir),
        nearly_unit(rec.normal),
        ray_in.dir.dot_spec(rec.normal)@ <= -36,
    ensures
        metal.scatter_spec(ray_in, rec, sample) is Some,
        metal.scatter_direction(ray_in, rec, sample).dot_spec(rec.normal)@ > 0,
{
    let one = ONE_RAW as int;
    let v = ray_in.dir;
    let n = rec.normal;
    let s = v.dot_spec(n);
    lemma_mirror_reflection(metal, ray_in, rec, sample);
    // the dot product and the squared length are plain sums
    lemma_mirror_part(v.x, n.x, Fixed::whole(0));
    lemma_mirror_part(v.y, n.y, Fixed::whole(0));
    lemma_mirror_part(v.z, n.z, Fixed::whole(0));
    let qx = v.x.times(n.x)@;
    let qy = v.y.times(n.y)@;
    let qz = v.z.times(n.z)@;
    assert(s@ == qx + qy + qz);
    lemma_length_squared_bounds(n);
    lemma_mirror_part(v.x, n.x, s);
    lemma_mirror_part(v.y, n.y, s);
    lemma_mirror_part(v.z, n.z, s);
    let image = reflect_spec(v, n);
    let px = image.x.times(n.x)@;
    let py = image.y.times(n.y)@;
    let pz = image.z.times(n.z)@;
    assert(image.dot_spec(n)@ == px + py + pz);
    let squares = n.squares_sum();
    assert(n.x@ * n.x@ * s@ + n.y@ * n.y@ * s@ + n.z@ * n.z@ * s@ == squares * s@)
        by (nonlinear_arith)
        requires
            squares == n.x@ * n.x@ + n.y@ * n.y@ + n.z@ * n.z@,
    ;
    assert(2 * (squares * s@) <= 3 * (one / 2) * one * s@) by (nonlinear_arith)
        requires
            squares >= 3 * (one / 4) * one,
            s@ <= 0,
            one == 0x1_0000_0000,
    ;
    assert((px + py + pz) * (one * one) > 0) by (nonlinear_arith)
        requires
            px * (one * one) > qx * (one * one) - 2 * (n.x@ * n.x@ * s@) - 6 * (one * one),
            py * (one * one) > qy * (one * one) - 2 * (n.y@ * n.y@ * s@) - 6 * (one * one),
            pz * (one * one) > qz * (one * one) - 2 * (n.z@ * n.z@ * s@) - 6 * (one * one),
            n.x@ * n.x@ * s@ + n.y@ * n.y@ * s@ + n.z@ * n.z@ * s@ == squares * s@,
            2 * (squares * s@) <= 3 * (one / 2) * one * s@,
            s@ <= -36,
            s@ == qx + qy + qz,
            one == 0x1_0000_0000,
    ;
}

impl Material for Metal {
    open spec fn conserves_energy(&self) -> bool {
        self.albedo.in_unit_cube()
    }

    fn scatter(&self, ray_in: &mut Ray, rec: &HitRecord) -> (res: Option<(Ray, Color)>)
        ensures
            exists|p: Vec3|
                inside_unit_sphere(p) && res == #[trigger] self.scatter_spec(*old(ray_in), *rec, p),
    {
        let sample = random_in_unit_sphere();
        self.scatter_with(ray_in, rec, &sample)
    }
}

/// A clear surface with index of refraction `ir`.
#[derive(Clone, Copy, Debug, PartialEq, Eq, Structural)]
pub struct Dialectric {
    pub ir: Fixed,
}

impl Dialectric {
    /// The ratio of the refractive indices on the two sides of the surface:
    /// `1 / ir` for a ray that enters, `ir` for one that leaves.
    pub open spec fn refraction_ratio(self, front_face: bool) -> Fixed {
        if front_face {
            Fixed::whole(1).over(self.ir)
        } else {
            self.ir
        }
    }

    /// Sine of the angle whose cosine is `cos_theta`.
    pub open spec fn sin_theta_spec(cos_theta: Fixed) -> Fixed {
        Fixed::whole(1).minus(cos_theta.times(cos_theta)).sqrt_spec()
    }

    /// Whether the ray is reflected: it must be where Snell's law has no
    /// solution, and else it is where the reflectance exceeds `draw`.
    pub open spec fn reflects(self, ray_in: Ray, rec: HitRecord, draw: Fixed) -> bool {
        let ratio = self.refraction_ratio(rec.front_face);
        let cos_theta = cos_theta_spec(ray_in.dir.unit_spec(), rec.normal);
        ratio.times(Self::sin_theta_spec(cos_theta))@ > ONE_RAW || reflectance_spec(
            cos_theta,
            ratio,
        )@ > draw@
    }

    /// The direction in which the ray leaves.
    pub open spec fn scatter_direction(self, ray_in: Ray, rec: HitRecord, draw: Fixed) -> Vec3 {
        if self.reflects(ray_in, rec, draw) {
            reflect_spec(ray_in.dir.unit_spec(), rec.normal)
        } else {
            refract_spec(
                ray_in.dir.unit_spec(),
                rec.normal,
                self.refraction_ratio(rec.front_face),
            )
        }
    }

    /// What `scatter` returns when its draw is `draw`.
    pub open spec fn scatter_spec(self, ray_in: Ray, rec: HitRecord, draw: Fixed) -> Option<
        (Ray, Color),
    > {
        Some(
            (
                Ray { orig: rec.p, dir: self.scatter_direction(ray_in, rec, draw) },
                Vec3::ones_spec(),
            ),
        )
    }

    /// Reflects or refracts `ray_in`, `draw` being the random fraction that
    /// the reflectance is held against.  A clear surface scatters every ray
    /// and takes nothing from its colour.
    pub fn scatter_with(&self, ray_in: &Ray, rec: &HitRecord, draw: Fixed) -> (res: Option<
        (Ray, Color),
    >)
        ensures
            res == self.scatter_spec(*ray_in, *rec, draw),
    {
        let refraction_ratio: Fixed;
        if rec.front_face {
            refraction_ratio = Fixed::from_int(1).div(self.ir);
        } else {
            refraction_ratio = self.ir;
        }
        let unit_direction: Vec3 = ray_in.dir.unit_vector();
        let cos_theta: Fixed = unit_direction.neg().dot(&rec.normal).min(Fixed::from_int(1));
        let sin_theta: Fixed = Fixed::from_int(1).sub(cos_theta.mul(cos_theta)).sqrt();
        let cannot_refract: bool = refraction_ratio.mul(sin_theta).raw > ONE_RAW;

        let direction: Vec3;
        if cannot_refract || reflectance(cos_theta, refraction_ratio).raw > draw.raw {
            direction = reflect(&unit_direction, &rec.normal);
        } else {
            direction = refract(&unit_direction, &rec.normal, refraction_ratio);
        }
        let res_ray: Ray = Ray { orig: rec.p, dir: direction };

        Some((res_ray, Color::ones()))
    }
}

impl Material for Dialectric {
    open spec fn conserves_energy(&self) -> bool {
        true
    }

    fn scatter(&self, ray_in: &mut Ray, rec: &HitRecord) -> (res: Option<(Ray, Color)>)
        ensures
            exists|draw: Fixed|
                is_fraction(draw) && res == #[trigger] self.scatter_spec(*old(ray_in), *rec, draw),
    {
        let draw = random_fraction();
        self.scatter_with(ray_in, rec, draw)
    }
}

/// The closed set of materials that a surface can have.
#[derive(Clone, Copy, Debug, PartialEq, Eq, Structural)]
pub enum Surface {
    Lambertian(Lambertian),
    Metal(Metal),
    Dialectric(Dialectric),
}

/// The random draws that one scattering may use.  A diffuse surface uses
/// `unit`, a metal `point` and a clear surface `draw`.
#[derive(Clone, Copy, Debug, PartialEq, Eq, Structural)]
pub struct ScatterSample {
    pub unit: Vec3,
    pub point: Vec3,
    pub draw: Fixed,
}

impl ScatterSample {
    /// The sample is one that can be drawn: `unit` has unit length within
    /// rounding and no part beyond one, `point` lies inside the unit sphere,
    /// and `draw` in `[0, 1)`.
    pub open spec fn wf(self) -> bool {
        self.unit.is_unit() && self.unit.in_unit_box() && inside_unit_sphere(self.point)
            && is_fraction(self.draw)
    }

    /// The sample of zeros, which stands in where no sample is given.
    pub open spec fn none_spec() -> ScatterSample {
        ScatterSample {
            unit: Vec3::zeroes_spec(),
            point: Vec3::zeroes_spec(),
            draw: Fixed::whole(0),
        }
    }

    /// The sample of zeros.
    pub fn none() -> (sample: ScatterSample)
        ensures
            sample == Self::none_spec(),
    {
        ScatterSample { unit: Vec3::zeroes(), point: Vec3::zeroes(), draw: Fixed::zero() }
    }
}

impl Surface {
    /// The colour by which the material filters what a scattered ray brings
    /// back: the albedo of a diffuse surface or a metal, and white for a
    /// clear surface.
    pub open spec fn filter(self) -> Color {
        match self {
            Surface::Lambertian(m) => m.albedo,
            Surface::Metal(m) => m.albedo,
            Surface::Dialectric(_) => Vec3::ones_spec(),
        }
    }

    /// The material filters all three channels alike, and by no negative
    /// share.
    pub open spec fn is_grey(self) -> bool {
        self.filter().x == self.filter().y && self.filter().y == self.filter().z
            && self.filter().x@ >= 0
    }

    /// What `scatter` returns when its draws are `sample`.
    #[verifier::opaque]
    pub open spec fn scatter_spec(self, ray_in: Ray, rec: HitRecord, sample: ScatterSample)
        -> Option<(Ray, Color)> {
        match self {
            Surface::Lambertian(m) => m.scatter_spec(rec, sample.unit),
            Surface::Metal(m) => m.scatter_spec(ray_in, rec, sample.point),
            Surface::Dialectric(m) => m.scatter_spec(ray_in, rec, sample.draw),
        }
    }

    /// Scatters `ray_in` as the material does, with `sample` in place of
    /// its random draws.
    pub fn scatter_with(&self, ray_in: &Ray, rec: &HitRecord, sample: &ScatterSample) -> (res:
        Option<(Ray, Color)>)
        ensures
            res == self.scatter_spec(*ray_in, *rec, *sample),
            res matches Some((scattered, attenuation)) ==> scattered.orig == rec.p && (
            self.conserves_energy() ==> attenuation.in_unit_cube()),
    {
        proof {
            reveal(Surface::scatter_spec);
        }
        match self {
            Surface::Lambertian(m) => m.scatter_with(rec, &sample.unit),
            Surface::Metal(m) => m.scatter_with(ray_in, rec, &sample.point),
            Surface::Dialectric(m) => m.scatter_with(ray_in, rec, sample.draw),
        }
    }
}

/// A scattered ray leaves from the point of the hit, and it is filtered by
/// the material's own colour, whatever the sample; a material conserves
/// energy exactly where that colour lies in the unit cube.
pub proof fn lemma_scatter_conserves(
    surface: Surface,
    ray_in: Ray,
    rec: HitRecord,
    sample: ScatterSample,
)
    ensures
        surface.scatter_spec(ray_in, rec, sample) matches Some((scattered, attenuation))
            ==> scattered.orig == rec.p && attenuation == surface.filter() && (
        surface.conserves_energy() ==> attenuation.in_unit_cube()),
        surface.conserves_energy() <==> surface.filter().in_unit_cube(),
{
    reveal(Surface::scatter_spec);
}

impl Material for Surface {
    open spec fn conserves_energy(&self) -> bool {
        match *self {
            Surface::Lambertian(m) => m.conserves_energy(),
            Surface::Metal(m) => m.conserves_energy(),
            Surface::Dialectric(m) => m.conserves_energy(),
        }
    }

    fn scatter(&self, ray_in: &mut Ray, rec: &HitRecord) -> (res: Option<(Ray, Color)>)
        ensures
            exists|sample: ScatterSample|
                sample.wf() && res == #[trigger] self.scatter_spec(*old(ray_in), *rec, sample),
    {
        proof {
            reveal(Surface::scatter_spec);
            lemma_centre_inside();
            lemma_fallback_direction();
        }
        let ghost centre = Vec3::zeroes_spec();
        let ghost along = fallback_direction();
        match self {
            Surface::Lambertian(m) => {
                let res = m.scatter(ray_in, rec);
                proof {
                    let unit = choose|unit: Vec3|
                        unit.is_unit() && unit.in_unit_box() && res == #[trigger] m.scatter_spec(
                            *rec,
                            unit,
                        );
                    let sample = ScatterSample { unit, point: centre, draw: Fixed::whole(0) };
                    assert(sample.wf());
                    assert(res == self.scatter_spec(*old(ray_in), *rec, sample));
                }
                res
            },
            Surface::Metal(m) => {
                let res = m.scatter(ray_in, rec);
                proof {
                    let p = choose|p: Vec3|
                        inside_unit_sphere(p) && res == #[trigger] m.scatter_spec(
                            *old(ray_in),
                            *rec,
                            p,
                        );
                    let sample = ScatterSample { unit: along, point: p, draw: Fixed::whole(0) };
                    assert(sample.wf());
                    assert(res == self.scatter_spec(*old(ray_in), *rec, sample));
                }
                res
            },
            Surface::Dialectric(m) => {
                let res = m.scatter(ray_in, rec);
                proof {
                    let draw = choose|draw: Fixed|
                        is_fraction(draw) && res == #[trigger] m.scatter_spec(
                            *old(ray_in),
                            *rec,
                            draw,
                        );
                    let sample = ScatterSample { unit: along, point: centre, draw };
                    assert(sample.wf());
                    assert(res == self.scatter_spec(*old(ray_in), *rec, sample));
                }
                res
            },
        }
    }
}

} // verus!
