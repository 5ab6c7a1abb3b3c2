//! Spheres, and the intersection of a ray with one.
use crate::config::ConfigError;
use crate::fixed::lemma_over_keeps_sign;
use crate::fixed::lemma_over_ordered;
use crate::fixed::lemma_product_sign;
use crate::fixed::lemma_raw_root_exists;
use crate::fixed::lemma_sqrt_bounds;
use crate::fixed::lemma_times_same_sign;
use crate::fixed::Fixed;
use crate::fixed::ONE_RAW;
use crate::hittable::within;
use crate::hittable::HitRecord;
use crate::hittable::Hittable;
use crate::material::Surface;
use crate::ray::Ray;
use crate::vec3::lemma_length_bounds;
use crate::vec3::lemma_length_squared_bounds;
use crate::vec3::Point3;
use crate::vec3::Vec3;
use std::sync::Arc;
use vstd::prelude::*;

verus! {

/// A sphere with its material, which it may share with other spheres.
#[derive(Debug)]
pub struct Sphere {
    pub center: Point3,
    pub radius: Fixed,
    pub m: Arc<Surface>,
}

impl Sphere {
    /// The sphere about `center` with the given radius and material, unless
    /// the radius is negative.
    pub fn new(center: Point3, radius: Fixed, m: Arc<Surface>) -> (res: Result<Sphere, ConfigError>)
        ensures
            res is Ok <==> radius@ >= 0,
            res matches Ok(sphere) ==> sphere.center == center && sphere.radius == radius
                && sphere.m == m,
            res matches Err(e) ==> e == ConfigError::NegativeRadius,
    {
        if radius.raw < 0 {
            Err(ConfigError::NegativeRadius)
        } else {
            Ok(Sphere { center, radius, m })
        }
    }

    /// From the centre to the ray's origin.
    pub open spec fn offset(self, r: Ray) -> Vec3 {
        r.orig.minus(self.center)
    }

    /// Of the quadratic `a t^2 + 2 half_b t + c = 0` in the ray parameter
    /// `t` of the points where the ray meets the sphere: `a`.
    pub open spec fn quadratic_a(self, r: Ray) -> Fixed {
        r.dir.length_squared_spec()
    }

    /// Of the same quadratic: half the coefficient of `t`.
    pub open spec fn half_b(self, r: Ray) -> Fixed {
        self.offset(r).dot_spec(r.dir)
    }

    /// Of the same quadratic: `c`.
    pub open spec fn quadratic_c(self, r: Ray) -> Fixed {
        self.offset(r).length_squared_spec().minus(self.radius.times(self.radius))
    }

    /// A quarter of the quadratic's discriminant: negative where the ray
    /// misses the sphere.
    #[verifier::opaque]
    pub open spec fn discriminant(self, r: Ray) -> Fixed {
        self.half_b(r).times(self.half_b(r)).minus(self.quadratic_a(r).times(self.quadratic_c(r)))
    }

    /// The smaller root of the quadratic.
    #[verifier::opaque]
    pub open spec fn near_root(self, r: Ray) -> Fixed {
        self.half_b(r).negated().minus(self.discriminant(r).sqrt_spec()).over(self.quadratic_a(r))
    }

    /// The larger root of the quadratic.
    #[verifier::opaque]
    pub open spec fn far_root(self, r: Ray) -> Fixed {
        self.half_b(r).negated().plus(self.discriminant(r).sqrt_spec()).over(self.quadratic_a(r))
    }

    /// The ray parameter of the hit: the smaller root where it lies between
    /// `t_min` and `t_max`, else the larger root where that one does.
    pub open spec fn accepted_root(self, r: Ray, t_min: Fixed, t_max: Fixed) -> Option<Fixed> {
        if self.discriminant(r)@ < 0 {
            None
        } else if within(self.near_root(r), t_min, t_max) {
            Some(self.near_root(r))
        } else if within(self.far_root(r), t_min, t_max) {
            Some(self.far_root(r))
        } else {
            None
        }
    }

    /// The normal at the surface point `p`, pointing out of the sphere.
    #[verifier::opaque]
    pub open spec fn outward_normal(self, p: Point3) -> Vec3 {
        p.minus(self.center).over(self.radius)
    }

    /// The record of the hit of `r` at parameter `t`.
    #[verifier::opaque]
    pub open spec fn record_at<'a>(&'a self, r: Ray, t: Fixed) -> HitRecord<'a> {
        HitRecord::facing(r, t, self.outward_normal(r.at_spec(t)), &*self.m)
    }

    /// The roots come in order.
    pub proof fn lemma_roots_ordered(self, r: Ray)
        requires
            self.discriminant(r)@ >= 0,
        ensures
            self.near_root(r)@ <= self.far_root(r)@,
    {
        reveal(Sphere::near_root);
        reveal(Sphere::far_root);
        let a = self.quadratic_a(r);
        let low = self.half_b(r).negated().minus(self.discriminant(r).sqrt_spec());
        let high = self.half_b(r).negated().plus(self.discriminant(r).sqrt_spec());
        lemma_sqrt_bounds(self.discriminant(r));
        lemma_length_squared_bounds(r.dir);
        lemma_over_ordered(low, high, a);
    }

    /// A ray that starts outside the sphere and whose direction is the way
    /// from the centre to its origin, divided by a positive scalar, does not
    /// come closer to the centre: the quadratic's `half_b` and `c` are not
    /// negative.  The unit vector of that way is such a direction.
    pub proof fn lemma_ray_aimed_away_recedes(self, r: Ray, scale: Fixed)
        requires
            self.radius@ >= 0,
            self.offset(r).length_spec()@ > self.radius@,
            scale@ > 0,
            r.dir == self.offset(r).over(scale),
        ensures
            self.half_b(r)@ >= 0,
            self.quadratic_c(r)@ >= 0,
    {
        let oc = self.offset(r);
        lemma_over_keeps_sign(oc.x, scale);
        lemma_over_keeps_sign(oc.y, scale);
        lemma_over_keeps_sign(oc.z, scale);
        lemma_times_same_sign(oc.x, r.dir.x);
        lemma_times_same_sign(oc.y, r.dir.y);
        lemma_times_same_sign(oc.z, r.dir.z);
        // the radius lies under the length, so its square under the squared length
        let length = oc.length_spec();
        let radius = self.radius;
        lemma_length_bounds(oc);
        lemma_length_squared_bounds(oc);
        lemma_product_sign(radius@, radius@);
        assert(0 <= radius@ * radius@ <= oc.squares_sum()) by (nonlinear_arith)
            requires
                0 <= radius@ < length@,
                length@ * length@ <= oc.squares_sum(),
        ;
        vstd::arithmetic::div_mod::lemma_div_is_ordered(
            radius@ * radius@,
            oc.squares_sum(),
            ONE_RAW as int,
        );
        vstd::arithmetic::div_mod::lemma_div_pos_is_pos(radius@ * radius@, ONE_RAW as int);
    }

    /// A ray that starts outside the sphere and is aimed away from its
    /// centre hits nothing ahead of its origin.
    pub proof fn lemma_ray_aimed_away_misses(
        self,
        r: Ray,
        scale: Fixed,
        t_min: Fixed,
        t_max: Fixed,
    )
        requires
            self.radius@ >= 0,
            self.offset(r).length_spec()@ > self.radius@,
            scale@ > 0,
            r.dir == self.offset(r).over(scale),
            t_min@ > 0,
        ensures
            self.accepted_root(r, t_min, t_max) is None,
    {
        self.lemma_ray_aimed_away_recedes(r, scale);
        self.lemma_receding_ray_misses(r, t_min, t_max);
    }

    /// A ray that starts outside the sphere, or on it, and does not come
    /// closer to its centre has no hit ahead of its origin.  Where `t_min`
    /// is zero, a root that is rounded to zero counts as a hit at the origin
    /// itself; no hit lies further on.
    pub proof fn lemma_receding_ray_misses(self, r: Ray, t_min: Fixed, t_max: Fixed)
        requires
            self.half_b(r)@ >= 0,
            self.quadratic_c(r)@ >= 0,
        ensures
            self.accepted_root(r, t_min, t_max) matches Some(t) ==> t@ <= 0,
            t_min@ > 0 ==> self.accepted_root(r, t_min, t_max) is None,
    {
        reveal(Sphere::discriminant);
        reveal(Sphere::near_root);
        reveal(Sphere::far_root);
        let a = self.quadratic_a(r);
        let half_b = self.half_b(r);
        let c = self.quadratic_c(r);
        let disc = self.discriminant(r);
        lemma_length_squared_bounds(r.dir);
        lemma_sqrt_bounds(disc);
        if disc@ >= 0 {
            lemma_product_sign(a@, c@);
            lemma_product_sign(half_b@, half_b@);
            let square = half_b.times(half_b);
            let root = disc.sqrt_spec();
            assert(a.times(c)@ >= 0);
            assert(disc@ <= square@);
            assert(square@ * ONE_RAW <= half_b@ * half_b@) by {
                vstd::arithmetic::div_mod::lemma_remainder_lower(
                    half_b@ * half_b@,
                    ONE_RAW as int,
                );
                vstd::arithmetic::div_mod::lemma_fundamental_div_mod(
                    half_b@ * half_b@,
                    ONE_RAW as int,
                );
                assert(ONE_RAW * (half_b@ * half_b@ / (ONE_RAW as int)) == (half_b@ * half_b@
                    / (ONE_RAW as int)) * ONE_RAW) by (nonlinear_arith);
            }
            if disc@ > 0 {
                lemma_raw_root_exists(disc@);
                assert(root@ <= half_b@) by (nonlinear_arith)
                    requires
                        0 <= root@,
                        0 <= half_b@,
                        root@ * root@ <= disc@ * ONE_RAW,
                        disc@ <= square@,
                        square@ * ONE_RAW <= half_b@ * half_b@,
                        ONE_RAW > 0,
                ;
            }
            let high = half_b.negated().plus(root);
            assert(high@ <= 0);
            lemma_over_ordered(high, Fixed::whole(0), a);
            assert(Fixed::whole(0).over(a)@ == 0) by {
                assert(0 * ONE_RAW == 0);
                if a@ > 0 {
                    vstd::arithmetic::div_mod::lemma_div_basics(a@);
                }
            }
            self.lemma_roots_ordered(r);
        }
    }

    /// Whether a hit is found does not depend on `t_max` as long as the hit
    /// lies under it: a hit found under a bound is found under every greater
    /// bound, and under every smaller one that is not less than its parameter.
    pub proof fn lemma_hit_stable(self, r: Ray, t_min: Fixed, t_max: Fixed, bound: Fixed)
        requires
            self.accepted_root(r, t_min, t_max) matches Some(t) && t@ <= bound@,
        ensures
            self.accepted_root(r, t_min, bound) == self.accepted_root(r, t_min, t_max),
    {
        self.lemma_roots_ordered(r);
    }
}

impl Hittable for Sphere {
    open spec fn hit_spec<'a>(&'a self, r: Ray, t_min: Fixed, t_max: Fixed) -> Option<
        HitRecord<'a>,
    > {
        match self.accepted_root(r, t_min, t_max) {
            Some(t) => Some(self.record_at(r, t)),
            None => None,
        }
    }

    fn hit<'a>(&'a self, r: &Ray, t_min: Fixed, t_max: Fixed) -> (res: Option<HitRecord<'a>>) {
        proof {
            reveal(Sphere::discriminant);
            reveal(Sphere::near_root);
            reveal(Sphere::far_root);
            reveal(Sphere::outward_normal);
            reveal(Sphere::record_at);
        }
        let oc = r.orig.sub(self.center);
        let a = r.dir.length_squared();
        let half_b = oc.dot(&r.dir);
        let c = oc.length_squared().sub(self.radius.mul(self.radius));

        let discriminant = half_b.mul(half_b).sub(a.mul(c));
        if discriminant.raw < 0 {
            return None;
        }
        let sqrtd = discriminant.sqrt();

        // The nearest root in the accepted interval.
        let mut root = half_b.neg().sub(sqrtd).div(a);
        if (root.raw < t_min.raw) || (t_max.raw < root.raw) {
            root = half_b.neg().add(sqrtd).div(a);
            if (root.raw < t_min.raw) || (t_max.raw < root.raw) {
                return None;
            }
        }
        let point = r.at(root);
        let mut record = HitRecord {
            t: root,
            p: point,
            normal: Vec3::zeroes(),
            front_face: false,
            mat: &*self.m,
        };
        let outward_normal = point.sub(self.center).div(self.radius);
        record.set_face_normal(r, outward_normal);

        Some(record)
    }
}

} // verus!
