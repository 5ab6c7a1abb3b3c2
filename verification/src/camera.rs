//! The camera: a thin lens that turns a position on the image into a ray.
use crate::fixed::Fixed;
use crate::fixed::MAX_RAW;
use crate::ray::Ray;
use crate::utils::inside_unit_sphere;
use crate::utils::random_in_unit_disk;
use crate::vec3::lemma_scaled_by_zero;
use crate::vec3::Point3;
use crate::vec3::MIN_LENGTH_RAW;
use crate::vec3::Vec3;
use vstd::prelude::*;

verus! {

/// A camera, set up once and then only read.
///
/// `w` points from the target back to the eye, `u` to the right and `v` up;
/// `lower_left_corner`, `horizontal` and `vertical` span the part of the
/// plane of focus that the image shows.
#[derive(Clone, Copy, Debug, PartialEq, Eq, Structural)]
pub struct Camera {
    pub origin: Point3,
    pub lower_left_corner: Point3,
    pub horizontal: Vec3,
    pub vertical: Vec3,
    pub w: Vec3,
    pub u: Vec3,
    pub v: Vec3,
    pub lens_radius: Fixed,
}

impl Camera {
    /// The camera's backward axis: the unit vector from `lookat` to `lookfrom`.
    pub open spec fn backward(lookfrom: Point3, lookat: Point3) -> Vec3 {
        lookfrom.minus(lookat).unit_spec()
    }

    /// The camera's axis to the right.
    pub open spec fn rightward(lookfrom: Point3, lookat: Point3, vup: Vec3) -> Vec3 {
        vup.cross_spec(Self::backward(lookfrom, lookat)).unit_spec()
    }

    /// The camera's upward axis.
    pub open spec fn upward(lookfrom: Point3, lookat: Point3, vup: Vec3) -> Vec3 {
        Self::backward(lookfrom, lookat).cross_spec(Self::rightward(lookfrom, lookat, vup))
    }

    /// The height of the viewport at distance one: twice the tangent of half
    /// the vertical field of view.
    pub open spec fn viewport_height(half_height: Fixed) -> Fixed {
        Fixed::whole(2).times(half_height)
    }

    /// The width of the viewport at distance one.
    pub open spec fn viewport_width(half_height: Fixed, aspect_ratio: Fixed) -> Fixed {
        aspect_ratio.times(Self::viewport_height(half_height))
    }

    /// The camera that `new` sets up.
    pub open spec fn new_spec(
        lookfrom: Point3,
        lookat: Point3,
        vup: Vec3,
        half_height: Fixed,
        aspect_ratio: Fixed,
        aperture: Fixed,
        focus_dist: Fixed,
    ) -> Camera {
        let w = Self::backward(lookfrom, lookat);
        let u = Self::rightward(lookfrom, lookat, vup);
        let v = Self::upward(lookfrom, lookat, vup);
        let horizontal = u.scaled(Self::viewport_width(half_height, aspect_ratio)).scaled(
            focus_dist,
        );
        let vertical = v.scaled(Self::viewport_height(half_height)).scaled(focus_dist);
        Camera {
            origin: lookfrom,
            lower_left_corner: lookfrom.minus(horizontal.over(Fixed::whole(2))).minus(
                vertical.over(Fixed::whole(2)),
            ).minus(w.scaled(focus_dist)),
            horizontal,
            vertical,
            w,
            u,
            v,
            lens_radius: aperture.over(Fixed::whole(2)),
        }
    }

    /// Sets up the camera at `lookfrom`, looking at `lookat`, with `vup`
    /// pointing up.  `half_height` is the tangent of half the vertical field
    /// of view, `aspect_ratio` the image's width over its height, `aperture`
    /// the diameter of the lens, and `focus_dist` the distance of the plane
    /// that is in focus.
    ///
    /// The axes `w` and `u` have no part beyond one.  They have unit length
    /// within rounding where the eye lies at least `MIN_LENGTH_RAW` from the
    /// target, and `vup` does not run so close to the line of sight that
    /// its cross product with `w` is shorter than that; closer than that,
    /// the vectors have too few bits to give a direction of unit length.
    pub fn new(
        lookfrom: Point3,
        lookat: Point3,
        vup: Vec3,
        half_height: Fixed,
        aspect_ratio: Fixed,
        aperture: Fixed,
        focus_dist: Fixed,
    ) -> (cam: Camera)
        ensures
            cam == Self::new_spec(
                lookfrom,
                lookat,
                vup,
                half_height,
                aspect_ratio,
                aperture,
                focus_dist,
            ),
            cam.w.in_unit_box(),
            cam.u.in_unit_box(),
            MIN_LENGTH_RAW <= lookfrom.minus(lookat).length_spec()@ < MAX_RAW ==> cam.w.is_unit(),
            MIN_LENGTH_RAW <= vup.cross_spec(cam.w).length_spec()@ < MAX_RAW ==> cam.u.is_unit(),
    {
        let two = Fixed::from_int(2);
        let viewport_height = two.mul(half_height);
        let viewport_width = aspect_ratio.mul(viewport_height);

        let w = lookfrom.sub(lookat).unit_vector();
        let u = vup.cross(&w).unit_vector();
        let v = w.cross(&u);

        let origin = lookfrom;
        let horizontal = u.scale(viewport_width).scale(focus_dist);
        let vertical = v.scale(viewport_height).scale(focus_dist);
        let lower_left_corner = origin.sub(horizontal.div(two)).sub(vertical.div(two)).sub(
            w.scale(focus_dist),
        );

        Camera {
            origin,
            horizontal,
            vertical,
            lower_left_corner,
            w,
            u,
            v,
            lens_radius: aperture.div(two),
        }
    }

    /// Where on the lens a ray starts, seen from the lens's centre, for the
    /// point `sample` of the unit disk.
    pub open spec fn lens_offset(self, sample: Vec3) -> Vec3 {
        self.u.scaled(sample.scaled(self.lens_radius).x).plus(
            self.v.scaled(sample.scaled(self.lens_radius).y),
        )
    }

    /// The ray from the point of the lens that `sample` gives to the point of
    /// the plane of focus at `s` of its width and `t` of its height.
    pub open spec fn ray_spec(self, s: Fixed, t: Fixed, sample: Vec3) -> Ray {
        Ray {
            orig: self.origin.plus(self.lens_offset(sample)),
            dir: self.lower_left_corner.plus(self.horizontal.scaled(s)).plus(
                self.vertical.scaled(t),
            ).minus(self.origin).minus(self.lens_offset(sample)),
        }
    }

    /// The ray for the image position `(s, t)`, both in `[0, 1]`, that starts
    /// at the point of the lens given by `sample`, a point of the unit disk.
    pub fn get_ray_with(&self, s: Fixed, t: Fixed, sample: &Vec3) -> (ray: Ray)
        ensures
            ray == self.ray_spec(s, t, *sample),
    {
        let rd = sample.scale(self.lens_radius);
        let offset = self.u.scale(rd.x).add(self.v.scale(rd.y));

        Ray {
            orig: self.origin.add(offset),
            dir: self.lower_left_corner.add(self.horizontal.scale(s)).add(
                self.vertical.scale(t),
            ).sub(self.origin).sub(offset),
        }
    }

    /// The ray for the image position `(s, t)`, both in `[0, 1]`, from a
    /// point of the lens drawn at random.  A lens of radius zero has one
    /// point only, and the ray does not depend on the draw.
    pub fn get_ray(&self, s: Fixed, t: Fixed) -> (ray: Ray)
        ensures
            exists|sample: Vec3|
                inside_unit_sphere(sample) && sample.z@ == 0 && ray == #[trigger] self.ray_spec(
                    s,
                    t,
                    sample,
                ),
            self.lens_radius@ == 0 ==> ray == self.ray_spec(s, t, Vec3::zeroes_spec()),
    {
        let sample = random_in_unit_disk();
        proof {
            lemma_scaled_by_zero(sample);
            lemma_scaled_by_zero(Vec3::zeroes_spec());
        }
        self.get_ray_with(s, t, &sample)
    }
}

} // verus!
