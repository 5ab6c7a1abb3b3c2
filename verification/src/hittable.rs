//! What a ray can hit: the record of a hit, the contract of an intersection
//! test, and a list of spheres searched for the nearest hit.
use crate::fixed::Fixed;
use crate::material::Material;
use crate::material::Surface;
use crate::ray::Ray;
use crate::sphere::Sphere;
use crate::vec3::lemma_dot_negated;
use crate::vec3::Point3;
use crate::vec3::Vec3;
use vstd::prelude::*;

verus! {

/// One intersection of a ray with a surface.  `normal` points against the
/// ray; `front_face` says whether that is the surface's outward side.
#[derive(Clone, Copy, Debug)]
pub struct HitRecord<'a> {
    pub p: Point3,
    pub normal: Vec3,
    pub t: Fixed,
    pub front_face: bool,
    pub mat: &'a Surface,
}

/// `t` lies in the closed interval from `t_min` to `t_max`.
pub open spec fn within(t: Fixed, t_min: Fixed, t_max: Fixed) -> bool {
    t_min@ <= t@ <= t_max@
}

impl<'a> HitRecord<'a> {
    /// Whether a ray along `dir` meets the side that `outward_normal` points
    /// out of.
    pub open spec fn faces_front(dir: Vec3, outward_normal: Vec3) -> bool {
        dir.dot_spec(outward_normal)@ < 0
    }

    /// Of `outward_normal` and its negation, the one that points against `dir`.
    pub open spec fn facing_normal(dir: Vec3, outward_normal: Vec3) -> Vec3 {
        if Self::faces_front(dir, outward_normal) {
            outward_normal
        } else {
            outward_normal.negated()
        }
    }

    /// The record of the hit of `r` at parameter `t`, on a surface of
    /// material `mat` whose outward normal there is `outward_normal`.
    pub open spec fn facing(r: Ray, t: Fixed, outward_normal: Vec3, mat: &'a Surface) -> HitRecord<
        'a,
    > {
        HitRecord {
            p: r.at_spec(t),
            normal: Self::facing_normal(r.dir, outward_normal),
            t,
            front_face: Self::faces_front(r.dir, outward_normal),
            mat,
        }
    }

    /// Orients the record against the ray `r`: the stored normal is
    /// `outward_normal` where the ray comes from outside, its negation where
    /// it comes from inside.
    pub fn set_face_normal(&mut self, r: &Ray, outward_normal: Vec3)
        ensures
            final(self).front_face == Self::faces_front(r.dir, outward_normal),
            final(self).normal == Self::facing_normal(r.dir, outward_normal),
            final(self).p == old(self).p,
            final(self).t == old(self).t,
            final(self).mat == old(self).mat,
            outward_normal.in_range() ==> r.dir.dot_spec(final(self).normal)@ <= 0,
    {
        self.front_face = r.dir.dot(&outward_normal).raw < 0;
        if self.front_face {
            self.normal = outward_normal;
        } else {
            self.normal = outward_normal.neg();
            proof {
                if outward_normal.in_range() {
                    lemma_dot_negated(r.dir, outward_normal);
                }
            }
        }
    }
}

/// The stored normal never points along the ray, and the hit is on the
/// front exactly where the outward normal itself points against the ray.
/// A ray that grazes the surface, its direction at a right angle to the
/// normal, is left out: it counts as coming from inside although the
/// outward normal does not point along it.
pub proof fn lemma_normal_faces_ray(dir: Vec3, outward_normal: Vec3)
    requires
        outward_normal.in_range(),
        dir.dot_spec(outward_normal)@ != 0,
    ensures
        dir.dot_spec(HitRecord::facing_normal(dir, outward_normal))@ <= 0,
        HitRecord::faces_front(dir, outward_normal) <==> dir.dot_spec(outward_normal)@ <= 0,
{
    lemma_dot_negated(dir, outward_normal);
}

/// The contract of an intersection test.
pub trait Hittable {
    /// The hit of `r` with parameter between `t_min` and `t_max` that `hit`
    /// reports, if it reports one.
    spec fn hit_spec<'a>(&'a self, r: Ray, t_min: Fixed, t_max: Fixed) -> Option<HitRecord<'a>>;

    /// Looks for a hit of `r` whose parameter lies between `t_min` and
    /// `t_max`.  A reported hit lies in that interval and on the ray, and its
    /// normal points against the ray.
    fn hit<'a>(&'a self, r: &Ray, t_min: Fixed, t_max: Fixed) -> (res: Option<HitRecord<'a>>)
        ensures
            res == self.hit_spec(*r, t_min, t_max),
            res matches Some(rec) ==> within(rec.t, t_min, t_max) && rec.p == r.at_spec(rec.t)
                && r.dir.dot_spec(rec.normal)@ <= 0,
    ;
}

/// The scene: spheres in a fixed order, searched for the nearest hit.  The
/// order decides nothing but which of two hits at one distance is reported.
#[derive(Debug)]
pub struct HittableList {
    pub objects: Vec<Sphere>,
}

impl HittableList {
    /// No material of the scene gives a colour back stronger than it came in.
    pub open spec fn conserves_energy(&self) -> bool {
        forall|i: int|
            0 <= i < self.objects@.len() ==> (#[trigger] self.objects@[i]).m.conserves_energy()
    }

    /// Every material of the scene filters all three channels alike.
    pub open spec fn all_grey(&self) -> bool {
        forall|i: int| 0 <= i < self.objects@.len() ==> (#[trigger] self.objects@[i]).m.is_grey()
    }

    /// The bound under which the next object is tested: the parameter of the
    /// nearest hit so far, or `t_max` before any hit.
    pub open spec fn bound_after(found: Option<HitRecord>, t_max: Fixed) -> Fixed {
        match found {
            Some(rec) => rec.t,
            None => t_max,
        }
    }

    /// The hit that the search reports after it has tested `objects` in
    /// order, each against the bound that the ones before it left.
    #[verifier::opaque]
    pub open spec fn hit_among<'a>(
        objects: Seq<Sphere>,
        r: Ray,
        t_min: Fixed,
        t_max: Fixed,
    ) -> Option<HitRecord<'a>>
        decreases objects.len(),
    {
        if objects.len() == 0 {
            None
        } else {
            let before = Self::hit_among(objects.drop_last(), r, t_min, t_max);
            match objects.last().hit_spec(r, t_min, Self::bound_after(before, t_max)) {
                Some(rec) => Some(rec),
                None => before,
            }
        }
    }

    /// A reported hit lies between `t_min` and `t_max`.
    pub proof fn lemma_hit_among_within(objects: Seq<Sphere>, r: Ray, t_min: Fixed, t_max: Fixed)
        ensures
            Self::hit_among(objects, r, t_min, t_max) matches Some(rec) ==> within(
                rec.t,
                t_min,
                t_max,
            ),
        decreases objects.len(),
    {
        reveal_with_fuel(HittableList::hit_among, 2);
        reveal(Sphere::record_at);
        if objects.len() > 0 {
            Self::lemma_hit_among_within(objects.drop_last(), r, t_min, t_max);
        }
    }

    /// The reported hit is the nearest: no object has a hit between `t_min`
    /// and `t_max` that lies nearer than it, and none has one where no hit is
    /// reported.
    #[verifier::rlimit(40)]
    pub proof fn lemma_hit_among_nearest(
        objects: Seq<Sphere>,
        r: Ray,
        t_min: Fixed,
        t_max: Fixed,
        i: int,
    )
        requires
            0 <= i < objects.len(),
            objects[i].hit_spec(r, t_min, t_max) is Some,
        ensures
            Self::hit_among(objects, r, t_min, t_max) matches Some(rec) && rec.t@
                <= objects[i].hit_spec(r, t_min, t_max)->0.t@,
        decreases objects.len(),
    {
        reveal_with_fuel(HittableList::hit_among, 2);
        reveal(Sphere::record_at);
        let rest = objects.drop_last();
        let before = Self::hit_among(rest, r, t_min, t_max);
        let bound = Self::bound_after(before, t_max);
        let last = objects.last();
        Self::lemma_hit_among_within(rest, r, t_min, t_max);
        if i < objects.len() - 1 {
            Self::lemma_hit_among_nearest(rest, r, t_min, t_max, i);
        } else {
            let t = last.accepted_root(r, t_min, t_max)->0;
            if t@ <= bound@ {
                last.lemma_hit_stable(r, t_min, t_max, bound);
            }
        }
    }

    /// The reported hit is the one that some object has between `t_min` and
    /// `t_max`.
    pub proof fn lemma_hit_among_is_of_an_object(
        objects: Seq<Sphere>,
        r: Ray,
        t_min: Fixed,
        t_max: Fixed,
    ) -> (i: int)
        requires
            Self::hit_among(objects, r, t_min, t_max) is Some,
        ensures
            0 <= i < objects.len(),
            objects[i].hit_spec(r, t_min, t_max) == Self::hit_among(objects, r, t_min, t_max),
        decreases objects.len(),
    {
        reveal_with_fuel(HittableList::hit_among, 2);
        reveal(Sphere::record_at);
        let rest = objects.drop_last();
        let before = Self::hit_among(rest, r, t_min, t_max);
        let bound = Self::bound_after(before, t_max);
        let last = objects.last();
        Self::lemma_hit_among_within(rest, r, t_min, t_max);
        if last.hit_spec(r, t_min, bound) is Some {
            last.lemma_hit_stable(r, t_min, bound, t_max);
            objects.len() - 1
        } else {
            Self::lemma_hit_among_is_of_an_object(rest, r, t_min, t_max)
        }
    }

    /// The order of the objects does not matter to the distance of the hit:
    /// two lists of the same spheres report a hit for the same rays, and at
    /// the same parameter.
    pub proof fn lemma_hit_among_any_order(
        first: Seq<Sphere>,
        second: Seq<Sphere>,
        r: Ray,
        t_min: Fixed,
        t_max: Fixed,
    )
        requires
            forall|i: int| 0 <= i < first.len() ==> second.contains(#[trigger] first[i]),
            forall|i: int| 0 <= i < second.len() ==> first.contains(#[trigger] second[i]),
        ensures
            Self::hit_among(first, r, t_min, t_max) is Some <==> Self::hit_among(
                second,
                r,
                t_min,
                t_max,
            ) is Some,
            Self::hit_among(first, r, t_min, t_max) is Some ==> Self::hit_among(
                first,
                r,
                t_min,
                t_max,
            )->0.t == Self::hit_among(second, r, t_min, t_max)->0.t,
    {
        Self::lemma_hit_among_follows(first, second, r, t_min, t_max);
        Self::lemma_hit_among_follows(second, first, r, t_min, t_max);
    }

    /// Where every sphere of `first` is one of `second`, a hit among `first`
    /// has one among `second` that is no further.
    proof fn lemma_hit_among_follows(
        first: Seq<Sphere>,
        second: Seq<Sphere>,
        r: Ray,
        t_min: Fixed,
        t_max: Fixed,
    )
        requires
            forall|i: int| 0 <= i < first.len() ==> second.contains(#[trigger] first[i]),
        ensures
            Self::hit_among(first, r, t_min, t_max) matches Some(rec) ==> Self::hit_among(
                second,
                r,
                t_min,
                t_max,
            ) is Some && Self::hit_among(second, r, t_min, t_max)->0.t@ <= rec.t@,
    {
        if Self::hit_among(first, r, t_min, t_max) is Some {
            let i = Self::lemma_hit_among_is_of_an_object(first, r, t_min, t_max);
            assert(second.contains(first[i]));
            let j = choose|j: int| 0 <= j < second.len() && second[j] == first[i];
            Self::lemma_hit_among_nearest(second, r, t_min, t_max, j);
        }
    }
}

impl Hittable for HittableList {
    open spec fn hit_spec<'a>(&'a self, r: Ray, t_min: Fixed, t_max: Fixed) -> Option<
        HitRecord<'a>,
    > {
        Self::hit_among(self.objects@, r, t_min, t_max)
    }

    /// The nearest hit of `r` with any object of the list.  Each object is
    /// tested under the parameter of the nearest hit found before it.
    fn hit<'a>(&'a self, r: &Ray, t_min: Fixed, t_max: Fixed) -> (res: Option<HitRecord<'a>>)
        ensures
            forall|i: int|
                0 <= i < self.objects@.len() && (#[trigger] self.objects@[i].hit_spec(
                    *r,
                    t_min,
                    t_max,
                )) is Some ==> res is Some && res->0.t@ <= self.objects@[i].hit_spec(
                    *r,
                    t_min,
                    t_max,
                )->0.t@,
            res is Some ==> exists|i: int|
                0 <= i < self.objects@.len() && res == #[trigger] self.objects@[i].hit_spec(
                    *r,
                    t_min,
                    t_max,
                ),
    {
        let mut hit_option: Option<HitRecord<'a>> = None;
        let mut closest_so_far: Fixed = t_max;
        let mut i: usize = 0;
        proof {
            reveal_with_fuel(HittableList::hit_among, 2);
        reveal(Sphere::record_at);
        }
        while i < self.objects.len()
            invariant
                i <= self.objects.len(),
                hit_option == Self::hit_among(self.objects@.take(i as int), *r, t_min, t_max),
                closest_so_far == Self::bound_after(hit_option, t_max),
                closest_so_far@ <= t_max@,
                hit_option matches Some(rec) ==> within(rec.t, t_min, t_max) && rec.p
                    == r.at_spec(rec.t) && r.dir.dot_spec(rec.normal)@ <= 0,
            decreases self.objects.len() - i,
        {
            proof {
                reveal_with_fuel(HittableList::hit_among, 2);
        reveal(Sphere::record_at);
                let next = self.objects@.take(i + 1);
                assert(next.drop_last() == self.objects@.take(i as int));
                assert(next.last() == self.objects@[i as int]);
            }
            if let Some(hit) = self.objects[i].hit(r, t_min, closest_so_far) {
                closest_so_far = hit.t;
                hit_option = Some(hit);
            }
            i += 1;
        }
        proof {
            assert(self.objects@.take(self.objects.len() as int) == self.objects@);
            assert forall|i: int|
                0 <= i < self.objects@.len() && (#[trigger] self.objects@[i].hit_spec(
                    *r,
                    t_min,
                    t_max,
                )) is Some implies hit_option is Some && hit_option->0.t@
                <= self.objects@[i].hit_spec(*r, t_min, t_max)->0.t@ by {
                Self::lemma_hit_among_nearest(self.objects@, *r, t_min, t_max, i);
            }
            if hit_option is Some {
                let i = Self::lemma_hit_among_is_of_an_object(self.objects@, *r, t_min, t_max);
                assert(hit_option == self.objects@[i].hit_spec(*r, t_min, t_max));
            }
        }
        hit_option
    }
}

} // verus!
