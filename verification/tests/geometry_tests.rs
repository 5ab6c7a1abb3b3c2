use pathtracer::config::ConfigError;
use pathtracer::fixed::Fixed;
use pathtracer::hittable::HitRecord;
use pathtracer::hittable::Hittable;
use pathtracer::hittable::HittableList;
use pathtracer::material::Lambertian;
use pathtracer::material::Metal;
use pathtracer::material::Surface;
use pathtracer::ray::Ray;
use pathtracer::sphere::Sphere;
use pathtracer::vec3::Vec3;
use std::sync::Arc;

fn fx(v: f64) -> Fixed {
    Fixed::from_raw((v * 4294967296.0).round() as i64)
}

fn fl(a: Fixed) -> f64 {
    a.raw as f64 / 4294967296.0
}

fn v3(x: f64, y: f64, z: f64) -> Vec3 {
    Vec3::new(fx(x), fx(y), fx(z))
}

fn grey() -> Surface {
    Surface::Lambertian(Lambertian { albedo: v3(0.5, 0.5, 0.5) })
}

fn ball(x: f64, y: f64, z: f64, radius: f64, m: Surface) -> Sphere {
    Sphere { center: v3(x, y, z), radius: fx(radius), m: Arc::new(m) }
}

fn close(a: Fixed, b: f64) -> bool {
    (fl(a) - b).abs() < 1e-6
}

#[test]
fn a_ray_at_the_centre_hits_the_front_at_distance_less_radius() {
    let sphere = ball(0.0, 0.0, -1.0, 0.5, grey());
    let r = Ray { orig: v3(0.0, 0.0, 0.0), dir: v3(0.0, 0.0, -1.0) };
    let hit = sphere.hit(&r, fx(0.001), Fixed::max_value()).unwrap();
    assert!(hit.front_face);
    assert_eq!(hit.t, fx(0.5));
    assert_eq!(hit.p, v3(0.0, 0.0, -0.5));
    assert_eq!(hit.normal, v3(0.0, 0.0, 1.0));
    assert_eq!(*hit.mat, grey());
}

#[test]
fn a_ray_at_the_centre_from_afar_hits_at_distance_less_radius() {
    let sphere = ball(3.0, 4.0, 12.0, 2.0, grey());
    // the centre lies 13 away; the direction need not have unit length
    let r = Ray { orig: v3(0.0, 0.0, 0.0), dir: v3(3.0, 4.0, 12.0) };
    let hit = sphere.hit(&r, fx(0.001), Fixed::max_value()).unwrap();
    assert!(hit.front_face);
    // in units of the direction's length
    assert!(close(hit.t, (13.0 - 2.0) / 13.0));
    assert_eq!(hit.t.raw(), 3634203096);
    let unit = Ray { orig: v3(0.0, 0.0, 0.0), dir: v3(3.0, 4.0, 12.0).unit_vector() };
    let hit = sphere.hit(&unit, fx(0.001), Fixed::max_value()).unwrap();
    assert!(hit.front_face);
    assert!(close(hit.t, 11.0));
    assert_eq!(hit.t.raw(), 47244640234);
}

#[test]
fn a_ray_aimed_away_hits_nothing() {
    let sphere = ball(0.0, 0.0, -1.0, 0.5, grey());
    let r = Ray { orig: v3(0.0, 0.0, 0.0), dir: v3(0.0, 0.0, 1.0) };
    assert!(sphere.hit(&r, fx(0.001), Fixed::max_value()).is_none());
}

#[test]
fn a_ray_aimed_away_from_any_side_hits_nothing() {
    let sphere = ball(0.3, -0.2, -3.0, 1.25, grey());
    let origins = [v3(0.0, 0.0, 0.0), v3(5.0, 1.0, -3.0), v3(0.3, 1.1, -3.0), v3(-7.0, -9.0, 4.0)];
    for o in origins {
        let away = o.sub(sphere.center).unit_vector();
        let r = Ray { orig: o, dir: away };
        assert!(sphere.hit(&r, fx(0.001), Fixed::max_value()).is_none());
        assert!(sphere.hit(&r, Fixed::from_raw(1), Fixed::max_value()).is_none());
        let slow = Ray { orig: o, dir: o.sub(sphere.center).div(fx(40.0)) };
        assert!(sphere.hit(&slow, fx(0.001), Fixed::max_value()).is_none());
    }
}

#[test]
fn a_ray_past_the_sphere_hits_nothing() {
    let sphere = ball(0.0, 0.0, -1.0, 0.5, grey());
    let r = Ray { orig: v3(0.0, 0.0, 0.0), dir: v3(0.0, 1.0, -1.0) };
    assert!(sphere.hit(&r, fx(0.001), Fixed::max_value()).is_none());
}

#[test]
fn a_ray_from_inside_hits_the_back() {
    let sphere = ball(0.0, 0.0, 0.0, 2.0, grey());
    let r = Ray { orig: v3(0.0, 0.0, 0.0), dir: v3(1.0, 0.0, 0.0) };
    let hit = sphere.hit(&r, fx(0.001), Fixed::max_value()).unwrap();
    assert!(!hit.front_face);
    assert_eq!(hit.t, fx(2.0));
    assert_eq!(hit.p, v3(2.0, 0.0, 0.0));
    // the outward normal (1, 0, 0) is stored negated
    assert_eq!(hit.normal, v3(-1.0, 0.0, 0.0));
    assert!(r.dir.dot(&hit.normal).raw() <= 0);
}

#[test]
fn the_roots_are_tried_in_order_and_held_to_the_interval() {
    let sphere = ball(0.0, 0.0, -5.0, 1.0, grey());
    let r = Ray { orig: v3(0.0, 0.0, 0.0), dir: v3(0.0, 0.0, -1.0) };
    // both roots in the interval: the near one
    assert_eq!(sphere.hit(&r, fx(0.0), fx(10.0)).unwrap().t, fx(4.0));
    // the ends of the interval belong to it
    assert_eq!(sphere.hit(&r, fx(4.0), fx(10.0)).unwrap().t, fx(4.0));
    assert_eq!(sphere.hit(&r, fx(0.0), fx(4.0)).unwrap().t, fx(4.0));
    // near root under the interval: the far one, seen from inside
    let far = sphere.hit(&r, fx(4.5), fx(10.0)).unwrap();
    assert_eq!(far.t, fx(6.0));
    assert!(!far.front_face);
    assert_eq!(far.normal, v3(0.0, 0.0, 1.0));
    assert_eq!(sphere.hit(&r, fx(4.5), fx(6.0)).unwrap().t, fx(6.0));
    // neither root in the interval
    assert!(sphere.hit(&r, fx(0.0), fx(3.5)).is_none());
    assert!(sphere.hit(&r, fx(4.5), fx(5.5)).is_none());
    assert!(sphere.hit(&r, fx(6.5), fx(10.0)).is_none());
}

#[test]
fn the_stored_normal_never_points_along_the_ray() {
    let sphere = ball(0.3, -0.2, -3.0, 1.25, grey());
    let origins = [v3(0.0, 0.0, 0.0), v3(0.3, -0.2, -3.0), v3(0.5, 0.5, -2.5), v3(5.0, 1.0, -3.0)];
    let dirs = [
        v3(0.0, 0.0, -1.0),
        v3(0.1, 0.05, -1.0),
        v3(-1.0, 0.0, 0.0),
        v3(0.3, 0.2, 0.9),
        v3(-0.2, 0.1, -0.7),
        v3(1.0, 1.0, 1.0),
    ];
    let mut hits = 0;
    for o in origins {
        for d in dirs {
            let r = Ray { orig: o, dir: d };
            if let Some(hit) = sphere.hit(&r, fx(0.001), Fixed::max_value()) {
                hits += 1;
                assert!(r.dir.dot(&hit.normal).raw() <= 0);
                let outward = hit.p.sub(sphere.center).div(sphere.radius);
                assert_eq!(hit.front_face, r.dir.dot(&outward).raw() < 0);
                if hit.front_face {
                    assert_eq!(hit.normal, outward);
                } else {
                    assert_eq!(hit.normal, outward.neg());
                }
                assert_eq!(hit.p, r.at(hit.t));
            }
        }
    }
    assert!(hits >= 4);
}

#[test]
fn set_face_normal_turns_the_normal_against_the_ray() {
    let m = grey();
    let mut rec = HitRecord {
        p: v3(1.0, 2.0, 3.0),
        normal: Vec3::zeroes(),
        t: fx(7.0),
        front_face: false,
        mat: &m,
    };
    let r = Ray { orig: v3(0.0, 0.0, 0.0), dir: v3(0.0, -1.0, 0.0) };
    rec.set_face_normal(&r, v3(0.0, 1.0, 0.0));
    assert!(rec.front_face);
    assert_eq!(rec.normal, v3(0.0, 1.0, 0.0));
    rec.set_face_normal(&r, v3(0.0, -1.0, 0.0));
    assert!(!rec.front_face);
    assert_eq!(rec.normal, v3(0.0, 1.0, 0.0));
    assert_eq!(rec.p, v3(1.0, 2.0, 3.0));
    assert_eq!(rec.t, fx(7.0));
}

#[test]
fn a_grazing_ray_counts_as_coming_from_inside() {
    let m = grey();
    let mut rec = HitRecord {
        p: Vec3::zeroes(),
        normal: Vec3::zeroes(),
        t: fx(1.0),
        front_face: true,
        mat: &m,
    };
    let r = Ray { orig: v3(0.0, 0.0, 0.0), dir: v3(1.0, 0.0, 0.0) };
    rec.set_face_normal(&r, v3(0.0, 1.0, 0.0));
    assert!(!rec.front_face);
    assert_eq!(rec.normal, v3(0.0, -1.0, 0.0));
    assert_eq!(r.dir.dot(&rec.normal).raw(), 0);
}

#[test]
fn an_empty_list_has_no_hit() {
    let world = HittableList { objects: Vec::new() };
    let r = Ray { orig: v3(0.0, 0.0, 0.0), dir: v3(0.0, 0.0, -1.0) };
    assert!(world.hit(&r, fx(0.001), Fixed::max_value()).is_none());
}

#[test]
fn the_list_reports_the_nearest_hit_in_any_order() {
    let red = Surface::Lambertian(Lambertian { albedo: v3(1.0, 0.0, 0.0) });
    let blue = Surface::Metal(Metal { albedo: v3(0.0, 0.0, 1.0), fuzz: fx(0.0) });
    let r = Ray { orig: v3(0.0, 0.0, 0.0), dir: v3(0.0, 0.0, -1.0) };
    let near_first = HittableList {
        objects: vec![ball(0.0, 0.0, -2.0, 0.5, red), ball(0.0, 0.0, -5.0, 1.0, blue)],
    };
    let far_first = HittableList {
        objects: vec![ball(0.0, 0.0, -5.0, 1.0, blue), ball(0.0, 0.0, -2.0, 0.5, red)],
    };
    let a = near_first.hit(&r, fx(0.001), Fixed::max_value()).unwrap();
    let b = far_first.hit(&r, fx(0.001), Fixed::max_value()).unwrap();
    assert_eq!(a.t, fx(1.5));
    assert_eq!(b.t, fx(1.5));
    assert_eq!(*a.mat, red);
    assert_eq!(*b.mat, red);
    assert_eq!(a.p, b.p);
    assert_eq!(a.normal, b.normal);
    assert_eq!(a.front_face, b.front_face);
}

#[test]
fn the_list_holds_hits_to_the_interval() {
    let world = HittableList {
        objects: vec![ball(0.0, 0.0, -2.0, 0.5, grey()), ball(0.0, 0.0, -5.0, 1.0, grey())],
    };
    let r = Ray { orig: v3(0.0, 0.0, 0.0), dir: v3(0.0, 0.0, -1.0) };
    // the near sphere lies under the interval: the far sphere is hit
    assert_eq!(world.hit(&r, fx(3.0), fx(10.0)).unwrap().t, fx(4.0));
    assert!(world.hit(&r, fx(7.0), fx(10.0)).is_none());
    assert!(world.hit(&r, fx(0.0), fx(1.0)).is_none());
}

#[test]
fn of_two_hits_at_one_distance_the_later_object_wins() {
    let red = Surface::Lambertian(Lambertian { albedo: v3(1.0, 0.0, 0.0) });
    let blue = Surface::Lambertian(Lambertian { albedo: v3(0.0, 0.0, 1.0) });
    let r = Ray { orig: v3(0.0, 0.0, 0.0), dir: v3(0.0, 0.0, -1.0) };
    let world = HittableList {
        objects: vec![ball(0.0, 0.0, -2.0, 0.5, red), ball(0.0, 0.0, -2.0, 0.5, blue)],
    };
    let hit = world.hit(&r, fx(0.001), Fixed::max_value()).unwrap();
    assert_eq!(hit.t, fx(1.5));
    assert_eq!(*hit.mat, blue);
}

#[test]
fn one_material_can_serve_many_spheres() {
    let shared = Arc::new(grey());
    let world = HittableList {
        objects: vec![
            Sphere { center: v3(0.0, 0.0, -2.0), radius: fx(0.5), m: shared.clone() },
            Sphere { center: v3(3.0, 0.0, -2.0), radius: fx(0.5), m: shared.clone() },
        ],
    };
    let r = Ray { orig: v3(3.0, 0.0, 0.0), dir: v3(0.0, 0.0, -1.0) };
    let hit = world.hit(&r, fx(0.001), Fixed::max_value()).unwrap();
    assert_eq!(*hit.mat, grey());
    assert_eq!(Arc::strong_count(&shared), 3);
}

#[test]
fn a_sphere_with_a_negative_radius_is_refused() {
    let m = Arc::new(grey());
    assert_eq!(
        Sphere::new(v3(0.0, 0.0, 0.0), fx(-0.5), m.clone()).err(),
        Some(ConfigError::NegativeRadius)
    );
    let ok = Sphere::new(v3(1.0, 2.0, 3.0), fx(0.5), m.clone()).ok().unwrap();
    assert_eq!(ok.center, v3(1.0, 2.0, 3.0));
    assert_eq!(ok.radius, fx(0.5));
    assert_eq!(*ok.m, grey());
    assert!(Sphere::new(v3(0.0, 0.0, 0.0), fx(0.0), m).is_ok());
}

#[test]
fn a_ray_of_no_direction_hits_nothing_ahead() {
    let sphere = ball(0.0, 0.0, -1.0, 0.5, grey());
    let r = Ray { orig: v3(0.0, 0.0, 0.0), dir: v3(0.0, 0.0, 0.0) };
    assert!(sphere.hit(&r, fx(0.001), fx(1000.0)).is_none());
}
