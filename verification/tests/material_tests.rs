use pathtracer::config::ConfigError;
use pathtracer::fixed::Fixed;
use pathtracer::hittable::HitRecord;
use pathtracer::material::reflect;
use pathtracer::material::reflectance;
use pathtracer::material::refract;
use pathtracer::material::Dialectric;
use pathtracer::material::Lambertian;
use pathtracer::material::Material;
use pathtracer::material::Metal;
use pathtracer::material::ScatterSample;
use pathtracer::material::Surface;
use pathtracer::ray::Ray;
use pathtracer::vec3::Vec3;

fn fx(v: f64) -> Fixed {
    Fixed::from_raw((v * 4294967296.0).round() as i64)
}

fn fl(a: Fixed) -> f64 {
    a.raw as f64 / 4294967296.0
}

fn v3(x: f64, y: f64, z: f64) -> Vec3 {
    Vec3::new(fx(x), fx(y), fx(z))
}

fn near(a: Vec3, x: f64, y: f64, z: f64) -> bool {
    (fl(a.x) - x).abs() < 1e-6 && (fl(a.y) - y).abs() < 1e-6 && (fl(a.z) - z).abs() < 1e-6
}

fn floor_hit<'a>(mat: &'a Surface, front_face: bool) -> HitRecord<'a> {
    HitRecord { p: v3(1.0, 0.0, 2.0), normal: v3(0.0, 1.0, 0.0), t: fx(3.0), front_face, mat }
}

#[test]
fn reflect_mirrors_at_the_normal() {
    let n = v3(0.0, 1.0, 0.0);
    assert_eq!(reflect(&v3(1.0, -1.0, 0.0), &n), v3(1.0, 1.0, 0.0));
    assert_eq!(reflect(&v3(0.0, -1.0, 0.0), &n), v3(0.0, 1.0, 0.0));
    assert_eq!(reflect(&v3(0.5, 0.0, -0.25), &n), v3(0.5, 0.0, -0.25));
    assert_eq!(reflect(&v3(0.0, 2.0, 0.0), &n), v3(0.0, -2.0, 0.0));
}

#[test]
fn refract_lets_a_ray_along_the_normal_pass_straight() {
    let n = v3(0.0, 1.0, 0.0);
    let r = refract(&v3(0.0, -1.0, 0.0), &n, fx(1.0).div(fx(1.5)));
    assert_eq!(r, v3(0.0, -1.0, 0.0));
}

#[test]
fn refract_bends_toward_the_normal_in_the_denser_medium() {
    let n = v3(0.0, 1.0, 0.0);
    let s = (0.5f64).sqrt();
    let r = refract(&v3(s, -s, 0.0), &n, fx(1.0).div(fx(1.5)));
    // sin of the refracted angle is sin(45 degrees) / 1.5
    let sin_out = s / 1.5;
    let cos_out = (1.0 - sin_out * sin_out).sqrt();
    assert!(near(r, sin_out, -cos_out, 0.0));
}

#[test]
fn reflectance_follows_schlick() {
    // straight on, glass reflects ((1 - 1.5) / (1 + 1.5))^2 = 0.04
    assert!((fl(reflectance(fx(1.0), fx(1.5))) - 0.04).abs() < 1e-8);
    // at a grazing angle everything is reflected
    assert!((fl(reflectance(fx(0.0), fx(1.5))) - 1.0).abs() < 1e-8);
    let expected = 0.04 + 0.96 * (0.5f64).powi(5);
    assert!((fl(reflectance(fx(0.5), fx(1.5))) - expected).abs() < 1e-8);
}

#[test]
fn reflectance_is_rounded_as_its_steps_are() {
    assert_eq!(reflectance(fx(1.0), fx(1.5)).raw(), 171798691);
    assert_eq!(reflectance(fx(0.5), fx(1.5)).raw(), 300647709);
    assert_eq!(reflectance(fx(0.0), fx(1.5)).raw(), 4294967296);
    assert_eq!(reflectance(fx(1.0), fx(1.0)).raw(), 0);
    assert_eq!(reflectance(fx(0.0), fx(1.0)).raw(), 4294967296);
}

#[test]
fn refract_is_rounded_as_its_steps_are() {
    let n = v3(0.0, 1.0, 0.0);
    let uv = Vec3::new(Fixed::from_raw(3037000500), Fixed::from_raw(-3037000500), fx(0.0));
    let eta = fx(1.0).div(fx(1.5));
    assert_eq!(eta.raw(), 2863311530);
    let r = refract(&uv, &n, eta);
    assert_eq!(r.x.raw(), 2024666999);
    assert_eq!(r.y.raw(), -3787805119);
    assert_eq!(r.z.raw(), 0);
}

#[test]
fn a_diffuse_surface_scatters_about_the_normal() {
    let m = Surface::Lambertian(Lambertian { albedo: v3(0.5, 0.25, 0.125) });
    let rec = floor_hit(&m, true);
    let lambertian = Lambertian { albedo: v3(0.5, 0.25, 0.125) };
    let (ray, attenuation) = lambertian.scatter_with(&rec, &v3(1.0, 0.0, 0.0)).unwrap();
    assert_eq!(ray.orig, v3(1.0, 0.0, 2.0));
    assert_eq!(ray.dir, v3(1.0, 1.0, 0.0));
    assert_eq!(attenuation, v3(0.5, 0.25, 0.125));
}

#[test]
fn a_diffuse_surface_falls_back_to_the_normal() {
    let m = Surface::Lambertian(Lambertian { albedo: v3(0.5, 0.5, 0.5) });
    let rec = floor_hit(&m, true);
    let lambertian = Lambertian { albedo: v3(0.5, 0.5, 0.5) };
    // the sample cancels the normal
    let (ray, _) = lambertian.scatter_with(&rec, &v3(0.0, -1.0, 0.0)).unwrap();
    assert_eq!(ray.dir, v3(0.0, 1.0, 0.0));
    // and so does one that misses it by less than 1e-8
    let almost = Vec3::new(Fixed::from_raw(41), fx(-1.0), Fixed::from_raw(-41));
    let (ray, _) = lambertian.scatter_with(&rec, &almost).unwrap();
    assert_eq!(ray.dir, v3(0.0, 1.0, 0.0));
    // but not one that misses it by 1e-8
    let off = Vec3::new(Fixed::from_raw(42), fx(-1.0), fx(0.0));
    let (ray, _) = lambertian.scatter_with(&rec, &off).unwrap();
    assert_eq!(ray.dir, Vec3::new(Fixed::from_raw(42), fx(0.0), fx(0.0)));
}

#[test]
fn a_diffuse_surface_scatters_to_the_side_of_the_normal() {
    let lambertian = Lambertian { albedo: v3(0.5, 0.5, 0.5) };
    let m = Surface::Lambertian(lambertian);
    let slack = 6144 + 4;
    let mut against = 0;
    for i in 0..7 {
        let normal = v3(i as f64 - 3.0, 2.0, 0.5 * (i as f64)).unit_vector();
        let rec = HitRecord { p: v3(1.0, 0.0, 2.0), normal, t: fx(3.0), front_face: true, mat: &m };
        for j in 0..50 {
            let unit = v3((j % 5) as f64 - 2.0, (j / 10) as f64 - 2.1, (j % 7) as f64 - 3.0)
                .unit_vector();
            let (ray, _) = lambertian.scatter_with(&rec, &unit).unwrap();
            assert!(ray.dir.dot(&normal).raw() >= -slack);
            assert!(ray.dir.length_squared().raw() <= 4 * (1i64 << 32) + 4 * 6144 + 4);
            if unit.dot(&normal).raw() < 0 {
                against += 1;
            }
        }
        // the unit vector straight against the normal leaves the normal itself
        let (ray, _) = lambertian.scatter_with(&rec, &normal.neg()).unwrap();
        assert_eq!(ray.dir, normal);
    }
    assert!(against > 100);
}

#[test]
fn a_diffuse_surface_scatters_every_ray_it_draws_for() {
    let m = Surface::Lambertian(Lambertian { albedo: v3(0.5, 0.25, 0.125) });
    let rec = floor_hit(&m, true);
    let lambertian = Lambertian { albedo: v3(0.5, 0.25, 0.125) };
    for _ in 0..200 {
        let mut ray_in = Ray { orig: v3(1.0, 1.0, 2.0), dir: v3(0.0, -1.0, 0.0) };
        let (ray, attenuation) = lambertian.scatter(&mut ray_in, &rec).unwrap();
        assert_eq!(ray_in, Ray { orig: v3(1.0, 1.0, 2.0), dir: v3(0.0, -1.0, 0.0) });
        assert_eq!(ray.orig, rec.p);
        assert_eq!(attenuation, v3(0.5, 0.25, 0.125));
        // the normal plus a unit vector: at most two long, and not under the surface
        assert!(fl(ray.dir.length()) <= 2.0 + 1e-6);
        assert!(fl(ray.dir.y) >= -1e-6);
        assert!(fl(ray.dir.dot(&rec.normal)) >= -1e-6);
        // the unit vector that was added
        let unit = ray.dir.sub(rec.normal);
        assert!((fl(unit.length()) - 1.0).abs() < 1e-6);
    }
}

#[test]
fn a_mirror_reflects_by_the_law_of_reflection() {
    let metal = Metal { albedo: v3(0.8, 0.6, 0.2), fuzz: fx(0.0) };
    let m = Surface::Metal(metal);
    let rec = floor_hit(&m, true);
    let ray_in = Ray { orig: v3(0.0, 1.0, 2.0), dir: v3(3.0, -4.0, 0.0) };
    // whatever the sample, without fuzz it does not count
    for sample in [v3(0.0, 0.0, 0.0), v3(0.5, -0.5, 0.5), v3(-0.9, 0.1, 0.0)] {
        let (ray, attenuation) = metal.scatter_with(&ray_in, &rec, &sample).unwrap();
        assert_eq!(ray.orig, v3(1.0, 0.0, 2.0));
        assert_eq!(attenuation, v3(0.8, 0.6, 0.2));
        let incoming = ray_in.dir;
        let expected = incoming.sub(rec.normal.scale(incoming.dot(&rec.normal)).scale(fx(2.0)));
        assert_eq!(ray.dir, expected);
        // the image is as long as the direction that came in
        assert_eq!(ray.dir, v3(3.0, 4.0, 0.0));
        assert!(ray.dir.dot(&rec.normal).raw() > 0);
    }
}

#[test]
fn a_mirror_reflects_a_direction_that_is_not_of_unit_length() {
    let metal = Metal { albedo: v3(0.8, 0.6, 0.2), fuzz: fx(0.0) };
    let m = Surface::Metal(metal);
    let rec = HitRecord {
        p: Vec3::zeroes(),
        normal: v3(0.0, 1.0, 0.0),
        t: fx(1.0),
        front_face: true,
        mat: &m,
    };
    let mut ray_in = Ray { orig: v3(0.0, 2.0, 0.0), dir: v3(0.0, -2.0, 0.0) };
    let (ray, attenuation) = metal.scatter(&mut ray_in, &rec).unwrap();
    assert_eq!(ray.orig, Vec3::zeroes());
    assert_eq!(ray.dir, v3(0.0, 2.0, 0.0));
    assert_eq!(attenuation, v3(0.8, 0.6, 0.2));
    assert_eq!(ray_in.dir, v3(0.0, -2.0, 0.0));
    let short = Ray { orig: v3(0.0, 2.0, 0.0), dir: v3(0.25, -0.125, 0.5) };
    let (ray, _) = metal.scatter_with(&short, &rec, &v3(0.0, 0.0, 0.0)).unwrap();
    assert_eq!(ray.dir, v3(0.25, 0.125, 0.5));
}

#[test]
fn a_mirror_reflects_a_unit_direction_into_a_unit_direction() {
    let metal = Metal { albedo: v3(0.8, 0.6, 0.2), fuzz: fx(0.0) };
    let m = Surface::Metal(metal);
    let rec = floor_hit(&m, true);
    let ray_in = Ray { orig: v3(0.0, 1.0, 2.0), dir: v3(3.0, -4.0, 0.0).unit_vector() };
    let (ray, _) = metal.scatter_with(&ray_in, &rec, &v3(0.0, 0.0, 0.0)).unwrap();
    assert!(near(ray.dir, 0.6, 0.8, 0.0));
    assert_eq!(ray.dir.x.raw(), 2576980377);
    assert_eq!(ray.dir.y.raw(), 3435973836);
    assert_eq!(ray.dir.z.raw(), 0);
    assert!((fl(ray.dir.length()) - 1.0).abs() < 1e-6);
    assert_eq!(ray.dir.dot(&rec.normal), ray_in.dir.dot(&rec.normal).neg());
}

#[test]
fn a_mirror_scatters_every_ray_that_comes_against_a_unit_normal() {
    let metal = Metal { albedo: v3(0.9, 0.9, 0.9), fuzz: fx(0.0) };
    let m = Surface::Metal(metal);
    let mut scattered = 0;
    for i in 0..9 {
        for j in 0..9 {
            let normal = v3(i as f64 - 4.0, 2.5, j as f64 - 4.0).unit_vector();
            let rec =
                HitRecord { p: v3(1.0, 0.0, 2.0), normal, t: fx(3.0), front_face: true, mat: &m };
            for k in 0..25 {
                let dir =
                    v3((k % 5) as f64 - 2.0, -0.75 * ((k / 5) as f64), 0.3 * (k as f64) - 4.0);
                let ray_in = Ray { orig: v3(0.0, 9.0, 0.0), dir };
                let against = dir.dot(&normal).raw();
                let res = metal.scatter_with(&ray_in, &rec, &v3(0.3, -0.9, 0.1));
                if against <= -36 {
                    let (ray, _) = res.unwrap();
                    assert!(ray.dir.dot(&normal).raw() > 0);
                    // the image leaves at the angle at which the ray came
                    assert!((ray.dir.dot(&normal).raw() + against).abs() < 64);
                    scattered += 1;
                }
            }
        }
    }
    assert!(scattered > 500);
    // a ray that grazes the surface within the rounding may be swallowed
    let rec = floor_hit(&m, true);
    let grazing = Ray { orig: v3(0.0, 1.0, 0.0), dir: v3(1.0, 0.0, 0.0) };
    assert!(metal.scatter_with(&grazing, &rec, &v3(0.0, 0.0, 0.0)).is_none());
}

#[test]
fn a_mirror_swallows_a_ray_that_would_leave_into_the_surface() {
    let metal = Metal { albedo: v3(0.8, 0.6, 0.2), fuzz: fx(0.0) };
    let m = Surface::Metal(metal);
    let rec = floor_hit(&m, true);
    // a ray from under the surface, along the normal: its image points down
    let inner = Ray { orig: v3(1.0, -1.0, 2.0), dir: v3(0.0, 1.0, 0.0) };
    assert!(metal.scatter_with(&inner, &rec, &v3(0.0, 0.0, 0.0)).is_none());
    // a grazing ray: its image lies in the surface
    let grazing = Ray { orig: v3(0.0, 0.0, 2.0), dir: v3(1.0, 0.0, 0.0) };
    assert!(metal.scatter_with(&grazing, &rec, &v3(0.0, 0.0, 0.0)).is_none());
    let mut again = inner;
    assert!(metal.scatter(&mut again, &rec).is_none());
    assert_eq!(again, inner);
}

#[test]
fn fuzz_moves_the_reflection_by_the_sample() {
    let metal = Metal { albedo: v3(1.0, 1.0, 1.0), fuzz: fx(0.5) };
    let m = Surface::Metal(metal);
    let rec = floor_hit(&m, true);
    let ray_in = Ray { orig: v3(1.0, 1.0, 2.0), dir: v3(0.0, -1.0, 0.0) };
    let (ray, _) = metal.scatter_with(&ray_in, &rec, &v3(0.5, 0.0, -1.0)).unwrap();
    assert_eq!(ray.dir, v3(0.25, 1.0, -0.5));
    // the sample is added to the image of the direction as it came in
    let long = Ray { orig: v3(1.0, 1.0, 2.0), dir: v3(0.0, -2.0, 0.0) };
    let (ray, _) = metal.scatter_with(&long, &rec, &v3(0.5, 0.0, -1.0)).unwrap();
    assert_eq!(ray.dir, v3(0.25, 2.0, -0.5));
    // a sample that a short image cannot carry sends the ray into the surface
    let faint = Ray { orig: v3(1.0, 1.0, 2.0), dir: v3(0.0, -0.25, 0.0) };
    assert!(metal.scatter_with(&faint, &rec, &v3(0.0, -0.75, 0.0)).is_none());
    assert!(metal.scatter_with(&ray_in, &rec, &v3(0.0, -0.75, 0.0)).is_some());
}

#[test]
fn a_metal_with_fuzz_out_of_range_is_refused() {
    let albedo = v3(0.5, 0.5, 0.5);
    assert_eq!(Metal::new(albedo, fx(-0.1)).err(), Some(ConfigError::FuzzOutOfRange));
    assert_eq!(Metal::new(albedo, fx(1.5)).err(), Some(ConfigError::FuzzOutOfRange));
    assert_eq!(Metal::new(albedo, fx(0.0)), Ok(Metal { albedo, fuzz: fx(0.0) }));
    assert_eq!(Metal::new(albedo, fx(1.0)), Ok(Metal { albedo, fuzz: fx(1.0) }));
    assert_eq!(Metal::new(albedo, fx(0.3)), Ok(Metal { albedo, fuzz: fx(0.3) }));
}

#[test]
fn glass_refracts_or_reflects_by_the_draw() {
    let glass = Dialectric { ir: fx(1.5) };
    let m = Surface::Dialectric(glass);
    let rec = floor_hit(&m, true);
    let ray_in = Ray { orig: v3(1.0, 1.0, 2.0), dir: v3(0.0, -2.0, 0.0) };
    // straight on, the reflectance is 0.04: a draw above it refracts
    let (ray, attenuation) = glass.scatter_with(&ray_in, &rec, fx(0.5)).unwrap();
    assert_eq!(attenuation, Vec3::ones());
    assert_eq!(ray.orig, v3(1.0, 0.0, 2.0));
    assert_eq!(ray.dir, v3(0.0, -1.0, 0.0));
    // and a draw under it reflects
    let (ray, attenuation) = glass.scatter_with(&ray_in, &rec, fx(0.01)).unwrap();
    assert_eq!(attenuation, Vec3::ones());
    assert_eq!(ray.dir, v3(0.0, 1.0, 0.0));
}

#[test]
fn glass_reflects_all_light_beyond_the_critical_angle() {
    let glass = Dialectric { ir: fx(1.5) };
    let m = Surface::Dialectric(glass);
    // leaving the glass: the ratio is 1.5, and sin(60 degrees) * 1.5 > 1
    let rec = floor_hit(&m, false);
    let s = (0.75f64).sqrt();
    let ray_in = Ray { orig: v3(0.0, 1.0, 2.0), dir: v3(s, -0.5, 0.0) };
    let (ray, _) = glass.scatter_with(&ray_in, &rec, Fixed::from_raw(4294967295)).unwrap();
    assert!(near(ray.dir, s, 0.5, 0.0));
}

#[test]
fn glass_scatters_every_ray_it_draws_for() {
    let glass = Dialectric { ir: fx(1.5) };
    let m = Surface::Dialectric(glass);
    let rec = floor_hit(&m, true);
    let mut reflected = 0;
    let mut refracted = 0;
    for _ in 0..2000 {
        let mut ray_in = Ray { orig: v3(1.0, 1.0, 2.0), dir: v3(0.0, -1.0, 0.0) };
        let (ray, attenuation) = glass.scatter(&mut ray_in, &rec).unwrap();
        assert_eq!(attenuation, Vec3::ones());
        assert_eq!(ray.orig, rec.p);
        if ray.dir == v3(0.0, 1.0, 0.0) {
            reflected += 1;
        } else {
            assert_eq!(ray.dir, v3(0.0, -1.0, 0.0));
            refracted += 1;
        }
    }
    // about one in twenty-five is reflected
    assert!(reflected > 20 && reflected < 200);
    assert!(refracted > 1800);
}

#[test]
fn a_surface_scatters_as_its_material_does() {
    let sample = ScatterSample { unit: v3(1.0, 0.0, 0.0), point: v3(0.5, 0.0, -1.0), draw: fx(0.5) };
    let ray_in = Ray { orig: v3(1.0, 1.0, 2.0), dir: v3(0.0, -1.0, 0.0) };

    let lambertian = Lambertian { albedo: v3(0.5, 0.25, 0.125) };
    let m = Surface::Lambertian(lambertian);
    let rec = floor_hit(&m, true);
    assert_eq!(m.scatter_with(&ray_in, &rec, &sample), lambertian.scatter_with(&rec, &sample.unit));

    let metal = Metal { albedo: v3(1.0, 1.0, 1.0), fuzz: fx(0.5) };
    let m = Surface::Metal(metal);
    let rec = floor_hit(&m, true);
    assert_eq!(
        m.scatter_with(&ray_in, &rec, &sample),
        metal.scatter_with(&ray_in, &rec, &sample.point)
    );

    let glass = Dialectric { ir: fx(1.5) };
    let m = Surface::Dialectric(glass);
    let rec = floor_hit(&m, true);
    assert_eq!(
        m.scatter_with(&ray_in, &rec, &sample),
        glass.scatter_with(&ray_in, &rec, sample.draw)
    );
}

#[test]
fn a_surface_draws_for_its_material() {
    let m = Surface::Metal(Metal { albedo: v3(0.8, 0.6, 0.2), fuzz: fx(0.0) });
    let rec = floor_hit(&m, true);
    let mut ray_in = Ray { orig: v3(1.0, 1.0, 2.0), dir: v3(0.0, -1.0, 0.0) };
    let (ray, attenuation) = m.scatter(&mut ray_in, &rec).unwrap();
    assert_eq!(ray.dir, v3(0.0, 1.0, 0.0));
    assert_eq!(attenuation, v3(0.8, 0.6, 0.2));
}

#[test]
fn the_sample_of_zeros() {
    let none = ScatterSample::none();
    assert_eq!(none.unit, Vec3::zeroes());
    assert_eq!(none.point, Vec3::zeroes());
    assert_eq!(none.draw, Fixed::zero());
}
