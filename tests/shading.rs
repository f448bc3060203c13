use raytrace::color::Color;
use raytrace::fixed::{LIMIT, SCALE};
use raytrace::hittable::{HitRecord, Hittables, Sphere};
use raytrace::material::{Material, Sample};
use raytrace::pixel::{gamma, pixel_color, pixel_color_with, pixel_uv, to_byte};
use raytrace::random::{random_in_unit_ball, random_sample, random_samples, random_unit_interval, random_unit_vector};
use raytrace::ray::Ray;
use raytrace::render::{background, ray_color, ray_color_with, sky_blue, Camera};
use raytrace::vec3::{dot, Vec3};

const S: i128 = SCALE;

fn quiet() -> Sample {
    Sample { ball: Vec3::zero(), unit: Vec3::new(S, 0, 0), chance: 0 }
}

fn hit_at(normal: Vec3, material: Material) -> HitRecord {
    HitRecord { point: Vec3::new(0, 0, -S / 2), normal, t: S / 2, material }
}

fn red_world() -> Hittables {
    Hittables::from(vec![Sphere::new(Vec3::new(0, 0, -S), S / 2, Material::lambertian(Color::new(S, 0, 0)))])
}

fn forward() -> Ray {
    Ray::new(Vec3::zero(), Vec3::new(0, 0, -S))
}

#[test]
fn lambertian_always_scatters() {
    let m = Material::lambertian(Color::new(S / 2, S / 4, S));
    let h = hit_at(Vec3::new(0, 0, S), m);
    let s = Sample { ball: Vec3::new(0, 0, -S), unit: Vec3::new(S, 0, 0), chance: 0 };
    let sc = m.scatter(&forward(), &h, &s).unwrap();
    assert_eq!(sc.attenuation, Color::new(S / 2, S / 4, S));
    assert_eq!(sc.ray.origin, h.point);
    assert_eq!(sc.ray.direction, Vec3::zero());
    let s = Sample { ball: Vec3::new(S, 0, 0), unit: Vec3::new(S, 0, 0), chance: 0 };
    let sc = m.scatter(&forward(), &h, &s).unwrap();
    assert_eq!(sc.ray.direction, Vec3::new(S, 0, S));
}

#[test]
fn metal_reflects_with_albedo() {
    let m = Material::metal(Color::grey(9 * S / 10));
    let h = hit_at(Vec3::new(0, 0, S), m);
    let sc = m.scatter(&forward(), &h, &quiet()).unwrap();
    assert_eq!(sc.attenuation, Color::grey(9 * S / 10));
    assert_eq!(sc.ray.direction, Vec3::new(0, 0, S));
}

#[test]
fn metal_absorbs_below_surface() {
    let m = Material::metal(Color::grey(S));
    let h = hit_at(Vec3::new(0, 0, S), m);
    let from_inside = Ray::new(Vec3::new(0, 0, -S), Vec3::new(0, 0, S));
    assert!(m.scatter(&from_inside, &h, &quiet()).is_none());
    let fuzzy = Material::fuzzy(Color::grey(S), 2 * S);
    let s = Sample { ball: Vec3::zero(), unit: Vec3::new(0, 0, -S), chance: 0 };
    assert!(fuzzy.scatter(&forward(), &hit_at(Vec3::new(0, 0, S), fuzzy), &s).is_none());
    let grazing = Ray::new(Vec3::zero(), Vec3::new(S, 0, 0));
    let side = hit_at(Vec3::new(0, 0, S), m);
    assert!(m.scatter(&grazing, &side, &quiet()).is_none());
}

#[test]
fn glass_always_scatters_white() {
    let m = Material::glass(3 * S / 2);
    for (dir, normal) in [
        (Vec3::new(0, 0, -S), Vec3::new(0, 0, S)),
        (Vec3::new(S, 0, -S), Vec3::new(0, 0, S)),
        (Vec3::new(S, 0, S / 8), Vec3::new(0, 0, S)),
    ] {
        for chance in [0, S / 2, S - 1] {
            let s = Sample { ball: Vec3::zero(), unit: Vec3::new(S, 0, 0), chance };
            let sc = m.scatter(&Ray::new(Vec3::zero(), dir), &hit_at(normal, m), &s).unwrap();
            assert_eq!(sc.attenuation, Color::white());
        }
    }
}

#[test]
fn glass_straight_through_refracts() {
    let m = Material::glass(3 * S / 2);
    let s = Sample { ball: Vec3::zero(), unit: Vec3::new(S, 0, 0), chance: S - 1 };
    let sc = m.scatter(&forward(), &hit_at(Vec3::new(0, 0, S), m), &s).unwrap();
    assert_eq!(sc.ray.direction, Vec3::new(0, 0, -S));
}

#[test]
fn glass_total_internal_reflection() {
    let m = Material::glass(3 * S / 2);
    let leaving = Ray::new(Vec3::zero(), Vec3::new(S, 0, S / 8));
    let s = Sample { ball: Vec3::zero(), unit: Vec3::new(S, 0, 0), chance: S - 1 };
    let sc = m.scatter(&leaving, &hit_at(Vec3::new(0, 0, S), m), &s).unwrap();
    assert!(dot(sc.ray.direction, Vec3::new(0, 0, S)) < 0);
}

#[test]
fn zero_bounces_is_white() {
    assert_eq!(ray_color(forward(), &red_world(), 0), Color::white());
    assert_eq!(ray_color(Ray::new(Vec3::zero(), Vec3::new(0, S, 0)), &Hittables::new(), 0), Color::white());
}

#[test]
fn miss_returns_sky_gradient() {
    let world = red_world();
    let up = Ray::new(Vec3::zero(), Vec3::new(0, S, 0));
    let down = Ray::new(Vec3::zero(), Vec3::new(0, -3 * S, 0));
    assert_eq!(ray_color(up, &world, 5), Color::new(S / 2, 769658139443, S));
    assert_eq!(ray_color(up, &world, 5), sky_blue());
    assert_eq!(ray_color(down, &world, 5), Color::white());
    let side = Ray::new(Vec3::zero(), Vec3::new(S, 0, 0));
    assert_eq!(background(&side), Color::new(3 * S / 4, 934584883609, S));
}

#[test]
fn short_miss_directions_keep_sky_extremes() {
    let world = red_world();
    let up = Ray::new(Vec3::zero(), Vec3::new(0, 1, 0));
    let down = Ray::new(Vec3::zero(), Vec3::new(0, -300, 0));
    assert_eq!(ray_color(up, &world, 3), sky_blue());
    assert_eq!(ray_color(down, &world, 3), Color::white());
    let side = Ray::new(Vec3::zero(), Vec3::new(5, 0, 0));
    let long_side = Ray::new(Vec3::zero(), Vec3::new(5 * S, 0, 0));
    assert_eq!(background(&side), background(&long_side));
}

#[test]
fn one_bounce_on_red_lambertian_is_red() {
    assert_eq!(ray_color(forward(), &red_world(), 1), Color::new(S, 0, 0));
}

#[test]
fn absorbed_ray_is_black() {
    let world = Hittables::from(vec![Sphere::new(Vec3::new(0, 0, -S), S / 2, Material::metal(Color::grey(S)))]);
    let inside = Ray::new(Vec3::new(0, 0, -S), Vec3::new(0, 0, S));
    let samples = vec![quiet(), quiet()];
    assert_eq!(ray_color_with(&inside, &world, 2, &samples), Color::black());
}

#[test]
fn mirror_bounce_to_sky() {
    let world = Hittables::from(vec![Sphere::new(Vec3::new(0, 0, -S), S / 2, Material::metal(Color::grey(S / 2)))]);
    let samples = vec![quiet(), quiet()];
    let c = ray_color_with(&forward(), &world, 2, &samples);
    assert_eq!(c, Color::new(S * 3 / 8, 467292441804, S / 2));
}

#[test]
fn random_draws_in_range() {
    for _ in 0..200 {
        let u = random_unit_interval();
        assert!((0..S).contains(&u));
        let p = random_in_unit_ball();
        assert!(p.x * p.x + p.y * p.y + p.z * p.z <= S * S);
        let v = random_unit_vector();
        assert!((v.length() - S).abs() <= 4, "{:?}", v);
        let s = random_sample();
        assert!((0..S).contains(&s.chance));
    }
    assert_eq!(random_samples(7).len(), 7);
    let draws: Vec<i128> = (0..50).map(|_| random_unit_interval()).collect();
    assert!(draws.iter().any(|d| *d != draws[0]));
}

#[test]
fn camera_rays() {
    let cam = Camera {
        origin: Vec3::zero(),
        lower_left_corner: Vec3::new(-S, -S, -S),
        horizontal: Vec3::new(2 * S, 0, 0),
        vertical: Vec3::new(0, 2 * S, 0),
    };
    assert_eq!(cam.ray(S / 2, S / 2), Ray::new(Vec3::zero(), Vec3::new(0, 0, -S)));
    assert_eq!(cam.ray(0, S), Ray::new(Vec3::zero(), Vec3::new(-S, S, -S)));
}

#[test]
fn pixel_coordinates() {
    assert_eq!(pixel_uv(0, 11, 0), 0);
    assert_eq!(pixel_uv(10, 11, 0), S);
    assert_eq!(pixel_uv(5, 11, 0), S / 2);
    assert_eq!(pixel_uv(1, 3, S / 2), 3 * S / 4);
    assert_eq!(pixel_uv(32767, 32768, 0), S);
}

#[test]
fn gamma_and_bytes() {
    assert_eq!(gamma(&Color::new(S / 4, S, 0)), Color::new(S / 2, S, 0));
    assert_eq!(to_byte(0), 0);
    assert_eq!(to_byte(-5), 0);
    assert_eq!(to_byte(S / 2), 128);
    assert_eq!(to_byte(S), 255);
    assert_eq!(to_byte(LIMIT), 255);
}

#[test]
fn pixel_in_empty_world_is_sky() {
    let cam = Camera {
        origin: Vec3::zero(),
        lower_left_corner: Vec3::new(-S, -S, -S),
        horizontal: Vec3::new(2 * S, 0, 0),
        vertical: Vec3::new(0, 2 * S, 0),
    };
    let world = Hittables::new();
    let c = pixel_color(&cam, &world, 1, 1, 3, 3, 1, 4);
    assert_eq!(cam.ray(3 * S / 4, 3 * S / 4), Ray::new(Vec3::zero(), Vec3::new(S / 2, S / 2, -S)));
    assert_eq!(c, background(&cam.ray(3 * S / 4, 3 * S / 4)));
    let expect = background(&Ray::new(Vec3::zero(), Vec3::new(0, 0, -S)));
    let jitters = vec![(0, 0), (0, 0)];
    let samples = vec![vec![quiet()], vec![quiet()]];
    let avg = pixel_color_with(&cam, &world, 1, 1, 3, 3, 2, 1, &jitters, &samples);
    assert_eq!(avg, Color::new(expect.r / 2 * 2, expect.g / 2 * 2, expect.b / 2 * 2));
    let many = pixel_color(&cam, &world, 0, 2, 3, 3, 16, 3);
    assert!(many.b <= S && many.b >= S - 16);
}

#[test]
fn traced_colors_stay_in_unit_range() {
    let world = Hittables::from(vec![
        Sphere::new(Vec3::new(-S, 0, -S), S / 2, Material::metal(Color::grey(9 * S / 10))),
        Sphere::new(Vec3::new(0, 0, -S), S / 2, Material::glass(3 * S / 2)),
        Sphere::new(Vec3::new(0, 0, -S), -(49 * S / 100), Material::glass(3 * S / 2)),
        Sphere::new(Vec3::new(S, 0, -S), S / 2, Material::fuzzy(Color::grey(9 * S / 10), S / 10)),
        Sphere::new(Vec3::new(0, -100 * S - S / 2, -S), 100 * S, Material::lambertian(Color::new(60 * S / 255, 80 * S / 255, 100 * S / 255))),
    ]);
    for i in 0..40i128 {
        let dir = Vec3::new((i - 20) * S / 20, (i % 7 - 3) * S / 6, -S);
        let c = ray_color(Ray::new(Vec3::zero(), dir), &world, 8);
        for ch in [c.r, c.g, c.b] {
            assert!((0..=S).contains(&ch), "{:?} for {:?}", c, dir);
        }
    }
}

#[test]
fn gamma_keeps_order() {
    let dim = gamma(&Color::new(S / 9, S / 4, 0));
    let bright = gamma(&Color::new(S / 4, S / 4, 1));
    assert_eq!(dim, Color::new(366503875924, S / 2, 0));
    assert!(dim.r <= bright.r && dim.g <= bright.g && dim.b <= bright.b);
}

#[test]
fn printed_sky_matches_square_roots() {
    let world = Hittables::from(vec![Sphere::new(Vec3::new(0, 0, -S), S / 2, Material::lambertian(Color::black()))]);
    let back = Ray::new(Vec3::zero(), Vec3::new(0, 0, S));
    let c = gamma(&ray_color(back, &world, 1));
    let f = |v: i128| v as f64 / S as f64;
    assert!((f(c.r) - 0.8660254037844386).abs() <= 1e-12, "{:?}", c);
    assert!((f(c.g) - 0.9219544457292887).abs() <= 1e-12, "{:?}", c);
    assert_eq!(c.b, S);
}

#[test]
fn gamma_is_undone_by_squaring() {
    let x = 2 * S / 65536;
    let g = gamma(&Color::new(x, x, x)).r;
    assert_eq!(g, 6074001000);
    let back = (g as f64 / S as f64).powi(2);
    assert!((back / (x as f64 / S as f64) - 1.0).abs() <= 1e-10);
}
