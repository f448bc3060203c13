use raytrace::fixed::{fx_add, fx_div, fx_mul, fx_sqrt, LIMIT, SCALE};
use raytrace::hittable::{Hittables, Sphere};
use raytrace::material::Material;
use raytrace::ray::Ray;
use raytrace::color::Color;
use raytrace::vec3::{dot, neg, reflect, refract, Vec3};

const S: i128 = SCALE;

fn red_sphere() -> Sphere {
    Sphere::new(Vec3::new(0, 0, -S), S / 2, Material::lambertian(Color::new(S, 0, 0)))
}

fn forward() -> Ray {
    Ray::new(Vec3::zero(), Vec3::new(0, 0, -S))
}

#[test]
fn fixed_point_arithmetic() {
    assert_eq!(fx_mul(3 * S, S / 2), 3 * S / 2);
    assert_eq!(fx_mul(-1, 1), -1);
    assert_eq!(fx_div(S, 4 * S), S / 4);
    assert_eq!(fx_div(-S, 3 * S), -366503875926);
    assert_eq!(fx_sqrt(4 * S), 2 * S);
    assert_eq!(fx_sqrt(2 * S), 1554944255988);
    assert_eq!(fx_sqrt(-S), 0);
    assert_eq!(fx_add(LIMIT, LIMIT), LIMIT);
    assert_eq!(fx_mul(LIMIT, -LIMIT), -LIMIT);
}

#[test]
fn vector_length_and_dot() {
    let v = Vec3::new(3 * S, 4 * S, 0);
    assert_eq!(v.length_squared(), 25 * S);
    assert_eq!(v.length(), 5 * S);
    assert_eq!(dot(v, Vec3::new(S, S, S)), 7 * S);
    assert_eq!(neg(v), Vec3::new(-3 * S, -4 * S, 0));
}

#[test]
fn normalize_gives_unit_length() {
    let v = Vec3::new(0, 2 * S, 0);
    assert_eq!(v.normalized(), Vec3::new(0, S, 0));
    for v in [Vec3::new(S, S, 0), Vec3::new(3 * S, -7 * S, 2 * S), Vec3::new(S / 3, 2 * S / 3, -S)] {
        let len = v.normalized().length();
        assert!((len - S).abs() <= 4, "length {} of normalized {:?}", len, v);
    }
    assert_eq!(Vec3::zero().normalized(), Vec3::zero());
}

#[test]
fn negation_keeps_length() {
    for v in [Vec3::new(S, 2 * S, -3 * S), Vec3::new(-77, 12345, 999)] {
        assert_eq!(v.length(), neg(v).length());
    }
}

#[test]
fn reflect_twice_is_identity() {
    let v = Vec3::new(3 * S, -5 * S, S / 2);
    for n in [Vec3::new(S, 0, 0), Vec3::new(0, -S, 0), Vec3::new(0, 0, S)] {
        let once = reflect(v, n);
        assert_ne!(once, v);
        assert_eq!(reflect(once, n), v);
    }
    assert_eq!(reflect(v, Vec3::new(0, S, 0)), Vec3::new(3 * S, 5 * S, S / 2));
}

#[test]
fn refract_straight_through() {
    let d = refract(Vec3::new(0, 0, -S), Vec3::new(0, 0, S), S);
    assert_eq!(d, Vec3::new(0, 0, -S));
}

#[test]
fn ray_at_parameter() {
    let r = Ray::new(Vec3::new(S, 0, 0), Vec3::new(0, 2 * S, 0));
    assert_eq!(r.at(S / 2), Vec3::new(S, S, 0));
}

#[test]
fn sphere_hit_straight_on() {
    let h = red_sphere().hit(&forward(), 1, LIMIT).unwrap();
    assert_eq!(h.t, S / 2);
    assert_eq!(h.point, Vec3::new(0, 0, -S / 2));
    assert_eq!(h.normal, Vec3::new(0, 0, S));
    assert_eq!(h.material, Material::lambertian(Color::new(S, 0, 0)));
}

#[test]
fn sphere_hit_far_root_from_inside() {
    let r = Ray::new(Vec3::new(0, 0, -S), Vec3::new(0, 0, -S));
    let h = red_sphere().hit(&r, 1, LIMIT).unwrap();
    assert_eq!(h.t, S / 2);
    assert_eq!(h.point, Vec3::new(0, 0, -3 * S / 2));
}

#[test]
fn sphere_negative_radius_flips_normal() {
    let s = Sphere::new(Vec3::new(0, 0, -S), -S / 2, Material::glass(3 * S / 2));
    let h = s.hit(&forward(), 1, LIMIT).unwrap();
    assert_eq!(h.normal, Vec3::new(0, 0, -S));
}

#[test]
fn sphere_miss_when_discriminant_negative() {
    let up = Ray::new(Vec3::zero(), Vec3::new(0, S, 0));
    assert!(red_sphere().hit(&up, 1, LIMIT).is_none());
}

#[test]
fn sphere_miss_when_roots_outside_interval() {
    assert!(red_sphere().hit(&forward(), 1, S / 4).is_none());
    assert!(red_sphere().hit(&forward(), 2 * S, LIMIT).is_none());
    assert!(red_sphere().hit(&forward(), 1, S / 2).is_none());
    let h = red_sphere().hit(&forward(), S / 2, LIMIT).unwrap();
    assert_eq!(h.t, 3 * S / 2);
}

#[test]
fn zero_direction_never_hits() {
    let r = Ray::new(Vec3::zero(), Vec3::zero());
    assert!(red_sphere().hit(&r, -LIMIT, LIMIT).is_none());
}

#[test]
fn world_keeps_nearest_hit() {
    let far = Sphere::new(Vec3::new(0, 0, -3 * S), S / 2, Material::metal(Color::grey(S)));
    let near = red_sphere();
    for objs in [vec![far, near], vec![near, far]] {
        let world = Hittables::from(objs);
        let h = world.hit(&forward(), 1, LIMIT).unwrap();
        assert_eq!(h.t, S / 2);
        assert_eq!(h.material, near.material);
    }
    let mut w = Hittables::new();
    assert!(w.hit(&forward(), 1, LIMIT).is_none());
    w.add(far);
    assert_eq!(w.hit(&forward(), 1, LIMIT).unwrap().t, 5 * S / 2);
}

#[test]
fn normalize_short_vectors() {
    assert_eq!(Vec3::new(0, 300, 0).normalized(), Vec3::new(0, S, 0));
    assert_eq!(Vec3::new(0, 0, -1).normalized(), Vec3::new(0, 0, -S));
    assert_eq!(Vec3::new(7, 0, 0).normalized(), Vec3::new(S, 0, 0));
    let k = S / 4096;
    let n = Vec3::new(k, k, k).normalized();
    assert_eq!(n, Vec3::new(634803334744, 634803334744, 634803334744));
    for v in [Vec3::new(k, 2 * k, 3 * k), Vec3::new(-5 * k, 0, 9 * k), Vec3::new(300 * k, -k, 0)] {
        let n = v.normalized();
        let sq = n.x as i128 * n.x as i128 + n.y as i128 * n.y as i128 + n.z as i128 * n.z as i128;
        let one = (S as i128) * (S as i128);
        assert!((sq - one).abs() <= 2000 * S as i128, "{:?} -> {:?}", v, n);
    }
}

#[test]
fn normalize_ignores_scale() {
    let v = Vec3::new(3 * S, -7 * S, 2 * S);
    let k = S / 4096;
    let (a, b) = (v.normalized(), Vec3::new(3 * k, -7 * k, 2 * k).normalized());
    for (p, q) in [(a.x, b.x), (a.y, b.y), (a.z, b.z)] {
        assert!((p - q).abs() <= 4096, "{:?} vs {:?}", a, b);
    }
}

#[test]
fn short_direction_still_hits() {
    let r = Ray::new(Vec3::zero(), Vec3::new(0, 0, -S / 4096));
    let h = red_sphere().hit(&r, 1, LIMIT).unwrap();
    assert_eq!(h.t, 2048 * S);
    assert_eq!(h.point, Vec3::new(0, 0, -S / 2));
}

#[test]
fn tiny_sphere_is_hit() {
    let radius = S / 1000;
    let s = Sphere::new(Vec3::new(0, 0, -S), radius, Material::glass(3 * S / 2));
    let h = s.hit(&forward(), 1, LIMIT).unwrap();
    assert!((h.t - (S - radius)).abs() <= S / 1_000_000_000, "{}", h.t);
    assert_eq!((h.normal.x, h.normal.y), (0, 0));
    assert!((h.normal.z - S).abs() <= S / 1_000_000, "{:?}", h.normal);
    let beside = Ray::new(Vec3::new(2 * radius, 0, 0), Vec3::new(0, 0, -S));
    assert!(s.hit(&beside, 1, LIMIT).is_none());
}

#[test]
fn unit_length_after_normalize_is_tight() {
    for v in [Vec3::new(S, S, 0), Vec3::new(3 * S, -7 * S, 2 * S), Vec3::new(S / 3, 2 * S / 3, -S)] {
        let len = v.normalized().length() as f64 / S as f64;
        assert!((len - 1.0).abs() <= 1e-9, "{}", len);
    }
}
