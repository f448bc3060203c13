//! Materials: how a surface sends light on after a ray strikes it.
use vstd::prelude::*;
use crate::color::{white_spec, Color};
use crate::fixed::{
    add_spec, div_spec, fx_add, fx_div, fx_min, fx_mul, fx_sqrt, fx_sub, in_range, min_spec,
    mul_spec, sqrt_spec, sub_spec, SCALE,
};
use crate::hittable::HitRecord;
use crate::ray::Ray;
use crate::vec3::{
    dot, dot_spec, length_squared_spec, normalized_spec, sum_sq, neg, plus, reflect, reflect_spec, refract, refract_spec, scale,
    vadd, vneg, vscale, Vec3,
};

verus! {

#[derive(Clone, Copy, Debug, PartialEq, Eq, Structural)]
pub enum Material {
    /// A diffuse surface that scatters in all directions.
    Lambertian { albedo: Color },
    /// A mirror; `fuzz` blurs the reflection.
    Metal { albedo: Color, fuzz: i128 },
    /// A clear dielectric that reflects or refracts.
    Glass { refraction_index: i128 },
}

/// The random values that one scattering event may use.
#[derive(Clone, Copy, Debug, PartialEq, Eq, Structural)]
pub struct Sample {
    /// A point inside or on the unit sphere.
    pub ball: Vec3,
    /// A vector of unit length.
    pub unit: Vec3,
    /// A uniform draw from `[0, 1)`.
    pub chance: i128,
}

/// An outgoing ray together with the color that attenuates what it brings back.
#[derive(Clone, Copy, Debug, PartialEq, Eq, Structural)]
pub struct Scatter {
    pub attenuation: Color,
    pub ray: Ray,
}

/// `v` is the x axis, or the normalization of a well-formed vector at least
/// a quarter long: what a draw of a random unit vector gives.
pub open spec fn is_unit_draw(v: Vec3) -> bool {
    ||| v == (Vec3 { x: SCALE, y: 0, z: 0 })
    ||| exists|p: Vec3| p.wf() && length_squared_spec(p) >= SCALE / 16 && v == #[trigger] normalized_spec(p)
}

impl Sample {
    pub open spec fn wf(self) -> bool {
        &&& self.ball.wf()
        &&& sum_sq(self.ball) <= SCALE * SCALE
        &&& self.unit.wf()
        &&& is_unit_draw(self.unit)
        &&& 0 <= self.chance < SCALE
    }
}

impl Material {
    pub open spec fn wf(self) -> bool {
        match self {
            Material::Lambertian { albedo } => albedo.wf(),
            Material::Metal { albedo, fuzz } => albedo.wf() && in_range(fuzz as int),
            Material::Glass { refraction_index } => 0 < refraction_index && in_range(
                refraction_index as int,
            ),
        }
    }

    pub fn lambertian(albedo: Color) -> (m: Material)
        ensures
            m == (Material::Lambertian { albedo }),
    {
        Material::Lambertian { albedo }
    }

    /// A perfect mirror.
    pub fn metal(albedo: Color) -> (m: Material)
        ensures
            m == (Material::Metal { albedo, fuzz: 0 }),
    {
        Material::Metal { albedo, fuzz: 0 }
    }

    pub fn fuzzy(albedo: Color, fuzz: i128) -> (m: Material)
        ensures
            m == (Material::Metal { albedo, fuzz }),
    {
        Material::Metal { albedo, fuzz }
    }

    pub fn glass(refraction_index: i128) -> (m: Material)
        ensures
            m == (Material::Glass { refraction_index }),
    {
        Material::Glass { refraction_index }
    }
}

/// Schlick's approximation of the share of light that a dielectric reflects.
pub open spec fn reflectance_spec(cosine: int, ratio: int) -> int {
    let one = SCALE as int;
    let r0 = div_spec(sub_spec(one, ratio), add_spec(one, ratio));
    let r0sq = mul_spec(r0, r0);
    let x = sub_spec(one, cosine);
    let x5 = mul_spec(mul_spec(mul_spec(mul_spec(x, x), x), x), x);
    add_spec(r0sq, mul_spec(sub_spec(one, r0sq), x5))
}

pub open spec fn lambertian_direction(hit: HitRecord, s: Sample) -> Vec3 {
    vadd(hit.normal, s.ball)
}

/// The mirrored direction, perturbed by `fuzz` times the sample's unit vector.
pub open spec fn metal_direction(fuzz: int, ray: Ray, hit: HitRecord, s: Sample) -> Vec3 {
    vadd(reflect_spec(normalized_spec(ray.direction), hit.normal), vscale(s.unit, fuzz))
}

/// The ray strikes the outward side of the surface.
pub open spec fn front_face(ray: Ray, hit: HitRecord) -> bool {
    dot_spec(ray.direction, hit.normal) < 0
}

pub open spec fn glass_direction(ri: int, ray: Ray, hit: HitRecord, s: Sample) -> Vec3 {
    let one = SCALE as int;
    let unit = normalized_spec(ray.direction);
    let front = front_face(ray, hit);
    let n = if front { hit.normal } else { vneg(hit.normal) };
    let ratio = if front { div_spec(one, ri) } else { ri };
    let cosine = min_spec(dot_spec(vneg(unit), n), one);
    let sine = sqrt_spec(sub_spec(one, mul_spec(cosine, cosine)));
    let cannot_refract = mul_spec(ratio, sine) > one;
    if cannot_refract || reflectance_spec(cosine, ratio) > s.chance {
        reflect_spec(unit, n)
    } else {
        refract_spec(unit, n, ratio)
    }
}

pub open spec fn scatter_spec(m: Material, ray: Ray, hit: HitRecord, s: Sample) -> Option<Scatter> {
    match m {
        Material::Lambertian { albedo } => Some(
            Scatter {
                attenuation: albedo,
                ray: Ray { origin: hit.point, direction: lambertian_direction(hit, s) },
            },
        ),
        Material::Metal { albedo, fuzz } => {
            let d = metal_direction(fuzz as int, ray, hit, s);
            if dot_spec(d, hit.normal) > 0 {
                Some(Scatter { attenuation: albedo, ray: Ray { origin: hit.point, direction: d } })
            } else {
                None
            }
        },
        Material::Glass { refraction_index } => Some(
            Scatter {
                attenuation: white_spec(),
                ray: Ray {
                    origin: hit.point,
                    direction: glass_direction(refraction_index as int, ray, hit, s),
                },
            },
        ),
    }
}

fn reflectance(cosine: i128, ratio: i128) -> (r: i128)
    requires
        in_range(cosine as int),
        in_range(ratio as int),
        ratio >= 0,
    ensures
        r == reflectance_spec(cosine as int, ratio as int),
{
    let r0 = fx_div(fx_sub(SCALE, ratio), fx_add(SCALE, ratio));
    let r0sq = fx_mul(r0, r0);
    let x = fx_sub(SCALE, cosine);
    let x5 = fx_mul(fx_mul(fx_mul(fx_mul(x, x), x), x), x);
    fx_add(r0sq, fx_mul(fx_sub(SCALE, r0sq), x5))
}

fn glass_scatter(ri: i128, ray: &Ray, hit: &HitRecord, s: &Sample) -> (d: Vec3)
    requires
        0 < ri,
        in_range(ri as int),
        ray.wf(),
        hit.wf(),
        s.wf(),
    ensures
        d == glass_direction(ri as int, *ray, *hit, *s),
        d.wf(),
{
    let unit = ray.direction.normalized();
    let front = dot(ray.direction, hit.normal) < 0;
    let n = if front { hit.normal } else { neg(hit.normal) };
    let ratio = if front { fx_div(SCALE, ri) } else { ri };
    assert(ratio >= 0) by {
        if front {
            assert((SCALE as int) * SCALE >= 0);
        }
    }
    let cosine = fx_min(dot(neg(unit), n), SCALE);
    let sine = fx_sqrt(fx_sub(SCALE, fx_mul(cosine, cosine)));
    let cannot_refract = fx_mul(ratio, sine) > SCALE;
    if cannot_refract || reflectance(cosine, ratio) > s.chance {
        reflect(unit, n)
    } else {
        refract(unit, n, ratio)
    }
}

impl Material {
    /// Scatters `ray`, which struck a surface of this material at `hit`,
    /// drawing on the random values in `s`. `None` means the light is absorbed.
    pub fn scatter(&self, ray: &Ray, hit: &HitRecord, s: &Sample) -> (r: Option<Scatter>)
        requires
            self.wf(),
            ray.wf(),
            hit.wf(),
            s.wf(),
        ensures
            r == scatter_spec(*self, *ray, *hit, *s),
            r matches Some(sc) ==> sc.ray.wf() && sc.attenuation.wf(),
            self is Lambertian ==> r is Some,
            self is Glass ==> (r matches Some(sc) && sc.attenuation == white_spec()),
            self matches Material::Metal { albedo, fuzz } ==> {
                &&& (r is None <==> dot_spec(metal_direction(fuzz as int, *ray, *hit, *s), hit.normal) <= 0)
                &&& (r matches Some(sc) ==> sc.attenuation == albedo)
            },
    {
        match self {
            Material::Lambertian { albedo } => Some(
                Scatter {
                    attenuation: *albedo,
                    ray: Ray { origin: hit.point, direction: plus(hit.normal, s.ball) },
                },
            ),
            Material::Metal { albedo, fuzz } => {
                let reflected = reflect(ray.direction.normalized(), hit.normal);
                let d = plus(reflected, scale(s.unit, *fuzz));
                if dot(d, hit.normal) > 0 {
                    Some(Scatter { attenuation: *albedo, ray: Ray { origin: hit.point, direction: d } })
                } else {
                    None
                }
            },
            Material::Glass { refraction_index } => {
                let d = glass_scatter(*refraction_index, ray, hit, s);
                Some(Scatter { attenuation: Color { r: SCALE, g: SCALE, b: SCALE }, ray: Ray { origin: hit.point, direction: d } })
            },
        }
    }
}

} // verus!
