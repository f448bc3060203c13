//! The recursive color estimator, the sky background, and the camera.
use vstd::prelude::*;
use crate::color::{
    attenuate_spec, black_spec, cadd_spec, cscale_spec, white_spec, Color,
};
use crate::fixed::{add_spec, div_spec, min_spec, mul_spec, sqrt_spec, fx_add, fx_div, fx_sub, in_range, sub_spec, LIMIT, SCALE};
use crate::hittable::{lemma_world_hit_material, world_hit_spec, Hittables, Sphere};
use crate::material::{front_face, scatter_spec, Material, Sample};
use crate::hittable::HitRecord;
use crate::vec3::{abs_spec, dot_spec, lemma_vadd_vsub_wf, length_squared_spec, reflect_spec, vneg};
use crate::random::random_samples;
use crate::ray::Ray;
use crate::vec3::{lemma_normalized_axis, lemma_normalized_bounds, minus, normalized_spec, sum_sq, plus, scale, vadd, vscale, vsub, Point3, Vec3};

verus! {

/// Smallest ray parameter accepted as a hit, so that a scattered ray does
/// not strike the surface it leaves.
pub const T_MIN: i128 = 10995116;

/// The blue at the top of the sky: `(0.5, 0.7, 1.0)`.
pub open spec fn sky_blue_spec() -> Color {
    Color { r: 549755813888, g: 769658139443, b: 1099511627776 }
}

/// Blend parameter of the background: `0.5 + y / 2` for the unit direction.
pub open spec fn sky_t(ray: Ray) -> int {
    add_spec(SCALE / 2, div_spec(normalized_spec(ray.direction).y as int, 2 * SCALE))
}

/// White at `t = 0` blended linearly into sky blue at `t = 1`.
pub open spec fn background_spec(ray: Ray) -> Color {
    let t = sky_t(ray);
    cadd_spec(cscale_spec(white_spec(), sub_spec(SCALE as int, t)), cscale_spec(sky_blue_spec(), t))
}

/// The color that `ray` brings back from `world` with `bounces` left; the
/// scattering event with `b` bounces left uses `samples[b - 1]`. Hits are
/// searched from `T_MIN` up to `LIMIT`, the far end of the format.
pub open spec fn ray_color_spec(ray: Ray, world: Seq<Sphere>, bounces: nat, samples: Seq<Sample>) -> Color
    decreases bounces,
{
    if bounces == 0 {
        white_spec()
    } else {
        match world_hit_spec(world, ray, T_MIN as int, LIMIT as int) {
            Some(h) => match scatter_spec(h.material, ray, h, samples[bounces - 1]) {
                Some(sc) => attenuate_spec(
                    sc.attenuation,
                    ray_color_spec(sc.ray, world, (bounces - 1) as nat, samples),
                ),
                None => black_spec(),
            },
            None => background_spec(ray),
        }
    }
}

pub fn sky_blue() -> (c: Color)
    ensures
        c == sky_blue_spec(),
        c.wf(),
{
    Color { r: 549755813888, g: 769658139443, b: 1099511627776 }
}

pub fn background(ray: &Ray) -> (c: Color)
    requires
        ray.wf(),
    ensures
        c == background_spec(*ray),
        c.wf(),
{
    let unit = ray.direction.normalized();
    let t = fx_add(SCALE / 2, fx_div(unit.y, 2 * SCALE));
    Color::white().scaled(fx_sub(SCALE, t)).plus(&sky_blue().scaled(t))
}

/// [`ray_color`] with the random values given: the event with `b` bounces
/// left draws on `samples[b - 1]`.
pub fn ray_color_with(ray: &Ray, world: &Hittables, bounces: u32, samples: &Vec<Sample>) -> (c: Color)
    requires
        ray.wf(),
        world.wf(),
        bounces <= samples@.len(),
        forall|i: int| 0 <= i < samples@.len() ==> (#[trigger] samples@[i]).wf(),
    ensures
        c == ray_color_spec(*ray, world.objects@, bounces as nat, samples@),
        c.wf(),
    decreases bounces,
{
    if bounces == 0 {
        return Color::white();
    }
    match world.hit(ray, T_MIN, LIMIT) {
        Some(h) => {
            let s = &samples[bounces as usize - 1];
            match h.material.scatter(ray, &h, s) {
                Some(sc) => {
                    let rest = ray_color_with(&sc.ray, world, bounces - 1, samples);
                    sc.attenuation.attenuate(&rest)
                },
                None => Color::black(),
            }
        },
        None => background(ray),
    }
}

/// Traces `ray` through `world` for at most `bounces` scattering events:
/// white when no bounce is left, black when a surface absorbs the ray, the
/// sky when it escapes, each attenuated by the surfaces it met.
pub fn ray_color(ray: Ray, world: &Hittables, bounces: u32) -> (c: Color)
    requires
        ray.wf(),
        world.wf(),
    ensures
        bounces == 0 ==> c == white_spec(),
        exists|samples: Seq<Sample>|
            samples.len() == bounces && (forall|i: int| 0 <= i < samples.len() ==> (#[trigger] samples[i]).wf())
                && c == ray_color_spec(ray, world.objects@, bounces as nat, samples),
        c.wf(),
{
    let samples = random_samples(bounces);
    let c = ray_color_with(&ray, world, bounces, &samples);
    assert(samples@.len() == bounces && (forall|i: int| 0 <= i < samples@.len() ==> (#[trigger] samples@[i]).wf())
        && c == ray_color_spec(ray, world.objects@, bounces as nat, samples@));
    c
}

/// A pinhole camera: rays leave `origin` toward the image plane spanned by
/// `horizontal` and `vertical` from `lower_left_corner`.
#[derive(Clone, Copy, Debug, PartialEq, Eq, Structural)]
pub struct Camera {
    pub origin: Point3,
    pub lower_left_corner: Point3,
    pub horizontal: Vec3,
    pub vertical: Vec3,
}

impl Camera {
    pub open spec fn wf(self) -> bool {
        self.origin.wf() && self.lower_left_corner.wf() && self.horizontal.wf() && self.vertical.wf()
    }

    /// The ray through the image-plane point at `(u, v)`.
    pub open spec fn ray_spec(self, u: int, v: int) -> Ray {
        Ray {
            origin: self.origin,
            direction: vsub(
                vadd(vadd(self.lower_left_corner, vscale(self.horizontal, u)), vscale(self.vertical, v)),
                self.origin,
            ),
        }
    }

    pub fn ray(&self, u: i128, v: i128) -> (r: Ray)
        requires
            self.wf(),
            in_range(u as int),
            in_range(v as int),
        ensures
            r == self.ray_spec(u as int, v as int),
            r.wf(),
    {
        let target = plus(plus(self.lower_left_corner, scale(self.horizontal, u)), scale(self.vertical, v));
        Ray { origin: self.origin, direction: minus(target, self.origin) }
    }
}

/// A ray that meets no surface, with a bounce left, brings back the sky:
/// exactly sky blue when it points straight up and exactly white when it
/// points straight down, whatever the length of its direction.
pub proof fn lemma_miss_is_sky(ray: Ray, world: Seq<Sphere>, bounces: nat, samples: Seq<Sample>)
    requires
        ray.wf(),
        bounces > 0,
        world_hit_spec(world, ray, T_MIN as int, LIMIT as int) is None,
    ensures
        ray_color_spec(ray, world, bounces, samples) == background_spec(ray),
        ray.direction.x == 0 && ray.direction.z == 0 && ray.direction.y > 0 ==> ray_color_spec(
            ray,
            world,
            bounces,
            samples,
        ) == sky_blue_spec(),
        ray.direction.x == 0 && ray.direction.z == 0 && ray.direction.y < 0 ==> ray_color_spec(
            ray,
            world,
            bounces,
            samples,
        ) == white_spec(),
{
    let one = SCALE as int;
    lemma_normalized_axis(ray.direction);
    if normalized_spec(ray.direction).y == SCALE {
        assert(div_spec(one, 2 * one) == one / 2);
        assert(sky_t(ray) == one);
    }
    if normalized_spec(ray.direction).y == -SCALE {
        assert(div_spec(-one, 2 * one) == -(one / 2));
        assert(sky_t(ray) == 0);
    }
}

/// Every channel of the background lies in `[0, 1]`.
pub proof fn lemma_background_in_unit(ray: Ray)
    requires
        ray.wf(),
    ensures
        0 <= background_spec(ray).r <= SCALE,
        0 <= background_spec(ray).g <= SCALE,
        0 <= background_spec(ray).b <= SCALE,
{
    let one = SCALE as int;
    let y = normalized_spec(ray.direction).y as int;
    let d = ray.direction;
    if sum_sq(d) > 0 {
        lemma_normalized_bounds(d);
    } else {
        assert(d.y == 0) by (nonlinear_arith)
            requires
                d.x * d.x + d.y * d.y + d.z * d.z <= 0,
        {}
    }
    assert(-one <= y <= one);
    let h = div_spec(y, 2 * one);
    assert(-(one / 2) <= (y * one) / (2 * one) <= one / 2) by (nonlinear_arith)
        requires
            -one <= y <= one,
            one == 1099511627776,
    {
        assert(y * one / (2 * one) == y / 2);
    }
    let t = sky_t(ray);
    assert(0 <= t <= one);
    lemma_blend_channel(one, t);
    lemma_blend_channel(32768, t);
    lemma_blend_channel(45875, t);
}

/// `(1 - t) * 1 + t * c` stays in `[0, 1]` for `c` and `t` in `[0, 1]`.
proof fn lemma_blend_channel(c: int, t: int)
    requires
        0 <= c <= SCALE,
        0 <= t <= SCALE,
    ensures
        0 <= add_spec(mul_spec(SCALE as int, sub_spec(SCALE as int, t)), mul_spec(c, t)) <= SCALE,
{
    let one = SCALE as int;
    assert((one * (one - t)) / one == one - t) by (nonlinear_arith)
        requires one > 0, {}
    assert(0 <= (c * t) / one <= t) by (nonlinear_arith)
        requires
            0 <= c <= one,
            0 <= t,
            one > 0,
    {}
}

proof fn lemma_scatter_wf(m: Material, ray: Ray, h: HitRecord, s: Sample)
    requires
        h.point.wf(),
    ensures
        scatter_spec(m, ray, h, s) matches Some(sc) ==> sc.ray.wf(),
{
    let u = normalized_spec(ray.direction);
    lemma_vadd_vsub_wf(h.normal, s.ball);
    match m {
        Material::Metal { albedo, fuzz } => {
            lemma_vadd_vsub_wf(reflect_spec(u, h.normal), vscale(s.unit, fuzz as int));
        },
        Material::Glass { refraction_index } => {
            let front = front_face(ray, h);
            let n = if front { h.normal } else { vneg(h.normal) };
            let ratio = if front { div_spec(SCALE as int, refraction_index as int) } else { refraction_index as int };
            lemma_vadd_vsub_wf(u, vscale(n, add_spec(dot_spec(u, n), dot_spec(u, n))));
            let cosine = min_spec(dot_spec(vneg(u), n), SCALE as int);
            let perp = vscale(vadd(u, vscale(n, cosine)), ratio);
            let par_len = sqrt_spec(abs_spec(sub_spec(SCALE as int, length_squared_spec(perp))));
            lemma_vadd_vsub_wf(perp, vscale(n, -par_len));
        },
        _ => {},
    }
}

pub open spec fn color_in_unit(c: Color) -> bool {
    0 <= c.r <= SCALE && 0 <= c.g <= SCALE && 0 <= c.b <= SCALE
}

/// The material attenuates by a color in `[0, 1]` (glass always does).
pub open spec fn albedo_in_unit(m: Material) -> bool {
    match m {
        Material::Lambertian { albedo } => color_in_unit(albedo),
        Material::Metal { albedo, fuzz } => color_in_unit(albedo),
        Material::Glass { refraction_index } => true,
    }
}

proof fn lemma_mul_in_unit(a: int, c: int)
    requires
        0 <= a <= SCALE,
        0 <= c <= SCALE,
    ensures
        0 <= mul_spec(a, c) <= SCALE,
{
    let one = SCALE as int;
    assert(0 <= (a * c) / one <= one) by (nonlinear_arith)
        requires
            0 <= a <= one,
            0 <= c <= one,
            one > 0,
    {
        assert(a * c <= one * one);
        assert((one * one) / one == one);
    }
}

/// When every material of the world attenuates by a color in `[0, 1]`, the
/// color a ray brings back lies in `[0, 1]` on every channel, for every
/// bounce budget and every set of random values.
pub proof fn lemma_ray_color_in_unit(ray: Ray, world: Seq<Sphere>, bounces: nat, samples: Seq<Sample>)
    requires
        ray.wf(),
        bounces <= samples.len(),
        forall|j: int| 0 <= j < world.len() ==> albedo_in_unit(#[trigger] world[j].material),
    ensures
        color_in_unit(ray_color_spec(ray, world, bounces, samples)),
    decreases bounces,
{
    if bounces > 0 {
        match world_hit_spec(world, ray, T_MIN as int, LIMIT as int) {
            Some(h) => {
                lemma_world_hit_material(world, ray, T_MIN as int, LIMIT as int);
                let j = choose|j: int| 0 <= j < world.len() && h.material == (#[trigger] world[j]).material;
                assert(albedo_in_unit(h.material));
                match scatter_spec(h.material, ray, h, samples[bounces - 1]) {
                    Some(sc) => {
                        lemma_scatter_wf(h.material, ray, h, samples[bounces - 1]);
                        assert(sc.ray.wf());
                        assert(color_in_unit(sc.attenuation));
                        let rest = ray_color_spec(sc.ray, world, (bounces - 1) as nat, samples);
                        lemma_ray_color_in_unit(sc.ray, world, (bounces - 1) as nat, samples);
                        lemma_mul_in_unit(sc.attenuation.r as int, rest.r as int);
                        lemma_mul_in_unit(sc.attenuation.g as int, rest.g as int);
                        lemma_mul_in_unit(sc.attenuation.b as int, rest.b as int);
                    },
                    None => {},
                }
            },
            None => {
                lemma_background_in_unit(ray);
            },
        }
    }
}

} // verus!
