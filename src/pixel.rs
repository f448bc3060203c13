//! Per-pixel estimates: jittered samples averaged, then gamma corrected.
use vstd::prelude::*;
use crate::color::{cadd_spec, black_spec, rgb_spec, Color};
use crate::fixed::{double_root, lemma_root_exists, lemma_sqrt_monotone, LIMIT, div_spec, floor_div, fx_div, fx_div_int, fx_sqrt, in_range, sqrt_spec, SCALE};
use crate::hittable::{Hittables, Sphere};
use crate::material::Sample;
use crate::random::{random_samples, random_unit_interval};
use crate::render::{ray_color_spec, ray_color_with, Camera};

verus! {

/// Largest image side that the fixed-point format can address.
pub const MAX_EXTENT: u32 = 32768;

/// Image-plane coordinate `(i + jitter) / (extent - 1)` of pixel index `i`.
pub open spec fn uv_spec(i: int, extent: int, jitter: int) -> int {
    div_spec(i * SCALE + jitter, (extent - 1) * SCALE)
}

pub fn pixel_uv(i: u32, extent: u32, jitter: i128) -> (r: i128)
    requires
        2 <= extent <= MAX_EXTENT,
        i < extent,
        0 <= jitter < SCALE,
    ensures
        r == uv_spec(i as int, extent as int, jitter as int),
        in_range(r as int),
{
    fx_div(i as i128 * SCALE + jitter, (extent as i128 - 1) * SCALE)
}

/// Each channel divided by `n`.
pub open spec fn shrink_spec(c: Color, n: int) -> Color {
    rgb_spec(floor_div(c.r as int, n), floor_div(c.g as int, n), floor_div(c.b as int, n))
}

/// The square root of each channel.
pub open spec fn gamma_spec(c: Color) -> Color {
    rgb_spec(sqrt_spec(c.r as int), sqrt_spec(c.g as int), sqrt_spec(c.b as int))
}

/// A channel in `[0, 1]` as a byte: `floor(256 v)`, kept within `0..=255`.
pub open spec fn byte_spec(v: int) -> int {
    if v <= 0 {
        0
    } else if v * 256 / (SCALE as int) > 255 {
        255
    } else {
        v * 256 / (SCALE as int)
    }
}

/// The estimate from sample `k` of a pixel.
pub open spec fn sample_estimate(
    cam: Camera,
    world: Seq<Sphere>,
    x: int,
    y: int,
    width: int,
    height: int,
    bounces: nat,
    jitters: Seq<(i128, i128)>,
    samples: Seq<Vec<Sample>>,
    k: int,
) -> Color {
    ray_color_spec(
        cam.ray_spec(uv_spec(x, width, jitters[k].0 as int), uv_spec(y, height, jitters[k].1 as int)),
        world,
        bounces,
        samples[k]@,
    )
}

/// The sum of the first `k` estimates, each divided by `n`.
pub open spec fn estimate_sum(
    cam: Camera,
    world: Seq<Sphere>,
    x: int,
    y: int,
    width: int,
    height: int,
    bounces: nat,
    jitters: Seq<(i128, i128)>,
    samples: Seq<Vec<Sample>>,
    n: int,
    k: nat,
) -> Color
    decreases k,
{
    if k == 0 {
        black_spec()
    } else {
        cadd_spec(
            estimate_sum(cam, world, x, y, width, height, bounces, jitters, samples, n, (k - 1) as nat),
            shrink_spec(sample_estimate(cam, world, x, y, width, height, bounces, jitters, samples, k - 1), n),
        )
    }
}

/// The averaged, not yet gamma corrected, color of pixel `(x, y)`: with more
/// than one sample the mean of the jittered estimates, else the estimate
/// through the pixel's center without jitter.
pub open spec fn pixel_spec(
    cam: Camera,
    world: Seq<Sphere>,
    x: int,
    y: int,
    width: int,
    height: int,
    spp: int,
    bounces: nat,
    jitters: Seq<(i128, i128)>,
    samples: Seq<Vec<Sample>>,
) -> Color {
    if spp > 1 {
        estimate_sum(cam, world, x, y, width, height, bounces, jitters, samples, spp, spp as nat)
    } else {
        ray_color_spec(
            cam.ray_spec(uv_spec(x, width, SCALE / 2), uv_spec(y, height, SCALE / 2)),
            world,
            bounces,
            samples[0]@,
        )
    }
}

pub open spec fn draws_ok(jitters: Seq<(i128, i128)>, samples: Seq<Vec<Sample>>, n: int, bounces: int) -> bool {
    &&& jitters.len() >= n
    &&& samples.len() >= n
    &&& forall|k: int| 0 <= k < n ==> 0 <= (#[trigger] jitters[k]).0 < SCALE && 0 <= jitters[k].1 < SCALE
    &&& forall|k: int| 0 <= k < n ==> (#[trigger] samples[k])@.len() >= bounces
    &&& forall|k: int, i: int| 0 <= k < n && 0 <= i < samples[k]@.len() ==> (#[trigger] samples[k]@[i]).wf()
}

pub fn gamma(c: &Color) -> (r: Color)
    requires
        c.wf(),
    ensures
        r == gamma_spec(*c),
        r.wf(),
{
    Color { r: fx_sqrt(c.r), g: fx_sqrt(c.g), b: fx_sqrt(c.b) }
}

pub fn to_byte(v: i128) -> (r: u8)
    requires
        in_range(v as int),
    ensures
        r == byte_spec(v as int),
{
    if v <= 0 {
        0
    } else if v * 256 / SCALE > 255 {
        255
    } else {
        (v * 256 / SCALE) as u8
    }
}

fn shrunk_estimate(
    cam: &Camera,
    world: &Hittables,
    x: u32,
    y: u32,
    width: u32,
    height: u32,
    spp: u32,
    bounces: u32,
    jitters: &Vec<(i128, i128)>,
    samples: &Vec<Vec<Sample>>,
    k: u32,
) -> (c: Color)
    requires
        cam.wf(),
        world.wf(),
        2 <= width <= MAX_EXTENT,
        2 <= height <= MAX_EXTENT,
        x < width,
        y < height,
        0 < spp,
        k < spp,
        draws_ok(jitters@, samples@, spp as int, bounces as int),
    ensures
        c == shrink_spec(sample_estimate(*cam, world.objects@, x as int, y as int, width as int, height as int, bounces as nat, jitters@, samples@, k as int), spp as int),
        c.wf(),
{
    let (jx, jy) = jitters[k as usize];
    assert(0 <= jitters@[k as int].0 < SCALE);
    let ray = cam.ray(pixel_uv(x, width, jx), pixel_uv(y, height, jy));
    let s = &samples[k as usize];
    assert(forall|i: int| 0 <= i < s@.len() ==> (#[trigger] s@[i]).wf()) by {
        assert forall|i: int| 0 <= i < s@.len() implies (#[trigger] s@[i]).wf() by {
            assert(samples@[k as int]@[i].wf());
        }
    }
    let est = ray_color_with(&ray, world, bounces, s);
    let n = spp as i128;
    Color { r: fx_div_int(est.r, n), g: fx_div_int(est.g, n), b: fx_div_int(est.b, n) }
}

/// [`pixel_color`] with the random values given: sample `k` uses
/// `jitters[k]` to move within the pixel and `samples[k]` to scatter.
pub fn pixel_color_with(
    cam: &Camera,
    world: &Hittables,
    x: u32,
    y: u32,
    width: u32,
    height: u32,
    spp: u32,
    bounces: u32,
    jitters: &Vec<(i128, i128)>,
    samples: &Vec<Vec<Sample>>,
) -> (c: Color)
    requires
        cam.wf(),
        world.wf(),
        2 <= width <= MAX_EXTENT,
        2 <= height <= MAX_EXTENT,
        x < width,
        y < height,
        draws_ok(jitters@, samples@, if spp > 1 { spp as int } else { 1 }, bounces as int),
    ensures
        c == pixel_spec(*cam, world.objects@, x as int, y as int, width as int, height as int, spp as int, bounces as nat, jitters@, samples@),
        c.wf(),
{
    if spp > 1 {
        let mut acc = Color::black();
        let mut k: u32 = 0;
        while k < spp
            invariant
                cam.wf(),
                world.wf(),
                2 <= width <= MAX_EXTENT,
                2 <= height <= MAX_EXTENT,
                x < width,
                y < height,
                1 < spp,
                k <= spp,
                draws_ok(jitters@, samples@, spp as int, bounces as int),
                acc == estimate_sum(*cam, world.objects@, x as int, y as int, width as int, height as int, bounces as nat, jitters@, samples@, spp as int, k as nat),
                acc.wf(),
            decreases spp - k,
        {
            let part = shrunk_estimate(cam, world, x, y, width, height, spp, bounces, jitters, samples, k);
            assert(estimate_sum(*cam, world.objects@, x as int, y as int, width as int, height as int, bounces as nat, jitters@, samples@, spp as int, (k + 1) as nat)
                == cadd_spec(acc, part));
            acc = acc.plus(&part);
            k += 1;
        }
        acc
    } else {
        let ray = cam.ray(pixel_uv(x, width, SCALE / 2), pixel_uv(y, height, SCALE / 2));
        let s = &samples[0];
        assert(forall|i: int| 0 <= i < s@.len() ==> (#[trigger] s@[i]).wf()) by {
            assert forall|i: int| 0 <= i < s@.len() implies (#[trigger] s@[i]).wf() by {
                assert(samples@[0]@[i].wf());
            }
        }
        ray_color_with(&ray, world, bounces, s)
    }
}

/// The averaged color of pixel `(x, y)` of a `width` by `height` image, from
/// `spp` jittered samples (one at the pixel's center when `spp`
/// is at most one), each traced for at most `bounces` scattering events.
pub fn pixel_color(
    cam: &Camera,
    world: &Hittables,
    x: u32,
    y: u32,
    width: u32,
    height: u32,
    spp: u32,
    bounces: u32,
) -> (c: Color)
    requires
        cam.wf(),
        world.wf(),
        2 <= width <= MAX_EXTENT,
        2 <= height <= MAX_EXTENT,
        x < width,
        y < height,
    ensures
        exists|jitters: Seq<(i128, i128)>, samples: Seq<Vec<Sample>>|
            draws_ok(jitters, samples, if spp > 1 { spp as int } else { 1 }, bounces as int)
                && c == pixel_spec(*cam, world.objects@, x as int, y as int, width as int, height as int, spp as int, bounces as nat, jitters, samples),
        c.wf(),
{
    let n: u32 = if spp > 1 { spp } else { 1 };
    let mut jitters: Vec<(i128, i128)> = Vec::new();
    let mut samples: Vec<Vec<Sample>> = Vec::new();
    let mut k: u32 = 0;
    while k < n
        invariant
            k <= n,
            jitters@.len() == k,
            samples@.len() == k,
            draws_ok(jitters@, samples@, k as int, bounces as int),
        decreases n - k,
    {
        let jx = if spp > 1 { random_unit_interval() } else { 0 };
        let jy = if spp > 1 { random_unit_interval() } else { 0 };
        jitters.push((jx, jy));
        samples.push(random_samples(bounces));
        k += 1;
    }
    let c = pixel_color_with(cam, world, x, y, width, height, spp, bounces, &jitters, &samples);
    assert(draws_ok(jitters@, samples@, n as int, bounces as int));
    c
}

/// Gamma correction keeps the order of channels: a channel that is no
/// brighter before correction is no brighter after it.
pub proof fn lemma_gamma_monotone(a: Color, b: Color)
    requires
        a.wf(),
        b.wf(),
        a.r <= b.r,
        a.g <= b.g,
        a.b <= b.b,
    ensures
        gamma_spec(a).r <= gamma_spec(b).r,
        gamma_spec(a).g <= gamma_spec(b).g,
        gamma_spec(a).b <= gamma_spec(b).b,
{
    lemma_sqrt_monotone(a.r as int, b.r as int);
    lemma_sqrt_monotone(a.g as int, b.g as int);
    lemma_sqrt_monotone(a.b as int, b.b as int);
    lemma_sqrt_in_range(a.r as int);
    lemma_sqrt_in_range(a.g as int);
    lemma_sqrt_in_range(a.b as int);
    lemma_sqrt_in_range(b.r as int);
    lemma_sqrt_in_range(b.g as int);
    lemma_sqrt_in_range(b.b as int);
}

/// The square root of a scalar of the format fits the format.
proof fn lemma_sqrt_in_range(a: int)
    ensures
        a <= LIMIT ==> 0 <= sqrt_spec(a) <= LIMIT,
{
    if 0 < a <= LIMIT {
        lemma_root_exists(4 * (a * SCALE));
        let m = double_root(a);
        assert((m + 1) / 2 <= LIMIT) by (nonlinear_arith)
            requires
                0 <= m,
                m * m <= 4 * (a * SCALE),
                a <= LIMIT,
                SCALE == 1099511627776,
                LIMIT == 72057594037927936,
        {}
    }
}

} // verus!
