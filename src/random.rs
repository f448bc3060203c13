//! Random draws for scattering and pixel jitter.
use vstd::prelude::*;
use rand::Rng;
use crate::fixed::{in_range, SCALE};
use crate::material::{is_unit_draw, Sample};
use crate::vec3::{length_squared_spec, normalized_spec, Vec3};

verus! {

/// Relies on rand::thread_rng and rand::Rng::gen_range: a value drawn from
/// `lo..hi`; gen_range panics only when that range is empty.
#[verifier::external_body]
fn random_between(lo: i128, hi: i128) -> (r: i128)
    requires
        lo < hi,
    ensures
        lo <= r < hi,
{
    rand::thread_rng().gen_range(lo..hi)
}

/// A uniform draw from `[0, 1)` in the fixed-point format.
pub fn random_unit_interval() -> (r: i128)
    ensures
        0 <= r < SCALE,
{
    random_between(0, SCALE)
}

proof fn lemma_square_bound(a: int)
    requires
        -SCALE <= a <= SCALE,
    ensures
        0 <= a * a <= SCALE * SCALE,
{
    assert(0 <= a * a <= SCALE * SCALE) by (nonlinear_arith)
        requires
            -SCALE <= a <= SCALE,
    {}
}

/// A point inside or on the unit sphere, by rejection from the enclosing
/// cube. After many rejections in a row (which happens with negligible
/// probability) the center is returned.
pub fn random_in_unit_ball() -> (p: Vec3)
    ensures
        p.wf(),
        p.x * p.x + p.y * p.y + p.z * p.z <= SCALE * SCALE,
{
    let mut tries: u32 = 0;
    while tries < 64
        decreases 64 - tries,
    {
        let x = random_between(-SCALE, SCALE + 1);
        let y = random_between(-SCALE, SCALE + 1);
        let z = random_between(-SCALE, SCALE + 1);
        proof {
            lemma_square_bound(x as int);
            lemma_square_bound(y as int);
            lemma_square_bound(z as int);
        }
        if x * x + y * y + z * z <= SCALE * SCALE {
            return Vec3 { x, y, z };
        }
        tries += 1;
    }
    Vec3 { x: 0, y: 0, z: 0 }
}

/// A vector of unit length in a random direction: a point of the unit ball,
/// normalized. Points nearer the center than a quarter are drawn again, since
/// their direction is coarse in the fixed-point format; after many such draws
/// in a row (which happens with negligible probability) the x axis is returned.
pub fn random_unit_vector() -> (v: Vec3)
    ensures
        v.wf(),
        is_unit_draw(v),
{
    let mut tries: u32 = 0;
    while tries < 64
        decreases 64 - tries,
    {
        let p = random_in_unit_ball();
        if p.length_squared() >= SCALE / 16 {
            let v = p.normalized();
            assert(p.wf() && length_squared_spec(p) >= SCALE / 16 && v == normalized_spec(p));
            return v;
        }
        tries += 1;
    }
    Vec3 { x: SCALE, y: 0, z: 0 }
}

/// The random values for one scattering event.
pub fn random_sample() -> (s: Sample)
    ensures
        s.wf(),
{
    let ball = random_in_unit_ball();
    let unit = random_unit_vector();
    let chance = random_unit_interval();
    Sample { ball, unit, chance }
}

/// `n` independent draws of [`random_sample`].
pub fn random_samples(n: u32) -> (v: Vec<Sample>)
    ensures
        v@.len() == n,
        forall|i: int| 0 <= i < n ==> (#[trigger] v@[i]).wf(),
{
    let mut v: Vec<Sample> = Vec::new();
    let mut i: u32 = 0;
    while i < n
        invariant
            i <= n,
            v@.len() == i,
            forall|k: int| 0 <= k < i ==> (#[trigger] v@[k]).wf(),
        decreases n - i,
    {
        v.push(random_sample());
        i += 1;
    }
    v
}

} // verus!
