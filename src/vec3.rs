//! Three-component fixed-point vectors, used for points and directions.
use vstd::prelude::*;
use crate::fixed::{
    add_spec, div_spec, fx_add, fx_div, fx_min, fx_mul, fx_sqrt, fx_sub, in_range, min_spec,
    mul_spec, sqrt_spec, sub_spec, LIMIT, SCALE, clamp, floor_div, is_root, lemma_root_exists, lemma_root_ge, lemma_root_unique,
};

verus! {

#[derive(Clone, Copy, Debug, PartialEq, Eq, Structural)]
pub struct Vec3 {
    pub x: i128,
    pub y: i128,
    pub z: i128,
}

/// A point in space.
pub type Point3 = Vec3;

impl Vec3 {
    /// Every component lies in the range of the format.
    pub open spec fn wf(self) -> bool {
        in_range(self.x as int) && in_range(self.y as int) && in_range(self.z as int)
    }

    pub fn new(x: i128, y: i128, z: i128) -> (r: Vec3)
        ensures
            r == (Vec3 { x, y, z }),
    {
        Vec3 { x, y, z }
    }

    pub fn zero() -> (r: Vec3)
        ensures
            r == (Vec3 { x: 0, y: 0, z: 0 }),
    {
        Vec3 { x: 0, y: 0, z: 0 }
    }
}

pub open spec fn mk(x: int, y: int, z: int) -> Vec3 {
    Vec3 { x: x as i128, y: y as i128, z: z as i128 }
}

pub open spec fn vadd(a: Vec3, b: Vec3) -> Vec3 {
    mk(add_spec(a.x as int, b.x as int), add_spec(a.y as int, b.y as int), add_spec(a.z as int, b.z as int))
}

pub open spec fn vsub(a: Vec3, b: Vec3) -> Vec3 {
    mk(sub_spec(a.x as int, b.x as int), sub_spec(a.y as int, b.y as int), sub_spec(a.z as int, b.z as int))
}

pub open spec fn vneg(a: Vec3) -> Vec3 {
    mk(-a.x, -a.y, -a.z)
}

/// Each component multiplied by the scalar `s`.
pub open spec fn vscale(a: Vec3, s: int) -> Vec3 {
    mk(mul_spec(a.x as int, s), mul_spec(a.y as int, s), mul_spec(a.z as int, s))
}

/// Each component divided by the scalar `s`.
pub open spec fn vdiv(a: Vec3, s: int) -> Vec3 {
    mk(div_spec(a.x as int, s), div_spec(a.y as int, s), div_spec(a.z as int, s))
}

pub open spec fn dot_spec(a: Vec3, b: Vec3) -> int {
    add_spec(add_spec(mul_spec(a.x as int, b.x as int), mul_spec(a.y as int, b.y as int)), mul_spec(a.z as int, b.z as int))
}

pub open spec fn length_squared_spec(a: Vec3) -> int {
    dot_spec(a, a)
}

/// The exact sum of the squares of the raw components.
pub open spec fn sum_sq(a: Vec3) -> int {
    a.x * a.x + a.y * a.y + a.z * a.z
}

/// The length of `a` in raw units, rounded down: the integer square root of
/// `sum_sq(a)`.
pub open spec fn fine_length(a: Vec3) -> int {
    choose|r: int| #[trigger] is_root(sum_sq(a), r)
}

/// The length of `a` in the format, rounded down and saturated.
pub open spec fn length_spec(a: Vec3) -> int {
    clamp(fine_length(a))
}

/// `a` divided by its length; the zero vector is returned as it is.
pub open spec fn normalized_spec(a: Vec3) -> Vec3 {
    if sum_sq(a) == 0 {
        a
    } else {
        let r = fine_length(a);
        mk(
            floor_div(a.x * SCALE, r),
            floor_div(a.y * SCALE, r),
            floor_div(a.z * SCALE, r),
        )
    }
}

/// Mirror image of `v` about the plane with normal `n`: `v - 2 (v . n) n`.
pub open spec fn reflect_spec(v: Vec3, n: Vec3) -> Vec3 {
    let k = dot_spec(v, n);
    vsub(v, vscale(n, add_spec(k, k)))
}

/// Direction of `uv` after crossing a surface with normal `n`, by Snell's law
/// with ratio of refraction indices `ratio`.
pub open spec fn refract_spec(uv: Vec3, n: Vec3, ratio: int) -> Vec3 {
    let cos_theta = min_spec(dot_spec(vneg(uv), n), SCALE as int);
    let perp = vscale(vadd(uv, vscale(n, cos_theta)), ratio);
    let par_len = sqrt_spec(abs_spec(sub_spec(SCALE as int, length_squared_spec(perp))));
    vadd(perp, vscale(n, -par_len))
}

pub open spec fn abs_spec(a: int) -> int {
    if a < 0 { -a } else { a }
}

pub fn plus(a: Vec3, b: Vec3) -> (r: Vec3)
    requires
        a.wf(),
        b.wf(),
    ensures
        r == vadd(a, b),
        r.wf(),
{
    Vec3 { x: fx_add(a.x, b.x), y: fx_add(a.y, b.y), z: fx_add(a.z, b.z) }
}

pub fn minus(a: Vec3, b: Vec3) -> (r: Vec3)
    requires
        a.wf(),
        b.wf(),
    ensures
        r == vsub(a, b),
        r.wf(),
{
    Vec3 { x: fx_sub(a.x, b.x), y: fx_sub(a.y, b.y), z: fx_sub(a.z, b.z) }
}

pub fn neg(a: Vec3) -> (r: Vec3)
    requires
        a.wf(),
    ensures
        r == vneg(a),
        r.wf(),
{
    Vec3 { x: -a.x, y: -a.y, z: -a.z }
}

pub fn scale(a: Vec3, s: i128) -> (r: Vec3)
    requires
        a.wf(),
        in_range(s as int),
    ensures
        r == vscale(a, s as int),
        r.wf(),
{
    Vec3 { x: fx_mul(a.x, s), y: fx_mul(a.y, s), z: fx_mul(a.z, s) }
}

pub fn div(a: Vec3, s: i128) -> (r: Vec3)
    requires
        a.wf(),
        in_range(s as int),
        s != 0,
    ensures
        r == vdiv(a, s as int),
        r.wf(),
{
    Vec3 { x: fx_div(a.x, s), y: fx_div(a.y, s), z: fx_div(a.z, s) }
}

pub fn dot(a: Vec3, b: Vec3) -> (r: i128)
    requires
        a.wf(),
        b.wf(),
    ensures
        r == dot_spec(a, b),
        in_range(r as int),
{
    fx_add(fx_add(fx_mul(a.x, b.x), fx_mul(a.y, b.y)), fx_mul(a.z, b.z))
}

impl Vec3 {
    pub fn length_squared(&self) -> (r: i128)
        requires
            self.wf(),
        ensures
            r == length_squared_spec(*self),
            in_range(r as int),
    {
        dot(*self, *self)
    }

    pub fn length(&self) -> (r: i128)
        requires
            self.wf(),
        ensures
            r == length_spec(*self),
            r >= 0,
            in_range(r as int),
    {
        let fine = fine_length_of(self);
        if fine > LIMIT {
            LIMIT
        } else {
            fine
        }
    }

    /// The unit vector along `self`: every component lies within one unit;
    /// the squared length is at least `SCALE^2 - 6 SCALE - 3` and exceeds
    /// `SCALE^2` by at most `6 SCALE + 3 SCALE^2 / |self|` (so by `9 SCALE`,
    /// a relative `1e-11`, once `self` is at least one unit long); and a
    /// vector along an axis normalizes exactly to the unit vector of that axis.
    pub fn normalized(&self) -> (r: Vec3)
        requires
            self.wf(),
        ensures
            r == normalized_spec(*self),
            r.wf(),
            sum_sq(*self) > 0 ==> -SCALE <= r.x <= SCALE && -SCALE <= r.y <= SCALE && -SCALE <= r.z <= SCALE,
            sum_sq(*self) > 0 ==> SCALE * SCALE - 6 * SCALE - 3 <= sum_sq(r),
            sum_sq(*self) > 0 ==> sum_sq(r) * fine_length(*self) <= (SCALE * SCALE + 6 * SCALE) * fine_length(*self) + 3 * SCALE * SCALE,
            length_spec(*self) >= SCALE ==> sum_sq(r) <= SCALE * SCALE + 9 * SCALE,
            is_axis_vector(*self) ==> is_axis_unit(r) && same_axis(*self, r),
    {
        let s = sum_sq_of(self);
        if s == 0 {
            assert(self.x == 0 && self.y == 0 && self.z == 0) by (nonlinear_arith)
                requires
                    self.x * self.x + self.y * self.y + self.z * self.z == 0,
            {}
            return *self;
        }
        let fine = fine_length_of(self);
        proof {
            lemma_fine_length_bounds(*self);
            lemma_normalized_axis(*self);
            lemma_normalized_length(*self);
        }
        let x = div_floor_wide(self.x * SCALE, fine);
        let y = div_floor_wide(self.y * SCALE, fine);
        let z = div_floor_wide(self.z * SCALE, fine);
        proof {
            lemma_normalized_bounds(*self);
        }
        Vec3 { x: x as i128, y: y as i128, z: z as i128 }
    }
}

/// Only one component is nonzero.
pub open spec fn is_axis_vector(v: Vec3) -> bool {
    ||| v.x != 0 && v.y == 0 && v.z == 0
    ||| v.x == 0 && v.y != 0 && v.z == 0
    ||| v.x == 0 && v.y == 0 && v.z != 0
}

/// `a` and `b` point the same way along the same axis.
pub open spec fn same_axis(a: Vec3, b: Vec3) -> bool {
    (a.x > 0 <==> b.x > 0) && (a.x < 0 <==> b.x < 0) && (a.y > 0 <==> b.y > 0) && (a.y < 0 <==> b.y < 0)
        && (a.z > 0 <==> b.z > 0) && (a.z < 0 <==> b.z < 0)
}

fn sum_sq_of(v: &Vec3) -> (s: i128)
    requires
        v.wf(),
    ensures
        s == sum_sq(*v),
        0 <= s <= 3 * LIMIT * LIMIT,
{
    proof {
        lemma_sq_le(v.x as int);
        lemma_sq_le(v.y as int);
        lemma_sq_le(v.z as int);
    }
    let x = v.x as i128;
    let y = v.y as i128;
    let z = v.z as i128;
    x * x + y * y + z * z
}

proof fn lemma_sq_le(a: int)
    requires
        in_range(a),
    ensures
        0 <= a * a <= LIMIT * LIMIT,
{
    assert(0 <= a * a <= LIMIT * LIMIT) by (nonlinear_arith)
        requires
            -LIMIT <= a <= LIMIT,
    {}
}

/// Integer square root of `n` by bisection.
fn isqrt_wide(n: i128) -> (r: i128)
    requires
        0 <= n < 0x100000000000000000000000000000,
    ensures
        is_root(n as int, r as int),
{
    let mut lo: i128 = 0;
    let mut hi: i128 = 0x400000000000000;
    assert(n < hi * hi);
    while hi - lo > 1
        invariant
            0 <= lo < hi <= 0x400000000000000,
            lo * lo <= n,
            n < hi * hi,
        decreases hi - lo,
    {
        let mid = lo + (hi - lo) / 2;
        assert(mid * mid <= 0x100000000000000000000000000000) by (nonlinear_arith)
            requires
                0 <= mid <= 0x400000000000000,
        {}
        if mid * mid <= n {
            lo = mid;
        } else {
            hi = mid;
        }
    }
    lo
}

/// Quotient of `a` by a positive `b`, rounded toward negative infinity.
fn div_floor_wide(a: i128, b: i128) -> (r: i128)
    requires
        b > 0,
        -0x10000000000000000000000000000000 <= a <= 0x10000000000000000000000000000000,
    ensures
        r == a as int / b as int,
{
    if a >= 0 {
        a / b
    } else {
        let q = (-(a + 1)) / b;
        proof {
            let m: int = -(a as int + 1);
            let bb: int = b as int;
            let aa: int = a as int;
            assert(q as int == m / bb);
            assert(aa / bb == -(m / bb) - 1) by (nonlinear_arith)
                requires
                    m >= 0,
                    bb > 0,
                    aa == -m - 1,
            {
                let qq = m / bb;
                let rr = m % bb;
                assert(m == qq * bb + rr && 0 <= rr < bb);
                assert(aa == (-qq - 1) * bb + (bb - 1 - rr));
            }
        }
        -q - 1
    }
}

fn fine_length_of(v: &Vec3) -> (r: i128)
    requires
        v.wf(),
    ensures
        r == fine_length(*v),
        0 <= r <= 0x400000000000000,
{
    let s = sum_sq_of(v);
    let r = isqrt_wide(s);
    proof {
        lemma_root_unique(s as int, r as int, fine_length(*v));
        assert(r <= 0x400000000000000) by (nonlinear_arith)
            requires
                0 <= r,
                r * r <= s,
                s <= 3 * 0x100000000000000 * 0x100000000000000,
        {}
    }
    r
}

/// The length is no shorter than any component.
proof fn lemma_fine_length_bounds(v: Vec3)
    requires
        v.wf(),
        sum_sq(v) > 0,
    ensures
        is_root(sum_sq(v), fine_length(v)),
        fine_length(v) >= 1,
        abs_spec(v.x as int) <= fine_length(v),
        abs_spec(v.y as int) <= fine_length(v),
        abs_spec(v.z as int) <= fine_length(v),
{
    let n = sum_sq(v);
    lemma_root_exists(n);
    let r = fine_length(v);
    lemma_root_ge(n, r, 1);
    assert(v.x * v.x <= n && v.y * v.y <= n && v.z * v.z <= n) by (nonlinear_arith)
        requires
            n == v.x * v.x + v.y * v.y + v.z * v.z,
    {}
    assert(abs_spec(v.x as int) * abs_spec(v.x as int) == v.x * v.x) by (nonlinear_arith);
    assert(abs_spec(v.y as int) * abs_spec(v.y as int) == v.y * v.y) by (nonlinear_arith);
    assert(abs_spec(v.z as int) * abs_spec(v.z as int) == v.z * v.z) by (nonlinear_arith);
    lemma_root_ge(n, r, abs_spec(v.x as int));
    lemma_root_ge(n, r, abs_spec(v.y as int));
    lemma_root_ge(n, r, abs_spec(v.z as int));
}

/// A component no longer than `f`, scaled by `SCALE` and divided by `f`,
/// stays within one unit of the format.
proof fn lemma_component_bound(a: int, f: int)
    requires
        f > 0,
        abs_spec(a) <= f,
    ensures
        -SCALE <= (a * SCALE) / f <= SCALE,
{
    let s = SCALE as int;
    assert(-(s * f) <= a * s <= s * f) by (nonlinear_arith)
        requires
            abs_spec(a) <= f,
            s > 0,
    {}
    lemma_div_between(a * s, f, s);
}

proof fn lemma_div_between(q: int, f: int, s: int)
    requires
        f > 0,
        s >= 0,
        -(s * f) <= q <= s * f,
    ensures
        -s <= q / f <= s,
{
    assert(-s <= q / f <= s) by (nonlinear_arith)
        requires
            f > 0,
            s >= 0,
            -(s * f) <= q <= s * f,
    {
        let d = q / f;
        let m = q % f;
        assert(q == d * f + m && 0 <= m < f);
    }
}

/// Rounding `q / f` down, with the quotient within `s`, moves its square,
/// scaled by `f^2`, by at most `(2 s + 1) f^2`.
proof fn lemma_quotient_square(q: int, f: int, r: int, s: int)
    requires
        f > 0,
        s > 0,
        r == q / f,
        -s <= r <= s,
    ensures
        q * q - 2 * (s * (f * f)) - f * f <= (r * r) * (f * f),
        (r * r) * (f * f) <= q * q + 2 * (s * (f * f)),
{
    let e = q % f;
    assert(q == r * f + e && 0 <= e < f) by (nonlinear_arith)
        requires
            f > 0,
            r == q / f,
            e == q % f,
    {}
    let a = r * e;
    assert(-(s * f) <= a <= s * f) by (nonlinear_arith)
        requires
            a == r * e,
            -s <= r <= s,
            0 <= e < f,
            s > 0,
    {}
    let af = a * f;
    assert(-(s * (f * f)) <= af <= s * (f * f)) by (nonlinear_arith)
        requires
            -(s * f) <= a <= s * f,
            af == a * f,
            f > 0,
    {}
    let ee = e * e;
    assert(0 <= ee <= f * f) by (nonlinear_arith)
        requires
            0 <= e < f,
            ee == e * e,
    {}
    assert((r * r) * (f * f) == q * q - 2 * af - ee) by (nonlinear_arith)
        requires
            q == r * f + e,
            a == r * e,
            af == a * f,
            ee == e * e,
    {}
}

/// The squared length of a normalized nonzero vector, in raw units, is at
/// least `SCALE^2 - 6 SCALE - 3`, and exceeds `SCALE^2` by at most
/// `6 SCALE + 3 SCALE^2 / |v|`, with `|v|` the length of `v` in raw units.
pub proof fn lemma_normalized_length(v: Vec3)
    requires
        v.wf(),
        sum_sq(v) > 0,
    ensures
        SCALE * SCALE - 6 * SCALE - 3 <= sum_sq(normalized_spec(v)),
        sum_sq(normalized_spec(v)) * fine_length(v) <= (SCALE * SCALE + 6 * SCALE) * fine_length(v) + 3 * SCALE * SCALE,
        fine_length(v) >= SCALE ==> sum_sq(normalized_spec(v)) <= SCALE * SCALE + 9 * SCALE,
{
    let sc: int = 1099511627776;
    let k: int = 1208925819614629174706176;
    let f = fine_length(v);
    let n = sum_sq(v);
    lemma_fine_length_bounds(v);
    let u = normalized_spec(v);
    let (qx, qy, qz) = (v.x * sc, v.y * sc, v.z * sc);
    lemma_component_bound(v.x as int, f);
    lemma_component_bound(v.y as int, f);
    lemma_component_bound(v.z as int, f);
    let (rx, ry, rz) = (u.x as int, u.y as int, u.z as int);
    assert(rx == qx / f && ry == qy / f && rz == qz / f);
    lemma_quotient_square(qx, f, rx, sc);
    lemma_quotient_square(qy, f, ry, sc);
    lemma_quotient_square(qz, f, rz, sc);
    let ff = f * f;
    assert(ff > 0) by (nonlinear_arith)
        requires f >= 1, ff == f * f, {}
    let (xx, yy, zz) = (rx * rx, ry * ry, rz * rz);
    let t = xx + yy + zz;
    assert(t * ff == xx * ff + yy * ff + zz * ff) by (nonlinear_arith)
        requires
            t == xx + yy + zz,
    {}
    let (vx, vy, vz) = (v.x as int, v.y as int, v.z as int);
    assert(qx * qx == (vx * vx) * k) by (nonlinear_arith)
        requires qx == vx * sc, k == sc * sc, {}
    assert(qy * qy == (vy * vy) * k) by (nonlinear_arith)
        requires qy == vy * sc, k == sc * sc, {}
    assert(qz * qz == (vz * vz) * k) by (nonlinear_arith)
        requires qz == vz * sc, k == sc * sc, {}
    assert(qx * qx + qy * qy + qz * qz == k * n) by (nonlinear_arith)
        requires
            qx * qx == (vx * vx) * k,
            qy * qy == (vy * vy) * k,
            qz * qz == (vz * vz) * k,
            n == vx * vx + vy * vy + vz * vz,
    {}
    assert(ff <= n && n < (f + 1) * (f + 1));
    assert(n <= ff + 3 * f) by (nonlinear_arith)
        requires
            n < (f + 1) * (f + 1),
            ff == f * f,
            f >= 1,
    {}
    assert(k * n <= k * ff + 3 * (k * f)) by (nonlinear_arith)
        requires
            n <= ff + 3 * f,
            k > 0,
    {}
    assert(k * ff <= k * n) by (nonlinear_arith)
        requires
            ff <= n,
            k > 0,
    {}
    assert(t * ff >= (k - 6 * sc - 3) * ff) by (nonlinear_arith)
        requires
            t * ff == xx * ff + yy * ff + zz * ff,
            xx * ff >= qx * qx - 2 * (sc * ff) - ff,
            yy * ff >= qy * qy - 2 * (sc * ff) - ff,
            zz * ff >= qz * qz - 2 * (sc * ff) - ff,
            qx * qx + qy * qy + qz * qz == k * n,
            k * ff <= k * n,
    {}
    assert(t * ff <= (k + 6 * sc) * ff + 3 * (k * f)) by (nonlinear_arith)
        requires
            t * ff == xx * ff + yy * ff + zz * ff,
            xx * ff <= qx * qx + 2 * (sc * ff),
            yy * ff <= qy * qy + 2 * (sc * ff),
            zz * ff <= qz * qz + 2 * (sc * ff),
            qx * qx + qy * qy + qz * qz == k * n,
            k * n <= k * ff + 3 * (k * f),
    {}
    assert(k - 6 * sc - 3 <= t) by (nonlinear_arith)
        requires
            t * ff >= (k - 6 * sc - 3) * ff,
            ff > 0,
    {}
    assert(t * f <= (k + 6 * sc) * f + 3 * k) by (nonlinear_arith)
        requires
            t * ff <= (k + 6 * sc) * ff + 3 * (k * f),
            ff == f * f,
            f >= 1,
    {}
    if f >= sc {
        assert(t <= k + 9 * sc) by (nonlinear_arith)
            requires
                t * f <= (k + 6 * sc) * f + 3 * k,
                f >= sc,
                k == sc * sc,
                sc > 0,
        {}
    }
}

/// Sums and differences of vectors are always well formed.
pub proof fn lemma_vadd_vsub_wf(a: Vec3, b: Vec3)
    ensures
        vadd(a, b).wf(),
        vsub(a, b).wf(),
{
}

/// Every component of a normalized nonzero vector lies within one unit.
pub proof fn lemma_normalized_bounds(v: Vec3)
    requires
        v.wf(),
        sum_sq(v) > 0,
    ensures
        -SCALE <= normalized_spec(v).x <= SCALE,
        -SCALE <= normalized_spec(v).y <= SCALE,
        -SCALE <= normalized_spec(v).z <= SCALE,
{
    lemma_fine_length_bounds(v);
    lemma_component_bound(v.x as int, fine_length(v));
    lemma_component_bound(v.y as int, fine_length(v));
    lemma_component_bound(v.z as int, fine_length(v));
}

/// A nonzero vector along an axis normalizes to the unit vector of that axis.
pub proof fn lemma_normalized_axis(v: Vec3)
    requires
        v.wf(),
    ensures
        is_axis_vector(v) ==> is_axis_unit(normalized_spec(v)) && same_axis(v, normalized_spec(v)),
{
    if is_axis_vector(v) {
        let c: int = if v.x != 0 { v.x as int } else if v.y != 0 { v.y as int } else { v.z as int };
        let s = SCALE as int;
        assert(sum_sq(v) == c * c);
        assert(c * c > 0) by (nonlinear_arith) requires c != 0, {}
        let k = abs_spec(c);
        assert(is_root(c * c, k)) by (nonlinear_arith)
            requires
                k == abs_spec(c),
        {}
        lemma_fine_length_bounds(v);
        lemma_root_unique(sum_sq(v), k, fine_length(v));
        assert((c * s) / k == if c > 0 { s } else { -s }) by (nonlinear_arith)
            requires
                k == abs_spec(c),
                s > 0,
                c != 0,
        {
            if c > 0 {
                assert(c * s == s * k);
            } else {
                assert(c * s == (-s) * k);
            }
        }
        assert(0 * s / k == 0);
    }
}

pub fn reflect(v: Vec3, n: Vec3) -> (r: Vec3)
    requires
        v.wf(),
        n.wf(),
    ensures
        r == reflect_spec(v, n),
        r.wf(),
{
    let k = dot(v, n);
    minus(v, scale(n, fx_add(k, k)))
}

pub fn refract(uv: Vec3, n: Vec3, ratio: i128) -> (r: Vec3)
    requires
        uv.wf(),
        n.wf(),
        in_range(ratio as int),
    ensures
        r == refract_spec(uv, n, ratio as int),
        r.wf(),
{
    let cos_theta = fx_min(dot(neg(uv), n), SCALE);
    let perp = scale(plus(uv, scale(n, cos_theta)), ratio);
    let d = fx_sub(SCALE, perp.length_squared());
    let a = if d < 0 { -d } else { d };
    let par_len = fx_sqrt(a);
    plus(perp, scale(n, -par_len))
}

/// `n` is a unit vector along one of the axes, where the dot product with
/// it loses nothing to rounding.
pub open spec fn is_axis_unit(n: Vec3) -> bool {
    let one = SCALE as int;
    ||| (n.x == one || n.x == -one) && n.y == 0 && n.z == 0
    ||| n.x == 0 && (n.y == one || n.y == -one) && n.z == 0
    ||| n.x == 0 && n.y == 0 && (n.z == one || n.z == -one)
}

proof fn lemma_mul_one(a: int)
    requires
        in_range(a),
    ensures
        mul_spec(a, SCALE as int) == a,
        mul_spec(SCALE as int, a) == a,
        mul_spec(a, -SCALE) == -a,
        mul_spec(-SCALE, a) == -a,
        mul_spec(a, 0) == 0,
        mul_spec(0, a) == 0,
{
    assert((a * SCALE) / (SCALE as int) == a) by (nonlinear_arith);
    assert((SCALE * a) / (SCALE as int) == a) by (nonlinear_arith);
    assert((a * -SCALE) / (SCALE as int) == -a) by (nonlinear_arith);
    assert((-SCALE * a) / (SCALE as int) == -a) by (nonlinear_arith);
}

/// Reflecting twice about the same unit normal gives back the vector:
/// `reflect(reflect(v, n), n) == v`, for axis-aligned unit normals and as
/// long as twice the component of `v` along `n` does not saturate.
pub proof fn lemma_reflect_involution(v: Vec3, n: Vec3)
    requires
        v.wf(),
        is_axis_unit(n),
        -LIMIT / 2 <= dot_spec(v, n) <= LIMIT / 2,
    ensures
        reflect_spec(reflect_spec(v, n), n) == v,
{
    let r = reflect_spec(v, n);
    lemma_mul_one(v.x as int);
    lemma_mul_one(v.y as int);
    lemma_mul_one(v.z as int);
    let k = dot_spec(v, n);
    lemma_mul_one(add_spec(k, k));
    assert(r.wf());
    lemma_mul_one(r.x as int);
    lemma_mul_one(r.y as int);
    lemma_mul_one(r.z as int);
    let k2 = dot_spec(r, n);
    assert(k2 == -k);
    lemma_mul_one(add_spec(k2, k2));
}

/// A vector and its negation have the same length.
pub proof fn lemma_length_neg(v: Vec3)
    requires
        v.wf(),
    ensures
        length_spec(vneg(v)) == length_spec(v),
{
    let w = vneg(v);
    assert(w.x * w.x == v.x * v.x) by (nonlinear_arith)
        requires w.x == -v.x, {}
    assert(w.y * w.y == v.y * v.y) by (nonlinear_arith)
        requires w.y == -v.y, {}
    assert(w.z * w.z == v.z * v.z) by (nonlinear_arith)
        requires w.z == -v.z, {}
}

} // verus!
