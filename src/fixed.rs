//! Fixed-point scalars: an `i128` holding `value * SCALE`, kept inside
//! `[-LIMIT, LIMIT]`. Products and quotients round toward negative infinity,
//! square roots to nearest, and every operation saturates at the ends of the
//! range.
use vstd::prelude::*;

verus! {

/// One unit in the fixed-point format.
pub const SCALE: i128 = 1099511627776;

/// Largest magnitude a scalar may hold.
pub const LIMIT: i128 = 72057594037927936;

pub open spec fn in_range(x: int) -> bool {
    -LIMIT <= x <= LIMIT
}

/// Saturates `x` into the range of the format.
pub open spec fn clamp(x: int) -> int {
    if x > LIMIT {
        LIMIT as int
    } else if x < -LIMIT {
        -LIMIT
    } else {
        x
    }
}

/// Quotient rounded toward negative infinity; zero for a zero divisor.
pub open spec fn floor_div(a: int, b: int) -> int {
    if b > 0 {
        a / b
    } else if b < 0 {
        (-a) / (-b)
    } else {
        0
    }
}

pub open spec fn add_spec(a: int, b: int) -> int {
    clamp(a + b)
}

pub open spec fn sub_spec(a: int, b: int) -> int {
    clamp(a - b)
}

pub open spec fn mul_spec(a: int, b: int) -> int {
    clamp(floor_div(a * b, SCALE as int))
}

pub open spec fn div_spec(a: int, b: int) -> int {
    clamp(floor_div(a * SCALE, b))
}

/// `r` is the integer square root of `n`.
pub open spec fn is_root(n: int, r: int) -> bool {
    0 <= r && r * r <= n && n < (r + 1) * (r + 1)
}

/// Twice the square root of `a` in the format, rounded down.
pub open spec fn double_root(a: int) -> int {
    choose|r: int| #[trigger] is_root(4 * (a * SCALE), r)
}

/// Square root in the format, rounded to nearest; zero for a value that is
/// not positive.
pub open spec fn sqrt_spec(a: int) -> int {
    if a <= 0 {
        0
    } else {
        (double_root(a) + 1) / 2
    }
}

pub open spec fn min_spec(a: int, b: int) -> int {
    if a <= b { a } else { b }
}

pub proof fn lemma_root_unique(n: int, r1: int, r2: int)
    requires
        is_root(n, r1),
        is_root(n, r2),
    ensures
        r1 == r2,
{
    if r1 < r2 {
        assert((r1 + 1) * (r1 + 1) <= r2 * r2) by (nonlinear_arith)
            requires 0 <= r1 + 1 <= r2, {}
    } else if r2 < r1 {
        assert((r2 + 1) * (r2 + 1) <= r1 * r1) by (nonlinear_arith)
            requires 0 <= r2 + 1 <= r1, {}
    }
}

/// A root is at least every `k >= 0` whose square is at most `n`.
pub proof fn lemma_root_ge(n: int, r: int, k: int)
    requires
        is_root(n, r),
        0 <= k,
        k * k <= n,
    ensures
        k <= r,
{
    if r < k {
        assert((r + 1) * (r + 1) <= k * k) by (nonlinear_arith)
            requires
                0 <= r + 1 <= k,
        {}
    }
}

/// Every natural number has an integer square root.
pub proof fn lemma_root_exists(n: int)
    requires
        n >= 0,
    ensures
        exists|r: int| #[trigger] is_root(n, r),
    decreases n,
{
    if n == 0 {
        assert(is_root(0, 0));
    } else {
        lemma_root_exists(n - 1);
        let r = choose|r: int| #[trigger] is_root(n - 1, r);
        if (r + 1) * (r + 1) == n {
            assert(is_root(n, r + 1)) by (nonlinear_arith)
                requires
                    r >= 0,
                    (r + 1) * (r + 1) == n,
            {}
        } else {
            assert(is_root(n, r));
        }
    }
}

/// The square root in the format never decreases as its argument grows.
pub proof fn lemma_sqrt_monotone(a: int, b: int)
    requires
        a <= b,
    ensures
        0 <= sqrt_spec(a) <= sqrt_spec(b),
{
    if b > 0 {
        lemma_root_exists(4 * (b * SCALE));
    }
    if a > 0 {
        lemma_root_exists(4 * (a * SCALE));
        assert(4 * (a * SCALE) <= 4 * (b * SCALE)) by (nonlinear_arith)
            requires a <= b, {}
        lemma_root_ge(4 * (b * SCALE), double_root(b), double_root(a));
    }
}

/// Quotient of `a` by a positive `b`, rounded toward negative infinity.
fn div_floor(a: i128, b: i128) -> (r: i128)
    requires
        b > 0,
    ensures
        r == a as int / b as int,
{
    if a >= 0 {
        a / b
    } else {
        let q = (-(a + 1)) / b;
        proof {
            let m: int = -(a as int + 1);
            let bb: int = b as int;
            let aa: int = a as int;
            assert(q as int == m / bb);
            assert(aa / bb == -(m / bb) - 1) by (nonlinear_arith)
                requires
                    m >= 0,
                    bb > 0,
                    aa == -m - 1,
            {
                let qq = m / bb;
                let rr = m % bb;
                assert(m == qq * bb + rr && 0 <= rr < bb);
                assert(aa == (-qq - 1) * bb + (bb - 1 - rr));
            }
        }
        -q - 1
    }
}

fn saturate(x: i128) -> (r: i128)
    ensures
        r == clamp(x as int),
{
    if x > LIMIT {
        LIMIT
    } else if x < -LIMIT {
        -LIMIT
    } else {
        x
    }
}

pub fn fx_add(a: i128, b: i128) -> (r: i128)
    requires
        in_range(a as int),
        in_range(b as int),
    ensures
        r == add_spec(a as int, b as int),
{
    saturate(a + b)
}

pub fn fx_sub(a: i128, b: i128) -> (r: i128)
    requires
        in_range(a as int),
        in_range(b as int),
    ensures
        r == sub_spec(a as int, b as int),
{
    saturate(a - b)
}

pub fn fx_mul(a: i128, b: i128) -> (r: i128)
    requires
        in_range(a as int),
        in_range(b as int),
    ensures
        r == mul_spec(a as int, b as int),
{
    assert(-0x10000000000000000000000000000 <= a * b <= 0x10000000000000000000000000000) by (nonlinear_arith)
        requires
            -0x100000000000000 <= a <= 0x100000000000000,
            -0x100000000000000 <= b <= 0x100000000000000,
    {}
    saturate(div_floor(a * b, SCALE))
}

pub fn fx_div(a: i128, b: i128) -> (r: i128)
    requires
        in_range(a as int),
        in_range(b as int),
        b != 0,
    ensures
        r == div_spec(a as int, b as int),
{
    let n = a * SCALE;
    if b > 0 {
        saturate(div_floor(n, b))
    } else {
        saturate(div_floor(-n, -b))
    }
}

pub fn fx_min(a: i128, b: i128) -> (r: i128)
    ensures
        r == min_spec(a as int, b as int),
{
    if a <= b { a } else { b }
}

pub fn fx_sqrt(a: i128) -> (r: i128)
    requires
        in_range(a as int),
    ensures
        r == sqrt_spec(a as int),
        0 <= r,
        in_range(r as int),
{
    if a <= 0 {
        return 0;
    }
    let n: i128 = 4 * (a * SCALE);
    let mut lo: i128 = 0;
    let mut hi: i128 = 0x4000000000000;
    assert(n < hi * hi);
    while hi - lo > 1
        invariant
            0 <= lo < hi <= 0x4000000000000,
            lo * lo <= n,
            n < hi * hi,
        decreases hi - lo,
    {
        let mid = lo + (hi - lo) / 2;
        assert(mid * mid <= 0x10000000000000000000000000) by (nonlinear_arith)
            requires 0 <= mid <= 0x4000000000000, {}
        if mid * mid <= n {
            lo = mid;
        } else {
            hi = mid;
        }
    }
    assert(is_root(4 * (a * SCALE), lo as int));
    proof {
        lemma_root_unique(n as int, lo as int, double_root(a as int));
    }
    (lo + 1) / 2
}

/// Division of a scalar by a positive whole number, rounded down.
pub fn fx_div_int(a: i128, n: i128) -> (r: i128)
    requires
        in_range(a as int),
        n > 0,
    ensures
        r == floor_div(a as int, n as int),
        in_range(r as int),
{
    let r = div_floor(a, n);
    assert(in_range(r as int)) by (nonlinear_arith)
        requires
            in_range(a as int),
            n > 0,
            r == a as int / n as int,
    {}
    r
}

} // verus!
