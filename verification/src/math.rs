//! Scalar fixed-point arithmetic: the number model of the renderer.
//!
//! A real number `r` is represented by the integer closest to `r * SCALE`
//! (rounding toward zero in all computed results). All derived operations
//! are specified exactly over mathematical integers.

use vstd::prelude::*;
use vstd::arithmetic::div_mod::*;
use vstd::arithmetic::mul::*;

verus! {

/// One whole unit of the fixed-point encoding.
pub const SCALE: i64 = 65536;

/// The circle constant pi, in fixed point.
pub const PI_FX: i64 = 205887;

/// Largest magnitude allowed for a world coordinate (about 4.2e6 units):
/// keeps every product of two coordinates, divided by `SCALE`, inside `i64`.
pub const COORD_LIMIT: i64 = 274877906944;

/// Largest magnitude for a direction treated as roughly unit length
/// (8 units): keeps reflection and refraction arithmetic inside `i64`.
pub const UNIT_LIMIT: i64 = 524288;

/// Largest ray parameter the intersection routines accept; stands in for
/// an unbounded upper range (about a million units along the ray).
pub const T_LIMIT: i64 = 68719476736;

/// Division rounded toward zero (the rounding every executable division
/// here performs); meaningful for a positive divisor.
pub open spec fn tzd(n: int, d: int) -> int {
    if n >= 0 {
        n / d
    } else {
        -((-n) / d)
    }
}

/// Product of two fixed-point numbers.
pub open spec fn fxm(a: int, b: int) -> int {
    tzd(a * b, SCALE as int)
}

/// Quotient of two fixed-point numbers; meaningful for positive `b`.
pub open spec fn fxd(a: int, b: int) -> int {
    tzd(a * (SCALE as int), b)
}

/// Integer square root, rounded down.
pub open spec fn isqrt(n: int) -> int
    decreases n,
{
    if n <= 0 {
        0
    } else {
        let r = isqrt(n - 1);
        if (r + 1) * (r + 1) <= n {
            r + 1
        } else {
            r
        }
    }
}

/// Clamping a value into a closed interval.
pub open spec fn s_clamp(x: int, lo: int, hi: int) -> int {
    if x <= lo {
        lo
    } else if x >= hi {
        hi
    } else {
        x
    }
}

/// `isqrt(n)` is the exact floor of the square root of `n`.
pub proof fn lemma_isqrt_bounds(n: int)
    requires
        n >= 0,
    ensures
        0 <= isqrt(n),
        isqrt(n) * isqrt(n) <= n,
        n < (isqrt(n) + 1) * (isqrt(n) + 1),
    decreases n,
{
    if n == 0 {
    } else {
        lemma_isqrt_bounds(n - 1);
        let r = isqrt(n - 1);
        if (r + 1) * (r + 1) <= n {
            assert(n - 1 < (r + 1) * (r + 1));
            assert(n < (r + 2) * (r + 2)) by (nonlinear_arith)
                requires
                    0 <= r,
                    n <= (r + 1) * (r + 1);
        }
    }
}

/// Any `r` with `r * r <= n < (r + 1) * (r + 1)` is `isqrt(n)`.
pub proof fn lemma_isqrt_unique(n: int, r: int)
    requires
        n >= 0,
        r >= 0,
        r * r <= n,
        n < (r + 1) * (r + 1),
    ensures
        r == isqrt(n),
{
    lemma_isqrt_bounds(n);
    let q = isqrt(n);
    if r < q {
        assert((r + 1) * (r + 1) <= q * q) by (nonlinear_arith)
            requires
                0 <= r,
                r < q;
    }
    if q < r {
        assert((q + 1) * (q + 1) <= r * r) by (nonlinear_arith)
            requires
                0 <= q,
                q < r;
    }
}

/// The square root never grows faster than its argument.
pub proof fn lemma_isqrt_monotonic(a: int, b: int)
    requires
        0 <= a <= b,
    ensures
        isqrt(a) <= isqrt(b),
{
    lemma_isqrt_bounds(a);
    lemma_isqrt_bounds(b);
    if isqrt(b) < isqrt(a) {
        assert((isqrt(b) + 1) * (isqrt(b) + 1) <= isqrt(a) * isqrt(a)) by (nonlinear_arith)
            requires
                0 <= isqrt(b),
                isqrt(b) < isqrt(a);
    }
}

/// Bound on a truncated quotient from a bound on the dividend.
pub proof fn lemma_tzd_range(n: int, d: int, m: int)
    requires
        d > 0,
        -m <= n,
        n <= m,
    ensures
        -(m / d) <= tzd(n, d),
        tzd(n, d) <= m / d,
{
    if n >= 0 {
        lemma_div_is_ordered(n, m, d);
        lemma_div_pos_is_pos(n, d);
        assert(m / d >= 0) by {
            lemma_div_pos_is_pos(m, d);
        }
    } else {
        lemma_div_is_ordered(-n, m, d);
        lemma_div_pos_is_pos(-n, d);
        assert(m / d >= 0) by {
            lemma_div_pos_is_pos(m, d);
        }
    }
}

/// Bound on a product from bounds on its factors.
pub proof fn lemma_mul_range(a: int, b: int, m: int, k: int)
    requires
        -m <= a <= m,
        -k <= b <= k,
        0 <= m,
        0 <= k,
    ensures
        -(m * k) <= a * b,
        a * b <= m * k,
{
    assert(-(m * k) <= a * b && a * b <= m * k) by (nonlinear_arith)
        requires
            -m <= a <= m,
            -k <= b <= k,
            0 <= m,
            0 <= k;
}

/// Bound on a fixed product from bounds on its factors.
pub proof fn lemma_fxm_range(a: int, b: int, m: int, k: int)
    requires
        -m <= a <= m,
        -k <= b <= k,
        0 <= m,
        0 <= k,
    ensures
        -((m * k) / (SCALE as int)) <= fxm(a, b),
        fxm(a, b) <= (m * k) / (SCALE as int),
{
    lemma_mul_range(a, b, m, k);
    lemma_tzd_range(a * b, SCALE as int, m * k);
}

/// Truncating division is exact on multiples of the divisor.
pub proof fn lemma_tzd_exact(q: int, d: int)
    requires
        d > 0,
    ensures
        tzd(q * d, d) == q,
{
    if q * d >= 0 {
        lemma_div_multiples_vanish(q, d);
        assert(q * d == d * q) by (nonlinear_arith);
    } else {
        lemma_div_multiples_vanish(-q, d);
        assert(-(q * d) == d * (-q)) by (nonlinear_arith);
    }
}

/// A fixed product of values within `[-m, m]` and `[-k, k]` lies within
/// `[-q, q]` whenever `m * k <= q * SCALE`.
pub proof fn lemma_fxm_in(a: int, b: int, m: int, k: int, q: int)
    requires
        -m <= a <= m,
        -k <= b <= k,
        0 <= m,
        0 <= k,
        m * k <= q * 65536,
    ensures
        -q <= fxm(a, b) <= q,
{
    lemma_mul_range(a, b, m, k);
    lemma_tzd_range(a * b, SCALE as int, q * 65536);
    lemma_div_by_multiple(q, 65536);
}

/// A truncated quotient of a value within `[-m, m]` by `d` lies within
/// `[-q, q]` whenever `m <= q * d`.
pub proof fn lemma_tzd_in(n: int, d: int, m: int, q: int)
    requires
        d > 0,
        -m <= n <= m,
        0 <= q,
        m <= q * d,
    ensures
        -q <= tzd(n, d),
        tzd(n, d) <= q,
{
    lemma_tzd_range(n, d, q * d);
    lemma_div_by_multiple(q, d);
}

/// Division toward zero on wide integers.
pub(crate) fn tzd_i128(n: i128, d: i128) -> (r: i128)
    requires
        d > 0,
        n > i128::MIN,
    ensures
        r == tzd(n as int, d as int),
{
    if n >= 0 {
        let q: u128 = (n as u128) / (d as u128);
        proof {
            lemma_div_pos_is_pos(n as int, d as int);
            lemma_div_nonincreasing(n as int, d as int);
        }
        q as i128
    } else {
        let q: u128 = ((-n) as u128) / (d as u128);
        proof {
            lemma_div_pos_is_pos(-n as int, d as int);
            lemma_div_nonincreasing(-n as int, d as int);
        }
        -(q as i128)
    }
}

/// Division toward zero on machine integers; the divisor must be
/// positive.
pub fn tzd_i64(n: i64, d: i64) -> (r: i64)
    requires
        d > 0,
    ensures
        r == tzd(n as int, d as int),
{
    proof {
        let m: int = if n >= 0 {
            n as int
        } else {
            -n as int
        };
        lemma_tzd_range(n as int, d as int, m);
        lemma_div_pos_is_pos(m, d as int);
        lemma_div_nonincreasing(m, d as int);
    }
    let q: i128 = tzd_i128(n as i128, d as i128);
    q as i64
}

/// Fixed-point product, exact per `fxm`.
pub fn fx_mul(a: i64, b: i64) -> (r: i64)
    requires
        i64::MIN <= fxm(a as int, b as int) <= i64::MAX,
    ensures
        r == fxm(a as int, b as int),
{
    let p: i128 = (a as i128) * (b as i128);
    let q: i128 = tzd_i128(p, SCALE as i128);
    q as i64
}

/// Fixed-point quotient, exact per `fxd`; the divisor must be positive.
pub fn fx_div(a: i64, b: i64) -> (r: i64)
    requires
        b > 0,
        i64::MIN <= fxd(a as int, b as int) <= i64::MAX,
    ensures
        r == fxd(a as int, b as int),
{
    let p: i128 = (a as i128) * (SCALE as i128);
    let q: i128 = tzd_i128(p, b as i128);
    q as i64
}

/// Integer square root on wide unsigned integers, by bisection.
pub(crate) fn isqrt_u128(n: u128) -> (r: u128)
    ensures
        r == isqrt(n as int),
{
    let mut lo: u128 = 0;
    let mut hi: u128 = 18446744073709551616;
    proof {
        assert((hi as int) * (hi as int) > n as int) by (nonlinear_arith)
            requires
                hi == 18446744073709551616u128,
                n <= u128::MAX;
    }
    while lo + 1 < hi
        invariant
            0 <= lo < hi,
            hi <= 18446744073709551616,
            (lo as int) * (lo as int) <= n as int,
            (n as int) < (hi as int) * (hi as int),
        decreases hi - lo,
    {
        let mid: u128 = lo + (hi - lo) / 2;
        assert(lo < mid < hi);
        assert((mid as int) * (mid as int) < 0x100000000000000000000000000000000) by (nonlinear_arith)
            requires
                0 <= (mid as int) < 18446744073709551616;
        if mid * mid <= n {
            lo = mid;
        } else {
            hi = mid;
        }
    }
    proof {
        lemma_isqrt_unique(n as int, lo as int);
    }
    lo
}

/// Fixed-point square root: `isqrt` of the argument rescaled so that the
/// result is again in fixed point.
pub fn fx_sqrt(a: i64) -> (r: i64)
    requires
        a >= 0,
    ensures
        r == isqrt(a as int * (SCALE as int)),
        0 <= r,
        r * r <= a as int * (SCALE as int),
{
    proof {
        lemma_mul_range(a as int, SCALE as int, i64::MAX as int, SCALE as int);
    }
    let n: u128 = (a as u128) * (SCALE as u128);
    let r: u128 = isqrt_u128(n);
    proof {
        lemma_isqrt_bounds(n as int);
        assert(n as int == (a as int) * (SCALE as int));
        assert((r as int) < 1099511627776) by (nonlinear_arith)
            requires
                0 <= r as int,
                (r as int) * (r as int) <= n as int,
                n as int <= 604462909807314587353088int;
    }
    r as i64
}

/// Clamp a value into `[lo, hi]`.
pub fn clamp(x: i64, min: i64, max: i64) -> (r: i64)
    ensures
        r == s_clamp(x as int, min as int, max as int),
{
    if x <= min {
        min
    } else if x >= max {
        max
    } else {
        x
    }
}

/// Angle conversion: degrees (fixed point) to radians (fixed point).
pub fn degrees_to_radians(degrees: i64) -> (r: i64)
    requires
        -COORD_LIMIT <= degrees <= COORD_LIMIT,
    ensures
        r == tzd(degrees as int * (PI_FX as int), 180 * (SCALE as int)),
{
    let p: i128 = (degrees as i128) * (PI_FX as i128);
    let q: i128 = tzd_i128(p, 180 * (SCALE as i128));
    proof {
        lemma_mul_range(degrees as int, PI_FX as int, COORD_LIMIT as int, PI_FX as int);
        lemma_tzd_range(p as int, 180 * (SCALE as int), COORD_LIMIT as int * (PI_FX as int));
    }
    q as i64
}

/// Relies on `rand::Rng::gen_range` over an integer range, via
/// `rand::thread_rng`: a draw from `[lo, hi)`; panics only on an empty
/// range, which the precondition excludes.
#[verifier::external_body]
fn rand_in(lo: i64, hi: i64) -> (r: i64)
    requires
        lo < hi,
    ensures
        lo <= r < hi,
{
    rand::Rng::gen_range(&mut rand::thread_rng(), lo..hi)
}

/// A uniform draw from `[0, 1)`, in fixed point.
pub fn random() -> (r: i64)
    ensures
        0 <= r < SCALE,
{
    rand_in(0, SCALE)
}

/// A uniform draw from `[min, max)` (returns `min` when the interval is
/// empty), in fixed point.
pub fn random_clamped(min: i64, max: i64) -> (r: i64)
    requires
        min <= max,
        -COORD_LIMIT <= min,
        max <= COORD_LIMIT,
    ensures
        min <= r <= max,
        min < max ==> r < max,
        exists|u: int| 0 <= u < SCALE && r == min + #[trigger] fxm((max - min) as int, u),
{
    if min == max {
        proof {
            lemma_div_of0(SCALE as int);
            assert(min as int + fxm((max - min) as int, 0) == min);
        }
        return min;
    }
    let u = random();
    let w = max - min;
    proof {
        let wi = w as int;
        let ui = u as int;
        let si = SCALE as int;
        assert(wi * ui >= 0) by (nonlinear_arith)
            requires
                wi >= 0,
                ui >= 0;
        lemma_div_pos_is_pos(wi * ui, si);
        assert(wi * ui <= wi * si - 1) by (nonlinear_arith)
            requires
                1 <= wi,
                0 <= ui <= si - 1,
                0 < si;
        assert((wi - 1) * si + (si - 1) == wi * si - 1) by (nonlinear_arith);
        lemma_fundamental_div_mod_converse_div(wi * si - 1, si, wi - 1, si - 1);
        lemma_div_is_ordered(wi * ui, wi * si - 1, si);
        assert(fxm(wi, ui) <= wi - 1);
    }
    let d = fx_mul(w, u);
    min + d
}

/// Schlick's polynomial approximation of the Fresnel reflection
/// coefficient, in fixed point.
pub open spec fn s_reflectance(cos_theta: int, ratio: int) -> int {
    let d = fxd(SCALE as int - ratio, SCALE as int + ratio);
    let r0 = fxm(d, d);
    let b = SCALE as int - cos_theta;
    let b2 = fxm(b, b);
    let b4 = fxm(b2, b2);
    let b5 = fxm(b4, b);
    r0 + fxm(SCALE as int - r0, b5)
}

/// A fixed product of nonnegative numbers is nonnegative.
pub proof fn lemma_fxm_nonneg(a: int, b: int)
    requires
        0 <= a,
        0 <= b,
    ensures
        0 <= fxm(a, b),
{
    assert(a * b >= 0) by (nonlinear_arith)
        requires
            0 <= a,
            0 <= b;
    lemma_div_pos_is_pos(a * b, SCALE as int);
}

/// Schlick's reflectance, computed exactly per `s_reflectance`.
pub fn reflectance(cos_theta: i64, refraction_index: i64) -> (r: i64)
    requires
        -SCALE <= cos_theta <= SCALE,
        0 < refraction_index <= 16 * SCALE,
    ensures
        r == s_reflectance(cos_theta as int, refraction_index as int),
        0 <= r <= 33 * (SCALE as int),
{
    let si = SCALE;
    let denom = si + refraction_index;
    proof {
        let num = (si - refraction_index) as int * (si as int);
        let dd = denom as int;
        lemma_mul_range(si as int - refraction_index, si as int, dd - 1, si as int);
        assert((dd - 1) * (si as int) <= dd * (si as int) - 1) by (nonlinear_arith)
            requires
                dd >= 1,
                si == 65536i64;
        assert(dd * (si as int) - 1 == (si as int - 1) * dd + (dd - 1)) by (nonlinear_arith);
        lemma_fundamental_div_mod_converse_div(dd * (si as int) - 1, dd, si as int - 1, dd - 1);
        lemma_tzd_range(num, dd, dd * (si as int) - 1);
        lemma_div_is_ordered(
            if num >= 0 { num } else { -num },
            dd * (si as int) - 1,
            dd,
        );
    }
    let d = fx_div(si - refraction_index, denom);
    proof {
        lemma_fxm_range(d as int, d as int, SCALE as int, SCALE as int);
        lemma_fxm_nonneg(if d >= 0 { d as int } else { -d as int }, if d >= 0 { d as int } else { -d as int });
        assert(d as int * (d as int) >= 0) by (nonlinear_arith);
        lemma_div_pos_is_pos(d as int * (d as int), SCALE as int);
    }
    let r0 = fx_mul(d, d);
    let b = si - cos_theta;
    proof {
        lemma_fxm_range(b as int, b as int, 2 * (SCALE as int), 2 * (SCALE as int));
        lemma_fxm_nonneg(b as int, b as int);
    }
    let b2 = fx_mul(b, b);
    proof {
        lemma_fxm_range(b2 as int, b2 as int, 4 * (SCALE as int), 4 * (SCALE as int));
        lemma_fxm_nonneg(b2 as int, b2 as int);
    }
    let b4 = fx_mul(b2, b2);
    proof {
        lemma_fxm_range(b4 as int, b as int, 16 * (SCALE as int), 2 * (SCALE as int));
        lemma_fxm_nonneg(b4 as int, b as int);
    }
    let b5 = fx_mul(b4, b);
    proof {
        lemma_fxm_range(si as int - r0 as int, b5 as int, SCALE as int, 32 * (SCALE as int));
        lemma_fxm_nonneg(si as int - r0 as int, b5 as int);
    }
    r0 + fx_mul(si - r0, b5)
}

} // verus!
