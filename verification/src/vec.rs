//! Three-component vectors over fixed-point scalars: points, directions
//! and colors, with exact contracts for every operation.

use vstd::prelude::*;
use vstd::arithmetic::div_mod::*;
use crate::math::{
    SCALE, COORD_LIMIT, UNIT_LIMIT, tzd, fxm, fxd, isqrt, fx_mul, fx_div, fx_sqrt,
    random_clamped, lemma_mul_range, lemma_tzd_range, lemma_fxm_range, lemma_isqrt_bounds,
    lemma_isqrt_unique, lemma_isqrt_monotonic,
};

verus! {

/// A vector of three fixed-point components.
#[derive(Clone, Copy, PartialEq, Eq, Structural, Debug)]
pub struct Vec3 {
    pub x: i64,
    pub y: i64,
    pub z: i64,
}

impl View for Vec3 {
    type V = (int, int, int);

    open spec fn view(&self) -> (int, int, int) {
        (self.x as int, self.y as int, self.z as int)
    }
}

/// Every component within `[-b, b]`.
pub open spec fn s_in(a: (int, int, int), b: int) -> bool {
    &&& -b <= a.0 <= b
    &&& -b <= a.1 <= b
    &&& -b <= a.2 <= b
}

/// Component-wise sum.
pub open spec fn s_add(a: (int, int, int), b: (int, int, int)) -> (int, int, int) {
    (a.0 + b.0, a.1 + b.1, a.2 + b.2)
}

/// Component-wise negation.
pub open spec fn s_neg(a: (int, int, int)) -> (int, int, int) {
    (-a.0, -a.1, -a.2)
}

/// Component-wise difference.
pub open spec fn s_sub(a: (int, int, int), b: (int, int, int)) -> (int, int, int) {
    s_add(a, s_neg(b))
}

/// Component-wise fixed-point product (color mixing, attenuation).
pub open spec fn s_mul(a: (int, int, int), b: (int, int, int)) -> (int, int, int) {
    (fxm(a.0, b.0), fxm(a.1, b.1), fxm(a.2, b.2))
}

/// Scaling by a fixed-point scalar.
pub open spec fn s_scale(a: (int, int, int), k: int) -> (int, int, int) {
    (fxm(a.0, k), fxm(a.1, k), fxm(a.2, k))
}

/// Dot product: the products are summed at double scale, then brought
/// back to fixed point by one truncating division.
pub open spec fn s_dot(a: (int, int, int), b: (int, int, int)) -> int {
    tzd(a.0 * b.0 + a.1 * b.1 + a.2 * b.2, SCALE as int)
}

/// Squared Euclidean length.
pub open spec fn s_ls(a: (int, int, int)) -> int {
    s_dot(a, a)
}

/// Euclidean length: the square root at fixed-point scale.
pub open spec fn s_len(a: (int, int, int)) -> int {
    isqrt(s_ls(a) * (SCALE as int))
}

/// Normalization to (approximately) unit length.
pub open spec fn s_unit(a: (int, int, int)) -> (int, int, int) {
    let l = s_len(a);
    (fxd(a.0, l), fxd(a.1, l), fxd(a.2, l))
}

/// Cross product.
pub open spec fn s_cross(a: (int, int, int), b: (int, int, int)) -> (int, int, int) {
    (
        fxm(a.1, b.2) - fxm(a.2, b.1),
        fxm(a.2, b.0) - fxm(a.0, b.2),
        fxm(a.0, b.1) - fxm(a.1, b.0),
    )
}

/// Reflection of `v` about the normal `n`: `v - 2 (v . n) n`.
pub open spec fn s_reflect(v: (int, int, int), n: (int, int, int)) -> (int, int, int) {
    s_sub(v, s_scale(n, 2 * s_dot(v, n)))
}

/// Refraction of the unit direction `v` at a surface with normal `n` and
/// index ratio `ratio`, by Snell's law split into perpendicular and
/// parallel parts.
pub open spec fn s_refract(v: (int, int, int), n: (int, int, int), ratio: int) -> (int, int, int) {
    let cos_theta = vstd::math::min(s_dot(s_neg(v), n), SCALE as int);
    let perpendicular = s_scale(s_add(s_scale(n, cos_theta), v), ratio);
    let coefficient = isqrt(vstd::math::abs(SCALE as int - s_ls(perpendicular)) * (SCALE as int));
    s_add(perpendicular, s_scale(n, -coefficient))
}

/// The near-zero test: the tolerance of one part in 1e8 lies below one
/// fixed-point step, so only the zero component passes it.
pub open spec fn s_near_zero(a: (int, int, int)) -> bool {
    a == (0int, 0int, 0int)
}

/// A possible draw of the rejection sampler for the unit ball.
pub open spec fn is_ball_sample(w: (int, int, int)) -> bool {
    &&& s_in(w, SCALE as int)
    &&& 0 < s_ls(w) < SCALE as int
}

/// A possible draw of the rejection sampler for the unit disk.
pub open spec fn is_disk_sample(w: (int, int, int)) -> bool {
    &&& is_ball_sample(w)
    &&& w.2 == 0
}

impl Vec3 {
    pub fn new(x: i64, y: i64, z: i64) -> (r: Vec3)
        ensures
            r@ == (x as int, y as int, z as int),
    {
        Vec3 { x, y, z }
    }

    pub fn add(&self, other: &Vec3) -> (r: Vec3)
        requires
            i64::MIN <= self@.0 + other@.0 <= i64::MAX,
            i64::MIN <= self@.1 + other@.1 <= i64::MAX,
            i64::MIN <= self@.2 + other@.2 <= i64::MAX,
        ensures
            r@ == s_add(self@, other@),
    {
        Vec3 { x: self.x + other.x, y: self.y + other.y, z: self.z + other.z }
    }

    pub fn neg(&self) -> (r: Vec3)
        requires
            i64::MIN < self@.0,
            i64::MIN < self@.1,
            i64::MIN < self@.2,
        ensures
            r@ == s_neg(self@),
    {
        Vec3 { x: -self.x, y: -self.y, z: -self.z }
    }

    pub fn sub(&self, other: &Vec3) -> (r: Vec3)
        requires
            i64::MIN < other@.0,
            i64::MIN < other@.1,
            i64::MIN < other@.2,
            i64::MIN <= self@.0 - other@.0 <= i64::MAX,
            i64::MIN <= self@.1 - other@.1 <= i64::MAX,
            i64::MIN <= self@.2 - other@.2 <= i64::MAX,
        ensures
            r@ == s_sub(self@, other@),
    {
        let other_neg = other.neg();
        self.add(&other_neg)
    }

    pub fn mul(&self, other: &Vec3) -> (r: Vec3)
        requires
            s_in(self@, COORD_LIMIT as int),
            s_in(other@, COORD_LIMIT as int),
        ensures
            r@ == s_mul(self@, other@),
    {
        proof {
            lemma_coord_fxm(self@.0, other@.0);
            lemma_coord_fxm(self@.1, other@.1);
            lemma_coord_fxm(self@.2, other@.2);
        }
        Vec3 {
            x: fx_mul(self.x, other.x),
            y: fx_mul(self.y, other.y),
            z: fx_mul(self.z, other.z),
        }
    }

    pub fn scale(&self, scalar: i64) -> (r: Vec3)
        requires
            s_in(self@, COORD_LIMIT as int),
            -COORD_LIMIT <= scalar <= COORD_LIMIT,
        ensures
            r@ == s_scale(self@, scalar as int),
    {
        proof {
            lemma_coord_fxm(self@.0, scalar as int);
            lemma_coord_fxm(self@.1, scalar as int);
            lemma_coord_fxm(self@.2, scalar as int);
        }
        Vec3 {
            x: fx_mul(self.x, scalar),
            y: fx_mul(self.y, scalar),
            z: fx_mul(self.z, scalar),
        }
    }

    pub fn dot(&self, other: &Vec3) -> (r: i64)
        requires
            s_in(self@, COORD_LIMIT as int),
            s_in(other@, COORD_LIMIT as int),
        ensures
            r == s_dot(self@, other@),
    {
        proof {
            lemma_dot_fits(self@, other@);
        }
        let p: i128 = (self.x as i128) * (other.x as i128) + (self.y as i128) * (other.y as i128)
            + (self.z as i128) * (other.z as i128);
        let q: i128 = crate::math::tzd_i128(p, SCALE as i128);
        q as i64
    }

    pub fn length_squared(&self) -> (r: i64)
        requires
            s_in(self@, COORD_LIMIT as int),
        ensures
            r == s_ls(self@),
            r >= 0,
    {
        proof {
            lemma_ls_nonneg(self@);
        }
        self.dot(self)
    }

    pub fn len(&self) -> (r: i64)
        requires
            s_in(self@, COORD_LIMIT as int),
        ensures
            r == s_len(self@),
            r >= 0,
    {
        let l = self.length_squared();
        fx_sqrt(l)
    }

    pub fn unit(&self) -> (r: Vec3)
        requires
            s_in(self@, COORD_LIMIT as int),
            s_ls(self@) >= 1,
        ensures
            r@ == s_unit(self@),
            s_in(r@, 2 * (SCALE as int)),
    {
        let length = self.len();
        proof {
            lemma_unit_bounds(self@);
        }
        Vec3 {
            x: fx_div(self.x, length),
            y: fx_div(self.y, length),
            z: fx_div(self.z, length),
        }
    }

    pub fn cross(&self, other: &Vec3) -> (r: Vec3)
        requires
            s_in(self@, COORD_LIMIT as int),
            s_in(other@, COORD_LIMIT as int),
        ensures
            r@ == s_cross(self@, other@),
    {
        proof {
            lemma_coord_fxm(self@.1, other@.2);
            lemma_coord_fxm(self@.2, other@.1);
            lemma_coord_fxm(self@.2, other@.0);
            lemma_coord_fxm(self@.0, other@.2);
            lemma_coord_fxm(self@.0, other@.1);
            lemma_coord_fxm(self@.1, other@.0);
        }
        Vec3 {
            x: fx_mul(self.y, other.z) - fx_mul(self.z, other.y),
            y: fx_mul(self.z, other.x) - fx_mul(self.x, other.z),
            z: fx_mul(self.x, other.y) - fx_mul(self.y, other.x),
        }
    }

    pub fn clone(&self) -> (r: Vec3)
        ensures
            r == *self,
    {
        Vec3 { x: self.x, y: self.y, z: self.z }
    }

    /// Map a scalar function over the three components (used for gamma
    /// correction and clamping).
    pub fn apply<R: Fn(i64) -> i64>(&self, fun: R) -> (r: Vec3)
        requires
            call_requires(fun, (self.x,)),
            call_requires(fun, (self.y,)),
            call_requires(fun, (self.z,)),
        ensures
            call_ensures(fun, (self.x,), r.x),
            call_ensures(fun, (self.y,), r.y),
            call_ensures(fun, (self.z,), r.z),
    {
        let x = fun(self.x);
        let y = fun(self.y);
        let z = fun(self.z);
        Vec3 { x, y, z }
    }

    pub fn reflect(&self, other: &Vec3) -> (r: Vec3)
        requires
            s_in(self@, UNIT_LIMIT as int),
            s_in(other@, UNIT_LIMIT as int),
        ensures
            r@ == s_reflect(self@, other@),
    {
        proof {
            lemma_unit_dot_small(self@, other@);
        }
        let d = self.dot(other);
        let scaled = other.scale(2 * d);
        proof {
            lemma_fxm_range(other@.0, 2 * d as int, UNIT_LIMIT as int, 25165824);
            lemma_fxm_range(other@.1, 2 * d as int, UNIT_LIMIT as int, 25165824);
            lemma_fxm_range(other@.2, 2 * d as int, UNIT_LIMIT as int, 25165824);
        }
        self.sub(&scaled)
    }

    pub fn refract(&self, normal: &Vec3, etai_over_etat: i64) -> (r: Vec3)
        requires
            s_in(self@, UNIT_LIMIT as int),
            s_in(normal@, UNIT_LIMIT as int),
            0 < etai_over_etat <= 64 * (SCALE as int),
        ensures
            r@ == s_refract(self@, normal@, etai_over_etat as int),
    {
        proof {
            lemma_unit_dot_small(s_neg(self@), normal@);
        }
        let self_neg = self.neg();
        let d = self_neg.dot(normal);
        let cos_theta = if d < SCALE { d } else { SCALE };
        let scaled_normal = normal.scale(cos_theta);
        proof {
            lemma_fxm_range(normal@.0, cos_theta as int, UNIT_LIMIT as int, 12582912);
            lemma_fxm_range(normal@.1, cos_theta as int, UNIT_LIMIT as int, 12582912);
            lemma_fxm_range(normal@.2, cos_theta as int, UNIT_LIMIT as int, 12582912);
        }
        let shifted = scaled_normal.add(self);
        let perpendicular = shifted.scale(etai_over_etat);
        proof {
            lemma_fxm_range(shifted@.0, etai_over_etat as int, 101187584, 4194304);
            lemma_fxm_range(shifted@.1, etai_over_etat as int, 101187584, 4194304);
            lemma_fxm_range(shifted@.2, etai_over_etat as int, 101187584, 4194304);
            lemma_ls_range(perpendicular@, 6476005376);
        }
        let pls = perpendicular.length_squared();
        let gap = if SCALE >= pls { SCALE - pls } else { pls - SCALE };
        let coefficient = fx_sqrt(gap);
        proof {
            lemma_isqrt_bounds(gap as int * (SCALE as int));
            assert(coefficient as int <= COORD_LIMIT as int) by (nonlinear_arith)
                requires
                    0 <= coefficient as int,
                    (coefficient as int) * (coefficient as int) <= gap as int * (SCALE as int),
                    0 <= gap as int <= 3 * 6476005376int * 6476005376int / 65536;
            assert(vstd::math::abs(SCALE as int - pls as int) == gap as int);
            lemma_fxm_range(normal@.0, -coefficient as int, UNIT_LIMIT as int, COORD_LIMIT as int);
            lemma_fxm_range(normal@.1, -coefficient as int, UNIT_LIMIT as int, COORD_LIMIT as int);
            lemma_fxm_range(normal@.2, -coefficient as int, UNIT_LIMIT as int, COORD_LIMIT as int);
        }
        let parallel = normal.scale(-coefficient);
        perpendicular.add(&parallel)
    }

    /// The zero test with the absolute tolerance of the contract: below
    /// one fixed-point step, hence exact zero.
    pub fn near_zero(v: &Vec3) -> (r: bool)
        ensures
            r == s_near_zero(v@),
    {
        v.x == 0 && v.y == 0 && v.z == 0
    }

    /// A vector on the unit sphere surface: a ball sample, normalized.
    pub fn random_unit_vector() -> (r: Vec3)
        ensures
            exists|w: (int, int, int)| is_ball_sample(w) && r@ == s_unit(w),
            s_in(r@, 2 * (SCALE as int)),
    {
        let v = Vec3::random_in_unit_sphere();
        let u = v.unit();
        proof {
            assert(is_ball_sample(v@) && u@ == s_unit(v@));
        }
        u
    }

    /// Rejection sampling inside the unit ball: draw each component
    /// uniformly, keep the first draw that falls strictly inside (the
    /// zero vector is also rejected, since normalization cannot take it).
    /// The retry count is bounded only so that termination is provable;
    /// at about half acceptance per draw the fallback is unreachable in
    /// practice.
    pub fn random_in_unit_sphere() -> (r: Vec3)
        ensures
            is_ball_sample(r@),
    {
        let mut tries: u32 = 0;
        while tries < 100000
            decreases 100000 - tries,
        {
            let v = Vec3::new(
                random_clamped(-SCALE, SCALE),
                random_clamped(-SCALE, SCALE),
                random_clamped(-SCALE, SCALE),
            );
            let l = v.length_squared();
            if 0 < l && l < SCALE {
                return v;
            }
            tries = tries + 1;
        }
        let fallback = Vec3::new(SCALE / 2, 0, 0);
        proof {
            lemma_fallback_sample();
        }
        fallback
    }

    /// Rejection sampling inside the unit disk in the z = 0 plane, for
    /// lens-aperture draws; bounded as `random_in_unit_sphere` is.
    pub fn random_in_unit_disk() -> (r: Vec3)
        ensures
            is_disk_sample(r@),
    {
        let mut tries: u32 = 0;
        while tries < 100000
            decreases 100000 - tries,
        {
            let v = Vec3::new(
                random_clamped(-SCALE, SCALE),
                random_clamped(-SCALE, SCALE),
                0,
            );
            let l = v.length_squared();
            if 0 < l && l < SCALE {
                return v;
            }
            tries = tries + 1;
        }
        let fallback = Vec3::new(SCALE / 2, 0, 0);
        proof {
            lemma_fallback_sample();
        }
        fallback
    }
}

/// A product of two coordinates, rescaled, stays in `i64`.
proof fn lemma_coord_fxm(a: int, b: int)
    requires
        -COORD_LIMIT <= a <= COORD_LIMIT,
        -COORD_LIMIT <= b <= COORD_LIMIT,
    ensures
        -(COORD_LIMIT as int) * (COORD_LIMIT as int) / (SCALE as int) <= fxm(a, b),
        fxm(a, b) <= (COORD_LIMIT as int) * (COORD_LIMIT as int) / (SCALE as int),
        i64::MIN <= fxm(a, b) <= i64::MAX,
{
    lemma_fxm_range(a, b, COORD_LIMIT as int, COORD_LIMIT as int);
}

/// The dot-product accumulator fits double-width integers and its
/// rescaled value fits `i64`.
proof fn lemma_dot_fits(a: (int, int, int), b: (int, int, int))
    requires
        s_in(a, COORD_LIMIT as int),
        s_in(b, COORD_LIMIT as int),
    ensures
        -3 * (COORD_LIMIT as int) * (COORD_LIMIT as int) <= a.0 * b.0 + a.1 * b.1 + a.2 * b.2,
        a.0 * b.0 + a.1 * b.1 + a.2 * b.2 <= 3 * (COORD_LIMIT as int) * (COORD_LIMIT as int),
        -(COORD_LIMIT as int) * (COORD_LIMIT as int) <= a.0 * b.0 <= (COORD_LIMIT as int) * (COORD_LIMIT as int),
        -(COORD_LIMIT as int) * (COORD_LIMIT as int) <= a.1 * b.1 <= (COORD_LIMIT as int) * (COORD_LIMIT as int),
        -(COORD_LIMIT as int) * (COORD_LIMIT as int) <= a.2 * b.2 <= (COORD_LIMIT as int) * (COORD_LIMIT as int),
        i64::MIN <= s_dot(a, b) <= i64::MAX,
{
    lemma_mul_range(a.0, b.0, COORD_LIMIT as int, COORD_LIMIT as int);
    lemma_mul_range(a.1, b.1, COORD_LIMIT as int, COORD_LIMIT as int);
    lemma_mul_range(a.2, b.2, COORD_LIMIT as int, COORD_LIMIT as int);
    lemma_tzd_range(
        a.0 * b.0 + a.1 * b.1 + a.2 * b.2,
        SCALE as int,
        3 * (COORD_LIMIT as int) * (COORD_LIMIT as int),
    );
    lemma_div_is_ordered(
        3 * (COORD_LIMIT as int) * (COORD_LIMIT as int),
        3 * (COORD_LIMIT as int) * (COORD_LIMIT as int),
        SCALE as int,
    );
    assert(3 * (COORD_LIMIT as int) * (COORD_LIMIT as int) / (SCALE as int) < i64::MAX);
}

/// A squared length is nonnegative.
proof fn lemma_ls_nonneg(a: (int, int, int))
    ensures
        s_ls(a) >= 0,
        a.0 * a.0 + a.1 * a.1 + a.2 * a.2 >= 0,
{
    assert(a.0 * a.0 >= 0) by (nonlinear_arith);
    assert(a.1 * a.1 >= 0) by (nonlinear_arith);
    assert(a.2 * a.2 >= 0) by (nonlinear_arith);
    lemma_div_pos_is_pos(a.0 * a.0 + a.1 * a.1 + a.2 * a.2, SCALE as int);
}

/// The squared length of a vector with bounded components.
pub proof fn lemma_ls_range(a: (int, int, int), m: int)
    requires
        s_in(a, m),
        0 <= m,
    ensures
        0 <= s_ls(a),
        s_ls(a) <= 3 * m * m / (SCALE as int),
{
    lemma_mul_range(a.0, a.0, m, m);
    lemma_mul_range(a.1, a.1, m, m);
    lemma_mul_range(a.2, a.2, m, m);
    lemma_ls_nonneg(a);
    assert(m * m >= 0) by (nonlinear_arith)
        requires
            m >= 0;
    assert(3 * m * m == m * m + m * m + m * m) by (nonlinear_arith);
    lemma_tzd_range(a.0 * a.0 + a.1 * a.1 + a.2 * a.2, SCALE as int, 3 * m * m);
}

/// The dot product of two bounded vectors is bounded.
pub proof fn lemma_dot_range(a: (int, int, int), b: (int, int, int), m: int, k: int)
    requires
        s_in(a, m),
        s_in(b, k),
        0 <= m,
        0 <= k,
    ensures
        -(3 * m * k / (SCALE as int)) <= s_dot(a, b),
        s_dot(a, b) <= 3 * m * k / (SCALE as int),
{
    lemma_mul_range(a.0, b.0, m, k);
    lemma_mul_range(a.1, b.1, m, k);
    lemma_mul_range(a.2, b.2, m, k);
    assert(3 * m * k == m * k + m * k + m * k) by (nonlinear_arith);
    lemma_tzd_range(a.0 * b.0 + a.1 * b.1 + a.2 * b.2, SCALE as int, 3 * m * k);
}

/// Dot products of near-unit vectors are small.
proof fn lemma_unit_dot_small(a: (int, int, int), b: (int, int, int))
    requires
        s_in(a, UNIT_LIMIT as int),
        s_in(b, UNIT_LIMIT as int),
    ensures
        -(3 * (UNIT_LIMIT as int) * (UNIT_LIMIT as int) / (SCALE as int)) <= s_dot(a, b),
        s_dot(a, b) <= 3 * (UNIT_LIMIT as int) * (UNIT_LIMIT as int) / (SCALE as int),
{
    lemma_mul_range(a.0, b.0, UNIT_LIMIT as int, UNIT_LIMIT as int);
    lemma_mul_range(a.1, b.1, UNIT_LIMIT as int, UNIT_LIMIT as int);
    lemma_mul_range(a.2, b.2, UNIT_LIMIT as int, UNIT_LIMIT as int);
    lemma_tzd_range(
        a.0 * b.0 + a.1 * b.1 + a.2 * b.2,
        SCALE as int,
        3 * (UNIT_LIMIT as int) * (UNIT_LIMIT as int),
    );
}

/// Reflecting a purely radial vector (an integer multiple of an exactly
/// unit normal) negates it, so reflecting twice returns the original
/// vector: the involution law of reflection, on the inputs where the
/// fixed-point arithmetic is exact.
pub proof fn lemma_reflect_involution(n: (int, int, int), k: int)
    requires
        n.0 * n.0 + n.1 * n.1 + n.2 * n.2 == 4294967296,
    ensures
        s_reflect((k * n.0, k * n.1, k * n.2), n) == (-(k * n.0), -(k * n.1), -(k * n.2)),
        s_reflect(s_reflect((k * n.0, k * n.1, k * n.2), n), n) == (k * n.0, k * n.1, k * n.2),
{
    lemma_reflect_radial(n, k);
    lemma_reflect_radial(n, -k);
    assert((-k) * n.0 == -(k * n.0)) by (nonlinear_arith);
    assert((-k) * n.1 == -(k * n.1)) by (nonlinear_arith);
    assert((-k) * n.2 == -(k * n.2)) by (nonlinear_arith);
    assert(-((-k) * n.0) == k * n.0) by (nonlinear_arith);
    assert(-((-k) * n.1) == k * n.1) by (nonlinear_arith);
    assert(-((-k) * n.2) == k * n.2) by (nonlinear_arith);
}

/// One reflection of a radial vector about an exactly unit normal
/// negates it.
proof fn lemma_reflect_radial(n: (int, int, int), k: int)
    requires
        n.0 * n.0 + n.1 * n.1 + n.2 * n.2 == 4294967296,
    ensures
        s_reflect((k * n.0, k * n.1, k * n.2), n) == (-(k * n.0), -(k * n.1), -(k * n.2)),
{
    let v = (k * n.0, k * n.1, k * n.2);
    assert((k * n.0) * n.0 + (k * n.1) * n.1 + (k * n.2) * n.2 == k * (n.0 * n.0 + n.1 * n.1 + n.2
        * n.2)) by (nonlinear_arith);
    assert(k * 4294967296 == (k * 65536) * 65536) by (nonlinear_arith);
    crate::math::lemma_tzd_exact(k * 65536, 65536);
    assert(s_dot(v, n) == k * 65536);
    let t = 2 * (k * 65536);
    assert(n.0 * t == (2 * k * n.0) * 65536) by (nonlinear_arith)
        requires
            t == 2 * (k * 65536);
    assert(n.1 * t == (2 * k * n.1) * 65536) by (nonlinear_arith)
        requires
            t == 2 * (k * 65536);
    assert(n.2 * t == (2 * k * n.2) * 65536) by (nonlinear_arith)
        requires
            t == 2 * (k * 65536);
    crate::math::lemma_tzd_exact(2 * k * n.0, 65536);
    crate::math::lemma_tzd_exact(2 * k * n.1, 65536);
    crate::math::lemma_tzd_exact(2 * k * n.2, 65536);
    assert(k * n.0 + -(2 * k * n.0) == -(k * n.0)) by (nonlinear_arith);
    assert(k * n.1 + -(2 * k * n.1) == -(k * n.1)) by (nonlinear_arith);
    assert(k * n.2 + -(2 * k * n.2) == -(k * n.2)) by (nonlinear_arith);
}

/// The fallback draw of the rejection samplers lies inside the ball.
proof fn lemma_fallback_sample()
    ensures
        is_ball_sample((SCALE as int / 2, 0int, 0int)),
        is_disk_sample((SCALE as int / 2, 0int, 0int)),
{
    let h = SCALE as int / 2;
    assert(h == 32768);
    assert(h * h + 0 * 0 + 0 * 0 == 1073741824) by (nonlinear_arith)
        requires
            h == 32768;
    assert(tzd(1073741824, SCALE as int) == 16384);
}

/// Components of a normalized vector stay within twice the unit scale.
proof fn lemma_unit_bounds(a: (int, int, int))
    requires
        s_in(a, COORD_LIMIT as int),
        s_ls(a) >= 1,
    ensures
        s_len(a) >= 256,
        s_in(s_unit(a), 2 * (SCALE as int)),
        i64::MIN <= fxd(a.0, s_len(a)) <= i64::MAX,
        i64::MIN <= fxd(a.1, s_len(a)) <= i64::MAX,
        i64::MIN <= fxd(a.2, s_len(a)) <= i64::MAX,
{
    let si = SCALE as int;
    let l = s_ls(a);
    let n = l * si;
    let ln = s_len(a);
    lemma_isqrt_bounds(n);
    assert(n >= si) by (nonlinear_arith)
        requires
            l >= 1,
            n == l * si,
            si == 65536;
    lemma_isqrt_unique(65536, 256);
    lemma_isqrt_monotonic(65536, n);
    assert(ln >= 256);
    // The raw squared length lies just above l * SCALE.
    let raw = a.0 * a.0 + a.1 * a.1 + a.2 * a.2;
    lemma_ls_nonneg(a);
    lemma_fundamental_div_mod(raw, si);
    assert(raw < (l + 1) * si) by (nonlinear_arith)
        requires
            raw == si * l + raw % si,
            0 <= raw % si < si;
    assert((l + 1) * si <= 2 * n) by (nonlinear_arith)
        requires
            l >= 1,
            n == l * si,
            si > 0;
    assert(2 * n < 2 * (ln + 1) * (ln + 1)) by (nonlinear_arith)
        requires
            n < (ln + 1) * (ln + 1);
    assert(a.0 * a.0 >= 0) by (nonlinear_arith);
    assert(a.1 * a.1 >= 0) by (nonlinear_arith);
    assert(a.2 * a.2 >= 0) by (nonlinear_arith);
    lemma_unit_coord(a.0, raw, ln);
    lemma_unit_coord(a.1, raw, ln);
    lemma_unit_coord(a.2, raw, ln);
}

/// One component of a normalized vector stays within twice the unit
/// scale.
proof fn lemma_unit_coord(c: int, raw: int, ln: int)
    requires
        ln >= 256,
        c * c <= raw,
        raw < 2 * (ln + 1) * (ln + 1),
    ensures
        -(2 * (SCALE as int)) <= fxd(c, ln) <= 2 * (SCALE as int),
{
    let si = SCALE as int;
    assert(-(2 * ln) <= c <= 2 * ln) by (nonlinear_arith)
        requires
            ln >= 256,
            c * c < 2 * (ln + 1) * (ln + 1);
    lemma_mul_range(c, si, 2 * ln, si);
    lemma_tzd_range(c * si, ln, 2 * ln * si);
    assert(2 * ln * si == (2 * si) * ln) by (nonlinear_arith);
    lemma_div_by_multiple(2 * si, ln);
}

} // verus!
