//! The sphere surface and its ray-intersection rule.

use vstd::prelude::*;
use vstd::arithmetic::div_mod::*;
use crate::math::{
    SCALE, COORD_LIMIT, T_LIMIT, tzd, fxm, fxd, isqrt, fx_mul, fx_div,
    lemma_mul_range, lemma_tzd_range, lemma_fxm_range, lemma_isqrt_bounds,
};
use crate::vec::{Vec3, s_in, s_sub, s_dot, s_ls};
use crate::ray::{Ray, s_at, CENTER_LIMIT, DIR_LIMIT};
use crate::material::Material;
use crate::hittable::{HitRecord, s_record_matches};

verus! {

/// Smallest sphere radius the intersection rule accepts (1/16 unit):
/// keeps the normal's components inside `i64`.
pub const RADIUS_MIN: i64 = 4096;

/// A sphere with its material.
#[derive(Clone, Copy)]
pub struct Sphere {
    pub center: Vec3,
    pub radius: i64,
    pub material: Material,
}

/// Division of each component by a positive fixed-point scalar.
pub open spec fn s_scale_inv(v: (int, int, int), k: int) -> (int, int, int) {
    (fxd(v.0, k), fxd(v.1, k), fxd(v.2, k))
}

/// Well-formed sphere: bounded center, radius within the accepted range,
/// well-formed material.
pub open spec fn s_sphere_wf(s: Sphere) -> bool {
    &&& s_in(s.center@, CENTER_LIMIT as int)
    &&& RADIUS_MIN <= s.radius <= COORD_LIMIT
    &&& s.material.wf()
}

/// The sphere intersection rule: solve the half-b quadratic, take the
/// smaller root if it lies within `[t_min, t_max]`, else the larger,
/// else report no hit. On a hit, also the geometric outward normal
/// `(point - center) / radius`; a normal outside the coordinate range
/// (possible only for degenerate rays) is treated as a miss.
pub open spec fn s_sphere_hit(
    s: Sphere,
    o: (int, int, int),
    d: (int, int, int),
    t_min: int,
    t_max: int,
) -> Option<(int, (int, int, int))> {
    let oc = s_sub(o, s.center@);
    let a = s_ls(d);
    let half_b = s_dot(oc, d);
    let c = s_ls(oc) - fxm(s.radius as int, s.radius as int);
    let disc = half_b * half_b - a * c;
    if disc < 0 {
        None
    } else {
        let sqrtd = isqrt(disc);
        let root1 = tzd((-half_b - sqrtd) * (SCALE as int), a);
        let root2 = tzd((-half_b + sqrtd) * (SCALE as int), a);
        let root = if t_min <= root1 && root1 <= t_max {
            root1
        } else {
            root2
        };
        if t_min <= root && root <= t_max {
            let outward = s_scale_inv(s_sub(s_at(o, d, root), s.center@), s.radius as int);
            if s_in(outward, COORD_LIMIT as int) {
                Some((root, outward))
            } else {
                None
            }
        } else {
            None
        }
    }
}

impl Sphere {
    pub fn new(center: Vec3, radius: i64, material: Material) -> (r: Sphere)
        ensures
            r.center == center,
            r.radius == radius,
            r.material == material,
    {
        Sphere { center, radius, material }
    }

    /// Nearest intersection with the ray within `[t_min, t_max]`, by the
    /// half-b quadratic.
    pub fn hit(&self, ray: &Ray, t_min: i64, t_max: i64) -> (r: Option<HitRecord>)
        requires
            s_sphere_wf(*self),
            s_in(ray.origin@, CENTER_LIMIT as int),
            s_in(ray.direction@, DIR_LIMIT as int),
            1 <= s_ls(ray.direction@),
            0 <= t_min,
            t_max <= T_LIMIT,
        ensures
            ({
                let m = s_sphere_hit(*self, ray.origin@, ray.direction@, t_min as int, t_max as int);
                match m {
                    None => r is None,
                    Some(h) => r matches Some(rec) && s_record_matches(
                        rec,
                        ray.origin@,
                        ray.direction@,
                        h.0,
                        h.1,
                        self.material,
                    ),
                }
            }),
    {
        let oc = ray.origin.sub(&self.center);
        let a = ray.direction.length_squared();
        let half_b = oc.dot(&ray.direction);
        proof {
            lemma_fxm_range(self.radius as int, self.radius as int, COORD_LIMIT as int, COORD_LIMIT as int);
        }
        let c = oc.length_squared() - fx_mul(self.radius, self.radius);
        let hb: i128 = half_b as i128;
        proof {
            lemma_dot_bound_oc(oc@, ray.direction@);
            lemma_mul_range(half_b as int, half_b as int, 1729382256910270464, 1729382256910270464);
            crate::vec::lemma_ls_range(oc@, 2 * (CENTER_LIMIT as int));
            crate::vec::lemma_ls_range(ray.direction@, DIR_LIMIT as int);
            lemma_mul_range(a as int, c as int, 864691128455135232, 4611686018427387904);
        }
        let discriminant: i128 = hb * hb - (a as i128) * (c as i128);
        if discriminant < 0 {
            return None;
        }
        let sq_u: u128 = crate::math::isqrt_u128(discriminant as u128);
        proof {
            lemma_isqrt_bounds(discriminant as int);
            assert(sq_u as int <= 4611686018427387904) by (nonlinear_arith)
                requires
                    0 <= sq_u as int,
                    (sq_u as int) * (sq_u as int) <= discriminant as int,
                    discriminant as int <= 1729382256910270464int * 1729382256910270464int
                        + 864691128455135232int * 4611686018427387904int;
        }
        let sqrtd: i128 = sq_u as i128;
        let num1: i128 = (-hb - sqrtd) * (SCALE as i128);
        let num2: i128 = (-hb + sqrtd) * (SCALE as i128);
        let root1: i128 = crate::math::tzd_i128(num1, a as i128);
        let root2: i128 = crate::math::tzd_i128(num2, a as i128);
        let tmin128 = t_min as i128;
        let tmax128 = t_max as i128;
        let root128: i128 = if tmin128 <= root1 && root1 <= tmax128 {
            root1
        } else {
            root2
        };
        if !(tmin128 <= root128 && root128 <= tmax128) {
            return None;
        }
        let root: i64 = root128 as i64;
        let point = ray.at(root);
        let diff = point.sub(&self.center);
        proof {
            lemma_normal_fits(diff@.0, self.radius as int);
            lemma_normal_fits(diff@.1, self.radius as int);
            lemma_normal_fits(diff@.2, self.radius as int);
        }
        let normal = Vec3::new(
            fx_div(diff.x, self.radius),
            fx_div(diff.y, self.radius),
            fx_div(diff.z, self.radius),
        );
        if !(-COORD_LIMIT <= normal.x && normal.x <= COORD_LIMIT && -COORD_LIMIT <= normal.y
            && normal.y <= COORD_LIMIT && -COORD_LIMIT <= normal.z && normal.z <= COORD_LIMIT) {
            return None;
        }
        Some(HitRecord::new(ray, root, normal, self.material.clone()))
    }
}

/// The half-b dot product of a translated origin and a direction is
/// bounded.
proof fn lemma_dot_bound_oc(oc: (int, int, int), d: (int, int, int))
    requires
        s_in(oc, 2 * (CENTER_LIMIT as int)),
        s_in(d, DIR_LIMIT as int),
    ensures
        -1729382256910270464 <= s_dot(oc, d) <= 1729382256910270464,
{
    lemma_mul_range(oc.0, d.0, 2 * (CENTER_LIMIT as int), DIR_LIMIT as int);
    lemma_mul_range(oc.1, d.1, 2 * (CENTER_LIMIT as int), DIR_LIMIT as int);
    lemma_mul_range(oc.2, d.2, 2 * (CENTER_LIMIT as int), DIR_LIMIT as int);
    lemma_tzd_range(
        oc.0 * d.0 + oc.1 * d.1 + oc.2 * d.2,
        SCALE as int,
        3 * (2 * (CENTER_LIMIT as int)) * (DIR_LIMIT as int),
    );
}

/// A hit-point offset divided by an accepted radius stays inside `i64`.
proof fn lemma_normal_fits(c: int, radius: int)
    requires
        -144115462953762816 <= c <= 144115462953762816,
        RADIUS_MIN <= radius,
    ensures
        i64::MIN <= fxd(c, radius) <= i64::MAX,
        radius > 0,
{
    lemma_mul_range(c, SCALE as int, 144115462953762816, SCALE as int);
    lemma_tzd_range(c * (SCALE as int), radius, 144115462953762816 * (SCALE as int));
    lemma_div_is_ordered_by_denominator(
        144115462953762816 * (SCALE as int),
        RADIUS_MIN as int,
        radius,
    );
}

} // verus!
