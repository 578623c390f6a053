//! A ray: origin plus direction, parametrized by a scalar `t`.

use vstd::prelude::*;
use crate::math::{T_LIMIT, lemma_fxm_range};
use crate::vec::{Vec3, s_in, s_add, s_scale};

verus! {

/// Half-line `origin + t * direction`; the direction need not be unit
/// length.
pub struct Ray {
    pub origin: Vec3,
    pub direction: Vec3,
}

/// Largest magnitude for a ray position (origin or hit point source).
pub const CENTER_LIMIT: i64 = 137438953472;

/// Largest magnitude for a ray direction component (about 2e6 units).
pub const DIR_LIMIT: i64 = 137438953472;

/// The point reached after parameter `t`.
pub open spec fn s_at(o: (int, int, int), d: (int, int, int), t: int) -> (int, int, int) {
    s_add(o, s_scale(d, t))
}

impl Ray {
    pub fn new(orig: Vec3, dir: Vec3) -> (r: Ray)
        ensures
            r.origin == orig,
            r.direction == dir,
    {
        Ray { origin: orig, direction: dir }
    }

    pub fn at(&self, t: i64) -> (r: Vec3)
        requires
            s_in(self.origin@, CENTER_LIMIT as int),
            s_in(self.direction@, DIR_LIMIT as int),
            -T_LIMIT <= t <= T_LIMIT,
        ensures
            r@ == s_at(self.origin@, self.direction@, t as int),
            s_in(r@, CENTER_LIMIT as int + (DIR_LIMIT as int) * (T_LIMIT as int) / 65536),
    {
        proof {
            lemma_fxm_range(self.direction@.0, t as int, DIR_LIMIT as int, T_LIMIT as int);
            lemma_fxm_range(self.direction@.1, t as int, DIR_LIMIT as int, T_LIMIT as int);
            lemma_fxm_range(self.direction@.2, t as int, DIR_LIMIT as int, T_LIMIT as int);
        }
        let scaled = Vec3::new(
            crate::math::fx_mul(self.direction.x, t),
            crate::math::fx_mul(self.direction.y, t),
            crate::math::fx_mul(self.direction.z, t),
        );
        self.origin.add(&scaled)
    }
}

} // verus!
