//! The camera: an orthonormal basis and a viewport rectangle derived
//! from the usual look-from / look-at configuration, with a lens disk
//! for defocus blur.

use vstd::prelude::*;
use crate::math::{
    SCALE, PI_FX, tzd, fxm, fxd, s_clamp, fx_mul, fx_div, degrees_to_radians, clamp, tzd_i64,
    lemma_fxm_in, lemma_tzd_in,
};
use crate::vec::{Vec3, s_in, s_add, s_sub, s_scale, s_cross, s_unit, s_ls, is_disk_sample};
use crate::ray::{Ray, CENTER_LIMIT, DIR_LIMIT};

verus! {

/// Bound on the camera's derived viewport vectors.
pub const CAM_LIMIT: i64 = 17179869184;

/// Sine by a degree-7 polynomial, in fixed point.
pub open spec fn s_sin_poly(x: int) -> int {
    let x2 = fxm(x, x);
    let x3 = fxm(x2, x);
    let x5 = fxm(x3, x2);
    let x7 = fxm(x5, x2);
    x - tzd(x3, 6) + tzd(x5, 120) - tzd(x7, 5040)
}

/// Cosine by a degree-6 polynomial, in fixed point.
pub open spec fn s_cos_poly(x: int) -> int {
    let x2 = fxm(x, x);
    let x4 = fxm(x2, x2);
    let x6 = fxm(x4, x2);
    SCALE - tzd(x2, 2) + tzd(x4, 24) - tzd(x6, 720)
}

/// The tangent of half the field of view (given in degrees), from the
/// two polynomials, kept within `[0, 8]` as a degenerate-angle guard.
pub open spec fn s_tan_half(vfov: int) -> int {
    let theta = tzd(vfov * (PI_FX as int), 180 * (SCALE as int));
    let x = tzd(theta, 2);
    let c = s_cos_poly(x);
    let cp = if c < 1 {
        1
    } else {
        c
    };
    s_clamp(fxd(s_sin_poly(x), cp), 0, 8 * (SCALE as int))
}

/// The ray the camera casts for image coordinates `(s, t)` and the lens
/// sample `rd`.
pub open spec fn s_cam_ray(cam: Camera, s: int, t: int, rd: (int, int, int), r: Ray) -> bool {
    let off = s_add(
        s_scale(cam.u@, fxm(rd.0, cam.lens_radius as int)),
        s_scale(cam.v@, fxm(rd.1, cam.lens_radius as int)),
    );
    let oo = s_add(cam.origin@, off);
    &&& r.origin@ == oo
    &&& r.direction@ == s_sub(
        s_add(
            s_add(cam.lower_left_corner@, s_scale(cam.horizontal@, s)),
            s_scale(cam.vertical@, t),
        ),
        oo,
    )
}

/// Immutable camera configuration: position, viewport geometry, basis
/// vectors, and the lens radius.
pub struct Camera {
    pub origin: Vec3,
    pub horizontal: Vec3,
    pub vertical: Vec3,
    pub lower_left_corner: Vec3,
    pub u: Vec3,
    pub v: Vec3,
    pub lens_radius: i64,
}

impl Camera {
    /// Well-formed camera: all derived vectors bounded, lens radius
    /// within the aperture range.
    pub open spec fn wf(&self) -> bool {
        &&& s_in(self.origin@, 4294967296)
        &&& s_in(self.horizontal@, CAM_LIMIT as int)
        &&& s_in(self.vertical@, CAM_LIMIT as int)
        &&& s_in(self.lower_left_corner@, CAM_LIMIT as int)
        &&& s_in(self.u@, 2 * (SCALE as int))
        &&& s_in(self.v@, 8 * (SCALE as int))
        &&& 0 <= self.lens_radius <= 8 * (SCALE as int)
    }

    pub fn new(
        origin: Vec3,
        lookat: Vec3,
        up: Vec3,
        vfov: i64,
        aspect_ratio: i64,
        aperture: i64,
        focus_dist: i64,
    ) -> (r: Camera)
        requires
            s_in(origin@, 4294967296),
            s_in(lookat@, 4294967296),
            s_in(up@, 16 * (SCALE as int)),
            SCALE <= vfov <= 150 * SCALE,
            0 < aspect_ratio <= 8 * SCALE,
            0 <= aperture <= 16 * SCALE,
            SCALE / 16 <= focus_dist <= 33554432,
            1 <= s_ls(s_sub(origin@, lookat@)),
            1 <= s_ls(s_cross(up@, s_unit(s_sub(origin@, lookat@)))),
        ensures
            r.wf(),
            r.origin == origin,
            r.u@ == s_unit(s_cross(up@, s_unit(s_sub(origin@, lookat@)))),
            r.v@ == s_cross(s_unit(s_sub(origin@, lookat@)), r.u@),
            r.horizontal@ == s_scale(
                r.u@,
                fxm(
                    fxm(aspect_ratio as int, 2 * s_tan_half(vfov as int)),
                    focus_dist as int,
                ),
            ),
            r.vertical@ == s_scale(r.v@, fxm(2 * s_tan_half(vfov as int), focus_dist as int)),
            r.lower_left_corner@ == s_sub(
                s_sub(
                    s_sub(origin@, s_scale(r.horizontal@, 32768)),
                    s_scale(r.vertical@, 32768),
                ),
                s_scale(s_unit(s_sub(origin@, lookat@)), focus_dist as int),
            ),
            r.lens_radius == tzd(aperture as int, 2),
    {
        let h = tan_half(vfov);
        let viewport_height = 2 * h;
        proof {
            lemma_fxm_in(aspect_ratio as int, viewport_height as int, 524288, 1048576, 8388608);
        }
        let viewport_width = fx_mul(aspect_ratio, viewport_height);

        let w = origin.sub(&lookat).unit();
        proof {
            lemma_fxm_in(up@.0, w@.1, 1048576, 131072, 2097152);
            lemma_fxm_in(up@.0, w@.2, 1048576, 131072, 2097152);
            lemma_fxm_in(up@.1, w@.0, 1048576, 131072, 2097152);
            lemma_fxm_in(up@.1, w@.2, 1048576, 131072, 2097152);
            lemma_fxm_in(up@.2, w@.0, 1048576, 131072, 2097152);
            lemma_fxm_in(up@.2, w@.1, 1048576, 131072, 2097152);
        }
        let u = up.cross(&w).unit();
        proof {
            lemma_fxm_in(w@.0, u@.1, 131072, 131072, 262144);
            lemma_fxm_in(w@.0, u@.2, 131072, 131072, 262144);
            lemma_fxm_in(w@.1, u@.0, 131072, 131072, 262144);
            lemma_fxm_in(w@.1, u@.2, 131072, 131072, 262144);
            lemma_fxm_in(w@.2, u@.0, 131072, 131072, 262144);
            lemma_fxm_in(w@.2, u@.1, 131072, 131072, 262144);
        }
        let v = w.cross(&u);
        proof {
            lemma_fxm_in(viewport_width as int, focus_dist as int, 8388608, 33554432, 4294967296);
            lemma_fxm_in(viewport_height as int, focus_dist as int, 1048576, 33554432, 536870912);
        }
        let kh = fx_mul(viewport_width, focus_dist);
        let kv = fx_mul(viewport_height, focus_dist);
        proof {
            lemma_fxm_in(u@.0, kh as int, 131072, 4294967296, 8589934592);
            lemma_fxm_in(u@.1, kh as int, 131072, 4294967296, 8589934592);
            lemma_fxm_in(u@.2, kh as int, 131072, 4294967296, 8589934592);
            lemma_fxm_in(v@.0, kv as int, 524288, 536870912, 4294967296);
            lemma_fxm_in(v@.1, kv as int, 524288, 536870912, 4294967296);
            lemma_fxm_in(v@.2, kv as int, 524288, 536870912, 4294967296);
        }
        let horizontal = u.scale(kh);
        let vertical = v.scale(kv);
        proof {
            lemma_fxm_in(horizontal@.0, 32768, 8589934592, 32768, 4294967296);
            lemma_fxm_in(horizontal@.1, 32768, 8589934592, 32768, 4294967296);
            lemma_fxm_in(horizontal@.2, 32768, 8589934592, 32768, 4294967296);
            lemma_fxm_in(vertical@.0, 32768, 4294967296, 32768, 2147483648);
            lemma_fxm_in(vertical@.1, 32768, 4294967296, 32768, 2147483648);
            lemma_fxm_in(vertical@.2, 32768, 4294967296, 32768, 2147483648);
            lemma_fxm_in(w@.0, focus_dist as int, 131072, 33554432, 67108864);
            lemma_fxm_in(w@.1, focus_dist as int, 131072, 33554432, 67108864);
            lemma_fxm_in(w@.2, focus_dist as int, 131072, 33554432, 67108864);
        }
        let lower_left_corner = origin.sub(&horizontal.scale(32768)).sub(&vertical.scale(32768)).sub(
            &w.scale(focus_dist),
        );

        let lens_radius = tzd_i64(aperture, 2);
        proof {
            lemma_tzd_in(aperture as int, 2, 1048576, 524288);
            vstd::arithmetic::div_mod::lemma_div_pos_is_pos(aperture as int, 2);
        }

        Camera { origin, horizontal, vertical, lower_left_corner, u, v, lens_radius }
    }

    /// The world-space ray for normalized image coordinates `(s, t)`,
    /// with a random lens-disk offset for defocus blur. An aperture of
    /// zero makes the ray deterministic.
    pub fn get_ray(&self, s: i64, t: i64) -> (r: Ray)
        requires
            self.wf(),
            0 <= s <= 2 * SCALE,
            0 <= t <= 2 * SCALE,
        ensures
            exists|rd: (int, int, int)|
                is_disk_sample(rd) && #[trigger] s_cam_ray(*self, s as int, t as int, rd, r),
            self.lens_radius == 0 ==> r.origin == self.origin && r.direction@ == s_sub(
                s_add(
                    s_add(self.lower_left_corner@, s_scale(self.horizontal@, s as int)),
                    s_scale(self.vertical@, t as int),
                ),
                self.origin@,
            ),
            s_in(r.origin@, CENTER_LIMIT as int),
            s_in(r.direction@, DIR_LIMIT as int),
    {
        let sample = Vec3::random_in_unit_disk();
        proof {
            lemma_fxm_in(sample@.0, self.lens_radius as int, 65536, 524288, 524288);
            lemma_fxm_in(sample@.1, self.lens_radius as int, 65536, 524288, 524288);
            lemma_fxm_in(sample@.2, self.lens_radius as int, 65536, 524288, 524288);
        }
        let rd = sample.scale(self.lens_radius);
        proof {
            lemma_fxm_in(self.u@.0, rd@.0, 131072, 524288, 1048576);
            lemma_fxm_in(self.u@.1, rd@.0, 131072, 524288, 1048576);
            lemma_fxm_in(self.u@.2, rd@.0, 131072, 524288, 1048576);
            lemma_fxm_in(self.v@.0, rd@.1, 524288, 524288, 4194304);
            lemma_fxm_in(self.v@.1, rd@.1, 524288, 524288, 4194304);
            lemma_fxm_in(self.v@.2, rd@.1, 524288, 524288, 4194304);
        }
        let offset = self.u.scale(rd.x).add(&self.v.scale(rd.y));
        let offset_origin = self.origin.add(&offset);
        proof {
            lemma_fxm_in(self.horizontal@.0, s as int, 17179869184, 131072, 34359738368);
            lemma_fxm_in(self.horizontal@.1, s as int, 17179869184, 131072, 34359738368);
            lemma_fxm_in(self.horizontal@.2, s as int, 17179869184, 131072, 34359738368);
            lemma_fxm_in(self.vertical@.0, t as int, 17179869184, 131072, 34359738368);
            lemma_fxm_in(self.vertical@.1, t as int, 17179869184, 131072, 34359738368);
            lemma_fxm_in(self.vertical@.2, t as int, 17179869184, 131072, 34359738368);
        }
        let direction = self.lower_left_corner.add(&self.horizontal.scale(s)).add(
            &self.vertical.scale(t),
        ).sub(&offset_origin);
        let r = Ray::new(offset_origin, direction);
        proof {
            if self.lens_radius == 0 {
                lemma_zero_offset(sample@, self.u@, self.v@);
            }
            assert(is_disk_sample(sample@) && s_cam_ray(*self, s as int, t as int, sample@, r));
        }
        r
    }
}

/// With a zero lens radius, the lens offset vanishes.
proof fn lemma_zero_offset(smp: (int, int, int), u: (int, int, int), v: (int, int, int))
    ensures
        s_add(s_scale(u, fxm(smp.0, 0)), s_scale(v, fxm(smp.1, 0))) == (0int, 0int, 0int),
{
    assert(smp.0 * 0 == 0) by (nonlinear_arith);
    assert(smp.1 * 0 == 0) by (nonlinear_arith);
    vstd::arithmetic::div_mod::lemma_div_of0(SCALE as int);
    assert(u.0 * 0 == 0) by (nonlinear_arith);
    assert(u.1 * 0 == 0) by (nonlinear_arith);
    assert(u.2 * 0 == 0) by (nonlinear_arith);
    assert(v.0 * 0 == 0) by (nonlinear_arith);
    assert(v.1 * 0 == 0) by (nonlinear_arith);
    assert(v.2 * 0 == 0) by (nonlinear_arith);
}

/// The tangent of half the field of view, exactly per `s_tan_half`.
fn tan_half(vfov: i64) -> (r: i64)
    requires
        SCALE <= vfov <= 150 * SCALE,
    ensures
        r == s_tan_half(vfov as int),
        0 <= r <= 8 * SCALE,
{
    let theta = degrees_to_radians(vfov);
    proof {
        assert(vfov as int * (PI_FX as int) <= 2024284815360) by (nonlinear_arith)
            requires
                0 <= vfov as int <= 9830400,
                PI_FX == 205887i64;
        assert(vfov as int * (PI_FX as int) >= 0) by (nonlinear_arith)
            requires
                0 <= vfov as int,
                PI_FX == 205887i64;
        lemma_tzd_in(vfov as int * (PI_FX as int), 180 * (SCALE as int), 2024284815360, 172000);
    }
    let x = tzd_i64(theta, 2);
    proof {
        lemma_tzd_in(theta as int, 2, 172000, 86000);
        lemma_fxm_in(x as int, x as int, 86000, 86000, 113000);
    }
    let x2 = fx_mul(x, x);
    proof {
        lemma_fxm_in(x2 as int, x as int, 113000, 86000, 150000);
    }
    let x3 = fx_mul(x2, x);
    proof {
        lemma_fxm_in(x3 as int, x2 as int, 150000, 113000, 260000);
    }
    let x5 = fx_mul(x3, x2);
    proof {
        lemma_fxm_in(x5 as int, x2 as int, 260000, 113000, 450000);
    }
    let x7 = fx_mul(x5, x2);
    proof {
        lemma_tzd_in(x3 as int, 6, 150000, 25000);
        lemma_tzd_in(x5 as int, 120, 260000, 2200);
        lemma_tzd_in(x7 as int, 5040, 450000, 90);
    }
    let sin_v = x - tzd_i64(x3, 6) + tzd_i64(x5, 120) - tzd_i64(x7, 5040);
    proof {
        lemma_fxm_in(x2 as int, x2 as int, 113000, 113000, 195000);
    }
    let x4 = fx_mul(x2, x2);
    proof {
        lemma_fxm_in(x4 as int, x2 as int, 195000, 113000, 340000);
    }
    let x6 = fx_mul(x4, x2);
    proof {
        lemma_tzd_in(x2 as int, 2, 113000, 56500);
        lemma_tzd_in(x4 as int, 24, 195000, 8125);
        lemma_tzd_in(x6 as int, 720, 340000, 473);
    }
    let cos_v = SCALE - tzd_i64(x2, 2) + tzd_i64(x4, 24) - tzd_i64(x6, 720);
    let cp = if cos_v < 1 {
        1
    } else {
        cos_v
    };
    proof {
        assert(sin_v as int * (SCALE as int) <= 7424573440 * (cp as int) && sin_v as int * (
        SCALE as int) >= -(7424573440 * (cp as int))) by (nonlinear_arith)
            requires
                -113290 <= sin_v as int <= 113290,
                SCALE == 65536i64,
                1 <= cp as int;
        lemma_tzd_in(
            sin_v as int * (SCALE as int),
            cp as int,
            7424573440 * (cp as int),
            7424573440,
        );
    }
    let tan_v = fx_div(sin_v, cp);
    clamp(tan_v, 0, 8 * SCALE)
}

} // verus!
