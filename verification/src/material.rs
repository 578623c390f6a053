//! The closed set of surface materials and their scattering rules.

use vstd::prelude::*;
use crate::math::{
    SCALE, s_clamp, fxd, s_reflectance, reflectance, fx_div, clamp, random, fx_sqrt, fx_mul,
    isqrt, fxm,
};
use crate::vec::{
    Vec3, s_in, s_add, s_neg, s_scale, s_dot, s_ls, s_unit, s_reflect, s_refract, s_near_zero,
    is_ball_sample,
};
use crate::ray::{Ray, CENTER_LIMIT, DIR_LIMIT};
use crate::hittable::HitRecord;

verus! {

/// A material: diffuse, reflective, or refractive. Immutable; shared by
/// the surfaces that carry it.
#[derive(Clone, Copy)]
pub enum Material {
    Lambertian(Vec3),
    Metal(Vec3, i64),
    Dielectric(i64),
}

/// The outcome of a scattering event: the outgoing ray and the
/// component-wise color attenuation.
pub struct ScatterResult {
    pub ray: Ray,
    pub attenuation: Vec3,
}

impl Material {
    /// Well-formed material parameters: albedo components are colors in
    /// `[0, 1]`; a refractive index lies within `[1/16, 16]`.
    pub open spec fn wf(&self) -> bool {
        match *self {
            Material::Lambertian(albedo) => s_in(albedo@, SCALE as int) && 0 <= albedo@.0 && 0
                <= albedo@.1 && 0 <= albedo@.2,
            Material::Metal(albedo, fuzz) => s_in(albedo@, SCALE as int) && 0 <= albedo@.0 && 0
                <= albedo@.1 && 0 <= albedo@.2,
            Material::Dielectric(refraction_index) => SCALE as int / 16 <= refraction_index
                <= 16 * (SCALE as int),
        }
    }

    pub fn clone(&self) -> (r: Material)
        ensures
            r == *self,
    {
        match self {
            Material::Lambertian(color) => Material::Lambertian(color.clone()),
            Material::Metal(color, fuzz) => Material::Metal(color.clone(), *fuzz),
            Material::Dielectric(refraction_index) => Material::Dielectric(*refraction_index),
        }
    }

    /// Produce a scattered ray and attenuation, or absorb the ray.
    ///
    /// Diffuse surfaces always scatter toward the normal plus a random
    /// unit vector; metal reflects (perturbed by its fuzz) and absorbs
    /// rays that would re-enter the surface; a dielectric always
    /// transmits, reflecting either on total internal reflection or with
    /// the Schlick probability, else refracting.
    #[verifier::rlimit(60)]
    pub fn scatter(&self, ray: &Ray, record: &HitRecord) -> (r: Option<ScatterResult>)
        requires
            self.wf(),
            s_in(ray.direction@, DIR_LIMIT as int),
            1 <= s_ls(ray.direction@),
            s_in(record.normal@, 2 * (SCALE as int)),
            s_in(record.point@, CENTER_LIMIT as int),
        ensures
            (*self matches Material::Lambertian(albedo) ==> (r matches Some(sr)
                && sr.attenuation == albedo && sr.ray.origin == record.point && exists|u: (int, int, int)|
                is_unit_sample(u) && sr.ray.direction@ == s_lambertian_dir(record.normal@, u))),
            (*self matches Material::Metal(albedo, fuzz) ==> {
                let fc = s_clamp(fuzz as int, 0, SCALE as int);
                let refl = s_reflect(s_unit(ray.direction@), record.normal@);
                &&& (r matches Some(sr) ==> sr.attenuation == albedo && sr.ray.origin
                    == record.point && exists|smp: (int, int, int)|
                    is_ball_sample(smp) && sr.ray.direction@ == s_add(refl, s_scale(smp, fc))
                        && s_dot(sr.ray.direction@, record.normal@) > 0)
                &&& (r is None ==> exists|smp: (int, int, int)|
                    is_ball_sample(smp) && s_dot(s_add(refl, s_scale(smp, fc)), record.normal@)
                        <= 0)
                &&& (fc == 0 ==> ((r is Some <==> s_dot(refl, record.normal@) > 0) && (
                r matches Some(sr) ==> sr.ray.direction@ == refl)))
            }),
            (*self is Dielectric ==> r is Some),
            (*self matches Material::Dielectric(refraction_index) ==> (r matches Some(sr)
                ==> sr.attenuation@.0 == SCALE as int && sr.attenuation@.1 == SCALE as int
                && sr.attenuation@.2 == SCALE as int && sr.ray.origin == record.point)),
            (*self matches Material::Dielectric(refraction_index) ==> (r matches Some(sr)
                ==> s_dielectric_scatter_ok(
                sr.ray.direction@,
                ray.direction@,
                record.normal@,
                refraction_index as int,
                record.front_face,
            ))),
            (*self matches Material::Dielectric(refraction_index) ==> (r matches Some(sr) ==> {
                let n = record.normal@;
                let u = s_unit(ray.direction@);
                let ratio = s_ratio(refraction_index as int, record.front_face);
                let cos = s_cos_in(u, n);
                let cannot = s_cannot_refract(ratio, s_sin_from_cos(cos));
                &&& (cannot ==> sr.ray.direction@ == s_reflect(u, n))
                &&& ((!cannot && s_reflectance(cos, ratio) <= 0) ==> sr.ray.direction@
                    == s_refract(u, n, ratio))
            })),
    {
        match self {
            Material::Lambertian(color) => {
                let unit_sample = Vec3::random_unit_vector();
                let mut scatter_direction = record.normal.add(&unit_sample);
                proof {
                    assert(is_unit_sample(unit_sample@));
                }
                if Vec3::near_zero(&scatter_direction) {
                    scatter_direction = record.normal.clone();
                }
                proof {
                    assert(scatter_direction@ == s_lambertian_dir(record.normal@, unit_sample@));
                }
                let scattered = Ray::new(record.point.clone(), scatter_direction);
                Some(ScatterResult { ray: scattered, attenuation: color.clone() })
            },
            Material::Metal(color, fuzz) => {
                let fuzz_c = clamp(*fuzz, 0, SCALE);
                let sample = Vec3::random_in_unit_sphere();
                let fuzz_vector = sample.scale(fuzz_c);
                let unit_direction = ray.direction.unit();
                let reflected = unit_direction.reflect(&record.normal);
                proof {
                    lemma_unit_sized_ops(unit_direction@, record.normal@);
                    crate::math::lemma_fxm_range(sample@.0, fuzz_c as int, SCALE as int, SCALE as int);
                    crate::math::lemma_fxm_range(sample@.1, fuzz_c as int, SCALE as int, SCALE as int);
                    crate::math::lemma_fxm_range(sample@.2, fuzz_c as int, SCALE as int, SCALE as int);
                }
                let scatter_direction = reflected.add(&fuzz_vector);
                proof {
                    if fuzz_c == 0 {
                        lemma_scale_zero(sample@);
                    }
                }
                proof {
                    assert(is_ball_sample(sample@) && scatter_direction@ == s_add(
                        s_reflect(s_unit(ray.direction@), record.normal@),
                        s_scale(sample@, s_clamp(fuzz as int, 0, SCALE as int)),
                    ));
                }
                if scatter_direction.dot(&record.normal) > 0 {
                    let scattered = Ray::new(record.point.clone(), scatter_direction);
                    Some(ScatterResult { ray: scattered, attenuation: color.clone() })
                } else {
                    None
                }
            },
            Material::Dielectric(refraction_index) => {
                let refraction_ratio = if record.front_face {
                    proof {
                        lemma_ratio_range(*refraction_index as int);
                    }
                    fx_div(SCALE, *refraction_index)
                } else {
                    *refraction_index
                };
                let unit_direction = ray.direction.unit();
                let neg_unit = unit_direction.neg();
                let d0 = neg_unit.dot(&record.normal);
                let cos_theta = clamp(d0, -SCALE, SCALE);
                proof {
                    crate::math::lemma_fxm_range(cos_theta as int, cos_theta as int, SCALE as int, SCALE as int);
                    crate::math::lemma_fxm_nonneg(
                        if cos_theta >= 0 { cos_theta as int } else { -cos_theta as int },
                        if cos_theta >= 0 { cos_theta as int } else { -cos_theta as int },
                    );
                    assert(cos_theta as int * (cos_theta as int) >= 0) by (nonlinear_arith);
                    vstd::arithmetic::div_mod::lemma_div_pos_is_pos(
                        cos_theta as int * (cos_theta as int),
                        SCALE as int,
                    );
                }
                let sin_theta = fx_sqrt(SCALE - fx_mul(cos_theta, cos_theta));
                proof {
                    lemma_sin_bound(cos_theta as int);
                    crate::math::lemma_fxm_range(
                        refraction_ratio as int,
                        sin_theta as int,
                        16 * (SCALE as int),
                        SCALE as int,
                    );
                }
                let cannot_refract = fx_mul(refraction_ratio, sin_theta) > SCALE;
                let direction: Vec3;
                let ghost mut rnd_used: int = 0;
                if cannot_refract {
                    direction = unit_direction.reflect(&record.normal);
                } else {
                    let schlick = reflectance(cos_theta, refraction_ratio);
                    let rnd = random();
                    proof {
                        rnd_used = rnd as int;
                    }
                    if schlick > rnd {
                        direction = unit_direction.reflect(&record.normal);
                    } else {
                        direction = unit_direction.refract(&record.normal, refraction_ratio);
                    }
                }
                proof {
                    let n = record.normal@;
                    let u = s_unit(ray.direction@);
                    let ratio = s_ratio(*refraction_index as int, record.front_face);
                    let cos = s_cos_in(u, n);
                    let cannot = s_cannot_refract(ratio, s_sin_from_cos(cos));
                    assert(0 <= rnd_used < SCALE);
                    assert(direction@ == (if cannot || s_reflectance(cos, ratio) > rnd_used {
                        s_reflect(u, n)
                    } else {
                        s_refract(u, n, ratio)
                    }));
                    assert(s_dielectric_choice(direction@, u, n, ratio, rnd_used));
                }
                let scattered = Ray::new(record.point.clone(), direction);
                let scatter_result = ScatterResult {
                    attenuation: Vec3::new(SCALE, SCALE, SCALE),
                    ray: scattered,
                };
                proof {
                    assert(s_dielectric_choice(
                        scatter_result.ray.direction@,
                        s_unit(ray.direction@),
                        record.normal@,
                        s_ratio(*refraction_index as int, record.front_face),
                        rnd_used,
                    ));
                    assert(s_dielectric_scatter_ok(
                        scatter_result.ray.direction@,
                        ray.direction@,
                        record.normal@,
                        *refraction_index as int,
                        record.front_face,
                    ));
                }
                Some(scatter_result)
            },
        }
    }
}

/// The diffuse scatter direction: the normal plus a unit sample, with
/// the near-zero fallback to the normal itself.
pub open spec fn s_lambertian_dir(n: (int, int, int), u: (int, int, int)) -> (int, int, int) {
    if s_near_zero(s_add(n, u)) {
        n
    } else {
        s_add(n, u)
    }
}

/// A possible output of the unit-vector sampler.
pub open spec fn is_unit_sample(u: (int, int, int)) -> bool {
    exists|w: (int, int, int)| is_ball_sample(w) && u == s_unit(w)
}

/// The index ratio at a refractive boundary: inverted when entering.
pub open spec fn s_ratio(refraction_index: int, front_face: bool) -> int {
    if front_face {
        fxd(SCALE as int, refraction_index)
    } else {
        refraction_index
    }
}

/// Cosine of the incidence angle, clamped to the unit range.
pub open spec fn s_cos_in(u: (int, int, int), n: (int, int, int)) -> int {
    s_clamp(s_dot(s_neg(u), n), -(SCALE as int), SCALE as int)
}

/// Sine from the cosine, on the unit circle.
pub open spec fn s_sin_from_cos(cos: int) -> int {
    isqrt((SCALE as int - fxm(cos, cos)) * (SCALE as int))
}

/// Total internal reflection: the scaled sine would leave the unit
/// range.
pub open spec fn s_cannot_refract(ratio: int, sin: int) -> bool {
    fxm(ratio, sin) > SCALE as int
}

/// Some admissible reflectance draw explains the dielectric's outgoing
/// direction.
pub open spec fn s_dielectric_scatter_ok(
    dir: (int, int, int),
    d_in: (int, int, int),
    n: (int, int, int),
    refraction_index: int,
    front_face: bool,
) -> bool {
    exists|rnd: int|
        0 <= rnd < SCALE && #[trigger] s_dielectric_choice(
            dir,
            s_unit(d_in),
            n,
            s_ratio(refraction_index, front_face),
            rnd,
        )
}

/// The dielectric's outgoing direction for a given reflectance draw:
/// reflect on total internal reflection or when the draw falls below the
/// Schlick coefficient, else refract.
pub open spec fn s_dielectric_choice(
    dir: (int, int, int),
    u: (int, int, int),
    n: (int, int, int),
    ratio: int,
    rnd: int,
) -> bool {
    let cos = s_cos_in(u, n);
    dir == (if s_cannot_refract(ratio, s_sin_from_cos(cos)) || s_reflectance(cos, ratio) > rnd {
        s_reflect(u, n)
    } else {
        s_refract(u, n, ratio)
    })
}

/// An index-one dielectric never bends light at normal incidence: with
/// ratio one, total internal reflection cannot occur, the Schlick
/// coefficient vanishes (so the reflectance draw never reflects), and
/// refracting the incoming direction `-n` about the normal `n` returns
/// `-n` itself. Together with `scatter`'s contract this pins the
/// scattered direction to the incoming one.
pub proof fn lemma_dielectric_straight(n: (int, int, int))
    requires
        SCALE as int <= s_dot(n, n),
    ensures
        s_ratio(SCALE as int, true) == SCALE as int,
        s_cos_in(s_neg(n), n) == SCALE as int,
        s_sin_from_cos(SCALE as int) == 0,
        !s_cannot_refract(SCALE as int, 0),
        s_reflectance(SCALE as int, SCALE as int) == 0,
        s_refract(s_neg(n), n, SCALE as int) == s_neg(n),
{
    let si = SCALE as int;
    assert(si * si == 65536 * 65536) by (nonlinear_arith)
        requires
            si == 65536;
    crate::math::lemma_tzd_exact(65536, 65536);
    assert(fxd(si, si) == si);
    assert(s_neg(s_neg(n)) == n);
    assert(s_cos_in(s_neg(n), n) == si);
    // The sine at cosine one is zero.
    assert(fxm(si, si) == si);
    assert((si - fxm(si, si)) * si == 0) by (nonlinear_arith)
        requires
            fxm(si, si) == si;
    assert(s_sin_from_cos(si) == 0);
    // No total internal reflection at ratio one.
    assert(si * 0 == 0) by (nonlinear_arith);
    vstd::arithmetic::div_mod::lemma_div_of0(si);
    assert(fxm(si, 0) == 0);
    // The Schlick coefficient at cosine one and ratio one is zero.
    assert((si - si) * si == 0) by (nonlinear_arith);
    assert(0int * 0 == 0) by (nonlinear_arith);
    vstd::arithmetic::div_mod::lemma_div_of0(2 * si);
    assert(fxd(si - si, si + si) == 0);
    assert(fxm(0, 0) == 0);
    assert(s_reflectance(si, si) == 0 + fxm(si - 0, fxm(fxm(fxm(si - si, si - si), fxm(si - si, si - si)), si - si)));
    assert(s_reflectance(si, si) == 0);
    // Refraction at ratio one sends -n to -n.
    lemma_refract_straight(n);
}

/// Refracting `-n` about `n` with ratio one gives `-n` back.
proof fn lemma_refract_straight(n: (int, int, int))
    requires
        SCALE as int <= s_dot(n, n),
    ensures
        s_refract(s_neg(n), n, SCALE as int) == s_neg(n),
{
    let si = SCALE as int;
    let u = s_neg(n);
    assert(s_neg(u) == n);
    let cos = vstd::math::min(s_dot(s_neg(u), n), si);
    assert(cos == si);
    // Scaling by one is the identity.
    crate::math::lemma_tzd_exact(n.0, 65536);
    crate::math::lemma_tzd_exact(n.1, 65536);
    crate::math::lemma_tzd_exact(n.2, 65536);
    assert(fxm(n.0, si) == n.0);
    assert(fxm(n.1, si) == n.1);
    assert(fxm(n.2, si) == n.2);
    assert(s_add(s_scale(n, cos), u) == (0int, 0int, 0int));
    assert(0int * si == 0) by (nonlinear_arith);
    vstd::arithmetic::div_mod::lemma_div_of0(si);
    assert(fxm(0, si) == 0);
    let perp = s_scale(s_add(s_scale(n, cos), u), si);
    assert(perp == (0int, 0int, 0int));
    assert(s_ls(perp) == 0);
    assert(vstd::math::abs(si - 0) == si);
    assert(si * si == 4294967296) by (nonlinear_arith)
        requires
            si == 65536;
    assert(65536int * 65536 == 4294967296) by (nonlinear_arith);
    crate::math::lemma_isqrt_unique(4294967296, 65536);
    assert(isqrt(vstd::math::abs(si - s_ls(perp)) * si) == si);
    // Scaling by minus one negates.
    assert(n.0 * (-si) == (-n.0) * 65536) by (nonlinear_arith)
        requires
            si == 65536;
    assert(n.1 * (-si) == (-n.1) * 65536) by (nonlinear_arith)
        requires
            si == 65536;
    assert(n.2 * (-si) == (-n.2) * 65536) by (nonlinear_arith)
        requires
            si == 65536;
    crate::math::lemma_tzd_exact(-n.0, 65536);
    crate::math::lemma_tzd_exact(-n.1, 65536);
    crate::math::lemma_tzd_exact(-n.2, 65536);
    assert(s_scale(n, -si) == u);
    assert(s_refract(u, n, si) == s_add(perp, s_scale(n, -si)));
}

/// Near-unit vectors produce small reflection components.
proof fn lemma_unit_sized_ops(u: (int, int, int), n: (int, int, int))
    requires
        s_in(u, 2 * (SCALE as int)),
        s_in(n, 2 * (SCALE as int)),
    ensures
        s_in(s_reflect(u, n), 64 * (SCALE as int)),
        -786432 <= s_dot(u, n) <= 786432,
{
    crate::vec::lemma_dot_range(u, n, 131072, 131072);
    assert(3 * 131072 * 131072 / 65536 == 786432);
    let t = 2 * s_dot(u, n);
    crate::math::lemma_fxm_range(n.0, t, 131072, 1572864);
    crate::math::lemma_fxm_range(n.1, t, 131072, 1572864);
    crate::math::lemma_fxm_range(n.2, t, 131072, 1572864);
    assert(131072int * 1572864 / 65536 == 3145728);
}

/// Scaling by the zero scalar is the zero vector.
proof fn lemma_scale_zero(a: (int, int, int))
    ensures
        s_scale(a, 0) == (0int, 0int, 0int),
{
    assert(a.0 * 0 == 0) by (nonlinear_arith);
    assert(a.1 * 0 == 0) by (nonlinear_arith);
    assert(a.2 * 0 == 0) by (nonlinear_arith);
    vstd::arithmetic::div_mod::lemma_div_of0(SCALE as int);
}

/// The inverted index ratio stays within the accepted range.
proof fn lemma_ratio_range(refraction_index: int)
    requires
        SCALE as int / 16 <= refraction_index <= 16 * (SCALE as int),
    ensures
        4096 <= fxd(SCALE as int, refraction_index) <= 16 * (SCALE as int),
{
    let si = SCALE as int;
    assert(si * si == 4294967296) by (nonlinear_arith)
        requires
            si == 65536;
    vstd::arithmetic::div_mod::lemma_div_is_ordered_by_denominator(
        4294967296,
        4096,
        refraction_index,
    );
    vstd::arithmetic::div_mod::lemma_div_is_ordered_by_denominator(
        4294967296,
        refraction_index,
        1048576,
    );
    assert(4294967296int / 4096 == 1048576);
    assert(4294967296int / 1048576 == 4096);
}

/// The sine computed from a clamped cosine is at most one.
proof fn lemma_sin_bound(cos: int)
    requires
        -(SCALE as int) <= cos <= SCALE as int,
    ensures
        0 <= s_sin_from_cos(cos) <= SCALE as int,
        0 <= SCALE as int - fxm(cos, cos),
{
    let si = SCALE as int;
    crate::math::lemma_fxm_range(cos, cos, si, si);
    assert(cos * cos >= 0) by (nonlinear_arith);
    vstd::arithmetic::div_mod::lemma_div_pos_is_pos(cos * cos, si);
    let gap = si - fxm(cos, cos);
    crate::math::lemma_isqrt_bounds(gap * si);
    crate::math::lemma_isqrt_monotonic(gap * si, si * si);
    crate::math::lemma_isqrt_unique(si * si, si);
    assert(gap * si <= si * si) by (nonlinear_arith)
        requires
            0 <= gap <= si;
}

} // verus!
