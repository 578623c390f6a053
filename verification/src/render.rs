//! The recursive Monte Carlo integrator and the rendering loop.

use vstd::prelude::*;
use crate::math::{
    SCALE, T_LIMIT, tzd, fxm, isqrt, s_clamp, fx_mul, fx_sqrt, clamp, random,
    random_clamped, tzd_i64, lemma_fxm_range, lemma_fxm_nonneg, lemma_tzd_range,
};
use crate::vec::{Vec3, s_in, s_add, s_scale, s_mul, s_unit, s_ls};
use crate::ray::{Ray, CENTER_LIMIT, DIR_LIMIT};
use crate::hittable::{HittableList, s_scan, s_list_wf, lemma_scan_in_range};
use crate::material::Material;
use crate::sphere::Sphere;
use crate::camera::Camera;
use crate::file_format::Format;

verus! {

/// Lower ray-parameter bound: skips reintersections at the ray's own
/// origin caused by rounding of the hit point ("shadow acne").
pub const T_MIN: i64 = 66;

/// The background gradient: a blend from white to sky blue by the unit
/// direction's height, the blend factor kept in the unit range.
pub open spec fn s_background(d: (int, int, int)) -> (int, int, int) {
    let u = s_unit(d);
    let t = s_clamp(tzd(u.1 + SCALE, 2), 0, SCALE as int);
    s_add(
        s_scale((SCALE as int, SCALE as int, SCALE as int), SCALE as int - t),
        s_scale((32768, 45875, 65536), t),
    )
}

/// The radiance along a ray, by the path-tracing recurrence: black once
/// the depth is exhausted; the background where nothing is hit; else the
/// material's attenuation times the radiance of the scattered ray.
///
/// Scattered rays whose geometry leaves the verified coordinate ranges
/// (possible only in degenerate fixed-point corner cases) are treated as
/// absorbed.
#[verifier::rlimit(60)]
pub fn ray_color(ray: &Ray, world: &HittableList, depth: i32) -> (r: Vec3)
    requires
        s_list_wf(world@),
        s_in(ray.origin@, CENTER_LIMIT as int),
        s_in(ray.direction@, DIR_LIMIT as int),
        1 <= s_ls(ray.direction@),
    ensures
        0 <= r@.0 <= SCALE as int,
        0 <= r@.1 <= SCALE as int,
        0 <= r@.2 <= SCALE as int,
        depth <= 0 ==> r@ == (0int, 0int, 0int),
        (depth > 0 && s_scan(
            world@,
            ray.origin@,
            ray.direction@,
            T_MIN as int,
            T_LIMIT as int,
            world@.len() as int,
        ) is None) ==> r@ == s_background(ray.direction@),
    decreases depth,
{
    if depth <= 0 {
        return Vec3::new(0, 0, 0);
    }
    let hit = world.hit(ray, T_MIN, T_LIMIT);
    if let Some(record) = hit {
        proof {
            lemma_scan_in_range(
                world@,
                ray.origin@,
                ray.direction@,
                T_MIN as int,
                T_LIMIT as int,
                world@.len() as int,
            );
            assert(record.material.wf());
        }
        let point_ok = -CENTER_LIMIT <= record.point.x && record.point.x <= CENTER_LIMIT
            && -CENTER_LIMIT <= record.point.y && record.point.y <= CENTER_LIMIT
            && -CENTER_LIMIT <= record.point.z && record.point.z <= CENTER_LIMIT;
        let normal_ok = -2 * SCALE <= record.normal.x && record.normal.x <= 2 * SCALE && -2
            * SCALE <= record.normal.y && record.normal.y <= 2 * SCALE && -2 * SCALE
            <= record.normal.z && record.normal.z <= 2 * SCALE;
        if !(point_ok && normal_ok) {
            return Vec3::new(0, 0, 0);
        }
        if let Some(scattered) = record.material.scatter(ray, &record) {
            let sd = scattered.ray.direction;
            let dir_ok = -DIR_LIMIT <= sd.x && sd.x <= DIR_LIMIT && -DIR_LIMIT <= sd.y && sd.y
                <= DIR_LIMIT && -DIR_LIMIT <= sd.z && sd.z <= DIR_LIMIT;
            if !dir_ok {
                return Vec3::new(0, 0, 0);
            }
            let dls = sd.length_squared();
            if dls < 1 {
                return Vec3::new(0, 0, 0);
            }
            proof {
                assert(scattered.ray.origin == record.point);
                assert(0 <= scattered.attenuation@.0 <= SCALE as int && 0
                    <= scattered.attenuation@.1 <= SCALE as int && 0 <= scattered.attenuation@.2
                    <= SCALE as int);
            }
            let bounced = ray_color(&scattered.ray, world, depth - 1);
            proof {
                lemma_attenuate(scattered.attenuation@, bounced@);
            }
            return scattered.attenuation.mul(&bounced);
        } else {
            return Vec3::new(0, 0, 0);
        }
    }
    let unit_dir = ray.direction.unit();
    let t = clamp(tzd_i64(unit_dir.y + SCALE, 2), 0, SCALE);
    proof {
        lemma_background_bounds(ray.direction@, t as int);
    }
    let white = Vec3::new(SCALE, SCALE, SCALE);
    let blue = Vec3::new(32768, 45875, 65536);
    white.scale(SCALE - t).add(&blue.scale(t))
}

/// Attenuating a color in the unit cube keeps it there.
proof fn lemma_attenuate(a: (int, int, int), b: (int, int, int))
    requires
        0 <= a.0 <= SCALE as int,
        0 <= a.1 <= SCALE as int,
        0 <= a.2 <= SCALE as int,
        0 <= b.0 <= SCALE as int,
        0 <= b.1 <= SCALE as int,
        0 <= b.2 <= SCALE as int,
    ensures
        0 <= s_mul(a, b).0 <= SCALE as int,
        0 <= s_mul(a, b).1 <= SCALE as int,
        0 <= s_mul(a, b).2 <= SCALE as int,
{
    lemma_fxm_range(a.0, b.0, SCALE as int, SCALE as int);
    lemma_fxm_range(a.1, b.1, SCALE as int, SCALE as int);
    lemma_fxm_range(a.2, b.2, SCALE as int, SCALE as int);
    assert((SCALE as int) * (SCALE as int) / (SCALE as int) == SCALE as int) by (nonlinear_arith)
        requires
            SCALE == 65536i64;
    lemma_fxm_nonneg(a.0, b.0);
    lemma_fxm_nonneg(a.1, b.1);
    lemma_fxm_nonneg(a.2, b.2);
}

/// The background blend stays inside the unit color cube.
proof fn lemma_background_bounds(d: (int, int, int), t: int)
    requires
        0 <= t <= SCALE as int,
    ensures
        fxm(SCALE as int, SCALE as int - t) == SCALE as int - t,
        fxm(32768, t) + (SCALE as int - t) <= SCALE as int,
        0 <= fxm(32768, t),
        0 <= fxm(45875, t) <= t,
        0 <= fxm(65536, t) <= t,
        fxm(65536, t) == t,
        i64::MIN <= fxm(SCALE as int, SCALE as int - t) <= i64::MAX,
        i64::MIN <= fxm(45875, t) <= i64::MAX,
{
    let si = SCALE as int;
    vstd::arithmetic::div_mod::lemma_div_multiples_vanish(si - t, si);
    assert(si * (si - t) == (si - t) * si) by (nonlinear_arith);
    vstd::arithmetic::div_mod::lemma_div_multiples_vanish(t, si);
    assert(65536 * t == si * t) by (nonlinear_arith)
        requires
            si == 65536;
    lemma_fxm_nonneg(32768, t);
    lemma_fxm_nonneg(45875, t);
    lemma_fxm_nonneg(65536, t);
    assert(32768 * t <= t * si && 45875 * t <= t * si) by (nonlinear_arith)
        requires
            si == 65536,
            0 <= t;
    lemma_tzd_range(32768 * t, si, t * si);
    lemma_tzd_range(45875 * t, si, t * si);
    vstd::arithmetic::div_mod::lemma_div_multiples_vanish(t, si);
    assert(t * si == si * t) by (nonlinear_arith);
}

/// The averaged, gamma-corrected, clamped color triple for one pixel,
/// scaled to the format's color depth.
pub open spec fn s_write_color(c: (int, int, int), max_color: int, samples: int) -> (
    int,
    int,
    int,
) {
    (
        s_channel(c.0, max_color, samples),
        s_channel(c.1, max_color, samples),
        s_channel(c.2, max_color, samples),
    )
}

/// One channel: average over the samples, gamma-2 correction by square
/// root, clamp to just below one, scale to the color depth.
pub open spec fn s_channel(c: int, max_color: int, samples: int) -> int {
    let avg = tzd(c, samples);
    let g = isqrt(avg * (SCALE as int));
    let cl = s_clamp(g, 0, 65470);
    tzd(cl * max_color, SCALE as int)
}

/// Turn an accumulated pixel color into the integer triple the image
/// format stores.
pub fn write_color(color: &Vec3, file_format: &Format, samples_per_pixel: u32) -> (r: (
    u32,
    u32,
    u32,
))
    requires
        1 <= samples_per_pixel <= 100000,
        file_format.s_max_color() <= 100000,
        0 <= color@.0 <= samples_per_pixel * 65536,
        0 <= color@.1 <= samples_per_pixel * 65536,
        0 <= color@.2 <= samples_per_pixel * 65536,
    ensures
        (r.0 as int, r.1 as int, r.2 as int) == s_write_color(
            color@,
            file_format.s_max_color() as int,
            samples_per_pixel as int,
        ),
        r.0 <= file_format.s_max_color(),
        r.1 <= file_format.s_max_color(),
        r.2 <= file_format.s_max_color(),
{
    let mc = file_format.max_color();
    let x = channel(color.x, mc, samples_per_pixel);
    let y = channel(color.y, mc, samples_per_pixel);
    let z = channel(color.z, mc, samples_per_pixel);
    (x, y, z)
}

/// One channel of `write_color`.
fn channel(c: i64, max_color: u32, samples_per_pixel: u32) -> (r: u32)
    requires
        1 <= samples_per_pixel <= 100000,
        max_color <= 100000,
        0 <= c <= samples_per_pixel * 65536,
    ensures
        r == s_channel(c as int, max_color as int, samples_per_pixel as int),
        r <= max_color,
{
    let avg = tzd_i64(c, samples_per_pixel as i64);
    proof {
        vstd::arithmetic::div_mod::lemma_div_pos_is_pos(c as int, samples_per_pixel as int);
    }
    let g = fx_sqrt(avg);
    let cl = clamp(g, 0, 65470);
    proof {
        assert(0 <= cl as int * (max_color as int) && cl as int * (max_color as int)
            <= (max_color as int) * 65536) by (nonlinear_arith)
            requires
                0 <= cl as int <= 65470,
                0 <= max_color as int;
        crate::math::lemma_tzd_in(
            cl as int * (max_color as int),
            SCALE as int,
            (max_color as int) * 65536,
            max_color as int,
        );
        vstd::arithmetic::div_mod::lemma_div_pos_is_pos(
            cl as int * (max_color as int),
            SCALE as int,
        );
    }
    let p: i128 = (cl as i128) * (max_color as i128);
    let q: i128 = crate::math::tzd_i128(p, SCALE as i128);
    q as u32
}

/// Render the whole image: for every pixel, average the radiance of
/// jittered camera rays, and format each pixel with `write_color`.
/// Scanlines run from the top of the image down, pixels left to right.
#[verifier::loop_isolation(false)]
#[verifier::rlimit(60)]
pub fn render(
    world: &HittableList,
    camera: &Camera,
    file_format: &Format,
    samples_per_pixel: u32,
    max_depth: i32,
) -> (r: Vec<(u32, u32, u32)>)
    requires
        s_list_wf(world@),
        camera.wf(),
        2 <= file_format.s_width() <= 4096,
        2 <= file_format.s_height() <= 4096,
        1 <= file_format.s_max_color() <= 100000,
        1 <= samples_per_pixel <= 1024,
    ensures
        r@.len() == file_format.s_width() * file_format.s_height(),
        forall|i: int|
            0 <= i < r@.len() ==> (#[trigger] r@[i]).0 <= file_format.s_max_color() && r@[i].1
                <= file_format.s_max_color() && r@[i].2 <= file_format.s_max_color(),
{
    let image_width = file_format.width();
    let image_height = file_format.height();
    let mut pixels: Vec<(u32, u32, u32)> = Vec::new();
    let mut j: u32 = image_height;
    proof {
        assert((image_height as int - image_height as int) * (image_width as int) == 0)
            by (nonlinear_arith);
    }
    while j > 0
        invariant
            0 <= j <= image_height,
            pixels@.len() == (image_height - j) * image_width,
            forall|i: int|
                0 <= i < pixels@.len() ==> (#[trigger] pixels@[i]).0 <= file_format.s_max_color()
                    && pixels@[i].1 <= file_format.s_max_color() && pixels@[i].2
                    <= file_format.s_max_color(),
        decreases j,
    {
        j = j - 1;
        let mut i: u32 = 0;
        while i < image_width
            invariant
                0 <= i <= image_width,
                pixels@.len() == (image_height - j - 1) * image_width + i,
                forall|k: int|
                    0 <= k < pixels@.len() ==> (#[trigger] pixels@[k]).0
                        <= file_format.s_max_color() && pixels@[k].1 <= file_format.s_max_color()
                        && pixels@[k].2 <= file_format.s_max_color(),
            decreases image_width - i,
        {
            let mut color = Vec3::new(0, 0, 0);
            let mut sample: u32 = 0;
            while sample < samples_per_pixel
                invariant
                    0 <= sample <= samples_per_pixel,
                    0 <= color@.0 <= sample * 65536,
                    0 <= color@.1 <= sample * 65536,
                    0 <= color@.2 <= sample * 65536,
                decreases samples_per_pixel - sample,
            {
                let ju = random();
                let jv = random();
                let nu = (i as i64) * SCALE + ju;
                let nv = (j as i64) * SCALE + jv;
                let u = tzd_i64(nu, (image_width - 1) as i64);
                let v = tzd_i64(nv, (image_height - 1) as i64);
                proof {
                    vstd::arithmetic::div_mod::lemma_div_pos_is_pos(
                        nu as int,
                        image_width as int - 1,
                    );
                    vstd::arithmetic::div_mod::lemma_div_pos_is_pos(
                        nv as int,
                        image_height as int - 1,
                    );
                }
                let su = if u > 2 * SCALE {
                    2 * SCALE
                } else {
                    u
                };
                let sv = if v > 2 * SCALE {
                    2 * SCALE
                } else {
                    v
                };
                let ray = camera.get_ray(su, sv);
                let dls_ok = -DIR_LIMIT <= ray.direction.x && ray.direction.x <= DIR_LIMIT
                    && -DIR_LIMIT <= ray.direction.y && ray.direction.y <= DIR_LIMIT && -DIR_LIMIT
                    <= ray.direction.z && ray.direction.z <= DIR_LIMIT;
                if dls_ok {
                    let dls = ray.direction.length_squared();
                    if dls >= 1 {
                        let sample_color = ray_color(&ray, world, max_depth);
                        color = color.add(&sample_color);
                    }
                }
                sample = sample + 1;
            }
            let triple = write_color(&color, file_format, samples_per_pixel);
            pixels.push(triple);
            i = i + 1;
            proof {
                assert((image_height - j - 1) * image_width + i == pixels@.len());
            }
        }
        proof {
            assert((image_height - j) * image_width == (image_height - j - 1) * image_width
                + image_width) by (nonlinear_arith);
        }
    }
    proof {
        assert((image_height as int) * (image_width as int) == (file_format.s_width() as int) * (
        file_format.s_height() as int)) by (nonlinear_arith)
            requires
                image_height == file_format.s_height(),
                image_width == file_format.s_width();
    }
    pixels
}

/// A demonstration scene: a large ground sphere, a grid of small
/// spheres with randomly chosen materials, and three feature spheres
/// (glass, diffuse, metal).
#[verifier::loop_isolation(false)]
pub fn random_scene() -> (r: HittableList)
    ensures
        s_list_wf(r@),
        r@.len() >= 4,
{
    let mut world = HittableList::new();

    let ground_material = Material::Lambertian(Vec3::new(32768, 32768, 32768));
    world.add(Sphere::new(Vec3::new(0, -1000 * SCALE, 0), 1000 * SCALE, ground_material));

    let mut a: i64 = -11;
    while a < 11
        invariant
            -11 <= a <= 11,
            s_list_wf(world@),
            world@.len() >= 1,
        decreases 11 - a,
    {
        let mut b: i64 = -11;
        while b < 11
            invariant
                -11 <= b <= 11,
                s_list_wf(world@),
                world@.len() >= 1,
            decreases 11 - b,
        {
            let choose_mat = random();
            let ja = random();
            let jb = random();
            proof {
                lemma_scene_bounds(a as int, b as int);
                lemma_fxm_range(58982, ja as int, 58982, 65536);
                lemma_fxm_range(58982, jb as int, 58982, 65536);
                lemma_fxm_nonneg(58982, ja as int);
                lemma_fxm_nonneg(58982, jb as int);
            }
            let center = Vec3::new(
                a * SCALE + fx_mul(58982, ja),
                13107,
                b * SCALE + fx_mul(58982, jb),
            );
            let anchor = Vec3::new(4 * SCALE, 13107, 0);
            let gap = center.sub(&anchor);
            if gap.len() > 58982 {
                if choose_mat < 52429 {
                    let c1 = Vec3::random_in_unit_sphere();
                    let c2 = Vec3::random_in_unit_sphere();
                    let mixed = c1.mul(&c2);
                    let color = Vec3::new(
                        clamp(mixed.x, 0, SCALE),
                        clamp(mixed.y, 0, SCALE),
                        clamp(mixed.z, 0, SCALE),
                    );
                    world.add(Sphere::new(center, 13107, Material::Lambertian(color)));
                } else if choose_mat < 62259 {
                    let c1 = Vec3::random_in_unit_sphere();
                    let tint = Vec3::new(32768, SCALE, SCALE);
                    let mixed = c1.mul(&tint);
                    let color = Vec3::new(
                        clamp(mixed.x, 0, SCALE),
                        clamp(mixed.y, 0, SCALE),
                        clamp(mixed.z, 0, SCALE),
                    );
                    let fuzz = random_clamped(0, 32768);
                    world.add(Sphere::new(center, 13107, Material::Metal(color, fuzz)));
                } else {
                    world.add(Sphere::new(center, 13107, Material::Dielectric(98304)));
                }
            }
            b = b + 1;
        }
        a = a + 1;
    }

    let material1 = Material::Dielectric(98304);
    world.add(Sphere::new(Vec3::new(0, SCALE, 0), SCALE, material1));

    let material2 = Material::Lambertian(Vec3::new(26214, 13107, 6554));
    world.add(Sphere::new(Vec3::new(-4 * SCALE, SCALE, 0), SCALE, material2));

    let material3 = Material::Metal(Vec3::new(45875, 39322, 32768), 0);
    world.add(Sphere::new(Vec3::new(4 * SCALE, SCALE, 0), SCALE, material3));

    world
}

/// Grid sphere centers stay within the scene's coordinate range.
proof fn lemma_scene_bounds(a: int, b: int)
    requires
        -11 <= a <= 11,
        -11 <= b <= 11,
    ensures
        -786432 <= a * (SCALE as int) <= 786432,
        -786432 <= b * (SCALE as int) <= 786432,
{
    assert(-786432 <= a * (SCALE as int) <= 786432) by (nonlinear_arith)
        requires
            -11 <= a <= 11,
            SCALE == 65536i64;
    assert(-786432 <= b * (SCALE as int) <= 786432) by (nonlinear_arith)
        requires
            -11 <= b <= 11,
            SCALE == 65536i64;
}

} // verus!
