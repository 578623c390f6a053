//! Tests for intersection, scattering, the camera, the integrator, and
//! the image format.

use pathtrace::camera::Camera;
use pathtrace::file_format::Format;
use pathtrace::hittable::{HitRecord, HittableList};
use pathtrace::material::Material;
use pathtrace::math::{SCALE, T_LIMIT};
use pathtrace::ray::Ray;
use pathtrace::render::{random_scene, ray_color, render, write_color, T_MIN};
use pathtrace::sphere::Sphere;
use pathtrace::vec::Vec3;

fn gray() -> Material {
    Material::Lambertian(Vec3::new(32768, 32768, 32768))
}

#[test]
fn sphere_head_on_hit() {
    // A unit sphere at the origin, a ray from (0,0,5) toward (0,0,-1):
    // the hit is at t = 5 - r = 4, with outward normal (0,0,1), seen
    // from the front.
    let sphere = Sphere::new(Vec3::new(0, 0, 0), SCALE, gray());
    let ray = Ray::new(Vec3::new(0, 0, 5 * SCALE), Vec3::new(0, 0, -SCALE));
    let rec = sphere.hit(&ray, T_MIN, T_LIMIT).unwrap();
    assert_eq!(rec.t, 4 * SCALE);
    assert_eq!(rec.normal, Vec3::new(0, 0, SCALE));
    assert_eq!(rec.point, Vec3::new(0, 0, SCALE));
    assert!(rec.front_face);
}

#[test]
fn sphere_head_on_hit_half_radius() {
    let sphere = Sphere::new(Vec3::new(0, 0, 0), 32768, gray());
    let ray = Ray::new(Vec3::new(0, 0, 5 * SCALE), Vec3::new(0, 0, -SCALE));
    let rec = sphere.hit(&ray, T_MIN, T_LIMIT).unwrap();
    // t = 5 - 0.5 = 4.5
    assert_eq!(rec.t, 294912);
    assert_eq!(rec.normal, Vec3::new(0, 0, SCALE));
    assert!(rec.front_face);
}

#[test]
fn sphere_miss() {
    let sphere = Sphere::new(Vec3::new(0, 0, 0), SCALE, gray());
    let ray = Ray::new(Vec3::new(0, 0, 5 * SCALE), Vec3::new(0, 0, SCALE));
    assert!(sphere.hit(&ray, T_MIN, T_LIMIT).is_none());
    let sideways = Ray::new(Vec3::new(0, 5 * SCALE, 5 * SCALE), Vec3::new(0, 0, -SCALE));
    assert!(sphere.hit(&sideways, T_MIN, T_LIMIT).is_none());
}

#[test]
fn ray_evaluation() {
    let ray = Ray::new(Vec3::new(SCALE, 2 * SCALE, 3 * SCALE), Vec3::new(0, 0, -SCALE));
    assert_eq!(ray.at(2 * SCALE), Vec3::new(SCALE, 2 * SCALE, SCALE));
}

#[test]
fn hit_record_orients_normal_against_ray() {
    let toward = Ray::new(Vec3::new(0, 0, 5 * SCALE), Vec3::new(0, 0, -SCALE));
    let rec = HitRecord::new(&toward, SCALE, Vec3::new(0, 0, SCALE), gray());
    assert!(rec.front_face);
    assert_eq!(rec.normal, Vec3::new(0, 0, SCALE));

    let away = Ray::new(Vec3::new(0, 0, 0), Vec3::new(0, 0, SCALE));
    let rec2 = HitRecord::new(&away, SCALE, Vec3::new(0, 0, SCALE), gray());
    assert!(!rec2.front_face);
    assert_eq!(rec2.normal, Vec3::new(0, 0, -SCALE));
}

#[test]
fn scene_returns_nearest_hit() {
    let mut world = HittableList::new();
    // Insert the farther sphere first: the scan must still report the
    // nearer one.
    world.add(Sphere::new(Vec3::new(0, 0, -6 * SCALE), SCALE, gray()));
    world.add(
        Sphere::new(
            Vec3::new(0, 0, -3 * SCALE),
            SCALE,
            Material::Metal(Vec3::new(SCALE, 0, 0), 0),
        ),
    );
    let ray = Ray::new(Vec3::new(0, 0, 0), Vec3::new(0, 0, -SCALE));
    let rec = world.hit(&ray, T_MIN, T_LIMIT).unwrap();
    assert_eq!(rec.t, 2 * SCALE);
    match rec.material {
        Material::Metal(color, fuzz) => {
            assert_eq!(color, Vec3::new(SCALE, 0, 0));
            assert_eq!(fuzz, 0);
        },
        _ => panic!("nearest sphere's material expected"),
    }
}

#[test]
fn scene_len_grows() {
    let mut world = HittableList::new();
    assert_eq!(world.len(), 0);
    world.add(Sphere::new(Vec3::new(0, 0, 0), SCALE, gray()));
    assert_eq!(world.len(), 1);
}

#[test]
fn metal_with_zero_fuzz_is_a_mirror() {
    let material = Material::Metal(Vec3::new(SCALE, SCALE, SCALE), 0);
    let ray = Ray::new(Vec3::new(0, 0, 5 * SCALE), Vec3::new(0, 0, -SCALE));
    let rec = HitRecord::new(&ray, 4 * SCALE, Vec3::new(0, 0, SCALE), material.clone());
    let scattered = material.scatter(&ray, &rec).unwrap();
    assert_eq!(scattered.ray.direction, Vec3::new(0, 0, SCALE));
    assert_eq!(scattered.ray.origin, rec.point);
    assert_eq!(scattered.attenuation, Vec3::new(SCALE, SCALE, SCALE));
}

#[test]
fn metal_absorbs_grazing_reflection() {
    let material = Material::Metal(Vec3::new(SCALE, SCALE, SCALE), 0);
    let ray = Ray::new(Vec3::new(0, 0, 0), Vec3::new(SCALE, 0, 0));
    let rec = HitRecord::new(&ray, SCALE, Vec3::new(0, 0, SCALE), material.clone());
    assert!(material.scatter(&ray, &rec).is_none());
}

#[test]
fn lambertian_always_scatters_from_the_hit_point() {
    let material = gray();
    let ray = Ray::new(Vec3::new(0, 0, 5 * SCALE), Vec3::new(0, 0, -SCALE));
    let rec = HitRecord::new(&ray, 4 * SCALE, Vec3::new(0, 0, SCALE), material.clone());
    for _ in 0..100 {
        let scattered = material.scatter(&ray, &rec).unwrap();
        assert_eq!(scattered.attenuation, Vec3::new(32768, 32768, 32768));
        assert_eq!(scattered.ray.origin, rec.point);
        // The diffuse direction leans toward the oriented normal.
        assert!(scattered.ray.direction.z > -SCALE);
    }
}

#[test]
fn dielectric_with_unit_index_does_not_bend() {
    // Refractive index 1.0 at normal incidence: the scattered direction
    // is exactly the incoming direction.
    let material = Material::Dielectric(SCALE);
    let ray = Ray::new(Vec3::new(0, 0, 5 * SCALE), Vec3::new(0, 0, -SCALE));
    let rec = HitRecord::new(&ray, 4 * SCALE, Vec3::new(0, 0, SCALE), material.clone());
    for _ in 0..100 {
        let scattered = material.scatter(&ray, &rec).unwrap();
        assert_eq!(scattered.ray.direction, Vec3::new(0, 0, -SCALE));
        assert_eq!(scattered.attenuation, Vec3::new(SCALE, SCALE, SCALE));
    }
}

#[test]
fn miss_returns_exact_background() {
    let world = HittableList::new();
    let up = Ray::new(Vec3::new(0, 0, 0), Vec3::new(0, SCALE, 0));
    assert_eq!(ray_color(&up, &world, 50), Vec3::new(32768, 45875, 65536));
    let down = Ray::new(Vec3::new(0, 0, 0), Vec3::new(0, -SCALE, 0));
    assert_eq!(ray_color(&down, &world, 50), Vec3::new(SCALE, SCALE, SCALE));
}

#[test]
fn depth_zero_is_black() {
    let world = random_scene();
    let ray = Ray::new(Vec3::new(0, 0, 5 * SCALE), Vec3::new(0, 0, -SCALE));
    assert_eq!(ray_color(&ray, &world, 0), Vec3::new(0, 0, 0));
    assert_eq!(ray_color(&ray, &world, -3), Vec3::new(0, 0, 0));
}

#[test]
fn random_scene_has_feature_spheres() {
    let world = random_scene();
    assert!(world.len() >= 4);
}

#[test]
fn camera_with_closed_aperture_is_deterministic() {
    let camera = Camera::new(
        Vec3::new(0, 0, 0),
        Vec3::new(0, 0, -SCALE),
        Vec3::new(0, SCALE, 0),
        90 * SCALE,
        SCALE,
        0,
        10 * SCALE,
    );
    let first = camera.get_ray(SCALE, SCALE);
    let second = camera.get_ray(SCALE, SCALE);
    assert_eq!(first.origin, Vec3::new(0, 0, 0));
    assert_eq!(first.origin, second.origin);
    assert_eq!(first.direction, second.direction);
    // The central ray points down the view axis.
    assert!(first.direction.z < 0);
}

#[test]
fn end_to_end_partial_absorption() {
    // One gray diffuse sphere covering the whole view, lit only by the
    // background: every pixel is strictly between black and the
    // unattenuated background.
    let mut world = HittableList::new();
    world.add(Sphere::new(Vec3::new(0, 0, -1010 * SCALE), 1000 * SCALE, gray()));
    let camera = Camera::new(
        Vec3::new(0, 0, 0),
        Vec3::new(0, 0, -SCALE),
        Vec3::new(0, SCALE, 0),
        90 * SCALE,
        SCALE,
        0,
        10 * SCALE,
    );
    let format = Format::PP3(2, 2, 255);
    let pixels = render(&world, &camera, &format, 1, 3);
    assert_eq!(pixels.len(), 4);
    for (r, g, b) in pixels {
        assert!(0 < r && r < 255);
        assert!(0 < g && g < 255);
        assert!(0 < b && b < 255);
    }
}

#[test]
fn header_text() {
    let format = Format::PP3(1200, 800, 255);
    assert_eq!(format.print_header(), "P3\n1200 800\n255\n");
    assert_eq!(format.max_color(), 255);
    assert_eq!(format.width(), 1200);
    assert_eq!(format.height(), 800);
}

#[test]
fn pixel_formatting() {
    let format = Format::PP3(2, 2, 255);
    // Four samples summing to (4.0, 0.0, 1.0): averaged, gamma
    // corrected, clamped and scaled.
    let color = Vec3::new(4 * SCALE, 0, SCALE);
    assert_eq!(write_color(&color, &format, 4), (254, 0, 127));
}
