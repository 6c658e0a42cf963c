//! The sampling primitives and the averaging path of the renderer.

use ray_tracer::fixed::FX_ONE;
use ray_tracer::vec3::Vec3;
use ray_tracer::camera::Camera;
use ray_tracer::sphere::Sphere;
use ray_tracer::sampler::Sampler;
use ray_tracer::hit_record::random_in_unit_sphere;
use ray_tracer::camera::random_in_unit_disk;
use ray_tracer::render::render;

#[test]
fn unit_sphere_points_are_strictly_inside() {
    let mut s = Sampler::seeded(31);
    let mut k: usize = 0;
    while k < 1000 {
        let p = random_in_unit_sphere(&mut s);
        assert!(p.dot(&p) < FX_ONE);
        assert!(p.x.abs() <= FX_ONE && p.y.abs() <= FX_ONE && p.z.abs() <= FX_ONE);
        k += 1;
    }
}

#[test]
fn unit_disk_points_are_inside_and_flat() {
    let mut s = Sampler::seeded(32);
    let mut k: usize = 0;
    while k < 1000 {
        let p = random_in_unit_disk(&mut s);
        assert!(p.dot(&p) < FX_ONE);
        assert_eq!(p.z, 0);
        k += 1;
    }
}

#[test]
fn entropy_sampler_also_stays_in_range() {
    let mut s = Sampler::from_entropy();
    let mut k: usize = 0;
    while k < 100 {
        let p = random_in_unit_sphere(&mut s);
        assert!(p.dot(&p) < FX_ONE);
        k += 1;
    }
}

#[test]
fn sky_blue_channel_survives_averaging_exactly() {
    // The background's blue channel is exactly 1.0 for every ray, so summing
    // any number of jittered samples and dividing by the count leaves exactly
    // 1.0, which quantizes to 255. This pins the average-then-gamma order.
    let spheres: Vec<Sphere> = Vec::new();
    let cam = Camera::new(
        Vec3::new(0, 0, 0),
        Vec3::new(0, 0, -FX_ONE),
        Vec3::new(0, FX_ONE, 0),
        90 * FX_ONE,
        FX_ONE,
        0,
        FX_ONE,
    );
    let mut s = Sampler::seeded(33);
    let pixels = render(&cam, &spheres, 3, 3, 5, &mut s);
    assert_eq!(pixels.len(), 9);
    for (_, _, b) in pixels {
        assert_eq!(b, 255);
    }
}
