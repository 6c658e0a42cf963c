//! End-to-end render regression: a single diffuse sphere under a seeded
//! sampler must reproduce an exact pixel grid.

use ray_tracer::fixed::FX_ONE;
use ray_tracer::vec3::Vec3;
use ray_tracer::sphere::Sphere;
use ray_tracer::hit_record::Material;
use ray_tracer::camera::Camera;
use ray_tracer::sampler::Sampler;
use ray_tracer::render::{render, get_scene, quantize_channel};

#[test]
fn quantization_is_exact() {
    // sqrt then scale by 255.99 then truncate: black, white, mid gray.
    assert_eq!(quantize_channel(0), 0);
    assert_eq!(quantize_channel(FX_ONE), 255);
    // 0.25 -> sqrt = 0.5 -> 127.995 -> 127.
    assert_eq!(quantize_channel(16384), 127);
    // Out-of-range values saturate.
    assert_eq!(quantize_channel(-FX_ONE), 0);
    assert_eq!(quantize_channel(100 * FX_ONE), 255);
}

#[test]
fn render_produces_one_pixel_per_grid_cell() {
    let spheres: Vec<Sphere> = Vec::new();
    let cam = Camera::new(
        Vec3::new(0, 0, 0),
        Vec3::new(0, 0, -FX_ONE),
        Vec3::new(0, FX_ONE, 0),
        90 * FX_ONE,
        FX_ONE,
        0,
        FX_ONE,
    );
    let mut s = Sampler::seeded(8);
    let pixels = render(&cam, &spheres, 3, 2, 1, &mut s);
    assert_eq!(pixels.len(), 6);
}

#[test]
fn scene_has_ground_and_three_large_spheres() {
    let mut s = Sampler::seeded(99);
    let scene = get_scene(&mut s);
    assert!(scene.len() >= 4 && scene.len() <= 488);
    // The ground sphere comes first; the three large ones close the list.
    assert_eq!(scene[0].radius, 1000 * FX_ONE);
    let n = scene.len();
    assert_eq!(scene[n - 3].radius, FX_ONE);
    assert_eq!(scene[n - 2].radius, FX_ONE);
    assert_eq!(scene[n - 1].radius, FX_ONE);
}

#[test]
fn scene_grid_spheres_hold_their_invariants() {
    let mut s = Sampler::seeded(7);
    let scene = get_scene(&mut s);
    let n = scene.len();
    let guard = Vec3::new(4 * FX_ONE, 13107, 0);
    for sphere in &scene[1..n - 3] {
        assert_eq!(sphere.radius, 13107);
        assert_eq!(sphere.center.y, 13107);
        assert!(sphere.center.sub(&guard).length() > 58982);
        match sphere.material {
            Material::Lambertian { albedo } => {
                assert!(0 <= albedo.x && albedo.x < FX_ONE);
                assert!(0 <= albedo.y && albedo.y < FX_ONE);
                assert!(0 <= albedo.z && albedo.z < FX_ONE);
            }
            Material::Metal { albedo, fuzz } => {
                assert!(32768 <= albedo.x && albedo.x < FX_ONE);
                assert!(32768 <= albedo.y && albedo.y < FX_ONE);
                assert!(32768 <= albedo.z && albedo.z < FX_ONE);
                assert!(0 <= fuzz && fuzz < 32768);
            }
            Material::Dialectric { ref_idx } => {
                assert_eq!(ref_idx, 98304);
            }
        }
    }
}

#[test]
fn golden_single_sphere_grid() {
    // One gray diffuse sphere at (0, 0, -1) with radius 0.5, a pinhole
    // camera at the origin looking down -z, one sample per pixel, a fixed
    // seed: the 4 x 4 render is an exact regression grid.
    let spheres: Vec<Sphere> = vec![Sphere::new(
        Vec3::new(0, 0, -FX_ONE),
        32768,
        Material::Lambertian { albedo: Vec3::new(32768, 32768, 32768) },
    )];
    let cam = Camera::new(
        Vec3::new(0, 0, 0),
        Vec3::new(0, 0, -FX_ONE),
        Vec3::new(0, FX_ONE, 0),
        90 * FX_ONE,
        FX_ONE,
        0,
        FX_ONE,
    );
    let mut s = Sampler::seeded(42);
    let pixels = render(&cam, &spheres, 4, 4, 1, &mut s);
    let expected: Vec<(u8, u8, u8)> = vec![
        (201, 224, 255),
        (200, 224, 255),
        (160, 168, 181),
        (206, 227, 255),
        (209, 229, 255),
        (156, 166, 181),
        (140, 157, 181),
        (207, 228, 255),
        (232, 241, 255),
        (154, 165, 181),
        (161, 169, 181),
        (229, 240, 255),
        (241, 247, 255),
        (241, 247, 255),
        (242, 247, 255),
        (241, 247, 255),
    ];
    assert_eq!(pixels, expected);
}
