//! Camera construction and ray generation.

use ray_tracer::fixed::FX_ONE;
use ray_tracer::vec3::Vec3;
use ray_tracer::camera::Camera;
use ray_tracer::sampler::Sampler;

fn pinhole() -> Camera {
    Camera::new(
        Vec3::new(0, 0, 0),
        Vec3::new(0, 0, -FX_ONE),
        Vec3::new(0, FX_ONE, 0),
        90 * FX_ONE,
        FX_ONE,
        0,
        FX_ONE,
    )
}

#[test]
fn pinhole_rays_are_reproducible() {
    // With aperture zero the lens radius is zero: repeated calls with the
    // same viewport coordinates give bit-identical rays even though the
    // sampler state advances.
    let cam = pinhole();
    let mut s = Sampler::seeded(21);
    let r1 = cam.get_ray(32768, 32768, &mut s);
    let r2 = cam.get_ray(32768, 32768, &mut s);
    let r3 = cam.get_ray(32768, 32768, &mut s);
    assert_eq!(r1.a, r2.a);
    assert_eq!(r1.b, r2.b);
    assert_eq!(r2.a, r3.a);
    assert_eq!(r2.b, r3.b);
}

#[test]
fn pinhole_rays_start_at_the_eye() {
    let cam = pinhole();
    let mut s = Sampler::seeded(22);
    let r = cam.get_ray(0, 0, &mut s);
    assert_eq!(r.a, Vec3::new(0, 0, 0));
    let r2 = cam.get_ray(FX_ONE, FX_ONE, &mut s);
    assert_eq!(r2.a, Vec3::new(0, 0, 0));
}

#[test]
fn center_ray_looks_forward() {
    // The ray through the viewport center of a symmetric pinhole camera
    // points essentially down -z (the tangent evaluation is approximate, so
    // the transverse components are only near zero).
    let cam = pinhole();
    let mut s = Sampler::seeded(23);
    let r = cam.get_ray(32768, 32768, &mut s);
    assert!(r.b.z < 0);
    assert!(r.b.x.abs() < 1024);
    assert!(r.b.y.abs() < 1024);
}

#[test]
fn aperture_rays_stay_on_the_lens_disk() {
    // With a nonzero aperture the origin is offset by at most the lens
    // radius in each basis direction.
    let cam = Camera::new(
        Vec3::new(0, 0, 0),
        Vec3::new(0, 0, -FX_ONE),
        Vec3::new(0, FX_ONE, 0),
        90 * FX_ONE,
        FX_ONE,
        13107,
        FX_ONE,
    );
    let mut s = Sampler::seeded(24);
    let mut k: usize = 0;
    while k < 50 {
        let r = cam.get_ray(32768, 32768, &mut s);
        assert!(r.a.x.abs() <= 13107);
        assert!(r.a.y.abs() <= 13107);
        k += 1;
    }
}
