//! The recursive integrator: background gradient, depth cap, absorption.

use ray_tracer::fixed::FX_ONE;
use ray_tracer::vec3::Vec3;
use ray_tracer::ray::Ray;
use ray_tracer::sphere::Sphere;
use ray_tracer::hit_record::Material;
use ray_tracer::render::colour;
use ray_tracer::sampler::Sampler;

#[test]
fn miss_yields_background_gradient() {
    // No spheres: the result is the closed-form vertical gradient
    // (1 - t)(1,1,1) + t(0.5, 0.7, 1) with t = 0.5 (y_normalized + 1).
    let spheres: Vec<Sphere> = Vec::new();
    let mut s = Sampler::seeded(1);

    // Horizontal ray: t = 0.5, the midpoint of the gradient.
    let r = Ray { a: Vec3::new(0, 0, 0), b: Vec3::new(0, 0, -FX_ONE) };
    assert_eq!(colour(&r, &spheres, 0, &mut s), Vec3::new(49152, 55705, FX_ONE));

    // Straight up: t = 1, the pure sky color.
    let up = Ray { a: Vec3::new(0, 0, 0), b: Vec3::new(0, FX_ONE, 0) };
    assert_eq!(colour(&up, &spheres, 0, &mut s), Vec3::new(32768, 45875, FX_ONE));

    // Straight down: t = 0, pure white.
    let down = Ray { a: Vec3::new(0, 0, 0), b: Vec3::new(0, -FX_ONE, 0) };
    assert_eq!(colour(&down, &spheres, 0, &mut s), Vec3::new(FX_ONE, FX_ONE, FX_ONE));

    // An oblique direction (3, 4, 0): its unit vector has y = 4/5, truncated
    // to 52428, so t = 58982 and the blend is exact in fixed point.
    let oblique = Ray { a: Vec3::new(0, 0, 0), b: Vec3::new(3 * FX_ONE, 4 * FX_ONE, 0) };
    assert_eq!(colour(&oblique, &spheres, 0, &mut s), Vec3::new(36045, 47841, FX_ONE));
}

#[test]
fn depth_cap_yields_black() {
    // At the recursion cap any hit returns black, whatever the material does.
    let spheres: Vec<Sphere> = vec![Sphere::new(
        Vec3::new(0, 0, 0),
        10 * FX_ONE,
        Material::Lambertian { albedo: Vec3::new(32768, 32768, 32768) },
    )];
    let r = Ray { a: Vec3::new(0, 0, 0), b: Vec3::new(0, 0, FX_ONE) };
    let mut s = Sampler::seeded(2);
    assert_eq!(colour(&r, &spheres, 50, &mut s), Vec3::new(0, 0, 0));
    assert_eq!(colour(&r, &spheres, 200, &mut s), Vec3::new(0, 0, 0));
}

#[test]
fn facing_mirrors_recurse_to_the_cap_and_stay_black() {
    // Two fuzz-free mirrors facing each other along the ray's axis: every
    // bounce re-hits the opposite sphere, the recursion runs to the depth
    // cap, and the attenuated result is exactly black.
    let mirror = Material::Metal { albedo: Vec3::new(FX_ONE, FX_ONE, FX_ONE), fuzz: 0 };
    let spheres: Vec<Sphere> = vec![
        Sphere::new(Vec3::new(0, 0, 0), FX_ONE, mirror),
        Sphere::new(Vec3::new(0, 0, 4 * FX_ONE), FX_ONE, mirror),
    ];
    let r = Ray { a: Vec3::new(0, 0, 2 * FX_ONE), b: Vec3::new(0, 0, -FX_ONE) };
    let mut s = Sampler::seeded(1);
    let mut k: usize = 0;
    while k < 10 {
        assert_eq!(colour(&r, &spheres, 0, &mut s), Vec3::new(0, 0, 0));
        k += 1;
    }
}

#[test]
fn metal_absorption_yields_black() {
    // A fuzz-free metal hit along its outward normal absorbs the path.
    let spheres: Vec<Sphere> = vec![Sphere::new(
        Vec3::new(0, 0, 0),
        FX_ONE,
        Material::Metal { albedo: Vec3::new(FX_ONE, FX_ONE, FX_ONE), fuzz: 0 },
    )];
    // From inside, the ray leaves through the surface along the normal.
    let r = Ray { a: Vec3::new(0, 0, 0), b: Vec3::new(0, 0, FX_ONE) };
    let mut s = Sampler::seeded(4);
    assert_eq!(colour(&r, &spheres, 0, &mut s), Vec3::new(0, 0, 0));
}
