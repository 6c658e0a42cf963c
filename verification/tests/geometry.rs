//! Ray-sphere intersection and scene aggregation.

use ray_tracer::fixed::FX_ONE;
use ray_tracer::vec3::Vec3;
use ray_tracer::ray::Ray;
use ray_tracer::sphere::Sphere;
use ray_tracer::hit_record::Material;
use ray_tracer::render::hit;

const T_MIN: i64 = 66;

fn gray() -> Material {
    Material::Lambertian { albedo: Vec3::new(32768, 32768, 32768) }
}

#[test]
fn head_on_hit_at_four_with_unit_normal() {
    // A unit sphere at the origin, a ray from (0, 0, 5) aimed at (0, 0, -1):
    // the near intersection is at t = 4 with normal (0, 0, 1).
    let s = Sphere::new(Vec3::new(0, 0, 0), FX_ONE, gray());
    let r = Ray { a: Vec3::new(0, 0, 5 * FX_ONE), b: Vec3::new(0, 0, -FX_ONE) };
    let rec = s.hit(&r, T_MIN, i64::MAX).expect("the ray must hit");
    assert_eq!(rec.t, 4 * FX_ONE);
    assert_eq!(rec.p, Vec3::new(0, 0, FX_ONE));
    assert_eq!(rec.normal, Vec3::new(0, 0, FX_ONE));
}

#[test]
fn tangent_ray_misses() {
    // A ray grazing the unit sphere at x = 1 has a zero discriminant, and
    // tangency counts as a miss.
    let s = Sphere::new(Vec3::new(0, 0, 0), FX_ONE, gray());
    let r = Ray { a: Vec3::new(FX_ONE, 0, 5 * FX_ONE), b: Vec3::new(0, 0, -FX_ONE) };
    assert!(s.hit(&r, T_MIN, i64::MAX).is_none());
}

#[test]
fn inside_origin_gets_outward_unit_normal() {
    // A ray starting at the center leaves through the far intersection; the
    // normal still points outward (away from the center) with unit length.
    let s = Sphere::new(Vec3::new(0, 0, 0), FX_ONE, gray());
    let r = Ray { a: Vec3::new(0, 0, 0), b: Vec3::new(0, 0, FX_ONE) };
    let rec = s.hit(&r, T_MIN, i64::MAX).expect("the ray must exit the sphere");
    assert_eq!(rec.t, FX_ONE);
    assert_eq!(rec.normal.length(), FX_ONE);
    let outward = rec.p.sub(&Vec3::new(0, 0, 0));
    assert!(rec.normal.dot(&outward) > 0);
}

#[test]
fn window_excludes_near_root() {
    // With t_max below the near root and above nothing, the hit is rejected.
    let s = Sphere::new(Vec3::new(0, 0, 0), FX_ONE, gray());
    let r = Ray { a: Vec3::new(0, 0, 5 * FX_ONE), b: Vec3::new(0, 0, -FX_ONE) };
    assert!(s.hit(&r, T_MIN, 3 * FX_ONE).is_none());
    // With t_min above the near root, the far root (t = 6) is accepted.
    let rec = s.hit(&r, 5 * FX_ONE, i64::MAX).expect("the far root is in the window");
    assert_eq!(rec.t, 6 * FX_ONE);
}

#[test]
fn aggregator_keeps_nearer_sphere_in_both_orders() {
    // Two spheres on the ray's path; whichever is listed first, the hit is
    // the closer one (t = 1.5 on the sphere at z = -2).
    let near = Sphere::new(
        Vec3::new(0, 0, -2 * FX_ONE),
        32768,
        Material::Lambertian { albedo: Vec3::new(FX_ONE, 0, 0) },
    );
    let far = Sphere::new(
        Vec3::new(0, 0, -4 * FX_ONE),
        32768,
        Material::Lambertian { albedo: Vec3::new(0, FX_ONE, 0) },
    );
    let r = Ray { a: Vec3::new(0, 0, 0), b: Vec3::new(0, 0, -FX_ONE) };

    let fwd: Vec<Sphere> = vec![
        Sphere::new(near.center, near.radius, near.material),
        Sphere::new(far.center, far.radius, far.material),
    ];
    let bwd: Vec<Sphere> = vec![
        Sphere::new(far.center, far.radius, far.material),
        Sphere::new(near.center, near.radius, near.material),
    ];

    let h1 = hit(&r, &fwd, T_MIN, i64::MAX).expect("both spheres are on the path");
    let h2 = hit(&r, &bwd, T_MIN, i64::MAX).expect("both spheres are on the path");
    assert_eq!(h1.t, 98304);
    assert_eq!(h2.t, 98304);
    assert_eq!(h1.material, near.material);
    assert_eq!(h2.material, near.material);
    // Sanity: the far sphere alone is hit at t = 3.5.
    let only_far: Vec<Sphere> = vec![Sphere::new(far.center, far.radius, far.material)];
    assert_eq!(hit(&r, &only_far, T_MIN, i64::MAX).unwrap().t, 229376);
}
