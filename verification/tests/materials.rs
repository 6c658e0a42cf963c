//! The three scattering models.

use ray_tracer::fixed::FX_ONE;
use ray_tracer::vec3::Vec3;
use ray_tracer::ray::Ray;
use ray_tracer::hit_record::{HitRecord, Material, lambertian_scatter, metal_scatter,
    dialectric_scatter, reflect, refract, schlick};
use ray_tracer::sampler::Sampler;

#[test]
fn reflect_exact_values() {
    // Reflecting the downward diagonal about the upward normal flips y.
    let v = Vec3::new(FX_ONE, -FX_ONE, 0);
    let n = Vec3::new(0, FX_ONE, 0);
    assert_eq!(reflect(&v, &n), Vec3::new(FX_ONE, FX_ONE, 0));
    // Reflecting the normal itself gives its negation.
    assert_eq!(reflect(&n, &n), Vec3::new(0, -FX_ONE, 0));
}

#[test]
fn refract_exact_values() {
    // Index ratio one, head-on: the direction passes through unchanged.
    let v = Vec3::new(0, 0, -FX_ONE);
    let n = Vec3::new(0, 0, FX_ONE);
    assert_eq!(refract(&v, &n, FX_ONE), Some(Vec3::new(0, 0, -FX_ONE)));
    // A grazing ray at index ratio 1.5 is totally internally reflected.
    let grazing = Vec3::new(FX_ONE, 0, 0);
    assert_eq!(refract(&grazing, &n, 98304), None);
}

#[test]
fn schlick_exact_values() {
    // At cosine one (normal incidence) only the base reflectance r0 is left;
    // for glass (index 1.5) r0 = ((1 - 1.5) / (1 + 1.5))^2, about 4 percent.
    assert_eq!(schlick(FX_ONE, 98304), 2621);
    // At cosine zero (grazing) the reflectance saturates to one.
    assert_eq!(schlick(0, 98304), FX_ONE);
    // At index one and cosine one nothing reflects at all.
    assert_eq!(schlick(FX_ONE, FX_ONE), 0);
}

fn record(material: Material) -> HitRecord {
    HitRecord {
        t: FX_ONE,
        p: Vec3::new(0, 0, -FX_ONE),
        normal: Vec3::new(0, 0, FX_ONE),
        material,
    }
}

#[test]
fn lambertian_never_absorbs_and_keeps_albedo() {
    let albedo = Vec3::new(26214, 13107, 6554);
    let rec = record(Material::Lambertian { albedo });
    let mut s = Sampler::seeded(7);
    let mut k: usize = 0;
    while k < 100 {
        let (scattered, attenuation) =
            lambertian_scatter(&rec, albedo, &mut s).expect("diffuse scatter never absorbs");
        assert_eq!(attenuation, albedo);
        assert_eq!(scattered.a, rec.p);
        k += 1;
    }
}

#[test]
fn lambertian_through_dispatch() {
    let albedo = Vec3::new(32768, 32768, 32768);
    let rec = record(Material::Lambertian { albedo });
    let r_in = Ray { a: Vec3::new(0, 0, 0), b: Vec3::new(0, 0, -FX_ONE) };
    let mut s = Sampler::seeded(11);
    let (_, attenuation) = rec.scatter(&r_in, &mut s).expect("diffuse scatter never absorbs");
    assert_eq!(attenuation, albedo);
}

#[test]
fn metal_head_on_along_normal_is_absorbed() {
    // The incoming direction equals the outward normal: the mirror reflection
    // points straight back into the surface and the dot-product gate (> 0)
    // rejects it.
    let albedo = Vec3::new(45875, 39322, 32768);
    let rec = record(Material::Metal { albedo, fuzz: 0 });
    let r_in = Ray { a: Vec3::new(0, 0, -2 * FX_ONE), b: Vec3::new(0, 0, FX_ONE) };
    let mut s = Sampler::seeded(3);
    let mut k: usize = 0;
    while k < 50 {
        assert!(metal_scatter(&r_in, &rec, albedo, 0, &mut s).is_none());
        k += 1;
    }
}

#[test]
fn metal_reflects_opposing_ray() {
    // Arriving against the outward normal, the fuzz-free reflection is the
    // normal itself and is kept.
    let albedo = Vec3::new(45875, 39322, 32768);
    let rec = record(Material::Metal { albedo, fuzz: 0 });
    let r_in = Ray { a: Vec3::new(0, 0, 0), b: Vec3::new(0, 0, -FX_ONE) };
    let mut s = Sampler::seeded(3);
    let (scattered, attenuation) =
        metal_scatter(&r_in, &rec, albedo, 0, &mut s).expect("the reflection leaves the surface");
    assert_eq!(attenuation, albedo);
    assert_eq!(scattered.a, rec.p);
    assert_eq!(scattered.b, Vec3::new(0, 0, FX_ONE));
}

#[test]
fn dielectric_index_one_refracts_undeviated() {
    // With a refractive index of one a head-on ray passes straight through:
    // never absorbed, attenuation white, direction unchanged.
    let rec = record(Material::Dialectric { ref_idx: FX_ONE });
    let r_in = Ray { a: Vec3::new(0, 0, 0), b: Vec3::new(0, 0, -FX_ONE) };
    let mut s = Sampler::seeded(5);
    let mut k: usize = 0;
    while k < 100 {
        let (scattered, attenuation) =
            dialectric_scatter(&r_in, &rec, FX_ONE, &mut s).expect("glass never absorbs");
        assert_eq!(attenuation, Vec3::new(FX_ONE, FX_ONE, FX_ONE));
        assert_eq!(scattered.a, rec.p);
        assert_eq!(scattered.b, Vec3::new(0, 0, -FX_ONE));
        k += 1;
    }
}

#[test]
fn dielectric_glass_never_absorbs() {
    // Real glass (index 1.5) scatters every draw, reflected or refracted.
    let rec = record(Material::Dialectric { ref_idx: 98304 });
    let r_in = Ray { a: Vec3::new(0, 0, 0), b: Vec3::new(19661, 0, -FX_ONE) };
    let mut s = Sampler::seeded(9);
    let mut k: usize = 0;
    while k < 100 {
        let (_, attenuation) =
            dialectric_scatter(&r_in, &rec, 98304, &mut s).expect("glass never absorbs");
        assert_eq!(attenuation, Vec3::new(FX_ONE, FX_ONE, FX_ONE));
        k += 1;
    }
}
