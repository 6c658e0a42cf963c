//! Hit records and the three material scattering models: diffuse
//! (Lambertian), reflective (metal with a fuzz perturbation) and refractive
//! (dielectric with Schlick's reflectance approximation).

use vstd::prelude::*;
use crate::fixed::{fadd, fsub, fneg, fmul, fdiv, fadd_s, fsub_s, fneg_s, fmul_s, fdiv_s,
    fsqrt_s, FX_ONE, FX_TWO};
use crate::vec3::{Vec3, V3, v3, add_v, sub_v, neg_v, scale_v, dot_v, length_v, unit_v};
use crate::ray::{Ray, RayV};
use crate::sampler::Sampler;

verus! {

/// A surface material; each sphere carries exactly one.
#[derive(Clone, Copy, Debug, PartialEq, Eq, Structural)]
pub enum Material {
    Lambertian { albedo: Vec3 },
    Metal { albedo: Vec3, fuzz: i64 },
    Dialectric { ref_idx: i64 },
}

/// The mathematical image of a hit record.
pub ghost struct HitV {
    pub t: int,
    pub p: V3,
    pub normal: V3,
    pub material: Material,
}

/// The nearest intersection found along a ray: parameter, point, outward
/// normal and the material of the sphere that was hit.
#[derive(Clone, Copy, Debug)]
pub struct HitRecord {
    pub t: i64,
    pub p: Vec3,
    pub normal: Vec3,
    pub material: Material,
}

impl View for HitRecord {
    type V = HitV;

    open spec fn view(&self) -> HitV {
        HitV { t: self.t as int, p: self.p@, normal: self.normal@, material: self.material }
    }
}

/// A point strictly inside the unit sphere.
pub open spec fn in_unit_sphere(p: V3) -> bool {
    dot_v(p, p) < FX_ONE as int
}

/// Rejection sampling of a point inside the unit sphere: candidates are drawn
/// uniformly from `[-1, 1)^3` until one falls inside. A generous iteration
/// ceiling (never expected to trigger under a working generator) falls back to
/// the origin, which also lies inside.
pub fn random_in_unit_sphere(s: &mut Sampler) -> (p: Vec3)
    ensures
        in_unit_sphere(p@),
{
    let mut i: usize = 0;
    while i < 10000
        decreases 10000 - i,
    {
        let c = Vec3::new(s.next_unit(), s.next_unit(), s.next_unit());
        let p = c.scale(FX_TWO).sub(&Vec3::new(FX_ONE, FX_ONE, FX_ONE));
        if p.dot(&p) < FX_ONE {
            return p;
        }
        i = i + 1;
    }
    let z = Vec3::new(0, 0, 0);
    proof {
        crate::fixed::lemma_fmul_zero(0);
        assert(dot_v(z@, z@) == 0);
    }
    z
}

/// The mirror reflection of `v` about the normal `n`.
pub open spec fn reflect_v(v: V3, n: V3) -> V3 {
    sub_v(v, scale_v(fmul_s(FX_TWO as int, dot_v(v, n)), n))
}

/// Reflects `v` about `n`: `v - 2 (v . n) n`.
pub fn reflect(v: &Vec3, n: &Vec3) -> (r: Vec3)
    ensures
        r@ == reflect_v(v@, n@),
{
    v.sub(&n.scale(fmul(FX_TWO, v.dot(n))))
}

/// Snell refraction of `v` through a surface with outward normal `n` and
/// index ratio `ni_over_nt`; `None` when total internal reflection makes
/// refraction geometrically impossible.
pub open spec fn refract_v(v: V3, n: V3, ni_over_nt: int) -> Option<V3> {
    let uv = unit_v(v);
    let dt = dot_v(uv, n);
    let disc = fsub_s(
        FX_ONE as int,
        fmul_s(fmul_s(ni_over_nt, ni_over_nt), fsub_s(FX_ONE as int, fmul_s(dt, dt))),
    );
    if disc > 0 {
        Some(sub_v(scale_v(ni_over_nt, sub_v(uv, scale_v(dt, n))), scale_v(fsqrt_s(disc), n)))
    } else {
        None
    }
}

/// The image of an optional vector.
pub open spec fn opt_v3(o: Option<Vec3>) -> Option<V3> {
    match o {
        Some(v) => Some(v@),
        None => None,
    }
}

pub fn refract(v: &Vec3, n: &Vec3, ni_over_nt: i64) -> (r: Option<Vec3>)
    ensures
        opt_v3(r) == refract_v(v@, n@, ni_over_nt as int),
{
    let uv = v.unit_vector();
    let dt = uv.dot(n);
    let discriminant = fsub(
        FX_ONE,
        fmul(fmul(ni_over_nt, ni_over_nt), fsub(FX_ONE, fmul(dt, dt))),
    );
    if discriminant > 0 {
        Some(uv.sub(&n.scale(dt)).scale(ni_over_nt).sub(&n.scale(crate::fixed::fsqrt(discriminant))))
    } else {
        None
    }
}

/// Schlick's approximation of the Fresnel reflectance:
/// `r0 + (1 - r0) (1 - cosine)^5` with `r0 = ((1 - n) / (1 + n))^2`.
pub open spec fn schlick_s(cosine: int, ref_idx: int) -> int {
    let r0a = fdiv_s(fsub_s(FX_ONE as int, ref_idx), fadd_s(FX_ONE as int, ref_idx));
    let r0 = fmul_s(r0a, r0a);
    let omc = fsub_s(FX_ONE as int, cosine);
    let p5 = fmul_s(fmul_s(fmul_s(fmul_s(omc, omc), omc), omc), omc);
    fadd_s(r0, fmul_s(fsub_s(FX_ONE as int, r0), p5))
}

pub fn schlick(cosine: i64, ref_idx: i64) -> (r: i64)
    ensures
        r as int == schlick_s(cosine as int, ref_idx as int),
{
    let mut r0: i64 = fdiv(fsub(FX_ONE, ref_idx), fadd(FX_ONE, ref_idx));
    r0 = fmul(r0, r0);
    let omc: i64 = fsub(FX_ONE, cosine);
    let p5: i64 = fmul(fmul(fmul(fmul(omc, omc), omc), omc), omc);
    fadd(r0, fmul(fsub(FX_ONE, r0), p5))
}

/// The diffuse scattering direction: toward `p + normal + rnd` from `p`.
pub open spec fn lamb_dir_v(rec: HitV, rnd: V3) -> V3 {
    sub_v(add_v(add_v(rec.p, rec.normal), rnd), rec.p)
}

/// What a diffuse scatter returns: never absorption, attenuation exactly the
/// albedo, a ray out of the hit point aimed by some point of the unit sphere.
pub open spec fn lambertian_post(rec: HitV, albedo: Vec3, res: Option<(Ray, Vec3)>) -> bool {
    match res {
        Some(out) => {
            &&& out.1 == albedo
            &&& out.0.a@ == rec.p
            &&& (exists|rnd: V3| in_unit_sphere(rnd) && out.0.b@ == #[trigger] lamb_dir_v(rec, rnd))
        },
        None => false,
    }
}

pub fn lambertian_scatter(rec: &HitRecord, albedo: Vec3, s: &mut Sampler) -> (res: Option<
    (Ray, Vec3),
>)
    ensures
        lambertian_post(rec@, albedo, res),
{
    let rnd = random_in_unit_sphere(s);
    let target = rec.p.add(&rec.normal).add(&rnd);
    let out = Ray { a: rec.p, b: target.sub(&rec.p) };
    proof {
        assert(in_unit_sphere(rnd@) && out.b@ == lamb_dir_v(rec@, rnd@));
    }
    Some((out, albedo))
}

/// The reflective scattering direction: the mirror reflection of the unit
/// incoming direction, perturbed by `fuzz` times a point of the unit sphere.
pub open spec fn metal_dir_v(r_in: RayV, rec: HitV, fuzz: int, rnd: V3) -> V3 {
    add_v(reflect_v(unit_v(r_in.dir), rec.normal), scale_v(fuzz, rnd))
}

/// What a reflective scatter returns, for one sampled perturbation: the
/// perturbed reflection when it leaves the surface, absorption when it points
/// back into it.
pub open spec fn metal_post_at(
    r_in: RayV,
    rec: HitV,
    albedo: Vec3,
    fuzz: int,
    res: Option<(Ray, Vec3)>,
    rnd: V3,
) -> bool {
    if dot_v(metal_dir_v(r_in, rec, fuzz, rnd), rec.normal) > 0 {
        match res {
            Some(out) => {
                &&& out.0.a@ == rec.p
                &&& out.0.b@ == metal_dir_v(r_in, rec, fuzz, rnd)
                &&& out.1 == albedo
            },
            None => false,
        }
    } else {
        res is None
    }
}

pub open spec fn metal_post(
    r_in: RayV,
    rec: HitV,
    albedo: Vec3,
    fuzz: int,
    res: Option<(Ray, Vec3)>,
) -> bool {
    exists|rnd: V3|
        in_unit_sphere(rnd) && #[trigger] metal_post_at(r_in, rec, albedo, fuzz, res, rnd)
}

pub fn metal_scatter(r_in: &Ray, rec: &HitRecord, albedo: Vec3, fuzz: i64, s: &mut Sampler) -> (res:
    Option<(Ray, Vec3)>)
    ensures
        metal_post(r_in@, rec@, albedo, fuzz as int, res),
{
    let reflected = reflect(&r_in.direction().unit_vector(), &rec.normal);
    let rnd = random_in_unit_sphere(s);
    let scattered = Ray { a: rec.p, b: reflected.add(&rnd.scale(fuzz)) };
    let res: Option<(Ray, Vec3)> = if scattered.direction().dot(&rec.normal) > 0 {
        Some((scattered, albedo))
    } else {
        None
    };
    proof {
        assert(metal_post_at(r_in@, rec@, albedo, fuzz as int, res, rnd@));
    }
    res
}

/// The refractive scattering direction, for one uniform draw `pick` in
/// `[0, 1)`: the mirror reflection when refraction is impossible (total
/// internal reflection) or when `pick` falls below Schlick's reflectance,
/// else the refracted direction.
pub open spec fn dielectric_dir_v(r_in: RayV, rec: HitV, ref_idx: int, pick: int) -> V3 {
    let reflected = reflect_v(r_in.dir, rec.normal);
    let dn = dot_v(r_in.dir, rec.normal);
    let outward = if dn > 0 {
        neg_v(rec.normal)
    } else {
        rec.normal
    };
    let ni = if dn > 0 {
        ref_idx
    } else {
        fdiv_s(FX_ONE as int, ref_idx)
    };
    let cosine = if dn > 0 {
        fdiv_s(fmul_s(ref_idx, dn), length_v(r_in.dir))
    } else {
        fdiv_s(fneg_s(dn), length_v(r_in.dir))
    };
    match refract_v(r_in.dir, outward, ni) {
        Some(refr) => if pick < schlick_s(cosine, ref_idx) {
            reflected
        } else {
            refr
        },
        None => reflected,
    }
}

/// What a refractive scatter returns: never absorption, attenuation exactly
/// white (the glass absorbs nothing), a ray out of the hit point whose
/// direction is fixed by one uniform draw.
pub open spec fn dielectric_post(
    r_in: RayV,
    rec: HitV,
    ref_idx: int,
    res: Option<(Ray, Vec3)>,
) -> bool {
    match res {
        Some(out) => {
            &&& out.1@ == v3(FX_ONE as int, FX_ONE as int, FX_ONE as int)
            &&& out.0.a@ == rec.p
            &&& (exists|pick: int|
                0 <= pick < FX_ONE as int && out.0.b@ == #[trigger] dielectric_dir_v(
                    r_in,
                    rec,
                    ref_idx,
                    pick,
                ))
        },
        None => false,
    }
}

pub fn dialectric_scatter(r_in: &Ray, rec: &HitRecord, ref_idx: i64, s: &mut Sampler) -> (res:
    Option<(Ray, Vec3)>)
    ensures
        dielectric_post(r_in@, rec@, ref_idx as int, res),
{
    let reflected = reflect(&r_in.direction(), &rec.normal);
    let dn = r_in.direction().dot(&rec.normal);
    let (outward_normal, ni_over_nt, cosine): (Vec3, i64, i64) = if dn > 0 {
        (
            rec.normal.neg(),
            ref_idx,
            fdiv(fmul(ref_idx, dn), r_in.direction().length()),
        )
    } else {
        (
            rec.normal,
            fdiv(FX_ONE, ref_idx),
            fdiv(fneg(dn), r_in.direction().length()),
        )
    };
    let mut reflect_prob: i64 = FX_ONE;
    let attenuation = Vec3::new(FX_ONE, FX_ONE, FX_ONE);
    let scattered: Ray = match refract(&r_in.direction(), &outward_normal, ni_over_nt) {
        Some(refracted) => {
            reflect_prob = schlick(cosine, ref_idx);
            Ray { a: rec.p, b: refracted }
        },
        None => Ray { a: rec.p, b: reflected },
    };
    let pick = s.next_unit();
    let res: Option<(Ray, Vec3)> = if pick < reflect_prob {
        Some((Ray { a: rec.p, b: reflected }, attenuation))
    } else {
        Some((scattered, attenuation))
    };
    proof {
        let out = res->Some_0;
        assert(0 <= pick < FX_ONE as int && out.0.b@ == dielectric_dir_v(
            r_in@,
            rec@,
            ref_idx as int,
            pick as int,
        ));
    }
    res
}

/// With zero fuzz the reflective scattering direction is the mirror
/// reflection alone, whatever point the sampler drew.
pub proof fn lemma_metal_fuzz_zero(r_in: RayV, rec: HitV, rnd: V3)
    ensures
        metal_dir_v(r_in, rec, 0, rnd) == reflect_v(unit_v(r_in.dir), rec.normal),
{
    crate::fixed::lemma_fmul_zero(rnd.x);
    crate::fixed::lemma_fmul_zero(rnd.y);
    crate::fixed::lemma_fmul_zero(rnd.z);
}

/// A fuzz-free metal hit arriving exactly along the outward unit normal
/// reflects straight back into the surface, so the scatter is absorbed: the
/// reflected direction's dot product with the normal is not positive.
pub proof fn lemma_metal_head_on(r_in: RayV, rec: HitV, rnd: V3)
    requires
        unit_v(r_in.dir) == rec.normal,
        dot_v(rec.normal, rec.normal) == FX_ONE as int,
        -(FX_ONE as int) <= rec.normal.x <= FX_ONE as int,
        -(FX_ONE as int) <= rec.normal.y <= FX_ONE as int,
        -(FX_ONE as int) <= rec.normal.z <= FX_ONE as int,
    ensures
        dot_v(metal_dir_v(r_in, rec, 0, rnd), rec.normal) <= 0,
{
    lemma_metal_fuzz_zero(r_in, rec, rnd);
    let n = rec.normal;
    crate::fixed::lemma_fmul_unit(n.x, n.x);
    crate::fixed::lemma_fmul_unit(n.y, n.y);
    crate::fixed::lemma_fmul_unit(n.z, n.z);
    let ax = fmul_s(n.x, n.x);
    let ay = fmul_s(n.y, n.y);
    let az = fmul_s(n.z, n.z);
    assert(ax + ay + az == FX_ONE as int);
    crate::fixed::lemma_fmul_two(FX_ONE as int);
    assert(fmul_s(FX_TWO as int, dot_v(n, n)) == 2 * (FX_ONE as int));
    crate::fixed::lemma_fmul_two(n.x);
    crate::fixed::lemma_fmul_two(n.y);
    crate::fixed::lemma_fmul_two(n.z);
    let refl = reflect_v(n, n);
    assert(refl.x == -n.x && refl.y == -n.y && refl.z == -n.z);
    assert(dot_v(refl, n) == -(FX_ONE as int));
}

/// Whatever a reflective scatter returns for a fuzz-free hit arriving
/// exactly along the outward unit normal, it is absorption.
pub proof fn lemma_metal_head_on_absorbs(
    r_in: RayV,
    rec: HitV,
    albedo: Vec3,
    res: Option<(Ray, Vec3)>,
)
    requires
        metal_post(r_in, rec, albedo, 0, res),
        unit_v(r_in.dir) == rec.normal,
        dot_v(rec.normal, rec.normal) == FX_ONE as int,
        -(FX_ONE as int) <= rec.normal.x <= FX_ONE as int,
        -(FX_ONE as int) <= rec.normal.y <= FX_ONE as int,
        -(FX_ONE as int) <= rec.normal.z <= FX_ONE as int,
    ensures
        res is None,
{
    let rnd = choose|rnd: V3|
        in_unit_sphere(rnd) && #[trigger] metal_post_at(r_in, rec, albedo, 0, res, rnd);
    lemma_metal_head_on(r_in, rec, rnd);
}

/// A refractive index of one leaves a ray arriving exactly against the
/// outward unit normal undeviated: whatever the reflectance draw, the
/// scattered direction equals the incoming direction.
#[verifier::rlimit(60)]
pub proof fn lemma_dielectric_identity(r_in: RayV, rec: HitV, pick: int)
    requires
        r_in.dir == neg_v(rec.normal),
        dot_v(rec.normal, rec.normal) == FX_ONE as int,
        -(FX_ONE as int) <= rec.normal.x <= FX_ONE as int,
        -(FX_ONE as int) <= rec.normal.y <= FX_ONE as int,
        -(FX_ONE as int) <= rec.normal.z <= FX_ONE as int,
        0 <= pick < FX_ONE as int,
    ensures
        dielectric_dir_v(r_in, rec, FX_ONE as int, pick) == r_in.dir,
{
    let n = rec.normal;
    let one = FX_ONE as int;
    crate::fixed::lemma_fmul_unit(n.x, n.x);
    crate::fixed::lemma_fmul_unit(n.y, n.y);
    crate::fixed::lemma_fmul_unit(n.z, n.z);
    let ax = fmul_s(n.x, n.x);
    let ay = fmul_s(n.y, n.y);
    let az = fmul_s(n.z, n.z);
    assert(ax + ay + az == one);
    // The incoming direction is the exact negation of the unit normal.
    assert(r_in.dir.x == -n.x && r_in.dir.y == -n.y && r_in.dir.z == -n.z);
    // dn = dot(dir, n) == -1.
    assert(fmul_s(-n.x, n.x) == -ax && fmul_s(-n.y, n.y) == -ay && fmul_s(-n.z, n.z) == -az);
    let dn = dot_v(r_in.dir, n);
    assert(dn == -one);
    // dot(dir, dir) == 1, so the direction's length is exactly one.
    assert(fmul_s(n.x, -n.x) == fmul_s(-n.x, n.x) && fmul_s(n.y, -n.y) == fmul_s(-n.y, n.y)
        && fmul_s(n.z, -n.z) == fmul_s(-n.z, n.z));
    crate::fixed::lemma_fmul_unit(one, -n.x);
    crate::fixed::lemma_fmul_unit(one, -n.y);
    crate::fixed::lemma_fmul_unit(one, -n.z);
    assert(fmul_s(-n.x, -n.x) == ax && fmul_s(-n.y, -n.y) == ay && fmul_s(-n.z, -n.z) == az) by {
        crate::fixed::lemma_fmul_unit(n.x, -n.x);
        crate::fixed::lemma_fmul_unit(n.y, -n.y);
        crate::fixed::lemma_fmul_unit(n.z, -n.z);
        assert(fmul_s(-n.x, n.x) == fmul_s(n.x, -n.x));
        assert(fmul_s(-n.y, n.y) == fmul_s(n.y, -n.y));
        assert(fmul_s(-n.z, n.z) == fmul_s(n.z, -n.z));
    };
    assert(dot_v(r_in.dir, r_in.dir) == one);
    crate::fixed::lemma_fsqrt_one();
    assert(length_v(r_in.dir) == one);
    // The index ratio and the cosine are exactly one.
    crate::fixed::lemma_tdiv_scale_cancel(one);
    assert(fdiv_s(one, one) == one);
    assert(fneg_s(dn) == one);
    // The unit incoming direction is the incoming direction itself.
    crate::fixed::lemma_fdiv_one(-n.x);
    crate::fixed::lemma_fdiv_one(-n.y);
    crate::fixed::lemma_fdiv_one(-n.z);
    let uv = unit_v(r_in.dir);
    assert(uv == r_in.dir);
    // Refraction has a positive discriminant and returns the direction.
    let dt = dot_v(uv, n);
    assert(dt == -one);
    assert(fmul_s(-one, -one) == one) by {
        crate::fixed::lemma_fmul_unit(one, -one);
        crate::fixed::lemma_fmul_unit(one, one);
        assert(fmul_s(-one, -one) == -fmul_s(one, -one));
        assert(fmul_s(one, -one) == fmul_s(-one, one));
        assert(fmul_s(-one, one) == -fmul_s(one, one));
        assert(fmul_s(one, one) == one) by {
            crate::fixed::lemma_tdiv_scale_cancel(one);
        };
    };
    assert(fsub_s(one, fmul_s(dt, dt)) == 0);
    crate::fixed::lemma_fmul_zero(one);
    let disc = fsub_s(one, fmul_s(fmul_s(one, one), fsub_s(one, fmul_s(dt, dt))));
    assert(disc == one);
    // The refracted vector equals the incoming direction.
    crate::fixed::lemma_fmul_unit(one, n.x);
    crate::fixed::lemma_fmul_unit(one, n.y);
    crate::fixed::lemma_fmul_unit(one, n.z);
    crate::fixed::lemma_fmul_one(n.x);
    crate::fixed::lemma_fmul_one(n.y);
    crate::fixed::lemma_fmul_one(n.z);
    assert(fmul_s(-one, n.x) == -n.x && fmul_s(-one, n.y) == -n.y && fmul_s(-one, n.z) == -n.z);
    let inner = sub_v(uv, scale_v(dt, n));
    assert(inner == v3(0, 0, 0));
    crate::fixed::lemma_fmul_zero(one);
    assert(scale_v(one, inner) == v3(0, 0, 0));
    assert(fsqrt_s(disc) == one);
    let refr = sub_v(scale_v(one, inner), scale_v(fsqrt_s(disc), n));
    assert(refr == r_in.dir);
    assert(refract_v(r_in.dir, n, one) == Some(refr));
    // Schlick's reflectance at cosine one and index one is zero, and the draw
    // is never below zero, so the refracted branch is always taken.
    let r0a = fdiv_s(fsub_s(one, one), fadd_s(one, one));
    assert(fsub_s(one, one) == 0);
    assert(r0a == 0) by {
        assert(0 * 65536 == 0) by (nonlinear_arith);
        crate::fixed::lemma_tdiv_zero_num(131072);
    };
    crate::fixed::lemma_fmul_zero(0);
    let cosine = fdiv_s(fneg_s(dn), length_v(r_in.dir));
    assert(cosine == one);
    assert(schlick_s(cosine, one) == 0) by {
        assert(r0a == 0);
        crate::fixed::lemma_fmul_zero(0);
        assert(fmul_s(r0a, r0a) == 0);
        assert(fsub_s(one, cosine) == 0);
        crate::fixed::lemma_fmul_zero(fsub_s(one, one));
        assert(fmul_s(fmul_s(fmul_s(fmul_s(0, 0), 0), 0), 0) == 0);
        crate::fixed::lemma_fmul_zero(fsub_s(one, 0));
        assert(fmul_s(fsub_s(one, 0), 0) == 0);
    };
    assert(!(pick < schlick_s(cosine, one)));
    assert(dielectric_dir_v(r_in, rec, one, pick) == refr);
}

/// Whatever a refractive scatter with index one returns for a ray arriving
/// exactly against the outward unit normal, its direction is the incoming
/// direction.
pub proof fn lemma_dielectric_scatter_undeviated(r_in: RayV, rec: HitV, res: Option<(Ray, Vec3)>)
    requires
        dielectric_post(r_in, rec, FX_ONE as int, res),
        r_in.dir == neg_v(rec.normal),
        dot_v(rec.normal, rec.normal) == FX_ONE as int,
        -(FX_ONE as int) <= rec.normal.x <= FX_ONE as int,
        -(FX_ONE as int) <= rec.normal.y <= FX_ONE as int,
        -(FX_ONE as int) <= rec.normal.z <= FX_ONE as int,
    ensures
        res matches Some(out) && out.0.b@ == r_in.dir,
{
    let out = res->Some_0;
    let pick = choose|pick: int|
        0 <= pick < FX_ONE as int && out.0.b@ == #[trigger] dielectric_dir_v(
            r_in,
            rec,
            FX_ONE as int,
            pick,
        );
    lemma_dielectric_identity(r_in, rec, pick);
}

/// What scattering returns for a hit, whichever material the record carries:
/// the dispatch of the three material postconditions.
pub open spec fn scatter_post(rec: HitV, r_in: RayV, res: Option<(Ray, Vec3)>) -> bool {
    match rec.material {
        Material::Lambertian { albedo } => lambertian_post(rec, albedo, res),
        Material::Metal { albedo, fuzz } => metal_post(r_in, rec, albedo, fuzz as int, res),
        Material::Dialectric { ref_idx } => dielectric_post(r_in, rec, ref_idx as int, res),
    }
}

impl HitRecord {
    /// Dispatches to the material's scattering model; the returned pair is
    /// the scattered ray and the attenuation color, `None` is absorption.
    pub fn scatter(&self, r_in: &Ray, s: &mut Sampler) -> (res: Option<(Ray, Vec3)>)
        ensures
            scatter_post(self@, r_in@, res),
    {
        match self.material {
            Material::Lambertian { albedo } => lambertian_scatter(self, albedo, s),
            Material::Metal { albedo, fuzz } => metal_scatter(r_in, self, albedo, fuzz, s),
            Material::Dialectric { ref_idx } => dialectric_scatter(r_in, self, ref_idx, s),
        }
    }
}

} // verus!
