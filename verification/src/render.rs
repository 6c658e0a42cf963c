//! The scene aggregator, the recursive path integrator, scene construction,
//! and the per-pixel sampling loop with gamma correction and quantization.
//!
//! Fractional constants are the nearest fixed-point representations of the
//! renderer's parameters (for instance `66` for the self-intersection epsilon
//! `0.001`).

use vstd::prelude::*;
use crate::fixed::{fadd, fsub, fmul, fdiv, fsqrt, fadd_s, fsub_s, fmul_s, fdiv_s, fsqrt_s,
    tdiv, lemma_tdiv_nonneg, lemma_tdiv_monotone, FX_ONE, FX_HALF};
use crate::vec3::{Vec3, V3, v3, add_v, sub_v, mul_v, scale_v, div_v, unit_v, length_v};
use crate::ray::{Ray, RayV};
use crate::sampler::Sampler;
use crate::hit_record::{HitRecord, HitV, Material, scatter_post, in_unit_sphere};
use crate::sphere::{Sphere, SphereV, sphere_hit_v, opt_hit, lemma_hit_window_shrink,
    lemma_hit_window_none, lemma_hit_window_grow, lemma_hit_in_window};
use crate::camera::{Camera, CameraV, get_ray_v};

verus! {

/// Lower hit-window bound excluding self-intersection at a scattered ray's
/// origin (`0.001`).
pub const FX_EPS: i64 = 66;
/// The quantization factor `255.99`.
pub const FX_QUANT: i64 = 16776561;
/// The sky gradient's green channel at the zenith (`0.7`).
pub const FX_SKY_G: i64 = 45875;
/// The recursion cap of the integrator.
pub const MAX_DEPTH: u8 = 50;

/// The images of a scene's spheres.
pub open spec fn scene_view(s: Seq<Sphere>) -> Seq<SphereV> {
    s.map_values(|sp: Sphere| sp@)
}

/// The aggregator's scan from index `i` on, carrying the best hit so far and
/// the shrunken window bound `closest`.
pub open spec fn closest_hit_from(
    spheres: Seq<SphereV>,
    r: RayV,
    t_min: int,
    i: int,
    closest: int,
    best: Option<HitV>,
) -> Option<HitV>
    decreases spheres.len() - i,
{
    if i < 0 || i >= spheres.len() {
        best
    } else {
        match sphere_hit_v(spheres[i], r, t_min, closest) {
            Some(h) => closest_hit_from(spheres, r, t_min, i + 1, h.t, Some(h)),
            None => closest_hit_from(spheres, r, t_min, i + 1, closest, best),
        }
    }
}

/// The globally nearest hit within `(t_min, t_max)`: every sphere is tested
/// against a window narrowed to the best parameter found so far, so later
/// spheres only replace the best hit with a strictly closer one.
pub open spec fn closest_hit_v(spheres: Seq<SphereV>, r: RayV, t_min: int, t_max: int) -> Option<
    HitV,
> {
    closest_hit_from(spheres, r, t_min, 0, t_max, None)
}

/// Scans every sphere and keeps the nearest hit.
pub fn hit(r: &Ray, spheres: &Vec<Sphere>, t_min: i64, t_max: i64) -> (res: Option<HitRecord>)
    ensures
        opt_hit(res) == closest_hit_v(scene_view(spheres@), r@, t_min as int, t_max as int),
{
    let ghost sv = scene_view(spheres@);
    let mut closest_so_far: i64 = t_max;
    let mut temp_rec: Option<HitRecord> = None;
    let mut i: usize = 0;
    while i < spheres.len()
        invariant
            0 <= i <= spheres@.len(),
            sv == scene_view(spheres@),
            closest_hit_from(sv, r@, t_min as int, i as int, closest_so_far as int, opt_hit(temp_rec))
                == closest_hit_v(sv, r@, t_min as int, t_max as int),
        decreases spheres@.len() - i,
    {
        proof {
            assert(sv[i as int] == spheres@[i as int]@);
        }
        match spheres[i].hit(r, t_min, closest_so_far) {
            Some(hit_record) => {
                closest_so_far = hit_record.t;
                temp_rec = Some(hit_record);
            },
            None => {},
        }
        i = i + 1;
    }
    temp_rec
}

/// The background: a vertical gradient from white at the horizon to sky blue
/// at the zenith, driven by the normalized direction's `y`.
pub open spec fn background_v(r: RayV) -> V3 {
    let ud = unit_v(r.dir);
    let t = fmul_s(FX_HALF as int, fadd_s(ud.y, FX_ONE as int));
    add_v(
        scale_v(fsub_s(FX_ONE as int, t), v3(FX_ONE as int, FX_ONE as int, FX_ONE as int)),
        scale_v(t, v3(FX_HALF as int, FX_SKY_G as int, FX_ONE as int)),
    )
}

/// One channel of the gradient blend, `(1 - t) * 1 + t * k`, is non-negative
/// for any blend factor `t` within `[-0.5, 1.5]` and channel value `k` in
/// `[0.5, 1]`.
proof fn lemma_blend_nonneg(t: int, k: int)
    requires
        -32768 <= t <= 98304,
        32768 <= k <= 65536,
    ensures
        0 <= fadd_s(fmul_s(fsub_s(FX_ONE as int, t), FX_ONE as int), fmul_s(t, k)),
{
    let u = fsub_s(FX_ONE as int, t);
    assert(u == 65536 - t);
    crate::fixed::lemma_fmul_one(u);
    assert(u * 65536 == 65536 * u);
    assert(fmul_s(u, 65536) == u);
    let h = fmul_s(t, k);
    if t >= 0 {
        assert(0 <= t * k <= 6442450944) by (nonlinear_arith)
            requires
                0 <= t <= 98304,
                0 <= k <= 65536,
        ;
        lemma_tdiv_nonneg(t * k, 65536);
        vstd::arithmetic::div_mod::lemma_fundamental_div_mod(t * k, 65536);
        assert(32768 * t <= t * k) by (nonlinear_arith)
            requires
                t >= 0,
                k >= 32768,
        ;
        lemma_tdiv_monotone(t * k, 6442450944, 65536);
        vstd::arithmetic::div_mod::lemma_div_multiples_vanish(98304, 65536);
        assert(65536 * 98304 == 6442450944int);
        assert(h == tdiv(t * k, 65536));
        assert(0 <= u + h);
    } else {
        assert(-2147483648 <= t * k <= 0) by (nonlinear_arith)
            requires
                -32768 <= t <= 0,
                0 <= k <= 65536,
        ;
        lemma_tdiv_monotone(-2147483648, t * k, 65536);
        lemma_tdiv_monotone(t * k, 0, 65536);
        crate::fixed::lemma_tdiv_zero_num(65536);
        crate::fixed::lemma_tdiv_neg(2147483648, 65536);
        vstd::arithmetic::div_mod::lemma_div_multiples_vanish(32768, 65536);
        assert(65536 * 32768 == 2147483648int);
        assert(tdiv(-2147483648, 65536) == -32768);
        assert(-32768 <= h);
        assert(0 <= u + h);
    }
}

/// The background gradient is non-negative in every channel, for rays whose
/// direction components stay within `2^31` of either sign (so that no
/// fixed-point saturation skews the normalization).
pub proof fn lemma_background_nonneg(r: RayV)
    requires
        -2147483648 <= r.dir.x <= 2147483648,
        -2147483648 <= r.dir.y <= 2147483648,
        -2147483648 <= r.dir.z <= 2147483648,
    ensures
        0 <= background_v(r).x,
        0 <= background_v(r).y,
        0 <= background_v(r).z,
{
    crate::vec3::lemma_unit_y_bound(r.dir);
    let udy = unit_v(r.dir).y;
    let w = fadd_s(udy, FX_ONE as int);
    assert(-65536 <= w <= 196608);
    let t = fmul_s(FX_HALF as int, w);
    assert(32768 * w <= 6442450944 && -2147483648 <= 32768 * w) by (nonlinear_arith)
        requires
            -65536 <= w <= 196608,
    ;
    lemma_tdiv_monotone(32768 * w, 6442450944, 65536);
    lemma_tdiv_monotone(-2147483648, 32768 * w, 65536);
    vstd::arithmetic::div_mod::lemma_div_multiples_vanish(98304, 65536);
    assert(65536 * 98304 == 6442450944int);
    crate::fixed::lemma_tdiv_neg(2147483648, 65536);
    vstd::arithmetic::div_mod::lemma_div_multiples_vanish(32768, 65536);
    assert(65536 * 32768 == 2147483648int);
    assert(-32768 <= t <= 98304);
    lemma_blend_nonneg(t, FX_HALF as int);
    lemma_blend_nonneg(t, FX_SKY_G as int);
    lemma_blend_nonneg(t, FX_ONE as int);
}

/// What a radiance estimate for `r` may be, whatever the sampler drew. Where
/// nothing is hit it is the background; at the recursion cap it is black; on
/// a hit below the cap it is either black after an absorbing scatter, or the
/// attenuation of some scatter outcome (satisfying that material's scatter
/// postcondition) times an estimate admissible for the scattered ray one
/// level deeper. Values that are not such an attenuation-product chain
/// ending in the background or black are excluded.
pub open spec fn admissible(spheres: Seq<SphereV>, r: RayV, depth: int, c: V3) -> bool
    decreases MAX_DEPTH as int - depth, 1int,
{
    match closest_hit_v(spheres, r, FX_EPS as int, i64::MAX as int) {
        None => c == background_v(r),
        Some(h) => if depth >= MAX_DEPTH as int {
            c == v3(0, 0, 0)
        } else {
            exists|res: Option<(Ray, Vec3)>|
                #[trigger] scatter_post(h, r, res) && outcome_admissible(spheres, depth, c, res)
        },
    }
}

/// What the estimate may be after one scatter outcome: black on absorption,
/// else the attenuation times an estimate admissible for the scattered ray.
pub open spec fn outcome_admissible(
    spheres: Seq<SphereV>,
    depth: int,
    c: V3,
    res: Option<(Ray, Vec3)>,
) -> bool
    decreases MAX_DEPTH as int - depth, 0int,
{
    if res is None {
        c == v3(0, 0, 0)
    } else {
        depth < MAX_DEPTH as int && (exists|c2: V3|
            admissible(spheres, (res->Some_0).0@, depth + 1, c2) && c == #[trigger] mul_v(
                (res->Some_0).1@,
                c2,
            ))
    }
}

/// The radiance estimate for one ray: the background where nothing is hit,
/// black on absorption or once the recursion cap is reached, else the
/// attenuated estimate of the scattered ray.
pub fn colour(r: &Ray, spheres: &Vec<Sphere>, depth: u8, s: &mut Sampler) -> (c: Vec3)
    ensures
        admissible(scene_view(spheres@), r@, depth as int, c@),
        closest_hit_v(scene_view(spheres@), r@, FX_EPS as int, i64::MAX as int) is None ==> c@
            == background_v(r@),
        (closest_hit_v(scene_view(spheres@), r@, FX_EPS as int, i64::MAX as int) is Some
            && depth >= MAX_DEPTH) ==> c@ == v3(0, 0, 0),
    decreases MAX_DEPTH as int - depth as int,
{
    let ghost sv = scene_view(spheres@);
    match hit(r, spheres, FX_EPS, i64::MAX) {
        Some(hit_record) => {
            let ghost hv = closest_hit_v(sv, r@, FX_EPS as int, i64::MAX as int)->Some_0;
            proof {
                assert(hv == hit_record@);
            }
            match hit_record.scatter(r, s) {
                Some((scattered, attenuation)) => {
                    if depth < MAX_DEPTH {
                        let rec_est = colour(&scattered, spheres, depth + 1, s);
                        let c = attenuation.mul(&rec_est);
                        proof {
                            let ghost res: Option<(Ray, Vec3)> = Some((scattered, attenuation));
                            assert(scatter_post(hv, r@, res));
                            assert(admissible(sv, (res->Some_0).0@, depth as int + 1, rec_est@));
                            assert(c@ == mul_v((res->Some_0).1@, rec_est@));
                            assert(outcome_admissible(sv, depth as int, c@, res));
                            assert(admissible(sv, r@, depth as int, c@));
                        }
                        c
                    } else {
                        Vec3::new(0, 0, 0)
                    }
                },
                None => {
                    proof {
                        let ghost res: Option<(Ray, Vec3)> = None;
                        assert(scatter_post(hv, r@, res));
                        assert(admissible(sv, r@, depth as int, v3(0, 0, 0)));
                    }
                    Vec3::new(0, 0, 0)
                },
            }
        },
        None => {
            let unit_direction = r.direction().unit_vector();
            let t = fmul(FX_HALF, fadd(unit_direction.y, FX_ONE));
            Vec3::new(FX_ONE, FX_ONE, FX_ONE).scale(fsub(FX_ONE, t)).add(
                &Vec3::new(FX_HALF, FX_SKY_G, FX_ONE).scale(t),
            )
        },
    }
}

/// The gray ground sphere that opens the scene.
pub open spec fn ground_sphere_v() -> SphereV {
    SphereV {
        center: v3(0, -65536000, 0),
        radius: 65536000,
        material: Material::Lambertian { albedo: Vec3 { x: FX_HALF, y: FX_HALF, z: FX_HALF } },
    }
}

/// The three large spheres that close the scene: glass, diffuse, metal.
pub open spec fn large_spheres_v() -> Seq<SphereV> {
    seq![
        SphereV {
            center: v3(0, FX_ONE as int, 0),
            radius: FX_ONE as int,
            material: Material::Dialectric { ref_idx: 98304 },
        },
        SphereV {
            center: v3(-262144, FX_ONE as int, 0),
            radius: FX_ONE as int,
            material: Material::Lambertian { albedo: Vec3 { x: 26214, y: 13107, z: 6554 } },
        },
        SphereV {
            center: v3(262144, FX_ONE as int, 0),
            radius: FX_ONE as int,
            material: Material::Metal {
                albedo: Vec3 { x: 45875, y: 39322, z: 32768 },
                fuzz: 0,
            },
        },
    ]
}

/// What holds of every randomized grid sphere: radius and height `0.2`,
/// placed outside the guard distance from the large metal sphere's column,
/// and material parameters inside the ranges the construction draws them
/// from.
pub open spec fn grid_sphere_ok(s: SphereV) -> bool {
    &&& s.radius == 13107
    &&& s.center.y == 13107
    &&& length_v(sub_v(s.center, v3(262144, 13107, 0))) > 58982
    &&& (match s.material {
        Material::Lambertian { albedo } => {
            &&& 0 <= albedo.x < FX_ONE
            &&& 0 <= albedo.y < FX_ONE
            &&& 0 <= albedo.z < FX_ONE
        },
        Material::Metal { albedo, fuzz } => {
            &&& FX_HALF <= albedo.x < FX_ONE
            &&& FX_HALF <= albedo.y < FX_ONE
            &&& FX_HALF <= albedo.z < FX_ONE
            &&& 0 <= fuzz < FX_HALF
        },
        Material::Dialectric { ref_idx } => ref_idx == 98304,
    })
}

/// A showcase scene: a large ground sphere, a grid of small randomized
/// spheres and three large ones, one of each material.
pub fn get_scene(s: &mut Sampler) -> (spheres: Vec<Sphere>)
    ensures
        4 <= spheres@.len() <= 488,
        forall|i: int| 0 <= i < spheres@.len() ==> (#[trigger] spheres@[i])@.radius > 0,
        spheres@[0]@ == ground_sphere_v(),
        forall|i: int| 1 <= i < spheres@.len() - 3 ==> grid_sphere_ok((#[trigger] spheres@[i])@),
        spheres@[spheres@.len() - 3]@ == large_spheres_v()[0],
        spheres@[spheres@.len() - 2]@ == large_spheres_v()[1],
        spheres@[spheres@.len() - 1]@ == large_spheres_v()[2],
{
    let mut spheres: Vec<Sphere> = Vec::new();

    spheres.push(
        Sphere::new(
            Vec3::new(0, -65536000, 0),
            65536000,
            Material::Lambertian { albedo: Vec3::new(FX_HALF, FX_HALF, FX_HALF) },
        ),
    );

    let mut a: i64 = -11;
    while a < 11
        invariant
            -11 <= a <= 11,
            forall|i: int| 0 <= i < spheres@.len() ==> (#[trigger] spheres@[i])@.radius > 0,
            1 <= spheres@.len() <= 1 + (a + 11) * 22,
            spheres@[0]@ == ground_sphere_v(),
            forall|i: int| 1 <= i < spheres@.len() ==> grid_sphere_ok((#[trigger] spheres@[i])@),
        decreases 11 - a,
    {
        let mut b: i64 = -11;
        while b < 11
            invariant
                -11 <= a <= 11,
                -11 <= b <= 11,
                forall|i: int| 0 <= i < spheres@.len() ==> (#[trigger] spheres@[i])@.radius > 0,
                1 <= spheres@.len() <= 1 + (a + 11) * 22 + (b + 11),
                spheres@[0]@ == ground_sphere_v(),
                forall|i: int| 1 <= i < spheres@.len() ==> grid_sphere_ok((#[trigger] spheres@[i])@),
            decreases 11 - b,
        {
            let choose_mat = s.next_unit();
            let center = Vec3::new(
                fadd(a * 65536, fmul(58982, s.next_unit())),
                13107,
                fadd(b * 65536, fmul(58982, s.next_unit())),
            );

            if center.sub(&Vec3::new(262144, 13107, 0)).length() > 58982 {
                if choose_mat < 52429 {
                    let r1 = s.next_unit();
                    let r2 = s.next_unit();
                    let g1 = s.next_unit();
                    let g2 = s.next_unit();
                    let b1 = s.next_unit();
                    let b2 = s.next_unit();
                    proof {
                        crate::fixed::lemma_fmul_frac(r1 as int, r2 as int);
                        crate::fixed::lemma_fmul_frac(g1 as int, g2 as int);
                        crate::fixed::lemma_fmul_frac(b1 as int, b2 as int);
                    }
                    spheres.push(
                        Sphere::new(
                            center,
                            13107,
                            Material::Lambertian {
                                albedo: Vec3::new(fmul(r1, r2), fmul(g1, g2), fmul(b1, b2)),
                            },
                        ),
                    );
                } else if choose_mat < 62259 {
                    let m1 = s.next_unit();
                    let m2 = s.next_unit();
                    let m3 = s.next_unit();
                    let mf = s.next_unit();
                    proof {
                        crate::fixed::lemma_fmul_half_range(65536 + m1);
                        crate::fixed::lemma_fmul_half_range(65536 + m2);
                        crate::fixed::lemma_fmul_half_range(65536 + m3);
                        crate::fixed::lemma_fmul_half_range(mf as int);
                    }
                    spheres.push(
                        Sphere::new(
                            center,
                            13107,
                            Material::Metal {
                                albedo: Vec3::new(
                                    fmul(FX_HALF, fadd(FX_ONE, m1)),
                                    fmul(FX_HALF, fadd(FX_ONE, m2)),
                                    fmul(FX_HALF, fadd(FX_ONE, m3)),
                                ),
                                fuzz: fmul(FX_HALF, mf),
                            },
                        ),
                    );
                } else {
                    spheres.push(
                        Sphere::new(center, 13107, Material::Dialectric { ref_idx: 98304 }),
                    );
                }
            }
            b = b + 1;
        }
        a = a + 1;
    }

    spheres.push(Sphere::new(Vec3::new(0, 65536, 0), 65536, Material::Dialectric { ref_idx: 98304 }));

    spheres.push(
        Sphere::new(
            Vec3::new(-262144, 65536, 0),
            65536,
            Material::Lambertian { albedo: Vec3::new(26214, 13107, 6554) },
        ),
    );

    spheres.push(
        Sphere::new(
            Vec3::new(262144, 65536, 0),
            65536,
            Material::Metal { albedo: Vec3::new(45875, 39322, 32768), fuzz: 0 },
        ),
    );

    spheres
}

/// Quantization of one linear color channel to 8 bits: gamma-2 correction by
/// a square root, scaling by `255.99`, truncation, and saturation into
/// `[0, 255]`.
pub open spec fn quant_s(v: int) -> int {
    let g = fmul_s(FX_QUANT as int, fsqrt_s(v));
    let w = tdiv(g, 65536);
    if w < 0 {
        0
    } else if w > 255 {
        255
    } else {
        w
    }
}

pub fn quantize_channel(v: i64) -> (b: u8)
    ensures
        b as int == quant_s(v as int),
{
    let g = fmul(FX_QUANT, fsqrt(v));
    proof {
        let sq = fsqrt_s(v as int);
        assert(0 <= sq);
        assert(0 <= 16776561 * sq) by (nonlinear_arith)
            requires
                0 <= sq,
        ;
        lemma_tdiv_nonneg(16776561 * sq, 65536);
    }
    let w = (g as u64) / 65536;
    if w > 255 {
        255u8
    } else {
        w as u8
    }
}

/// One jittered viewport sample coordinate: `(base + d) / extent`, with the
/// sub-pixel jitter `d` drawn in `[0, 1)`.
pub open spec fn jittered_coord(base: int, extent: int, d: int) -> int {
    fdiv_s(fadd_s(base * 65536, d), extent * 65536)
}

/// A camera ray for pixel `(i, j)` of an `nx` by `ny` image: generated by
/// the camera for jittered coordinates of that pixel and some lens-disk
/// point.
pub open spec fn sample_ray_ok(cam: CameraV, i: int, j: int, nx: int, ny: int, r: RayV) -> bool {
    exists|du: int, dv: int, disk: V3|
        0 <= du < FX_ONE as int && 0 <= dv < FX_ONE as int && in_unit_sphere(disk) && disk.z == 0
            && r == #[trigger] get_ray_v(
            cam,
            jittered_coord(i, nx, du),
            jittered_coord(j, ny, dv),
            disk,
        )
}

/// A sum of `k` radiance samples for pixel `(i, j)`: zero for `k == 0`, else
/// a smaller such sum plus one admissible estimate for one sample ray.
pub open spec fn sample_sum_ok(
    cam: CameraV,
    spheres: Seq<SphereV>,
    i: int,
    j: int,
    nx: int,
    ny: int,
    k: int,
    sum: V3,
) -> bool
    decreases k,
{
    if k <= 0 {
        sum == v3(0, 0, 0)
    } else {
        exists|prev: V3, c: V3, r: RayV|
            #![trigger add_v(prev, c), sample_ray_ok(cam, i, j, nx, ny, r)]
            sample_ray_ok(cam, i, j, nx, ny, r) && admissible(spheres, r, 0, c) && sum == add_v(
                prev,
                c,
            ) && sample_sum_ok(cam, spheres, i, j, nx, ny, k - 1, prev)
    }
}

/// A finished pixel: the quantization, channel by channel, of the average of
/// some sum of `ns` admissible samples for pixel `(i, j)`.
pub open spec fn pixel_ok(
    cam: CameraV,
    spheres: Seq<SphereV>,
    i: int,
    j: int,
    nx: int,
    ny: int,
    ns: int,
    px: (u8, u8, u8),
) -> bool {
    exists|sum: V3|
        #[trigger] sample_sum_ok(cam, spheres, i, j, nx, ny, ns, sum) && px.0 == quant_s(
            div_v(sum, ns * 65536).x,
        ) && px.1 == quant_s(div_v(sum, ns * 65536).y) && px.2 == quant_s(
            div_v(sum, ns * 65536).z,
        )
}

/// One pixel of the image: `ns` jittered samples through the camera are
/// traced, averaged, gamma-corrected and quantized.
pub fn render_pixel(
    cam: &Camera,
    spheres: &Vec<Sphere>,
    i: usize,
    j: usize,
    nx: usize,
    ny: usize,
    ns: usize,
    s: &mut Sampler,
) -> (px: (u8, u8, u8))
    requires
        i < nx,
        j < ny,
        1 <= nx <= 100000000,
        1 <= ny <= 100000000,
        1 <= ns <= 100000000,
    ensures
        pixel_ok(cam@, scene_view(spheres@), i as int, j as int, nx as int, ny as int, ns as int, px),
{
    let ghost sv = scene_view(spheres@);
    let mut c = Vec3::new(0, 0, 0);
    let mut k: usize = 0;
    while k < ns
        invariant
            i < nx,
            j < ny,
            1 <= nx <= 100000000,
            1 <= ny <= 100000000,
            1 <= ns <= 100000000,
            k <= ns,
            sv == scene_view(spheres@),
            sample_sum_ok(cam@, sv, i as int, j as int, nx as int, ny as int, k as int, c@),
        decreases ns - k,
    {
        let du = s.next_unit();
        let dv = s.next_unit();
        let u = fdiv(fadd((i as i64) * 65536, du), (nx as i64) * 65536);
        let v = fdiv(fadd((j as i64) * 65536, dv), (ny as i64) * 65536);

        let r = cam.get_ray(u, v, s);

        let sample = colour(&r, spheres, 0, s);
        let c2 = c.add(&sample);
        proof {
            let ghost dk = choose|d: V3|
                in_unit_sphere(d) && d.z == 0 && r@ == get_ray_v(cam@, u as int, v as int, d);
            assert(u as int == jittered_coord(i as int, nx as int, du as int));
            assert(v as int == jittered_coord(j as int, ny as int, dv as int));
            assert(r@ == get_ray_v(
                cam@,
                jittered_coord(i as int, nx as int, du as int),
                jittered_coord(j as int, ny as int, dv as int),
                dk,
            ));
            assert(sample_ray_ok(cam@, i as int, j as int, nx as int, ny as int, r@));
            assert(admissible(sv, r@, 0, sample@));
            assert(c2@ == add_v(c@, sample@));
            assert(sample_sum_ok(cam@, sv, i as int, j as int, nx as int, ny as int, k as int + 1, c2@));
        }
        c = c2;
        k = k + 1;
    }
    let avg = c.div((ns as i64) * 65536);
    let px = (quantize_channel(avg.x), quantize_channel(avg.y), quantize_channel(avg.z));
    proof {
        assert(sample_sum_ok(cam@, sv, i as int, j as int, nx as int, ny as int, ns as int, c@));
        assert(avg@ == div_v(c@, ns as int * 65536));
        assert(pixel_ok(cam@, sv, i as int, j as int, nx as int, ny as int, ns as int, px));
    }
    px
}

/// Renders the scene: one pixel per grid cell in row-major order, top row
/// first, each the quantized gamma-corrected average of `ns` jittered
/// samples.
pub fn render(
    cam: &Camera,
    spheres: &Vec<Sphere>,
    nx: usize,
    ny: usize,
    ns: usize,
    s: &mut Sampler,
) -> (pixels: Vec<(u8, u8, u8)>)
    requires
        1 <= nx <= 100000000,
        1 <= ny <= 100000000,
        1 <= ns <= 100000000,
    ensures
        pixels@.len() == nx * ny,
        forall|i: int, j: int|
            0 <= i < nx && 0 <= j < ny ==> #[trigger] pixel_ok(
                cam@,
                scene_view(spheres@),
                i,
                j,
                nx as int,
                ny as int,
                ns as int,
                pixels@[(ny - 1 - j) * nx + i],
            ),
{
    let ghost sv = scene_view(spheres@);
    let mut pixels: Vec<(u8, u8, u8)> = Vec::new();
    let mut j: usize = ny;
    while j > 0
        invariant
            1 <= nx <= 100000000,
            1 <= ny <= 100000000,
            1 <= ns <= 100000000,
            j <= ny,
            sv == scene_view(spheres@),
            pixels@.len() == (ny - j) * nx,
            forall|i2: int, j2: int|
                0 <= i2 < nx && j <= j2 < ny ==> #[trigger] pixel_ok(
                    cam@,
                    sv,
                    i2,
                    j2,
                    nx as int,
                    ny as int,
                    ns as int,
                    pixels@[(ny - 1 - j2) * nx + i2],
                ),
        decreases j,
    {
        j = j - 1;
        let mut i: usize = 0;
        while i < nx
            invariant
                1 <= nx <= 100000000,
                1 <= ny <= 100000000,
                1 <= ns <= 100000000,
                j < ny,
                i <= nx,
                sv == scene_view(spheres@),
                pixels@.len() == (ny - j - 1) * nx + i,
                forall|i2: int, j2: int|
                    0 <= i2 < nx && j < j2 < ny ==> #[trigger] pixel_ok(
                        cam@,
                        sv,
                        i2,
                        j2,
                        nx as int,
                        ny as int,
                        ns as int,
                        pixels@[(ny - 1 - j2) * nx + i2],
                    ),
                forall|i2: int|
                    0 <= i2 < i ==> #[trigger] pixel_ok(
                        cam@,
                        sv,
                        i2,
                        j as int,
                        nx as int,
                        ny as int,
                        ns as int,
                        pixels@[(ny - 1 - j) * nx + i2],
                    ),
            decreases nx - i,
        {
            let px = render_pixel(cam, spheres, i, j, nx, ny, ns, s);
            let ghost old_pixels = pixels@;
            pixels.push(px);
            proof {
                assert((ny - j - 1) * nx + i + 1 == (ny - j - 1) * nx + (i + 1));
                assert(pixels@ == old_pixels.push(px));
                assert(pixels@[(ny - 1 - j as int) * nx + i] == px);
                assert forall|i2: int, j2: int|
                    0 <= i2 < nx && j < j2 < ny implies #[trigger] pixel_ok(
                    cam@,
                    sv,
                    i2,
                    j2,
                    nx as int,
                    ny as int,
                    ns as int,
                    pixels@[(ny - 1 - j2) * nx + i2],
                ) by {
                    assert(0 <= (ny - 1 - j2) * nx + i2 < old_pixels.len()) by (nonlinear_arith)
                        requires
                            0 <= i2 < nx,
                            j < j2 < ny,
                            old_pixels.len() == (ny - j - 1) * nx + i,
                            0 <= i,
                            0 <= j,
                    ;
                    assert(pixels@[(ny - 1 - j2) * nx + i2] == old_pixels[(ny - 1 - j2) * nx + i2]);
                };
                assert forall|i2: int| 0 <= i2 < i + 1 implies #[trigger] pixel_ok(
                    cam@,
                    sv,
                    i2,
                    j as int,
                    nx as int,
                    ny as int,
                    ns as int,
                    pixels@[(ny - 1 - j as int) * nx + i2],
                ) by {
                    assert(0 <= (ny - 1 - j as int) * nx + i2 <= old_pixels.len()) by (nonlinear_arith)
                        requires
                            0 <= i2 <= i,
                            j < ny,
                            old_pixels.len() == (ny - j - 1) * nx + i,
                            0 <= i,
                            0 <= j,
                    ;
                    if i2 < i {
                        assert(pixels@[(ny - 1 - j as int) * nx + i2] == old_pixels[(ny - 1 - j as int)
                            * nx + i2]);
                    } else {
                        assert((ny - 1 - j as int) * nx + i2 == old_pixels.len());
                    }
                };
            }
            i = i + 1;
        }
        proof {
            assert((ny - j - 1) * nx + nx == (ny - j) * nx) by (nonlinear_arith);
        }
    }
    proof {
        assert((ny - 0) * nx == nx * ny) by (nonlinear_arith);
    }
    pixels
}

/// Once the scan carries a best hit, it never reports a miss.
proof fn lemma_fold_some_stays(
    spheres: Seq<SphereV>,
    r: RayV,
    t_min: int,
    i: int,
    closest: int,
    h: HitV,
)
    ensures
        closest_hit_from(spheres, r, t_min, i, closest, Some(h)) is Some,
    decreases spheres.len() - i,
{
    if 0 <= i < spheres.len() {
        match sphere_hit_v(spheres[i], r, t_min, closest) {
            Some(h2) => lemma_fold_some_stays(spheres, r, t_min, i + 1, h2.t, h2),
            None => lemma_fold_some_stays(spheres, r, t_min, i + 1, closest, h),
        }
    }
}

/// A scan that ends in a miss saw every remaining sphere miss the unshrunken
/// window.
proof fn lemma_fold_none_all_miss(spheres: Seq<SphereV>, r: RayV, t_min: int, t_max: int, i: int)
    requires
        0 <= i,
        closest_hit_from(spheres, r, t_min, i, t_max, None) is None,
    ensures
        forall|j: int|
            i <= j < spheres.len() ==> #[trigger] sphere_hit_v(spheres[j], r, t_min, t_max)
                is None,
    decreases spheres.len() - i,
{
    if i < spheres.len() {
        match sphere_hit_v(spheres[i], r, t_min, t_max) {
            Some(h) => {
                lemma_fold_some_stays(spheres, r, t_min, i + 1, h.t, h);
                assert(false);
            },
            None => lemma_fold_none_all_miss(spheres, r, t_min, t_max, i + 1),
        }
    }
}

/// A scan over spheres that all miss ends in a miss.
proof fn lemma_fold_all_miss_none(spheres: Seq<SphereV>, r: RayV, t_min: int, t_max: int, i: int)
    requires
        forall|j: int|
            i <= j < spheres.len() ==> #[trigger] sphere_hit_v(spheres[j], r, t_min, t_max)
                is None,
    ensures
        closest_hit_from(spheres, r, t_min, i, t_max, None) is None,
    decreases spheres.len() - i,
{
    if 0 <= i < spheres.len() {
        lemma_fold_all_miss_none(spheres, r, t_min, t_max, i + 1);
    }
}

/// The aggregator reports no intersection exactly when every sphere of the
/// scene misses the window on its own.
pub proof fn lemma_closest_hit_miss_iff(spheres: Seq<SphereV>, r: RayV, t_min: int, t_max: int)
    ensures
        closest_hit_v(spheres, r, t_min, t_max) is None <==> (forall|j: int|
            0 <= j < spheres.len() ==> #[trigger] sphere_hit_v(spheres[j], r, t_min, t_max)
                is None),
{
    if closest_hit_v(spheres, r, t_min, t_max) is None {
        lemma_fold_none_all_miss(spheres, r, t_min, t_max, 0);
    }
    if forall|j: int|
        0 <= j < spheres.len() ==> #[trigger] sphere_hit_v(spheres[j], r, t_min, t_max) is None {
        lemma_fold_all_miss_none(spheres, r, t_min, t_max, 0);
    }
}

/// The scan's invariant: the carried best hit is some already-seen sphere's
/// own hit and no already-seen sphere hits closer; at the end the same holds
/// of the whole scene.
#[verifier::rlimit(100)]
#[verifier::spinoff_prover]
proof fn lemma_fold_minimal(
    spheres: Seq<SphereV>,
    r: RayV,
    t_min: int,
    t_max: int,
    i: int,
    closest: int,
    best: Option<HitV>,
)
    requires
        0 <= i <= spheres.len(),
        (match best {
            None => closest == t_max && (forall|j: int|
                0 <= j < i ==> #[trigger] sphere_hit_v(spheres[j], r, t_min, t_max) is None),
            Some(hb) => {
                &&& hb.t == closest
                &&& closest <= t_max
                &&& (exists|j: int|
                    0 <= j < i && #[trigger] sphere_hit_v(spheres[j], r, t_min, t_max) == Some(
                        hb,
                    ))
                &&& (forall|j: int|
                    0 <= j < i && #[trigger] sphere_hit_v(spheres[j], r, t_min, t_max) is Some
                        ==> hb.t <= sphere_hit_v(spheres[j], r, t_min, t_max)->Some_0.t)
            },
        }),
    ensures
        (match closest_hit_from(spheres, r, t_min, i, closest, best) {
            None => forall|j: int|
                0 <= j < spheres.len() ==> #[trigger] sphere_hit_v(spheres[j], r, t_min, t_max)
                    is None,
            Some(h) => {
                &&& (exists|j: int|
                    0 <= j < spheres.len() && #[trigger] sphere_hit_v(spheres[j], r, t_min, t_max)
                        == Some(h))
                &&& (forall|j: int|
                    0 <= j < spheres.len() && #[trigger] sphere_hit_v(spheres[j], r, t_min, t_max)
                        is Some ==> h.t <= sphere_hit_v(spheres[j], r, t_min, t_max)->Some_0.t)
            },
        }),
    decreases spheres.len() - i,
{
    if i == spheres.len() {
    } else {
        let cur = sphere_hit_v(spheres[i], r, t_min, closest);
        match best {
            None => {
                match cur {
                    Some(h) => {
                        lemma_hit_in_window(spheres[i], r, t_min, closest);
                        lemma_fold_minimal(spheres, r, t_min, t_max, i + 1, h.t, Some(h));
                    },
                    None => {
                        lemma_fold_minimal(spheres, r, t_min, t_max, i + 1, closest, best);
                    },
                }
            },
            Some(hb) => {
                match cur {
                    Some(h) => {
                        lemma_hit_in_window(spheres[i], r, t_min, closest);
                        lemma_hit_window_grow(spheres[i], r, t_min, closest, t_max);
                        lemma_fold_minimal(spheres, r, t_min, t_max, i + 1, h.t, Some(h));
                    },
                    None => {
                        if sphere_hit_v(spheres[i], r, t_min, t_max) is Some {
                            let hi = sphere_hit_v(spheres[i], r, t_min, t_max)->Some_0;
                            if hi.t < closest {
                                lemma_hit_window_shrink(spheres[i], r, t_min, t_max, closest);
                                assert(false);
                            }
                        }
                        lemma_fold_minimal(spheres, r, t_min, t_max, i + 1, closest, best);
                    },
                }
            },
        }
    }
}

/// The aggregator computes the global nearest hit: its result is some
/// sphere's own nearest hit, and no sphere of the scene hits strictly
/// closer — so the chosen hit does not depend on insertion order beyond the
/// first-listed tie-break.
pub proof fn lemma_closest_hit_minimal(spheres: Seq<SphereV>, r: RayV, t_min: int, t_max: int)
    ensures
        (match closest_hit_v(spheres, r, t_min, t_max) {
            None => forall|j: int|
                0 <= j < spheres.len() ==> #[trigger] sphere_hit_v(spheres[j], r, t_min, t_max)
                    is None,
            Some(h) => {
                &&& (exists|j: int|
                    0 <= j < spheres.len() && #[trigger] sphere_hit_v(spheres[j], r, t_min, t_max)
                        == Some(h))
                &&& (forall|j: int|
                    0 <= j < spheres.len() && #[trigger] sphere_hit_v(spheres[j], r, t_min, t_max)
                        is Some ==> h.t <= sphere_hit_v(spheres[j], r, t_min, t_max)->Some_0.t)
            },
        }),
{
    lemma_fold_minimal(spheres, r, t_min, t_max, 0, t_max, None);
}

/// Reordering a scene does not change the chosen hit: for two scenes holding
/// the same spheres (as a multiset), where distinct spheres are never hit at
/// the same parameter, the aggregator returns the same intersection.
#[verifier::rlimit(100)]
#[verifier::spinoff_prover]
pub proof fn lemma_closest_hit_order_independent(
    sa: Seq<SphereV>,
    sb: Seq<SphereV>,
    r: RayV,
    t_min: int,
    t_max: int,
)
    requires
        sa.to_multiset() == sb.to_multiset(),
        forall|i: int, j: int|
            0 <= i < sa.len() && 0 <= j < sa.len() && i != j && #[trigger] sphere_hit_v(
                sa[i],
                r,
                t_min,
                t_max,
            ) is Some && #[trigger] sphere_hit_v(sa[j], r, t_min, t_max) is Some ==> sa[i] == sa[j]
                || sphere_hit_v(sa[i], r, t_min, t_max)->Some_0.t != sphere_hit_v(
                sa[j],
                r,
                t_min,
                t_max,
            )->Some_0.t,
    ensures
        closest_hit_v(sa, r, t_min, t_max) == closest_hit_v(sb, r, t_min, t_max),
{
    sa.to_multiset_ensures();
    sb.to_multiset_ensures();
    assert forall|x: SphereV| sa.contains(x) implies sb.contains(x) by {
        assert(sa.to_multiset().count(x) > 0);
    };
    assert forall|x: SphereV| sb.contains(x) implies sa.contains(x) by {
        assert(sb.to_multiset().count(x) > 0);
    };
    lemma_closest_hit_minimal(sa, r, t_min, t_max);
    lemma_closest_hit_minimal(sb, r, t_min, t_max);
    lemma_closest_hit_miss_iff(sa, r, t_min, t_max);
    lemma_closest_hit_miss_iff(sb, r, t_min, t_max);
    let ra = closest_hit_v(sa, r, t_min, t_max);
    let rb = closest_hit_v(sb, r, t_min, t_max);
    if ra is Some && rb is None {
        let ha = ra->Some_0;
        let ia = choose|j: int|
            0 <= j < sa.len() && #[trigger] sphere_hit_v(sa[j], r, t_min, t_max) == Some(ha);
        assert(sb.contains(sa[ia]));
        let jb = choose|j: int| 0 <= j < sb.len() && sb[j] == sa[ia];
        assert(sphere_hit_v(sb[jb], r, t_min, t_max) is Some);
        assert(false);
    }
    if ra is None && rb is Some {
        let hb = rb->Some_0;
        let jb = choose|j: int|
            0 <= j < sb.len() && #[trigger] sphere_hit_v(sb[j], r, t_min, t_max) == Some(hb);
        assert(sa.contains(sb[jb]));
        let ia = choose|j: int| 0 <= j < sa.len() && sa[j] == sb[jb];
        assert(sphere_hit_v(sa[ia], r, t_min, t_max) is Some);
        assert(false);
    }
    if ra is Some && rb is Some {
        let ha = ra->Some_0;
        let hb = rb->Some_0;
        let ia = choose|j: int|
            0 <= j < sa.len() && #[trigger] sphere_hit_v(sa[j], r, t_min, t_max) == Some(ha);
        let jb = choose|j: int|
            0 <= j < sb.len() && #[trigger] sphere_hit_v(sb[j], r, t_min, t_max) == Some(hb);
        // The sphere behind each result also stands in the other scene, so
        // each result's parameter bounds the other.
        assert(sb.contains(sa[ia]));
        let ia2 = choose|j: int| 0 <= j < sb.len() && sb[j] == sa[ia];
        assert(sphere_hit_v(sb[ia2], r, t_min, t_max) == Some(ha));
        assert(hb.t <= ha.t);
        assert(sa.contains(sb[jb]));
        let jb2 = choose|j: int| 0 <= j < sa.len() && sa[j] == sb[jb];
        assert(sphere_hit_v(sa[jb2], r, t_min, t_max) == Some(hb));
        assert(ha.t <= hb.t);
        // Equal parameters force the same sphere and hence the same record.
        if ia != jb2 {
            assert(sa[ia] == sa[jb2] || ha.t != hb.t);
        }
        assert(ha == hb);
    }
}

/// For two spheres that a ray hits at distinct parameters, the aggregator
/// returns the hit with the smaller parameter whichever order the spheres are
/// listed in.
#[verifier::rlimit(100)]
#[verifier::spinoff_prover]
pub proof fn lemma_closest_two_order(s1: SphereV, s2: SphereV, r: RayV, t_min: int, t_max: int)
    requires
        sphere_hit_v(s1, r, t_min, t_max) is Some,
        sphere_hit_v(s2, r, t_min, t_max) is Some,
        sphere_hit_v(s1, r, t_min, t_max)->Some_0.t != sphere_hit_v(s2, r, t_min, t_max)->Some_0.t,
    ensures
        closest_hit_v(seq![s1, s2], r, t_min, t_max) == closest_hit_v(seq![s2, s1], r, t_min, t_max),
        closest_hit_v(seq![s1, s2], r, t_min, t_max) == (if sphere_hit_v(s1, r, t_min, t_max)->Some_0.t
            < sphere_hit_v(s2, r, t_min, t_max)->Some_0.t {
            sphere_hit_v(s1, r, t_min, t_max)
        } else {
            sphere_hit_v(s2, r, t_min, t_max)
        }),
{
    let h1 = sphere_hit_v(s1, r, t_min, t_max)->Some_0;
    let h2 = sphere_hit_v(s2, r, t_min, t_max)->Some_0;
    lemma_hit_in_window(s1, r, t_min, t_max);
    lemma_hit_in_window(s2, r, t_min, t_max);
    let fwd = seq![s1, s2];
    let bwd = seq![s2, s1];
    assert(fwd[0] == s1 && fwd[1] == s2 && bwd[0] == s2 && bwd[1] == s1);
    assert(fwd.len() == 2 && bwd.len() == 2);
    reveal_with_fuel(closest_hit_from, 4);
    if h2.t < h1.t {
        lemma_hit_window_shrink(s2, r, t_min, t_max, h1.t);
        lemma_hit_window_none(s1, r, t_min, t_max, h2.t);
        assert(closest_hit_v(fwd, r, t_min, t_max) == closest_hit_from(
            fwd,
            r,
            t_min,
            1,
            h1.t,
            Some(h1),
        ));
        assert(sphere_hit_v(s2, r, t_min, h1.t) == Some(h2));
        assert(closest_hit_v(fwd, r, t_min, t_max) == Some(h2));
        assert(closest_hit_v(bwd, r, t_min, t_max) == closest_hit_from(
            bwd,
            r,
            t_min,
            1,
            h2.t,
            Some(h2),
        ));
        assert(sphere_hit_v(s1, r, t_min, h2.t) is None);
        assert(closest_hit_v(bwd, r, t_min, t_max) == Some(h2));
    } else {
        lemma_hit_window_shrink(s1, r, t_min, t_max, h2.t);
        lemma_hit_window_none(s2, r, t_min, t_max, h1.t);
        assert(closest_hit_v(fwd, r, t_min, t_max) == closest_hit_from(
            fwd,
            r,
            t_min,
            1,
            h1.t,
            Some(h1),
        ));
        assert(sphere_hit_v(s2, r, t_min, h1.t) is None);
        assert(closest_hit_v(fwd, r, t_min, t_max) == Some(h1));
        assert(closest_hit_v(bwd, r, t_min, t_max) == closest_hit_from(
            bwd,
            r,
            t_min,
            1,
            h2.t,
            Some(h2),
        ));
        assert(sphere_hit_v(s1, r, t_min, h2.t) == Some(h1));
        assert(closest_hit_v(bwd, r, t_min, t_max) == Some(h1));
    }
}

} // verus!
