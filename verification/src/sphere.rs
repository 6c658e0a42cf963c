//! Spheres and the ray-sphere intersector: the nearest valid root of the
//! intersection quadratic within a `(t_min, t_max)` window.

use vstd::prelude::*;
use crate::fixed::{fadd, fsub, fneg, fmul, fdiv, fsqrt, fadd_s, fsub_s, fneg_s, fmul_s,
    fdiv_s, fsqrt_s, tdiv, lemma_tdiv_monotone, lemma_tdiv_nonneg, FX_TWO, FX_FOUR};
use crate::vec3::{Vec3, V3, sub_v, div_v, dot_v};
use crate::ray::{Ray, RayV, point_at_v};
use crate::hit_record::{HitRecord, HitV, Material};

verus! {

/// The mathematical image of a sphere.
pub ghost struct SphereV {
    pub center: V3,
    pub radius: int,
    pub material: Material,
}

pub struct Sphere {
    pub center: Vec3,
    pub radius: i64,
    pub material: Material,
}

impl View for Sphere {
    type V = SphereV;

    open spec fn view(&self) -> SphereV {
        SphereV { center: self.center@, radius: self.radius as int, material: self.material }
    }
}

/// Offset of the ray origin from the sphere center.
pub open spec fn oc_v(s: SphereV, r: RayV) -> V3 {
    sub_v(r.origin, s.center)
}

/// Quadratic coefficient `a = dir . dir`.
pub open spec fn quad_a(s: SphereV, r: RayV) -> int {
    dot_v(r.dir, r.dir)
}

/// Quadratic coefficient `b = 2 (dir . oc)`.
pub open spec fn quad_b(s: SphereV, r: RayV) -> int {
    fmul_s(FX_TWO as int, dot_v(r.dir, oc_v(s, r)))
}

/// Quadratic coefficient `c = oc . oc - radius^2`.
pub open spec fn quad_c(s: SphereV, r: RayV) -> int {
    fsub_s(dot_v(oc_v(s, r), oc_v(s, r)), fmul_s(s.radius, s.radius))
}

/// The discriminant `b^2 - 4 a c`.
pub open spec fn discriminant_v(s: SphereV, r: RayV) -> int {
    fsub_s(
        fmul_s(quad_b(s, r), quad_b(s, r)),
        fmul_s(fmul_s(FX_FOUR as int, quad_a(s, r)), quad_c(s, r)),
    )
}

/// The near root `(-b - sqrt(disc)) / (2 a)`.
pub open spec fn root_near_v(s: SphereV, r: RayV) -> int {
    fdiv_s(
        fsub_s(fneg_s(quad_b(s, r)), fsqrt_s(discriminant_v(s, r))),
        fmul_s(FX_TWO as int, quad_a(s, r)),
    )
}

/// The far root `(-b + sqrt(disc)) / (2 a)`.
pub open spec fn root_far_v(s: SphereV, r: RayV) -> int {
    fdiv_s(
        fadd_s(fneg_s(quad_b(s, r)), fsqrt_s(discriminant_v(s, r))),
        fmul_s(FX_TWO as int, quad_a(s, r)),
    )
}

/// The record built for an accepted parameter `t`: the point on the ray and
/// the outward normal `(p - center) / radius`.
pub open spec fn rec_at_v(s: SphereV, r: RayV, t: int) -> HitV {
    let p = point_at_v(r, t);
    HitV { t, p, normal: div_v(sub_v(p, s.center), s.radius), material: s.material }
}

/// The intersector's result: a miss when the discriminant is not positive
/// (tangency counts as a miss); otherwise the near root when it lies strictly
/// inside the window, else the far root when it does, else a miss.
/// Opaque so that proofs about the aggregator can treat it as a value;
/// proofs about its cases reveal it.
#[verifier::opaque]
pub open spec fn sphere_hit_v(s: SphereV, r: RayV, t_min: int, t_max: int) -> Option<HitV> {
    if discriminant_v(s, r) > 0 {
        let tn = root_near_v(s, r);
        if t_min < tn && tn < t_max {
            Some(rec_at_v(s, r, tn))
        } else {
            let tf = root_far_v(s, r);
            if t_min < tf && tf < t_max {
                Some(rec_at_v(s, r, tf))
            } else {
                None
            }
        }
    } else {
        None
    }
}

/// The image of an optional hit record.
pub open spec fn opt_hit(o: Option<HitRecord>) -> Option<HitV> {
    match o {
        Some(h) => Some(h@),
        None => None,
    }
}

impl Sphere {
    pub fn new(center: Vec3, radius: i64, material: Material) -> (s: Sphere)
        requires
            radius > 0,
        ensures
            s@ == (SphereV { center: center@, radius: radius as int, material }),
    {
        Sphere { center, radius, material }
    }

    /// The nearest intersection of `r` with this sphere strictly inside
    /// `(t_min, t_max)`, preferring the near root.
    pub fn hit(&self, r: &Ray, t_min: i64, t_max: i64) -> (res: Option<HitRecord>)
        ensures
            opt_hit(res) == sphere_hit_v(self@, r@, t_min as int, t_max as int),
    {
        proof {
            reveal(sphere_hit_v);
        }
        let d = r.direction();
        let oc = r.origin().sub(&self.center);

        let a = d.dot(&d);
        let b = fmul(FX_TWO, d.dot(&oc));
        let c = fsub(oc.dot(&oc), fmul(self.radius, self.radius));

        let discriminant = fsub(fmul(b, b), fmul(fmul(FX_FOUR, a), c));

        if discriminant > 0 {
            let sq = fsqrt(discriminant);
            let denom = fmul(FX_TWO, a);
            let temp = fdiv(fsub(fneg(b), sq), denom);
            if temp > t_min && temp < t_max {
                let p = r.point_at_parameter(temp);
                return Some(
                    HitRecord {
                        t: temp,
                        p,
                        normal: p.sub(&self.center).div(self.radius),
                        material: self.material,
                    },
                );
            }

            let temp2 = fdiv(fadd(fneg(b), sq), denom);
            if temp2 < t_max && temp2 > t_min {
                let p = r.point_at_parameter(temp2);
                return Some(
                    HitRecord {
                        t: temp2,
                        p,
                        normal: p.sub(&self.center).div(self.radius),
                        material: self.material,
                    },
                );
            }
        }
        None
    }
}

/// Each square term of a dot product of a vector with itself is non-negative.
proof fn lemma_square_term_nonneg(x: int)
    ensures
        0 <= fmul_s(x, x),
{
    assert(0 <= x * x) by (nonlinear_arith);
    lemma_tdiv_nonneg(x * x, 65536);
}

/// A vector's dot product with itself is non-negative.
pub proof fn lemma_dot_self_nonneg(a: V3)
    ensures
        0 <= dot_v(a, a),
{
    lemma_square_term_nonneg(a.x);
    lemma_square_term_nonneg(a.y);
    lemma_square_term_nonneg(a.z);
}

/// The far root never lies below the near root.
pub proof fn lemma_roots_ordered(s: SphereV, r: RayV)
    ensures
        root_near_v(s, r) <= root_far_v(s, r),
{
    lemma_dot_self_nonneg(r.dir);
    let a = quad_a(s, r);
    let denom = fmul_s(FX_TWO as int, a);
    assert(0 <= denom) by {
        assert(0 <= 131072 * a) by (nonlinear_arith)
            requires
                0 <= a,
        ;
        lemma_tdiv_nonneg(131072 * a, 65536);
    };
    let sq = fsqrt_s(discriminant_v(s, r));
    assert(0 <= sq);
    let num_n = fsub_s(fneg_s(quad_b(s, r)), sq);
    let num_f = fadd_s(fneg_s(quad_b(s, r)), sq);
    assert(num_n <= num_f);
    if denom > 0 {
        lemma_tdiv_monotone(num_n * 65536, num_f * 65536, denom);
    }
}

/// Lowering the window's upper bound to anything still above an accepted hit
/// leaves the intersector's result unchanged.
pub proof fn lemma_hit_window_shrink(s: SphereV, r: RayV, t_min: int, t_max: int, t2: int)
    requires
        sphere_hit_v(s, r, t_min, t_max) is Some,
        sphere_hit_v(s, r, t_min, t_max)->Some_0.t < t2 <= t_max,
    ensures
        sphere_hit_v(s, r, t_min, t2) == sphere_hit_v(s, r, t_min, t_max),
{
    reveal(sphere_hit_v);
}

/// Lowering the window's upper bound to or below an accepted hit (or applied
/// to a miss) leaves a miss.
pub proof fn lemma_hit_window_none(s: SphereV, r: RayV, t_min: int, t_max: int, t2: int)
    requires
        t2 <= t_max,
        (sphere_hit_v(s, r, t_min, t_max) matches Some(h) ==> h.t >= t2),
    ensures
        sphere_hit_v(s, r, t_min, t2) is None,
{
    reveal(sphere_hit_v);
    lemma_roots_ordered(s, r);
}

/// An accepted hit in a narrower window is also the accepted hit in any
/// wider window with the same lower bound.
pub proof fn lemma_hit_window_grow(s: SphereV, r: RayV, t_min: int, t2: int, t_max: int)
    requires
        t2 <= t_max,
        sphere_hit_v(s, r, t_min, t2) is Some,
    ensures
        sphere_hit_v(s, r, t_min, t_max) == sphere_hit_v(s, r, t_min, t2),
{
    reveal(sphere_hit_v);
    lemma_roots_ordered(s, r);
}

/// An accepted hit parameter lies strictly inside the window.
pub proof fn lemma_hit_in_window(s: SphereV, r: RayV, t_min: int, t_max: int)
    requires
        sphere_hit_v(s, r, t_min, t_max) is Some,
    ensures
        t_min < sphere_hit_v(s, r, t_min, t_max)->Some_0.t < t_max,
{
    reveal(sphere_hit_v);
}

/// The normal of any hit record points away from the sphere center: its dot
/// product with the offset from the center is never negative.
pub proof fn lemma_normal_outward(s: SphereV, r: RayV, t: int)
    requires
        s.radius > 0,
    ensures
        0 <= dot_v(rec_at_v(s, r, t).normal, sub_v(rec_at_v(s, r, t).p, s.center)),
{
    let d = sub_v(point_at_v(r, t), s.center);
    lemma_normal_term_nonneg(d.x, s.radius);
    lemma_normal_term_nonneg(d.y, s.radius);
    lemma_normal_term_nonneg(d.z, s.radius);
}

/// One component of that dot product: `(d / radius) * d` is non-negative.
proof fn lemma_normal_term_nonneg(d: int, radius: int)
    requires
        radius > 0,
    ensures
        0 <= fmul_s(fdiv_s(d, radius), d),
{
    let n = fdiv_s(d, radius);
    if d >= 0 {
        lemma_tdiv_nonneg(d * 65536, radius);
        assert(0 <= n);
        assert(0 <= n * d) by (nonlinear_arith)
            requires
                0 <= n,
                0 <= d,
        ;
        lemma_tdiv_nonneg(n * d, 65536);
    } else {
        assert(tdiv(d * 65536, radius) <= 0) by {
            lemma_tdiv_monotone(d * 65536, 0, radius);
            crate::fixed::lemma_tdiv_zero_num(radius);
        };
        assert(n <= 0);
        assert(0 <= n * d) by (nonlinear_arith)
            requires
                n <= 0,
                d <= 0,
        ;
        lemma_tdiv_nonneg(n * d, 65536);
    }
}

} // verus!
