//! The camera: an orthonormal viewport basis derived from a look-at
//! configuration and a vertical field of view, and per-sample ray generation
//! with an optional lens-disk offset for depth of field.

use vstd::prelude::*;
use crate::fixed::{fadd, fsub, fmul, fdiv, fadd_s, fsub_s, fmul_s, fdiv_s, lemma_fmul_zero,
    FX_ONE, FX_TWO};
use crate::vec3::{Vec3, V3, v3, add_v, sub_v, scale_v, dot_v, cross_v, unit_v};
use crate::ray::{Ray, RayV};
use crate::sampler::Sampler;
use crate::hit_record::in_unit_sphere;

verus! {

/// The fixed-point representation of pi.
pub const FX_PI: i64 = 205887;
/// The fixed-point representation of 180.
pub const FX_DEG180: i64 = 11796480;

/// Polynomial approximation of the sine on `[-pi/2, pi/2]`:
/// `x - x^3/6 + x^5/120 - x^7/5040`, in fixed point.
pub open spec fn sin_fx_s(x: int) -> int {
    let x2 = fmul_s(x, x);
    let x3 = fmul_s(x2, x);
    let x5 = fmul_s(x3, x2);
    let x7 = fmul_s(x5, x2);
    fsub_s(fadd_s(fsub_s(x, fdiv_s(x3, 393216)), fdiv_s(x5, 7864320)), fdiv_s(x7, 330301440))
}

/// Polynomial approximation of the cosine on `[-pi/2, pi/2]`:
/// `1 - x^2/2 + x^4/24 - x^6/720 + x^8/40320`, in fixed point.
pub open spec fn cos_fx_s(x: int) -> int {
    let x2 = fmul_s(x, x);
    let x4 = fmul_s(x2, x2);
    let x6 = fmul_s(x4, x2);
    let x8 = fmul_s(x6, x2);
    fadd_s(
        fsub_s(fadd_s(fsub_s(FX_ONE as int, fdiv_s(x2, 131072)), fdiv_s(x4, 1572864)), fdiv_s(x6, 47185920)),
        fdiv_s(x8, 2642411520),
    )
}

/// The tangent as the quotient of the two approximations.
pub open spec fn tan_fx_s(x: int) -> int {
    fdiv_s(sin_fx_s(x), cos_fx_s(x))
}

pub fn sin_fx(x: i64) -> (r: i64)
    ensures
        r as int == sin_fx_s(x as int),
{
    let x2 = fmul(x, x);
    let x3 = fmul(x2, x);
    let x5 = fmul(x3, x2);
    let x7 = fmul(x5, x2);
    fsub(fadd(fsub(x, fdiv(x3, 393216)), fdiv(x5, 7864320)), fdiv(x7, 330301440))
}

pub fn cos_fx(x: i64) -> (r: i64)
    ensures
        r as int == cos_fx_s(x as int),
{
    let x2 = fmul(x, x);
    let x4 = fmul(x2, x2);
    let x6 = fmul(x4, x2);
    let x8 = fmul(x6, x2);
    fadd(
        fsub(fadd(fsub(FX_ONE, fdiv(x2, 131072)), fdiv(x4, 1572864)), fdiv(x6, 47185920)),
        fdiv(x8, 2642411520),
    )
}

pub fn tan_fx(x: i64) -> (r: i64)
    ensures
        r as int == tan_fx_s(x as int),
{
    fdiv(sin_fx(x), cos_fx(x))
}

/// The mathematical image of a camera.
pub ghost struct CameraV {
    pub origin: V3,
    pub lower_left_corner: V3,
    pub horizontal: V3,
    pub vertical: V3,
    pub lens_radius: int,
    pub u: V3,
    pub v: V3,
}

pub struct Camera {
    pub origin: Vec3,
    pub lower_left_corner: Vec3,
    pub horizontal: Vec3,
    pub vertical: Vec3,
    pub lens_radius: i64,
    pub u: Vec3,
    pub v: Vec3,
}

impl View for Camera {
    type V = CameraV;

    open spec fn view(&self) -> CameraV {
        CameraV {
            origin: self.origin@,
            lower_left_corner: self.lower_left_corner@,
            horizontal: self.horizontal@,
            vertical: self.vertical@,
            lens_radius: self.lens_radius as int,
            u: self.u@,
            v: self.v@,
        }
    }
}

/// The camera derived from a look-at configuration: viewport extents from the
/// vertical field of view (degrees) and the aspect ratio, scaled out to the
/// focal plane, over the orthonormal basis `(u, v, w)`.
pub open spec fn camera_v(
    look_from: V3,
    look_at: V3,
    vup: V3,
    fov: int,
    aspect: int,
    aperture: int,
    focus_dist: int,
) -> CameraV {
    let theta = fdiv_s(fmul_s(fov, FX_PI as int), FX_DEG180 as int);
    let half_height = tan_fx_s(fdiv_s(theta, FX_TWO as int));
    let half_width = fmul_s(aspect, half_height);
    let w = unit_v(sub_v(look_from, look_at));
    let u = unit_v(cross_v(vup, w));
    let v = cross_v(w, u);
    CameraV {
        origin: look_from,
        lower_left_corner: sub_v(
            sub_v(
                sub_v(look_from, scale_v(fmul_s(half_width, focus_dist), u)),
                scale_v(fmul_s(half_height, focus_dist), v),
            ),
            scale_v(focus_dist, w),
        ),
        horizontal: scale_v(fmul_s(fmul_s(FX_TWO as int, half_width), focus_dist), u),
        vertical: scale_v(fmul_s(fmul_s(FX_TWO as int, half_height), focus_dist), v),
        lens_radius: fdiv_s(aperture, FX_TWO as int),
        u,
        v,
    }
}

/// The ray generated for viewport coordinates `(u, v)` and one sampled lens
/// disk point.
pub open spec fn get_ray_v(cam: CameraV, u: int, v: int, disk: V3) -> RayV {
    let rd = scale_v(cam.lens_radius, disk);
    let offset = add_v(scale_v(rd.x, cam.u), scale_v(rd.y, cam.v));
    RayV {
        origin: add_v(cam.origin, offset),
        dir: sub_v(
            sub_v(
                add_v(add_v(cam.lower_left_corner, scale_v(u, cam.horizontal)), scale_v(v, cam.vertical)),
                cam.origin,
            ),
            offset,
        ),
    }
}

/// Rejection sampling of a point inside the unit disk of the lens plane.
pub fn random_in_unit_disk(s: &mut Sampler) -> (p: Vec3)
    ensures
        in_unit_sphere(p@),
        p@.z == 0,
{
    let mut i: usize = 0;
    while i < 10000
        decreases 10000 - i,
    {
        let c = Vec3::new(s.next_unit(), s.next_unit(), 0);
        let p = c.scale(FX_TWO).sub(&Vec3::new(FX_ONE, FX_ONE, 0));
        proof {
            lemma_fmul_zero(FX_TWO as int);
        }
        if p.dot(&p) < FX_ONE {
            return p;
        }
        i = i + 1;
    }
    let z = Vec3::new(0, 0, 0);
    proof {
        lemma_fmul_zero(0);
        assert(dot_v(z@, z@) == 0);
    }
    z
}

impl Camera {
    pub fn new(
        look_from: Vec3,
        look_at: Vec3,
        vup: Vec3,
        fov: i64,
        aspect: i64,
        aperture: i64,
        focus_dist: i64,
    ) -> (c: Camera)
        ensures
            c@ == camera_v(
                look_from@,
                look_at@,
                vup@,
                fov as int,
                aspect as int,
                aperture as int,
                focus_dist as int,
            ),
    {
        let theta = fdiv(fmul(fov, FX_PI), FX_DEG180);
        let half_height = tan_fx(fdiv(theta, FX_TWO));
        let half_width = fmul(aspect, half_height);

        let w = look_from.sub(&look_at).unit_vector();
        let u = vup.cross(&w).unit_vector();
        let v = w.cross(&u);

        Camera {
            origin: look_from,
            lower_left_corner: look_from
                .sub(&u.scale(fmul(half_width, focus_dist)))
                .sub(&v.scale(fmul(half_height, focus_dist)))
                .sub(&w.scale(focus_dist)),
            horizontal: u.scale(fmul(fmul(FX_TWO, half_width), focus_dist)),
            vertical: v.scale(fmul(fmul(FX_TWO, half_height), focus_dist)),
            lens_radius: fdiv(aperture, FX_TWO),
            u,
            v,
        }
    }

    /// The ray for viewport coordinates `(u, v)`, with its origin offset by a
    /// sampled lens-disk point; with a zero lens radius the ray is the exact
    /// pinhole ray, independent of the sampler.
    pub fn get_ray(&self, u: i64, v: i64, s: &mut Sampler) -> (r: Ray)
        ensures
            (exists|disk: V3|
                in_unit_sphere(disk) && disk.z == 0 && r@ == get_ray_v(
                    self@,
                    u as int,
                    v as int,
                    disk,
                )),
            self.lens_radius == 0 ==> r@ == get_ray_v(self@, u as int, v as int, v3(0, 0, 0)),
    {
        let disk = random_in_unit_disk(s);
        let rd = disk.scale(self.lens_radius);
        let offset = self.u.scale(rd.x).add(&self.v.scale(rd.y));
        let r = Ray {
            a: self.origin.add(&offset),
            b: self
                .lower_left_corner
                .add(&self.horizontal.scale(u))
                .add(&self.vertical.scale(v))
                .sub(&self.origin)
                .sub(&offset),
        };
        proof {
            assert(in_unit_sphere(disk@) && disk@.z == 0 && r@ == get_ray_v(
                self@,
                u as int,
                v as int,
                disk@,
            ));
            if self.lens_radius == 0 {
                lemma_fmul_zero(disk@.x);
                lemma_fmul_zero(disk@.y);
                lemma_fmul_zero(disk@.z);
                lemma_fmul_zero(self@.u.x);
                lemma_fmul_zero(self@.u.y);
                lemma_fmul_zero(self@.u.z);
                lemma_fmul_zero(self@.v.x);
                lemma_fmul_zero(self@.v.y);
                lemma_fmul_zero(self@.v.z);
                assert(get_ray_v(self@, u as int, v as int, v3(0, 0, 0)) == get_ray_v(
                    self@,
                    u as int,
                    v as int,
                    disk@,
                ));
            }
        }
        r
    }
}

} // verus!
