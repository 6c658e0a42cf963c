//! Rays: an origin and a direction, with parameterized point evaluation.

use vstd::prelude::*;
use crate::fixed::fmul;
use crate::vec3::{Vec3, V3, add_v, scale_v};

verus! {

/// The mathematical image of a ray.
pub ghost struct RayV {
    pub origin: V3,
    pub dir: V3,
}

/// A ray `a + t * b`; the direction `b` need not be normalized.
#[derive(Clone, Copy, Debug, PartialEq, Eq, Structural)]
pub struct Ray {
    pub a: Vec3,
    pub b: Vec3,
}

impl View for Ray {
    type V = RayV;

    open spec fn view(&self) -> RayV {
        RayV { origin: self.a@, dir: self.b@ }
    }
}

/// The point `origin + t * dir`.
pub open spec fn point_at_v(r: RayV, t: int) -> V3 {
    add_v(r.origin, scale_v(t, r.dir))
}

impl Ray {
    pub fn origin(&self) -> (v: Vec3)
        ensures
            v@ == self@.origin,
    {
        self.a
    }

    pub fn direction(&self) -> (v: Vec3)
        ensures
            v@ == self@.dir,
    {
        self.b
    }

    pub fn point_at_parameter(&self, t: i64) -> (p: Vec3)
        ensures
            p@ == point_at_v(self@, t as int),
    {
        self.a.add(&Vec3 { x: fmul(t, self.b.x), y: fmul(t, self.b.y), z: fmul(t, self.b.z) })
    }
}

} // verus!
