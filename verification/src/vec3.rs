//! Three-component vectors over fixed-point scalars, used interchangeably for
//! points, directions and linear-space colors.

use vstd::prelude::*;
use vstd::arithmetic::div_mod::{lemma_fundamental_div_mod, lemma_div_multiples_vanish};
use crate::fixed::{fadd, fsub, fneg, fmul, fdiv, fsqrt, fadd_s, fsub_s, fneg_s, fmul_s,
    fdiv_s, fsqrt_s, sqrt_floor, tdiv, lemma_tdiv_nonneg, lemma_tdiv_monotone, lemma_tdiv_neg,
    lemma_sqrt_floor_monotone, lemma_sqrt_floor_ge, lemma_sqrt_floor_unique, FX_ONE};

verus! {

/// The mathematical image of a vector: one unbounded integer per component.
pub ghost struct V3 {
    pub x: int,
    pub y: int,
    pub z: int,
}

#[derive(Clone, Copy, Debug, PartialEq, Eq, Structural)]
pub struct Vec3 {
    pub x: i64,
    pub y: i64,
    pub z: i64,
}

impl View for Vec3 {
    type V = V3;

    open spec fn view(&self) -> V3 {
        V3 { x: self.x as int, y: self.y as int, z: self.z as int }
    }
}

pub open spec fn v3(x: int, y: int, z: int) -> V3 {
    V3 { x, y, z }
}

pub open spec fn add_v(a: V3, b: V3) -> V3 {
    V3 { x: fadd_s(a.x, b.x), y: fadd_s(a.y, b.y), z: fadd_s(a.z, b.z) }
}

pub open spec fn sub_v(a: V3, b: V3) -> V3 {
    V3 { x: fsub_s(a.x, b.x), y: fsub_s(a.y, b.y), z: fsub_s(a.z, b.z) }
}

pub open spec fn neg_v(a: V3) -> V3 {
    V3 { x: fneg_s(a.x), y: fneg_s(a.y), z: fneg_s(a.z) }
}

/// Component-wise product (used for color attenuation).
pub open spec fn mul_v(a: V3, b: V3) -> V3 {
    V3 { x: fmul_s(a.x, b.x), y: fmul_s(a.y, b.y), z: fmul_s(a.z, b.z) }
}

/// Scalar product `k * a`.
pub open spec fn scale_v(k: int, a: V3) -> V3 {
    V3 { x: fmul_s(k, a.x), y: fmul_s(k, a.y), z: fmul_s(k, a.z) }
}

/// Scalar quotient `a / k`.
pub open spec fn div_v(a: V3, k: int) -> V3 {
    V3 { x: fdiv_s(a.x, k), y: fdiv_s(a.y, k), z: fdiv_s(a.z, k) }
}

pub open spec fn dot_v(a: V3, b: V3) -> int {
    fadd_s(fadd_s(fmul_s(a.x, b.x), fmul_s(a.y, b.y)), fmul_s(a.z, b.z))
}

pub open spec fn cross_v(a: V3, b: V3) -> V3 {
    V3 {
        x: fsub_s(fmul_s(a.y, b.z), fmul_s(a.z, b.y)),
        y: fsub_s(fmul_s(a.z, b.x), fmul_s(a.x, b.z)),
        z: fsub_s(fmul_s(a.x, b.y), fmul_s(a.y, b.x)),
    }
}

/// Euclidean length, `sqrt(a . a)`.
pub open spec fn length_v(a: V3) -> int {
    fsqrt_s(dot_v(a, a))
}

/// `a` scaled to unit length (the zero vector stays zero, since division by a
/// zero length yields zero components).
pub open spec fn unit_v(a: V3) -> V3 {
    div_v(a, length_v(a))
}

/// Image of [`Vec3::make_unit_vector`]: each component is multiplied by the
/// reciprocal of the squared length. Note that this divides by `a . a`, not
/// by the length; [`unit_v`] is the normalization that divides by the length.
pub open spec fn munit_v(a: V3) -> V3 {
    scale_v(fdiv_s(FX_ONE as int, dot_v(a, a)), a)
}

impl Vec3 {
    pub fn new(x: i64, y: i64, z: i64) -> (v: Vec3)
        ensures
            v@ == v3(x as int, y as int, z as int),
    {
        Vec3 { x, y, z }
    }

    /// Rescales `self` by the reciprocal of its squared length.
    pub fn make_unit_vector(&mut self)
        ensures
            final(self)@ == munit_v(old(self)@),
    {
        let c: Vec3 = *self;
        let k: i64 = fdiv(FX_ONE, c.dot(&c));
        self.x = fmul(k, self.x);
        self.y = fmul(k, self.y);
        self.z = fmul(k, self.z);
    }

    pub fn dot(&self, other: &Vec3) -> (r: i64)
        ensures
            r as int == dot_v(self@, other@),
    {
        fadd(fadd(fmul(self.x, other.x), fmul(self.y, other.y)), fmul(self.z, other.z))
    }

    pub fn cross(&self, other: &Vec3) -> (r: Vec3)
        ensures
            r@ == cross_v(self@, other@),
    {
        Vec3 {
            x: fsub(fmul(self.y, other.z), fmul(self.z, other.y)),
            y: fsub(fmul(self.z, other.x), fmul(self.x, other.z)),
            z: fsub(fmul(self.x, other.y), fmul(self.y, other.x)),
        }
    }

    pub fn unit_vector(&self) -> (r: Vec3)
        ensures
            r@ == unit_v(self@),
    {
        let len: i64 = self.length();
        Vec3 { x: fdiv(self.x, len), y: fdiv(self.y, len), z: fdiv(self.z, len) }
    }

    pub fn length(&self) -> (r: i64)
        ensures
            r as int == length_v(self@),
    {
        fsqrt(self.dot(self))
    }

    /// Component-wise sum.
    pub fn add(&self, other: &Vec3) -> (r: Vec3)
        ensures
            r@ == add_v(self@, other@),
    {
        Vec3 { x: fadd(self.x, other.x), y: fadd(self.y, other.y), z: fadd(self.z, other.z) }
    }

    /// Component-wise difference.
    pub fn sub(&self, other: &Vec3) -> (r: Vec3)
        ensures
            r@ == sub_v(self@, other@),
    {
        Vec3 { x: fsub(self.x, other.x), y: fsub(self.y, other.y), z: fsub(self.z, other.z) }
    }

    /// Component-wise negation.
    pub fn neg(&self) -> (r: Vec3)
        ensures
            r@ == neg_v(self@),
    {
        Vec3 { x: fneg(self.x), y: fneg(self.y), z: fneg(self.z) }
    }

    /// Component-wise product.
    pub fn mul(&self, other: &Vec3) -> (r: Vec3)
        ensures
            r@ == mul_v(self@, other@),
    {
        Vec3 { x: fmul(self.x, other.x), y: fmul(self.y, other.y), z: fmul(self.z, other.z) }
    }

    /// Scalar product `k * self`.
    pub fn scale(&self, k: i64) -> (r: Vec3)
        ensures
            r@ == scale_v(k as int, self@),
    {
        Vec3 { x: fmul(k, self.x), y: fmul(k, self.y), z: fmul(k, self.z) }
    }

    /// Scalar quotient `self / k`.
    pub fn div(&self, k: i64) -> (r: Vec3)
        ensures
            r@ == div_v(self@, k as int),
    {
        Vec3 { x: fdiv(self.x, k), y: fdiv(self.y, k), z: fdiv(self.z, k) }
    }
}

/// One square term of `dot_v(a, a)` is non-negative and, for a component
/// within `2^31`, never saturates.
proof fn lemma_square_term_bounded(x: int)
    requires
        -2147483648 <= x <= 2147483648,
    ensures
        fmul_s(x, x) == tdiv(x * x, 65536),
        0 <= fmul_s(x, x) <= 70368744177664,
{
    assert(0 <= x * x <= 4611686018427387904) by (nonlinear_arith)
        requires
            -2147483648 <= x <= 2147483648,
    ;
    lemma_tdiv_nonneg(x * x, 65536);
    lemma_tdiv_monotone(x * x, 4611686018427387904, 65536);
    lemma_div_multiples_vanish(70368744177664, 65536);
    assert(65536 * 70368744177664 == 4611686018427387904int);
}

/// For vectors whose components stay within `2^31` (so that no fixed-point
/// saturation occurs), every component of the normalized vector lies within
/// two units of length: the floor square root of the truncated squared
/// length never undershoots a component by more than a factor of two.
pub proof fn lemma_unit_y_bound(a: V3)
    requires
        -2147483648 <= a.x <= 2147483648,
        -2147483648 <= a.y <= 2147483648,
        -2147483648 <= a.z <= 2147483648,
    ensures
        -131072 <= unit_v(a).y <= 131072,
{
    let y = a.y;
    lemma_square_term_bounded(a.x);
    lemma_square_term_bounded(a.y);
    lemma_square_term_bounded(a.z);
    let q = tdiv(y * y, 65536);
    let dotv = dot_v(a, a);
    assert(q <= dotv <= 211106232532992);
    let lv = length_v(a);
    if lv == 0 {
        assert(unit_v(a).y == fdiv_s(y, 0));
    } else {
        assert(dotv > 0);
        let n = (dotv * 65536) as nat;
        assert(lv == sqrt_floor(n) as int);
        lemma_sqrt_floor_ge(n, 256);
        assert((256 as nat) * (256 as nat) == 65536nat);
        assert(65536 <= n);
        assert(256 <= lv);
        // |y| <= 2 * lv.
        if q == 0 {
            assert(y * y < 65536);
            assert(-255 <= y <= 255) by (nonlinear_arith)
                requires
                    y * y < 65536,
            ;
            assert(y <= 2 * lv && -(2 * lv) <= y) by (nonlinear_arith)
                requires
                    -255 <= y <= 255,
                    256 <= lv,
            ;
        } else {
            assert(q >= 1);
            let m = sqrt_floor((q * 65536) as nat) as int;
            lemma_sqrt_floor_monotone((q * 65536) as nat, n);
            assert(q * 65536 <= dotv * 65536) by (nonlinear_arith)
                requires
                    q <= dotv,
            ;
            assert(m <= lv);
            lemma_sqrt_floor_ge((q * 65536) as nat, 256);
            assert(65536 <= q * 65536) by (nonlinear_arith)
                requires
                    q >= 1,
            ;
            assert(256 <= m);
            crate::fixed::lemma_sqrt_floor((q * 65536) as nat);
            assert(m * m <= q * 65536 < (m + 1) * (m + 1));
            lemma_fundamental_div_mod(y * y, 65536);
            assert(y * y < (q + 1) * 65536);
            assert(y * y < 4 * (m * m)) by (nonlinear_arith)
                requires
                    y * y < (q + 1) * 65536,
                    q >= 1,
                    q * 65536 < (m + 1) * (m + 1),
                    m >= 3,
            ;
            assert(y <= 2 * m && -(2 * m) <= y) by (nonlinear_arith)
                requires
                    y * y < 4 * (m * m),
                    m >= 0,
            ;
            assert(y <= 2 * lv && -(2 * lv) <= y);
        }
        // The quotient is then at most two units.
        let num = y * 65536;
        assert((2 * lv) * 65536 == 131072 * lv) by (nonlinear_arith);
        if num >= 0 {
            assert(crate::fixed::absi(num) == num);
            assert(num <= 131072 * lv);
        } else {
            assert(crate::fixed::absi(num) == -num);
            assert(-num <= 131072 * lv);
        }
        assert(crate::fixed::absi(num) <= (2 * lv) * 65536);
        lemma_tdiv_nonneg(crate::fixed::absi(num), lv);
        lemma_tdiv_monotone(crate::fixed::absi(num), (2 * lv) * 65536, lv);
        lemma_div_multiples_vanish(131072, lv);
        assert((2 * lv) * 65536 == lv * 131072) by (nonlinear_arith);
        assert(tdiv((2 * lv) * 65536, lv) == 131072);
        if num >= 0 {
            assert(tdiv(num, lv) == crate::fixed::absi(num) / crate::fixed::absi(lv));
        } else {
            lemma_tdiv_neg(-num, lv);
        }
        assert(-131072 <= tdiv(num, lv) <= 131072);
        assert(unit_v(a).y == fdiv_s(y, lv));
    }
}

} // verus!
