//! Fixed-point scalar arithmetic.
//!
//! A scalar `s` is stored as the integer `s * 65536` in an `i64`, so `FX_ONE`
//! stands for `1.0`. Products and quotients are truncated toward zero, and
//! every operation saturates at the `i64` range instead of overflowing.
//! Division by zero yields `0`; the renderer never relies on that case for a
//! meaningful value.

use vstd::prelude::*;
use vstd::arithmetic::div_mod::{lemma_div_multiples_vanish, lemma_div_multiples_vanish_fancy,
    lemma_div_is_ordered, lemma_div_pos_is_pos, lemma_div_of0};

verus! {

/// Scale of the representation: the integer standing for `1.0`.
pub const FX_ONE: i64 = 65536;
/// The integer standing for `2.0`.
pub const FX_TWO: i64 = 131072;
/// The integer standing for `4.0`.
pub const FX_FOUR: i64 = 262144;
/// The integer standing for `0.5`.
pub const FX_HALF: i64 = 32768;

/// Saturation of a mathematical integer into the `i64` range.
pub open spec fn clamp64(x: int) -> int {
    if x > i64::MAX {
        i64::MAX as int
    } else if x < i64::MIN {
        i64::MIN as int
    } else {
        x
    }
}

/// Absolute value.
pub open spec fn absi(x: int) -> int {
    if x < 0 {
        -x
    } else {
        x
    }
}

/// Division truncated toward zero (the rounding of machine division),
/// meaningful for `d != 0`.
pub open spec fn tdiv(n: int, d: int) -> int {
    let q = absi(n) / absi(d);
    if (n < 0) != (d < 0) {
        -q
    } else {
        q
    }
}

/// Saturating fixed-point addition.
pub open spec fn fadd_s(a: int, b: int) -> int {
    clamp64(a + b)
}

/// Saturating fixed-point subtraction.
pub open spec fn fsub_s(a: int, b: int) -> int {
    clamp64(a - b)
}

/// Saturating fixed-point negation.
pub open spec fn fneg_s(a: int) -> int {
    clamp64(-a)
}

/// Saturating fixed-point multiplication, truncated toward zero.
pub open spec fn fmul_s(a: int, b: int) -> int {
    clamp64(tdiv(a * b, FX_ONE as int))
}

/// Saturating fixed-point division, truncated toward zero; `0` when the
/// divisor is `0`.
pub open spec fn fdiv_s(a: int, b: int) -> int {
    if b == 0 {
        0
    } else {
        clamp64(tdiv(a * (FX_ONE as int), b))
    }
}

/// Floor of the square root of a natural number.
pub open spec fn sqrt_floor(n: nat) -> nat
    decreases n,
{
    if n == 0 {
        0
    } else {
        let r = sqrt_floor((n - 1) as nat);
        if (r + 1) * (r + 1) <= n {
            r + 1
        } else {
            r
        }
    }
}

/// Fixed-point square root: the floor of `sqrt(a / 65536) * 65536`, and `0`
/// for non-positive inputs (where the real square root is `0` or undefined).
pub open spec fn fsqrt_s(a: int) -> int {
    if a <= 0 {
        0
    } else {
        sqrt_floor((a * (FX_ONE as int)) as nat) as int
    }
}

/// `sqrt_floor(n)` squares to at most `n`, and `n` lies below the next square.
pub proof fn lemma_sqrt_floor(n: nat)
    ensures
        sqrt_floor(n) * sqrt_floor(n) <= n,
        n < (sqrt_floor(n) + 1) * (sqrt_floor(n) + 1),
    decreases n,
{
    reveal_with_fuel(sqrt_floor, 2);
    if n == 0 {
        assert(sqrt_floor(0) == 0);
        assert((sqrt_floor(n) + 1) * (sqrt_floor(n) + 1) == 1) by (nonlinear_arith)
            requires
                sqrt_floor(n) == 0,
        ;
    } else {
        lemma_sqrt_floor((n - 1) as nat);
        let r = sqrt_floor((n - 1) as nat);
        let s = sqrt_floor(n);
        if (r + 1) * (r + 1) <= n {
            assert(s == r + 1);
            assert(n < (s + 1) * (s + 1)) by (nonlinear_arith)
                requires
                    n - 1 < (r + 1) * (r + 1),
                    s == r + 1,
            ;
        } else {
            assert(s == r);
            assert(r * r <= n - 1 < n);
        }
        assert(s * s <= n);
        assert(n < (s + 1) * (s + 1));
    }
}

/// Any `r` in the square-root window equals `sqrt_floor(n)`.
pub proof fn lemma_sqrt_floor_unique(n: nat, r: nat)
    requires
        r * r <= n,
        n < (r + 1) * (r + 1),
    ensures
        r == sqrt_floor(n),
{
    lemma_sqrt_floor(n);
    let s = sqrt_floor(n);
    if r < s {
        assert(false) by (nonlinear_arith)
            requires
                r < s,
                s * s <= n,
                n < (r + 1) * (r + 1),
        ;
    }
    if s < r {
        assert(false) by (nonlinear_arith)
            requires
                s < r,
                r * r <= n,
                n < (s + 1) * (s + 1),
        ;
    }
}

/// `tdiv` flips sign with its numerator.
pub proof fn lemma_tdiv_neg(n: int, d: int)
    requires
        d != 0,
    ensures
        tdiv(-n, d) == -tdiv(n, d),
{
    if n == 0 {
        lemma_div_of0(absi(d));
    }
}

/// Scaling by the representation of one cancels: `tdiv(a * 65536, 65536) == a`.
pub proof fn lemma_tdiv_scale_cancel(a: int)
    ensures
        tdiv(a * 65536, 65536) == a,
{
    if a >= 0 {
        assert(absi(a * 65536) == a * 65536);
        lemma_div_multiples_vanish(a, 65536);
        assert(65536 * a == a * 65536);
    } else {
        assert(absi(a * 65536) == (-a) * 65536);
        lemma_div_multiples_vanish(-a, 65536);
        assert(65536 * (-a) == (-a) * 65536);
    }
}

/// Multiplying by the fixed-point one is the identity (up to saturation).
pub proof fn lemma_fmul_one(b: int)
    requires
        i64::MIN <= b <= i64::MAX,
    ensures
        fmul_s(FX_ONE as int, b) == b,
{
    assert(65536 * b == b * 65536);
    lemma_tdiv_scale_cancel(b);
}

/// Multiplying by the fixed-point two doubles (when the double is in range).
pub proof fn lemma_fmul_two(b: int)
    requires
        i64::MIN <= 2 * b <= i64::MAX,
    ensures
        fmul_s(FX_TWO as int, b) == 2 * b,
{
    assert(131072 * b == (2 * b) * 65536);
    lemma_tdiv_scale_cancel(2 * b);
}

/// A zero factor yields zero.
pub proof fn lemma_fmul_zero(b: int)
    ensures
        fmul_s(0, b) == 0,
        fmul_s(b, 0) == 0,
{
    assert(0 * b == 0) by (nonlinear_arith);
    assert(b * 0 == 0) by (nonlinear_arith);
    lemma_div_of0(65536);
}

/// Dividing by the fixed-point one is the identity (up to saturation).
pub proof fn lemma_fdiv_one(a: int)
    requires
        i64::MIN <= a <= i64::MAX,
    ensures
        fdiv_s(a, FX_ONE as int) == a,
{
    lemma_tdiv_scale_cancel(a);
}

/// Products of scalars in `[-1, 1]` stay in `[-1, 1]`, never saturate, flip
/// sign with a factor, and squares are non-negative.
pub proof fn lemma_fmul_unit(a: int, b: int)
    requires
        -65536 <= a <= 65536,
        -65536 <= b <= 65536,
    ensures
        fmul_s(a, b) == tdiv(a * b, 65536),
        -65536 <= fmul_s(a, b) <= 65536,
        fmul_s(-a, b) == -fmul_s(a, b),
        a == b ==> 0 <= fmul_s(a, b),
{
    assert(-4294967296 <= a * b <= 4294967296) by (nonlinear_arith)
        requires
            -65536 <= a <= 65536,
            -65536 <= b <= 65536,
    ;
    lemma_div_pos_is_pos(absi(a * b), 65536);
    lemma_div_is_ordered(absi(a * b), 4294967296, 65536);
    lemma_div_multiples_vanish(65536, 65536);
    assert(4294967296int / 65536 == 65536) by {
        assert(65536 * 65536 == 4294967296int);
    };
    lemma_tdiv_neg(a * b, 65536);
    assert((-a) * b == -(a * b)) by (nonlinear_arith);
    if a == b {
        assert(a * b >= 0) by (nonlinear_arith)
            requires
                a == b,
        ;
    }
}

/// The product of two scalars in `[0, 1)` stays in `[0, 1)`.
pub proof fn lemma_fmul_frac(a: int, b: int)
    requires
        0 <= a < 65536,
        0 <= b < 65536,
    ensures
        0 <= fmul_s(a, b) < 65536,
{
    assert(0 <= a * b <= 4294836225) by (nonlinear_arith)
        requires
            0 <= a <= 65535,
            0 <= b <= 65535,
    ;
    lemma_tdiv_nonneg(a * b, 65536);
    lemma_tdiv_monotone(a * b, 4294836225, 65536);
    lemma_div_multiples_vanish_fancy(65534, 1, 65536);
    assert(65536 * 65534 + 1 == 4294836225int);
}

/// Halving a scalar in `[0, 2)`: the result lies in `[0, 1)`, in the upper
/// half `[0.5, 1)` when the input was at least one, and in the lower half
/// when it was below one.
pub proof fn lemma_fmul_half_range(v: int)
    requires
        0 <= v <= 131071,
    ensures
        0 <= fmul_s(FX_HALF as int, v) <= 65535,
        v >= 65536 ==> fmul_s(FX_HALF as int, v) >= 32768,
        v <= 65535 ==> fmul_s(FX_HALF as int, v) <= 32767,
{
    assert(0 <= 32768 * v <= 4294934528) by (nonlinear_arith)
        requires
            0 <= v <= 131071,
    ;
    lemma_tdiv_nonneg(32768 * v, 65536);
    lemma_tdiv_monotone(32768 * v, 4294934528, 65536);
    lemma_div_multiples_vanish_fancy(65535, 32768, 65536);
    assert(65536 * 65535 + 32768 == 4294934528int);
    if v >= 65536 {
        assert(32768 * 65536 <= 32768 * v) by (nonlinear_arith)
            requires
                v >= 65536,
        ;
        lemma_tdiv_monotone(32768int * 65536, 32768 * v, 65536);
        lemma_tdiv_scale_cancel(32768);
    }
    if v <= 65535 {
        assert(32768 * v <= 2147450880) by (nonlinear_arith)
            requires
                0 <= v <= 65535,
        ;
        lemma_tdiv_monotone(32768 * v, 2147450880, 65536);
        lemma_div_multiples_vanish_fancy(32767, 32768, 65536);
        assert(65536 * 32767 + 32768 == 2147450880int);
    }
}

/// Truncated division is monotone in the numerator.
pub proof fn lemma_tdiv_monotone(n1: int, n2: int, d: int)
    requires
        n1 <= n2,
        d > 0,
    ensures
        tdiv(n1, d) <= tdiv(n2, d),
{
    if n1 >= 0 {
        lemma_div_is_ordered(n1, n2, d);
    } else if n2 < 0 {
        lemma_div_is_ordered(-n2, -n1, d);
    } else {
        lemma_div_pos_is_pos(-n1, d);
        lemma_div_pos_is_pos(n2, d);
    }
}

/// A zero numerator divides to zero.
pub proof fn lemma_tdiv_zero_num(d: int)
    requires
        d != 0,
    ensures
        tdiv(0, d) == 0,
{
    lemma_div_of0(absi(d));
}

/// A non-negative numerator divides to a non-negative quotient.
pub proof fn lemma_tdiv_nonneg(n: int, d: int)
    requires
        n >= 0,
        d > 0,
    ensures
        0 <= tdiv(n, d),
{
    lemma_div_pos_is_pos(n, d);
}

/// The floor square root is monotone.
pub proof fn lemma_sqrt_floor_monotone(m: nat, n: nat)
    requires
        m <= n,
    ensures
        sqrt_floor(m) <= sqrt_floor(n),
{
    lemma_sqrt_floor(m);
    lemma_sqrt_floor(n);
    let a = sqrt_floor(m);
    let b = sqrt_floor(n);
    if b < a {
        assert(false) by (nonlinear_arith)
            requires
                b < a,
                a * a <= m,
                m <= n,
                n < (b + 1) * (b + 1),
        ;
    }
}

/// A number at least `k^2` has floor square root at least `k`.
pub proof fn lemma_sqrt_floor_ge(n: nat, k: nat)
    requires
        k * k <= n,
    ensures
        k <= sqrt_floor(n),
{
    lemma_sqrt_floor(n);
    let s = sqrt_floor(n);
    if s < k {
        assert(false) by (nonlinear_arith)
            requires
                s < k,
                k * k <= n,
                n < (s + 1) * (s + 1),
        ;
    }
}

/// The fixed-point square root of one is one.
pub proof fn lemma_fsqrt_one()
    ensures
        fsqrt_s(FX_ONE as int) == FX_ONE as int,
{
    assert((65536 as nat) * (65536 as nat) == 4294967296nat);
    assert((65537 as nat) * (65537 as nat) == 4295098369nat);
    lemma_sqrt_floor_unique(4294967296nat, 65536nat);
}

/// The product of two `i64` values fits in an `i128`.
proof fn lemma_mul_i64_fits(a: int, b: int)
    requires
        i64::MIN <= a <= i64::MAX,
        i64::MIN <= b <= i64::MAX,
    ensures
        -170141183460469231731687303715884105728 < a * b,
        a * b < 170141183460469231731687303715884105727,
{
    assert(-170141183460469231731687303715884105728 < a * b
        && a * b < 170141183460469231731687303715884105727) by (nonlinear_arith)
        requires
            -9223372036854775808 <= a <= 9223372036854775807,
            -9223372036854775808 <= b <= 9223372036854775807,
    ;
}

/// Saturating fixed-point addition.
pub fn fadd(a: i64, b: i64) -> (r: i64)
    ensures
        r as int == fadd_s(a as int, b as int),
{
    let s: i128 = a as i128 + b as i128;
    if s > i64::MAX as i128 {
        i64::MAX
    } else if s < i64::MIN as i128 {
        i64::MIN
    } else {
        s as i64
    }
}

/// Saturating fixed-point subtraction.
pub fn fsub(a: i64, b: i64) -> (r: i64)
    ensures
        r as int == fsub_s(a as int, b as int),
{
    let s: i128 = a as i128 - b as i128;
    if s > i64::MAX as i128 {
        i64::MAX
    } else if s < i64::MIN as i128 {
        i64::MIN
    } else {
        s as i64
    }
}

/// Saturating fixed-point negation.
pub fn fneg(a: i64) -> (r: i64)
    ensures
        r as int == fneg_s(a as int),
{
    if a == i64::MIN {
        i64::MAX
    } else {
        -a
    }
}

/// Saturating fixed-point multiplication, truncated toward zero.
pub fn fmul(a: i64, b: i64) -> (r: i64)
    ensures
        r as int == fmul_s(a as int, b as int),
{
    proof {
        lemma_mul_i64_fits(a as int, b as int);
    }
    let p: i128 = (a as i128) * (b as i128);
    let mag: u128 = if p < 0 {
        (-p) as u128
    } else {
        p as u128
    };
    let q: u128 = mag / 65536;
    proof {
        assert(mag as int == absi((a as int) * (b as int)));
        assert(q as int == absi((a as int) * (b as int)) / 65536);
    }
    if p < 0 {
        if q > 9223372036854775808 {
            i64::MIN
        } else {
            let qi: i128 = q as i128;
            (-qi) as i64
        }
    } else {
        if q > 9223372036854775807 {
            i64::MAX
        } else {
            q as i64
        }
    }
}

/// Saturating fixed-point division, truncated toward zero; `0` when the
/// divisor is `0`.
pub fn fdiv(a: i64, b: i64) -> (r: i64)
    ensures
        r as int == fdiv_s(a as int, b as int),
{
    if b == 0 {
        return 0;
    }
    let am: u128 = if a < 0 {
        (-(a as i128)) as u128
    } else {
        a as u128
    };
    let bm: u128 = if b < 0 {
        (-(b as i128)) as u128
    } else {
        b as u128
    };
    let n: u128 = am * 65536;
    let q: u128 = n / bm;
    proof {
        assert(n as int == absi((a as int) * 65536));
        assert(q as int == absi((a as int) * 65536) / absi(b as int));
    }
    let neg: bool = (a < 0) != (b < 0);
    if neg {
        if q > 9223372036854775808 {
            i64::MIN
        } else {
            let qi: i128 = q as i128;
            (-qi) as i64
        }
    } else {
        if q > 9223372036854775807 {
            i64::MAX
        } else {
            q as i64
        }
    }
}

/// Floor square root of a `u128` below `2^80`.
fn isqrt_u128(n: u128) -> (r: u128)
    requires
        n < 1208925819614629174706176,  // 2^80
    ensures
        r * r <= n,
        n < (r + 1) * (r + 1),
{
    let mut lo: u128 = 0;
    let mut hi: u128 = 1099511627776;  // 2^40
    proof {
        assert((1099511627776 as int) * (1099511627776 as int) == 1208925819614629174706176int);
    }
    while lo + 1 < hi
        invariant
            lo < hi,
            hi <= 1099511627776,
            lo * lo <= n,
            n < hi * hi,
        decreases hi - lo,
    {
        let mid: u128 = lo + (hi - lo) / 2;
        proof {
            assert(mid * mid <= 1208925819614629174706176) by (nonlinear_arith)
                requires
                    0 <= mid <= 1099511627776,
            ;
        }
        if mid * mid <= n {
            lo = mid;
        } else {
            hi = mid;
        }
    }
    lo
}

/// Saturating fixed-point square root (see [`fsqrt_s`]).
pub fn fsqrt(a: i64) -> (r: i64)
    ensures
        r as int == fsqrt_s(a as int),
{
    if a <= 0 {
        return 0;
    }
    let n: u128 = (a as u128) * 65536;
    let root: u128 = isqrt_u128(n);
    proof {
        lemma_sqrt_floor_unique(n as nat, root as nat);
        assert(root * root <= n) by (nonlinear_arith)
            requires
                (root as nat) * (root as nat) <= n as nat,
        ;
        assert(root < 1099511627776) by (nonlinear_arith)
            requires
                root * root <= n,
                n < 1208925819614629174706176,
                (1099511627776 as int) * (1099511627776 as int)
                    == 1208925819614629174706176int,
        ;
    }
    root as i64
}

} // verus!
