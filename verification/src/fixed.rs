//! Fixed-point scalar arithmetic.
//!
//! Every scalar the engine stores — positions, scales, shear and rotation
//! angles in degrees, color channels, track times — is an `i64` counting
//! steps of `1 / FX_ONE` of a unit. Arithmetic that could leave the
//! representable range saturates at `FX_LIMIT`; division truncates toward
//! zero, as the machine divides.

use vstd::prelude::*;

verus! {

/// Number of fixed-point steps in one unit.
pub const FX_ONE: i64 = 4096;

/// Largest magnitude any stored scalar may have.
pub const FX_LIMIT: i64 = 0x4000_0000;

/// Magnitude of a mathematical integer.
pub open spec fn iabs(n: int) -> int {
    if n < 0 { -n } else { n }
}

/// Whether a value lies in the range the engine stores.
pub open spec fn fx_in_range(a: int) -> bool {
    -(FX_LIMIT as int) <= a <= FX_LIMIT as int
}

/// Saturate a value into the representable range.
pub open spec fn fx_clip(a: int) -> int {
    if a > FX_LIMIT as int {
        FX_LIMIT as int
    } else if a < -(FX_LIMIT as int) {
        -(FX_LIMIT as int)
    } else {
        a
    }
}

/// Division truncated toward zero.
pub open spec fn fx_tdiv(n: int, d: int) -> int
    recommends
        d != 0,
{
    let q = iabs(n) / iabs(d);
    if (n < 0) != (d < 0) {
        -q
    } else {
        q
    }
}

/// Fixed-point product: `a * b` rescaled by `FX_ONE`, saturated.
pub open spec fn fx_mul_spec(a: int, b: int) -> int {
    fx_clip(fx_tdiv(a * b, FX_ONE as int))
}

/// Fixed-point quotient: `a / b` rescaled by `FX_ONE`, saturated.
pub open spec fn fx_div_spec(a: int, b: int) -> int
    recommends
        b != 0,
{
    fx_clip(fx_tdiv(a * (FX_ONE as int), b))
}

/// Saturated sum.
pub open spec fn fx_add_spec(a: int, b: int) -> int {
    fx_clip(a + b)
}

/// Saturated difference.
pub open spec fn fx_sub_spec(a: int, b: int) -> int {
    fx_clip(a - b)
}

/// Linear interpolation from `a` to `b` by ratio `t` (0..=FX_ONE).
/// Written as `a + (b - a) * t / FX_ONE` so that `t == 0` gives exactly
/// `a`, `t == FX_ONE` gives exactly `b`, and `a == b` gives exactly `a`.
pub open spec fn fx_lerp_spec(a: int, b: int, t: int) -> int {
    a + fx_tdiv((b - a) * t, FX_ONE as int)
}

proof fn lemma_tdiv_by_pos(n: int, d: int)
    requires
        d > 0,
    ensures
        n >= 0 ==> fx_tdiv(n, d) == n / d,
        n <= 0 ==> fx_tdiv(n, d) == -((-n) / d),
        iabs(fx_tdiv(n, d)) == iabs(n) / d,
        n >= 0 ==> fx_tdiv(n, d) >= 0,
        n <= 0 ==> fx_tdiv(n, d) <= 0,
{
    vstd::arithmetic::div_mod::lemma_div_of0(d);
    if n > 0 {
        vstd::arithmetic::div_mod::lemma_div_pos_is_pos(n, d);
    }
    if n < 0 {
        vstd::arithmetic::div_mod::lemma_div_pos_is_pos(-n, d);
    }
}

/// Truncated division toward zero on wide intermediates.
fn tdiv_i128(n: i128, d: i128) -> (q: i128)
    requires
        d != 0,
        -0x4000_0000_0000_0000_0000_0000_0000_0000 < n,
        -0x4000_0000_0000_0000_0000_0000_0000_0000 < d,
    ensures
        q as int == fx_tdiv(n as int, d as int),
{
    let nn: u128 = if n < 0 { (-n) as u128 } else { n as u128 };
    let dd: u128 = if d < 0 { (-d) as u128 } else { d as u128 };
    let qq: u128 = nn / dd;
    proof {
        assert(nn as int == iabs(n as int));
        assert(dd as int == iabs(d as int));
        vstd::arithmetic::div_mod::lemma_div_is_ordered_by_denominator(nn as int, 1, dd as int);
        vstd::arithmetic::div_mod::lemma_div_by_self(1);
        assert(qq as int <= nn as int);
    }
    if (n < 0) != (d < 0) {
        -(qq as i128)
    } else {
        qq as i128
    }
}

/// Saturate a wide intermediate into the stored range.
fn clip_i128(a: i128) -> (r: i64)
    ensures
        r as int == fx_clip(a as int),
{
    if a > FX_LIMIT as i128 {
        FX_LIMIT
    } else if a < -(FX_LIMIT as i128) {
        -FX_LIMIT
    } else {
        a as i64
    }
}

/// Saturated sum of two stored scalars.
pub fn fx_add(a: i64, b: i64) -> (r: i64)
    requires
        fx_in_range(a as int),
        fx_in_range(b as int),
    ensures
        r as int == fx_add_spec(a as int, b as int),
        fx_in_range(r as int),
{
    clip_i128(a as i128 + b as i128)
}

/// Saturated difference of two stored scalars.
pub fn fx_sub(a: i64, b: i64) -> (r: i64)
    requires
        fx_in_range(a as int),
        fx_in_range(b as int),
    ensures
        r as int == fx_sub_spec(a as int, b as int),
        fx_in_range(r as int),
{
    clip_i128(a as i128 - b as i128)
}

/// Fixed-point product of two stored scalars.
pub fn fx_mul(a: i64, b: i64) -> (r: i64)
    requires
        fx_in_range(a as int),
        fx_in_range(b as int),
    ensures
        r as int == fx_mul_spec(a as int, b as int),
        fx_in_range(r as int),
{
    proof {
        assert(-0x1000_0000_0000_0000 <= (a as int) * (b as int)
            && (a as int) * (b as int) <= 0x1000_0000_0000_0000) by (nonlinear_arith)
            requires
                -0x4000_0000 <= a as int,
                a as int <= 0x4000_0000,
                -0x4000_0000 <= b as int,
                b as int <= 0x4000_0000,
        ;
    }
    let p: i128 = (a as i128) * (b as i128);
    let q: i128 = tdiv_i128(p, FX_ONE as i128);
    clip_i128(q)
}

/// Fixed-point quotient of two stored scalars; `b` must not be zero.
pub fn fx_div(a: i64, b: i64) -> (r: i64)
    requires
        fx_in_range(a as int),
        fx_in_range(b as int),
        b != 0,
    ensures
        r as int == fx_div_spec(a as int, b as int),
        fx_in_range(r as int),
{
    let p: i128 = (a as i128) * (FX_ONE as i128);
    let q: i128 = tdiv_i128(p, b as i128);
    clip_i128(q)
}

/// Truncated division is monotone in the numerator, for a positive divisor.
pub proof fn lemma_tdiv_mono(n1: int, n2: int, d: int)
    requires
        d > 0,
        n1 <= n2,
    ensures
        fx_tdiv(n1, d) <= fx_tdiv(n2, d),
{
    lemma_tdiv_by_pos(n1, d);
    lemma_tdiv_by_pos(n2, d);
    if n1 >= 0 {
        vstd::arithmetic::div_mod::lemma_div_is_ordered(n1, n2, d);
    } else if n2 <= 0 {
        vstd::arithmetic::div_mod::lemma_div_is_ordered(-n2, -n1, d);
    } else {
        vstd::arithmetic::div_mod::lemma_div_pos_is_pos(n2, d);
        vstd::arithmetic::div_mod::lemma_div_pos_is_pos(-n1, d);
    }
}

/// Cancellation: `(x * d) / d == x` under truncated division.
pub proof fn lemma_tdiv_cancel(x: int, d: int)
    requires
        d > 0,
    ensures
        fx_tdiv(x * d, d) == x,
{
    if x >= 0 {
        assert(x * d >= 0 && x * d == d * x) by (nonlinear_arith)
            requires
                x >= 0,
                d > 0,
        ;
        vstd::arithmetic::div_mod::lemma_div_multiples_vanish(x, d);
        assert(fx_tdiv(x * d, d) == (x * d) / d);
    } else {
        assert(x * d < 0 && -(x * d) == d * (-x)) by (nonlinear_arith)
            requires
                x < 0,
                d > 0,
        ;
        vstd::arithmetic::div_mod::lemma_div_multiples_vanish(-x, d);
        assert(fx_tdiv(x * d, d) == -((-(x * d)) / d));
    }
}

/// A lerp by ratio `t` in `[0, FX_ONE]` lands between its endpoints.
pub proof fn lemma_lerp_bounds(a: int, b: int, t: int)
    requires
        0 <= t <= FX_ONE as int,
    ensures
        a <= b ==> a <= fx_lerp_spec(a, b, t) <= b,
        b <= a ==> b <= fx_lerp_spec(a, b, t) <= a,
        fx_lerp_spec(a, b, 0) == a,
        fx_lerp_spec(a, a, t) == a,
        fx_lerp_spec(a, b, FX_ONE as int) == b,
{
    let one = FX_ONE as int;
    let m = (b - a) * t;
    assert(fx_tdiv(0, one) == 0) by {
        vstd::arithmetic::div_mod::lemma_div_of0(one);
    }
    lemma_tdiv_cancel(b - a, one);
    if a <= b {
        assert(0 <= (b - a) * t && (b - a) * t <= (b - a) * 4096) by (nonlinear_arith)
            requires
                a <= b,
                0 <= t,
                t <= 4096,
        ;
        lemma_tdiv_mono(0, m, one);
        lemma_tdiv_mono(m, (b - a) * one, one);
    } else {
        assert((b - a) * 4096 <= (b - a) * t && (b - a) * t <= 0) by (nonlinear_arith)
            requires
                b <= a,
                0 <= t,
                t <= 4096,
        ;
        lemma_tdiv_mono(m, 0, one);
        lemma_tdiv_mono((b - a) * one, m, one);
    }
}

/// For fixed endpoints, the lerp is monotone in the ratio: rising when
/// `a <= b`, falling when `b <= a`.
pub proof fn lemma_lerp_monotone(a: int, b: int, t1: int, t2: int)
    requires
        0 <= t1 <= t2 <= FX_ONE as int,
    ensures
        a <= b ==> fx_lerp_spec(a, b, t1) <= fx_lerp_spec(a, b, t2),
        b <= a ==> fx_lerp_spec(a, b, t2) <= fx_lerp_spec(a, b, t1),
{
    let one = FX_ONE as int;
    if a == b {
        assert((b - a) * t1 == 0 && (b - a) * t2 == 0) by (nonlinear_arith)
            requires
                a == b,
        ;
        vstd::arithmetic::div_mod::lemma_div_of0(one);
    } else if a <= b {
        assert((b - a) * t1 <= (b - a) * t2) by (nonlinear_arith)
            requires
                a <= b,
                t1 <= t2,
        ;
        lemma_tdiv_mono((b - a) * t1, (b - a) * t2, one);
    } else {
        assert((b - a) * t2 <= (b - a) * t1) by (nonlinear_arith)
            requires
                b <= a,
                t1 <= t2,
        ;
        lemma_tdiv_mono((b - a) * t2, (b - a) * t1, one);
    }
}

/// Linear interpolation from `a` to `b` by ratio `t` in `[0, FX_ONE]`.
pub fn fx_lerp(a: i64, b: i64, t: i64) -> (r: i64)
    requires
        fx_in_range(a as int),
        fx_in_range(b as int),
        0 <= t <= FX_ONE,
    ensures
        r as int == fx_lerp_spec(a as int, b as int, t as int),
        fx_in_range(r as int),
{
    proof {
        assert(-0x2000_0000_0000 * 4096 <= (b as int - a as int) * (t as int)
            && (b as int - a as int) * (t as int) <= 0x2000_0000_0000 * 4096) by (nonlinear_arith)
            requires
                -0x8000_0000 <= b as int - a as int,
                b as int - a as int <= 0x8000_0000,
                0 <= t as int,
                t as int <= 4096,
        ;
        lemma_lerp_bounds(a as int, b as int, t as int);
    }
    let m: i128 = (b as i128 - a as i128) * (t as i128);
    let q: i128 = tdiv_i128(m, FX_ONE as i128);
    (a as i128 + q) as i64
}

/// Where a segment whose endpoints sit at signed distances `d1` and `d2`
/// from a line crosses it, as a ratio of the way from the first endpoint
/// to the second.
pub open spec fn cross_ratio_spec(d1: int, d2: int) -> int {
    fx_tdiv(d1 * (FX_ONE as int), d1 - d2)
}

/// The crossing ratio, at runtime, for endpoints on opposite sides.
pub fn cross_ratio(d1: i128, d2: i128) -> (t: i64)
    requires
        (d1 >= 0) != (d2 >= 0),
        -0x4000_0000_0000_0000_0000_0000_0000 <= d1 <= 0x4000_0000_0000_0000_0000_0000_0000,
        -0x4000_0000_0000_0000_0000_0000_0000 <= d2 <= 0x4000_0000_0000_0000_0000_0000_0000,
    ensures
        t as int == cross_ratio_spec(d1 as int, d2 as int),
        0 <= t <= FX_ONE,
{
    proof {
        let a = d1 as int;
        let b = d2 as int;
        let one = FX_ONE as int;
        let den = a - b;
        lemma_tdiv_cancel(one, iabs(den));
        assert(one * iabs(den) == iabs(den) * one);
        if a >= 0 {
            assert(0 <= a * one <= den * one) by (nonlinear_arith)
                requires
                    0 <= a,
                    a <= den,
                    one > 0,
            ;
            lemma_tdiv_mono(0, a * one, den);
            lemma_tdiv_mono(a * one, den * one, den);
            vstd::arithmetic::div_mod::lemma_div_of0(den);
        } else {
            assert(den * one <= a * one && a * one < 0) by (nonlinear_arith)
                requires
                    den <= a,
                    a < 0,
                    one > 0,
            ;
            lemma_tdiv_by_pos(a * one, 1);
            assert(fx_tdiv(a * one, den) == fx_tdiv(-(a * one), -den)) by {
                assert(iabs(a * one) == iabs(-(a * one)));
                assert(iabs(den) == iabs(-den));
            }
            assert(0 <= -(a * one) <= (-den) * one) by (nonlinear_arith)
                requires
                    den <= a,
                    a < 0,
                    one > 0,
            ;
            lemma_tdiv_mono(0, -(a * one), -den);
            lemma_tdiv_mono(-(a * one), (-den) * one, -den);
            lemma_tdiv_cancel(one, -den);
            vstd::arithmetic::div_mod::lemma_div_of0(-den);
        }
    }
    let num: i128 = d1 * (FX_ONE as i128);
    let den: i128 = d1 - d2;
    let q: i128 = tdiv_i128(num, den);
    q as i64
}

/// Euclidean remainder: the representative of `x` in `[0, d)`.
pub fn emod(x: i64, d: i64) -> (r: i64)
    requires
        d > 0,
        -0x1_0000_0000_0000 <= x <= 0x1_0000_0000_0000,
        d <= 0x1_0000_0000_0000,
    ensures
        r as int == (x as int) % (d as int),
        0 <= r < d,
{
    if x >= 0 {
        let m: i64 = ((x as u64) % (d as u64)) as i64;
        m
    } else {
        let m: i64 = (((-x) as u64) % (d as u64)) as i64;
        proof {
            let xi = x as int;
            let f = d as int;
            vstd::arithmetic::div_mod::lemma_fundamental_div_mod(-xi, f);
            let q = (-xi) / f;
            let k = (-xi) % f;
            assert((-q) * f == -(f * q) && (-q - 1) * f == -(f * q) - f) by (nonlinear_arith);
            if k == 0 {
                vstd::arithmetic::div_mod::lemma_fundamental_div_mod_converse(xi, f, -q, 0);
            } else {
                vstd::arithmetic::div_mod::lemma_fundamental_div_mod_converse(xi, f, -q - 1, f - k);
            }
        }
        if m == 0 {
            0
        } else {
            d - m
        }
    }
}

/// A full turn, in fixed-point degrees.
pub const DEG_FULL: i64 = 360 * 4096;

/// Half a turn, in fixed-point degrees.
pub const DEG_HALF: i64 = 180 * 4096;

/// A quarter turn, in fixed-point degrees.
pub const DEG_QUARTER: i64 = 90 * 4096;

/// An angle reduced to `[0, DEG_FULL)` degrees.
pub open spec fn wrap_deg_spec(d: int) -> int {
    d % (DEG_FULL as int)
}

/// Sine on the half turn `[0, DEG_HALF]`, by the classical rational
/// approximation `sin x ~= 4x(180 - x) / (40500 - x(180 - x))` (degrees),
/// which is exact at 0, 90 and 180 degrees.
pub open spec fn sin_half_spec(x: int) -> int {
    let p = x * (DEG_HALF as int - x);
    fx_tdiv(4 * p * (FX_ONE as int), 40500 * (FX_ONE as int) * (FX_ONE as int) - p)
}

/// Sine of a fixed-point angle in degrees.
pub open spec fn fx_sin_spec(d: int) -> int {
    let w = wrap_deg_spec(d);
    if w < DEG_HALF as int {
        sin_half_spec(w)
    } else {
        -sin_half_spec(w - DEG_HALF as int)
    }
}

/// Cosine of a fixed-point angle in degrees.
pub open spec fn fx_cos_spec(d: int) -> int {
    fx_sin_spec(d + DEG_QUARTER as int)
}

/// Reduce an angle to `[0, DEG_FULL)` fixed-point degrees.
pub fn wrap_deg(d: i64) -> (r: i64)
    requires
        -0x1_0000_0000_0000 <= d <= 0x1_0000_0000_0000,
    ensures
        r as int == wrap_deg_spec(d as int),
        0 <= r < DEG_FULL,
{
    let full: i64 = DEG_FULL;
    if d >= 0 {
        let m: i64 = ((d as u64) % (full as u64)) as i64;
        m
    } else {
        let m: i64 = (((-d) as u64) % (full as u64)) as i64;
        proof {
            let x = d as int;
            let f = full as int;
            vstd::arithmetic::div_mod::lemma_fundamental_div_mod(-x, f);
            let q = (-x) / f;
            let k = (-x) % f;
            if k == 0 {
                vstd::arithmetic::div_mod::lemma_fundamental_div_mod_converse(x, f, -q, 0);
            } else {
                vstd::arithmetic::div_mod::lemma_fundamental_div_mod_converse(x, f, -q - 1, f - k);
            }
        }
        if m == 0 {
            0
        } else {
            full - m
        }
    }
}

/// Sine on `[0, DEG_HALF]` fixed-point degrees, in `[0, FX_ONE]`.
fn sin_half(x: i64) -> (r: i64)
    requires
        0 <= x <= DEG_HALF,
    ensures
        r as int == sin_half_spec(x as int),
        0 <= r <= FX_ONE,
{
    proof {
        assert(0 <= (x as int) * (DEG_HALF as int - x as int)
            && (x as int) * (DEG_HALF as int - x as int) <= 8100 * 4096 * 4096) by (nonlinear_arith)
            requires
                0 <= x as int,
                x as int <= 737280,
        ;
    }
    let p: i128 = (x as i128) * (DEG_HALF as i128 - x as i128);
    assert(0 <= p as int <= 8100 * 4096 * 4096);
    let num: i128 = 16384 * p;
    let den: i128 = 679477248000 - p;
    proof {
        assert(num as int == 4 * (p as int) * (FX_ONE as int));
        assert(den as int == 40500 * (FX_ONE as int) * (FX_ONE as int) - p as int);
    }
    let q: i128 = tdiv_i128(num, den);
    proof {
        let ni = num as int;
        let di = den as int;
        lemma_tdiv_mono(ni, (FX_ONE as int) * di, di);
        lemma_tdiv_cancel(FX_ONE as int, di);
        lemma_tdiv_by_pos(ni, di);
        vstd::arithmetic::div_mod::lemma_div_pos_is_pos(ni, di);
    }
    q as i64
}

/// Sine of a fixed-point angle in degrees; the result is in `[-FX_ONE, FX_ONE]`.
pub fn fx_sin(d: i64) -> (r: i64)
    requires
        -0x1_0000_0000_0000 <= d <= 0x1_0000_0000_0000,
    ensures
        r as int == fx_sin_spec(d as int),
        -FX_ONE <= r <= FX_ONE,
{
    let w = wrap_deg(d);
    if w < DEG_HALF {
        sin_half(w)
    } else {
        -sin_half(w - DEG_HALF)
    }
}

/// Cosine of a fixed-point angle in degrees; the result is in `[-FX_ONE, FX_ONE]`.
pub fn fx_cos(d: i64) -> (r: i64)
    requires
        -0x1_0000_0000_0000 <= d <= 0x1_0000_0000_0000,
    ensures
        r as int == fx_cos_spec(d as int),
        -FX_ONE <= r <= FX_ONE,
{
    let w = wrap_deg(d);
    proof {
        let f = DEG_FULL as int;
        let x = d as int;
        let qd = DEG_QUARTER as int;
        vstd::arithmetic::div_mod::lemma_fundamental_div_mod(x, f);
        vstd::arithmetic::div_mod::lemma_mod_multiples_vanish(-(x / f), x % f + qd, f);
        assert((w as int + qd) % f == (x + qd) % f);
    }
    fx_sin(w + DEG_QUARTER)
}

} // verus!
