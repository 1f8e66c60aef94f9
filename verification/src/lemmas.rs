//! Shared arithmetic lemmas about the model of `crate::model`.

use vstd::arithmetic::div_mod::{
    lemma_div_is_ordered, lemma_div_multiples_vanish, lemma_mod_add_multiples_vanish,
    lemma_mod_division_less_than_divisor, lemma_multiply_divide_lt, lemma_small_mod,
};
use vstd::arithmetic::power2::{lemma2_to64, lemma2_to64_rest, lemma_pow2_adds, lemma_pow2_pos};
use vstd::prelude::*;

use crate::model::{
    div_scaled, half_range, in_range, max_val, min_val, pow2i, sat_abs_val, tdiv, wrap,
};

verus! {

pub proof fn lemma_pow2i_pos(k: nat)
    ensures
        pow2i(k) >= 1,
{
    lemma_pow2_pos(k);
}

/// The powers of two this crate's five widths actually use.
pub proof fn lemma_pow2i_consts()
    ensures
        pow2i(0) == 0x1,
        pow2i(1) == 0x2,
        pow2i(2) == 0x4,
        pow2i(3) == 0x8,
        pow2i(4) == 0x10,
        pow2i(6) == 0x40,
        pow2i(7) == 0x80,
        pow2i(8) == 0x100,
        pow2i(10) == 0x400,
        pow2i(13) == 0x2000,
        pow2i(14) == 0x4000,
        pow2i(15) == 0x8000,
        pow2i(16) == 0x10000,
        pow2i(30) == 0x4000_0000,
        pow2i(31) == 0x8000_0000,
        pow2i(32) == 0x1_0000_0000,
        pow2i(48) == 0x1_0000_0000_0000,
        pow2i(62) == 0x4000_0000_0000_0000,
        pow2i(63) == 0x8000_0000_0000_0000,
        pow2i(64) == 0x1_0000_0000_0000_0000,
        pow2i(112) == 0x1_0000_0000_0000_0000_0000_0000_0000,
        pow2i(126) == 0x4000_0000_0000_0000_0000_0000_0000_0000,
        pow2i(127) == 0x8000_0000_0000_0000_0000_0000_0000_0000,
        pow2i(128) == 0x1_0000_0000_0000_0000_0000_0000_0000_0000,
{
    lemma2_to64();
    lemma2_to64_rest();
    lemma_pow2_adds(64, 48);
    lemma_pow2_adds(64, 62);
    lemma_pow2_adds(64, 63);
    lemma_pow2_adds(64, 64);
}

/// A value already in range wraps to itself.
pub proof fn lemma_wrap_in_range(w: nat, v: int)
    requires
        1 <= w,
        in_range(w, v),
    ensures
        wrap(w, v) == v,
{
    let h = half_range(w);
    lemma_pow2i_pos((w - 1) as nat);
    lemma_small_mod((v + h) as nat, (2 * h) as nat);
}

/// Wrapping is periodic in the full width.
pub proof fn lemma_wrap_period(w: nat, v: int)
    requires
        1 <= w,
    ensures
        wrap(w, v + 2 * half_range(w)) == wrap(w, v),
        wrap(w, v - 2 * half_range(w)) == wrap(w, v),
{
    let h = half_range(w);
    lemma_pow2i_pos((w - 1) as nat);
    lemma_mod_add_multiples_vanish(v + h, 2 * h);
    lemma_mod_add_multiples_vanish(v - 2 * h + h, 2 * h);
}

/// For sums that cannot miss the range by more than one full period (as in
/// any single add, subtract or negate), wrapping is a single correction step.
pub proof fn lemma_wrap_step(w: nat, s: int)
    requires
        1 <= w,
        -2 * half_range(w) <= s < 2 * half_range(w),
    ensures
        wrap(w, s) == if s > max_val(w) {
            s - 2 * half_range(w)
        } else if s < min_val(w) {
            s + 2 * half_range(w)
        } else {
            s
        },
{
    let h = half_range(w);
    lemma_pow2i_pos((w - 1) as nat);
    if s > max_val(w) {
        lemma_wrap_period(w, s - 2 * h);
        lemma_wrap_in_range(w, s - 2 * h);
    } else if s < min_val(w) {
        lemma_wrap_period(w, s + 2 * h);
        lemma_wrap_in_range(w, s + 2 * h);
    } else {
        lemma_wrap_in_range(w, s);
    }
}

/// Bounds of the renormalized product: it can only escape the stored range at
/// the single MIN times MIN corner, and then exactly onto `half_range`.
pub proof fn lemma_mul_scaled_bounds(w: nat, a: int, b: int)
    requires
        1 <= w,
        in_range(w, a),
        in_range(w, b),
    ensures
        -(half_range(w) * half_range(w)) + half_range(w) <= a * b <= half_range(w) * half_range(w),
        -half_range(w) < (a * b) / half_range(w) <= half_range(w),
        (a * b) / half_range(w) == half_range(w) <==> (a == min_val(w) && b == min_val(w)),
        -half_range(w) < tdiv(a * b, half_range(w)) <= half_range(w),
        tdiv(a * b, half_range(w)) == half_range(w) <==> (a == min_val(w) && b == min_val(w)),
        a * b >= 0 ==> tdiv(a * b, half_range(w)) == (a * b) / half_range(w),
{
    let h = half_range(w);
    let p = a * b;
    lemma_pow2i_pos((w - 1) as nat);
    // magnitude bounds on the product, tight only at the MIN * MIN corner
    assert(p <= h * h) by (nonlinear_arith)
        requires
            -h <= a <= h - 1,
            -h <= b <= h - 1,
            h >= 1,
            p == a * b,
    ;
    assert(p >= -(h * h) + h && -p <= h * h - h) by (nonlinear_arith)
        requires
            -h <= a <= h - 1,
            -h <= b <= h - 1,
            h >= 1,
            p == a * b,
    ;
    if a == min_val(w) && b == min_val(w) {
        assert(p == h * h) by (nonlinear_arith)
            requires
                a == -h,
                b == -h,
                p == a * b,
        ;
    } else if a != min_val(w) {
        assert(p <= (h - 1) * h && p < h * h) by (nonlinear_arith)
            requires
                -h + 1 <= a <= h - 1,
                -h <= b <= h - 1,
                h >= 1,
                p == a * b,
        ;
    } else {
        assert(p <= (h - 1) * h && p < h * h) by (nonlinear_arith)
            requires
                -h <= a <= h - 1,
                -h + 1 <= b <= h - 1,
                h >= 1,
                p == a * b,
        ;
    }
    // upper side of the floor quotient
    lemma_div_is_ordered(p, h * h, h);
    assert((h * h) / h == h) by {
        lemma_div_multiples_vanish(h, h);
        assert(h * h == h * h);
    }
    if p < h * h {
        lemma_div_is_ordered(p, h * h - 1, h);
        assert((h * h - 1) / h == h - 1) by {
            assert(h * h - 1 == (h - 1) * h + (h - 1)) by (nonlinear_arith);
            vstd::arithmetic::div_mod::lemma_fundamental_div_mod_converse(
                h * h - 1,
                h,
                h - 1,
                h - 1,
            );
        }
    }
    // lower side: p >= h * (1 - h)
    assert(h * (1 - h) == -(h * h) + h) by (nonlinear_arith);
    lemma_div_multiples_vanish(1 - h, h);
    lemma_div_is_ordered(h * (1 - h), p, h);
    // truncating division agrees with floor on the nonnegative side
    if p >= 0 {
        assert(tdiv(p, h) == p / h);
        vstd::arithmetic::div_mod::lemma_div_pos_is_pos(p, h);
    } else {
        // tdiv(p, h) == -((-p) / h), and 0 <= -p <= h*h - h
        assert(tdiv(p, h) == -((-p) / h));
        lemma_div_is_ordered(-p, h * h - h, h);
        assert((h * h - h) / h == h - 1) by {
            assert(h * (h - 1) == h * h - h) by (nonlinear_arith);
            lemma_div_multiples_vanish(h - 1, h);
        }
        vstd::arithmetic::div_mod::lemma_div_pos_is_pos(-p, h);
    }
}

/// Bounds of the renormalized quotient when the dividend's saturated
/// magnitude is strictly smaller than the divisor's: the result is strictly
/// inside the stored range, in particular never MIN.
pub proof fn lemma_div_scaled_bounds(w: nat, a: int, b: int)
    requires
        1 <= w,
        in_range(w, a),
        in_range(w, b),
        b != 0,
        sat_abs_val(w, a) < sat_abs_val(w, b),
    ensures
        -half_range(w) < div_scaled(w, a, b) < half_range(w),
{
    let h = half_range(w);
    lemma_pow2i_pos((w - 1) as nat);
    let ma = if a < 0 { -a } else { a };
    let mb = if b < 0 { -b } else { b };
    assert(ma < mb);
    let n = ma * h;
    assert(n < mb * h) by (nonlinear_arith)
        requires
            ma < mb,
            h >= 1,
            n == ma * h,
    ;
    lemma_multiply_divide_lt(n, mb, h);
    vstd::arithmetic::div_mod::lemma_div_pos_is_pos(n, mb);
    assert(0 <= n / mb < h);
    assert(a * h == if a < 0 { -(ma * h) } else { ma * h }) by (nonlinear_arith)
        requires
            ma == if a < 0 { -a } else { a },
    ;
    assert(div_scaled(w, a, b) == tdiv(a * h, b));
    assert(tdiv(a * h, b) == n / mb || tdiv(a * h, b) == -(n / mb));
}

/// Truncating division agrees case by case with the formula Rust's signed
/// division follows.
pub proof fn lemma_tdiv_cases(x: int, d: int)
    requires
        d != 0,
    ensures
        tdiv(x, d) == if x == 0 {
            0
        } else if x > 0 && d > 0 {
            x / d
        } else if x < 0 && d < 0 {
            (x * -1) / (d * -1)
        } else if x < 0 {
            ((x * -1) / d) * -1
        } else {
            (x / (d * -1)) * -1
        },
{
    if x == 0 {
        if d > 0 {
            vstd::arithmetic::div_mod::lemma_div_of0(d);
        } else {
            vstd::arithmetic::div_mod::lemma_div_of0(-d);
        }
    }
}

/// Magnitude of a truncating quotient never exceeds the dividend's.
pub proof fn lemma_tdiv_mag(x: int, d: int)
    requires
        d != 0,
    ensures
        tdiv(x, d) == if x < 0 {
            if d < 0 {
                (-x) / (-d)
            } else {
                -((-x) / d)
            }
        } else {
            if d < 0 {
                -(x / (-d))
            } else {
                x / d
            }
        },
        -(if x < 0 { -x } else { x }) <= tdiv(x, d) <= if x < 0 { -x } else { x },
{
    let mx = if x < 0 { -x } else { x };
    let md = if d < 0 { -d } else { d };
    assert(mx * 1 <= mx * md) by (nonlinear_arith)
        requires
            md >= 1,
            mx >= 0,
    ;
    lemma_div_is_ordered(mx, mx * md, md);
    lemma_div_multiples_vanish(mx, md);
    assert((md * mx) == (mx * md)) by (nonlinear_arith);
    vstd::arithmetic::div_mod::lemma_div_pos_is_pos(mx, md);
}

/// A truncating quotient of an in-range dividend stays in range, except for
/// the excluded MIN over -1 corner.
pub proof fn lemma_tdiv_in_range(w: nat, a: int, k: int)
    requires
        2 <= w,
        in_range(w, a),
        k != 0,
        !(a == min_val(w) && k == -1),
    ensures
        in_range(w, tdiv(a, k)),
{
    let h = half_range(w);
    lemma_pow2i_pos((w - 1) as nat);
    assert(h >= 2) by {
        lemma2_to64();
        vstd::arithmetic::power2::lemma_pow2_strictly_increases(0, (w - 1) as nat);
    }
    lemma_tdiv_mag(a, k);
    if a < 0 && k < 0 {
        let mx = -a;
        let md = -k;
        if md == 1 {
            lemma_div_multiples_vanish(mx, 1);
        } else {
            lemma_div_is_ordered(mx, h, md);
            vstd::arithmetic::div_mod::lemma_div_is_ordered_by_denominator(h, 2, md);
            vstd::arithmetic::div_mod::lemma_div_decreases(h, 2);
        }
    }
}

/// Wrapping into width `w` is the `2^w` residue, shifted into signed position.
pub proof fn lemma_wrap_from_mod(w: nat, v: int)
    requires
        1 <= w,
    ensures
        wrap(w, v) == if v % (2 * half_range(w)) < half_range(w) {
            v % (2 * half_range(w))
        } else {
            v % (2 * half_range(w)) - 2 * half_range(w)
        },
{
    let h = half_range(w);
    lemma_pow2i_pos((w - 1) as nat);
    let r0 = v % (2 * h);
    lemma_mod_division_less_than_divisor(v, 2 * h);
    vstd::arithmetic::div_mod::lemma_add_mod_noop(v, h, 2 * h);
    lemma_small_mod(h as nat, (2 * h) as nat);
    if r0 < h {
        lemma_small_mod((r0 + h) as nat, (2 * h) as nat);
    } else {
        lemma_mod_add_multiples_vanish(r0 + h - 2 * h, 2 * h);
        lemma_small_mod((r0 - h) as nat, (2 * h) as nat);
    }
}

/// Truncating a double-width value to the half width lands in the half
/// width's range.
pub proof fn lemma_truncate_range(w: nat, v: int)
    requires
        1 <= w,
        in_range(2 * w, v),
    ensures
        in_range(w, v / pow2i(w)),
        0 <= v % pow2i(w) < pow2i(w),
{
    let p = pow2i(w);
    let h = half_range(w);
    lemma_pow2i_pos(w);
    lemma_pow2i_pos((w - 1) as nat);
    assert(half_range(2 * w) == p * h) by {
        vstd::arithmetic::power2::lemma_pow2_adds(w, (w - 1) as nat);
        assert((2 * w - 1) as nat == w + (w - 1) as nat);
    }
    // upper: v <= p*h - 1, and (p*h - 1) / p == h - 1
    lemma_div_is_ordered(v, p * h - 1, p);
    assert(p * h - 1 == (h - 1) * p + (p - 1)) by (nonlinear_arith);
    vstd::arithmetic::div_mod::lemma_fundamental_div_mod_converse(p * h - 1, p, h - 1, p - 1);
    // lower: v >= -(p*h) == (-h) * p
    assert(-(p * h) == (-h) * p) by (nonlinear_arith);
    lemma_div_multiples_vanish(-h, p);
    assert(p * (-h) == (-h) * p) by (nonlinear_arith);
    lemma_div_is_ordered(-(p * h), v, p);
    lemma_mod_division_less_than_divisor(v, p);
}

/// Dividing by a positive denominator never grows a value's magnitude.
pub proof fn lemma_div_mag_le(g: int, d: int)
    requires
        d >= 1,
    ensures
        g >= 0 ==> 0 <= g / d <= g,
        g < 0 ==> g <= g / d <= 0,
{
    if g >= 0 {
        vstd::arithmetic::div_mod::lemma_div_pos_is_pos(g, d);
        vstd::arithmetic::div_mod::lemma_div_is_ordered_by_denominator(g, 1, d);
        vstd::arithmetic::div_mod::lemma_div_basics(g);
    } else {
        assert(d * g <= g) by (nonlinear_arith)
            requires
                g < 0,
                d >= 1,
        ;
        lemma_div_multiples_vanish(g, d);
        lemma_div_is_ordered(d * g, g, d);
        assert(g / d <= 0) by {
            if g / d > 0 {
                vstd::arithmetic::div_mod::lemma_fundamental_div_mod(g, d);
                vstd::arithmetic::div_mod::lemma_mod_division_less_than_divisor(g, d);
                assert(d * (g / d) >= d * 1) by (nonlinear_arith)
                    requires
                        g / d >= 1,
                        d >= 1,
                ;
            }
        }
    }
}

} // verus!
