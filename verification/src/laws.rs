//! The general laws of the fracint arithmetic, stated over the model that
//! every operation's contract uses, and proved for all five widths at once.

use vstd::prelude::*;

use crate::lemmas::{
    lemma_div_scaled_bounds, lemma_mul_scaled_bounds, lemma_pow2i_pos, lemma_tdiv_mag,
    lemma_wrap_in_range, lemma_wrap_period, lemma_wrap_step,
};
use crate::model::{
    half_range, in_range, max_val, min_val, mul_overflows, pow2i, sat_abs_val,
    sat_add_val, sat_div_int_val, sat_div_val, sat_mul_int_val, sat_mul_val, sat_sub_val,
    signum_val, tdiv, truncate_val, widen_val, wrap, wrap_abs_val, wrap_mul_val, wrap_neg_val,
};

verus! {

/// Law: for every width and every pair of stored values, wrapping
/// subtraction undoes wrapping addition bitwise.
pub proof fn lemma_wrapping_add_sub_roundtrip(w: nat, a: int, b: int)
    requires
        1 <= w,
        in_range(w, a),
        in_range(w, b),
    ensures
        wrap(w, wrap(w, a + b) - b) == a,
{
    let h = half_range(w);
    lemma_pow2i_pos((w - 1) as nat);
    lemma_wrap_step(w, a + b);
    if a + b > max_val(w) {
        lemma_wrap_period(w, a - 2 * h);
        lemma_wrap_period(w, a);
    } else if a + b < min_val(w) {
        lemma_wrap_period(w, a);
    }
    lemma_wrap_in_range(w, a);
}

/// Law: the wrapping negation and wrapping absolute value of MIN are MIN
/// itself (the two's-complement asymmetry), while the saturating ones map
/// MIN to ONE.
pub proof fn lemma_min_negation(w: nat)
    requires
        1 <= w,
    ensures
        wrap_neg_val(w, min_val(w)) == min_val(w),
        wrap_abs_val(w, min_val(w)) == min_val(w),
        sat_abs_val(w, min_val(w)) == max_val(w),
{
}

/// Law: MIN times MIN is the only overflowing multiplication: wrapping it
/// yields MIN and saturating it yields ONE.  Every other wrapped product is
/// within one ULP of the exact renormalized product, and the widening
/// multiplication is exact there.
pub proof fn lemma_mul_accuracy(w: nat, a: int, b: int)
    requires
        1 <= w,
        in_range(w, a),
        in_range(w, b),
    ensures
        wrap_mul_val(w, min_val(w), min_val(w)) == min_val(w),
        sat_mul_val(w, min_val(w), min_val(w)) == max_val(w),
        !mul_overflows(w, a, b) ==> -half_range(w) < a * b - wrap_mul_val(w, a, b) * half_range(w)
            < half_range(w),
{
    let h = half_range(w);
    lemma_pow2i_pos((w - 1) as nat);
    // the MIN * MIN corner
    lemma_mul_scaled_bounds(w, min_val(w), min_val(w));
    lemma_wrap_step(w, h);
    lemma_wrap_step(w, tdiv(min_val(w) * min_val(w), h));
    // accuracy away from the corner
    if !mul_overflows(w, a, b) {
        let p = a * b;
        lemma_mul_scaled_bounds(w, a, b);
        vstd::arithmetic::div_mod::lemma_fundamental_div_mod(p, h);
        vstd::arithmetic::div_mod::lemma_mod_division_less_than_divisor(p, h);
        if w == 128 {
            lemma_wrap_in_range(w, tdiv(p, h));
            lemma_tdiv_mag(p, h);
            if p < 0 {
                vstd::arithmetic::div_mod::lemma_fundamental_div_mod(-p, h);
                vstd::arithmetic::div_mod::lemma_mod_division_less_than_divisor(-p, h);
                assert(tdiv(p, h) * h == -(((-p) / h) * h)) by (nonlinear_arith)
                    requires
                        tdiv(p, h) == -((-p) / h),
                ;
                assert(h * ((-p) / h) == ((-p) / h) * h) by (nonlinear_arith);
            } else {
                assert(h * (p / h) == (p / h) * h) by (nonlinear_arith);
            }
        } else {
            lemma_wrap_in_range(w, p / h);
            assert(h * (p / h) == (p / h) * h) by (nonlinear_arith);
        }
    }
}

/// Law: the widening multiplication of any pair other than MIN, MIN is the
/// exact double-width product; that one pair saturates to the double-width
/// ONE.
pub proof fn lemma_widening_mul_exact(w: nat, a: int, b: int)
    requires
        1 <= w,
        in_range(w, a),
        in_range(w, b),
    ensures
        !mul_overflows(w, a, b) ==> crate::model::sat_widening_mul_val(w, a, b) == 2 * (a * b),
        crate::model::sat_widening_mul_val(w, min_val(w), min_val(w)) == max_val(2 * w),
{
}

/// Law: saturating division never yields MIN and is total: a ZERO divisor
/// yields the dividend's sign.
pub proof fn lemma_saturating_div_total(w: nat, a: int, b: int)
    requires
        1 <= w,
        in_range(w, a),
        in_range(w, b),
    ensures
        sat_div_val(w, a, b) != min_val(w),
        b == 0 ==> sat_div_val(w, a, b) == signum_val(w, a),
{
    lemma_pow2i_pos((w - 1) as nat);
    if b != 0 && sat_abs_val(w, a) < sat_abs_val(w, b) {
        lemma_div_scaled_bounds(w, a, b);
    }
}

/// Law: widening then truncating is the identity: no information is lost in
/// a round trip through the double width.
pub proof fn lemma_widen_truncate_roundtrip(w: nat, v: int)
    requires
        1 <= w,
    ensures
        truncate_val(w, widen_val(w, v)) == v,
{
    lemma_pow2i_pos(w);
    vstd::arithmetic::div_mod::lemma_div_multiples_vanish(v, pow2i(w));
    assert(pow2i(w) * v == v * pow2i(w)) by (nonlinear_arith);
}

/// Law: no saturating operation yields the stored pattern MIN, so no chain
/// of saturating operations starting from values other than MIN can ever
/// reach it.  (Only the division by a plain integer needs its dividend away
/// from MIN: MIN divided by one is MIN again.)
pub proof fn lemma_saturating_avoids_min(w: nat, a: int, b: int, k: int)
    requires
        2 <= w,
        in_range(w, a),
        in_range(w, b),
    ensures
        sat_add_val(w, a, b) != min_val(w),
        sat_sub_val(w, a, b) != min_val(w),
        sat_abs_val(w, a) != min_val(w),
        signum_val(w, a) != min_val(w),
        sat_mul_val(w, a, b) != min_val(w),
        sat_mul_int_val(w, a, k) != min_val(w),
        sat_div_val(w, a, b) != min_val(w),
        a != min_val(w) ==> sat_div_int_val(w, a, k) != min_val(w),
{
    let h = half_range(w);
    lemma_pow2i_pos((w - 1) as nat);
    assert(h >= 2) by {
        vstd::arithmetic::power2::lemma2_to64();
        vstd::arithmetic::power2::lemma_pow2_strictly_increases(0, (w - 1) as nat);
    }
    // multiplication: the wrapped product can only land on MIN at MIN * MIN,
    // which saturates to ONE instead
    lemma_mul_scaled_bounds(w, a, b);
    lemma_wrap_step(w, (a * b) / h);
    lemma_wrap_step(w, tdiv(a * b, h));
    // full division
    lemma_saturating_div_total(w, a, b);
    // division by a plain integer
    if a != min_val(w) && k != 0 && !(a == min_val(w) && k == -1) {
        lemma_tdiv_mag(a, k);
    }
}


/// Law: a split recomposes exactly: the high half carries the truncation and
/// the low half the discarded bits, so the double-width value is
/// `high * 2^w` plus the low half read as an unsigned `w`-bit field.
pub proof fn lemma_split_recomposition(w: nat, v: int)
    requires
        1 <= w,
    ensures
        ({
            let lo = crate::model::split_lo_val(w, v);
            let lo_unsigned = if lo < 0 {
                lo + pow2i(w)
            } else {
                lo
            };
            truncate_val(w, v) * pow2i(w) + lo_unsigned == v
        }),
{
    let p = pow2i(w);
    let h = half_range(w);
    lemma_pow2i_pos(w);
    lemma_pow2i_pos((w - 1) as nat);
    assert(p == 2 * h) by {
        vstd::arithmetic::power2::lemma_pow2_unfold(w);
    }
    vstd::arithmetic::div_mod::lemma_fundamental_div_mod(v, p);
    vstd::arithmetic::div_mod::lemma_mod_division_less_than_divisor(v, p);
    crate::lemmas::lemma_wrap_from_mod(w, v);
    assert(p * (v / p) == (v / p) * p) by (nonlinear_arith);
}

} // verus!
