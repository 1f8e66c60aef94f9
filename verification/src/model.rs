//! Mathematical model of the fracint family: every contract in this crate is
//! stated over these spec functions.
//!
//! A fracint of width `w` stores a `w`-bit two's-complement integer `v` and
//! denotes the fraction `v / 2^(w-1)`.  The model works on the stored
//! integers as unbounded `int`s, with the width passed explicitly, so that the
//! five executable widths share one set of definitions and lemmas.

use vstd::prelude::*;

verus! {

/// 2^k as an `int`.
pub open spec fn pow2i(k: nat) -> int {
    vstd::arithmetic::power2::pow2(k) as int
}

/// 2^(w-1): the magnitude of the most negative stored integer of width `w`.
pub open spec fn half_range(w: nat) -> int
    recommends
        1 <= w,
{
    pow2i((w - 1) as nat)
}

/// Stored integer of MIN (the hazard value one below NEG_ONE).
pub open spec fn min_val(w: nat) -> int {
    -half_range(w)
}

/// Stored integer of ONE == MAX, the closest representable value to 1.0.
pub open spec fn max_val(w: nat) -> int {
    half_range(w) - 1
}

/// Stored integer of NEG_ONE, deliberately one ULP above MIN.
pub open spec fn neg_one_val(w: nat) -> int {
    1 - half_range(w)
}

/// `v` fits in a `w`-bit stored integer.
pub open spec fn in_range(w: nat, v: int) -> bool {
    min_val(w) <= v <= max_val(w)
}

/// Two's-complement wraparound of `v` into width `w`.  `%` is Euclidean, so
/// this is total and agrees with what the machine's modular arithmetic does.
pub open spec fn wrap(w: nat, v: int) -> int {
    (v + half_range(w)) % (2 * half_range(w)) - half_range(w)
}

/// Truncating (toward zero) division, the semantics of Rust's `/`.
pub open spec fn tdiv(n: int, d: int) -> int
    recommends
        d != 0,
{
    if n >= 0 {
        if d >= 0 {
            n / d
        } else {
            -(n / -d)
        }
    } else {
        if d >= 0 {
            -(-n / d)
        } else {
            -n / -d
        }
    }
}

/// Sign of a stored value, expressed as a stored value: NEG_ONE, ZERO or ONE.
pub open spec fn signum_val(w: nat, v: int) -> int {
    if v < 0 {
        neg_one_val(w)
    } else if v == 0 {
        0
    } else {
        max_val(w)
    }
}

/// Wrapping negation: MIN stays MIN, everything else negates exactly.
pub open spec fn wrap_neg_val(w: nat, v: int) -> int {
    if v == min_val(w) {
        min_val(w)
    } else {
        -v
    }
}

/// Wrapping absolute value: MIN stays MIN.
pub open spec fn wrap_abs_val(w: nat, v: int) -> int {
    if v == min_val(w) {
        min_val(w)
    } else if v < 0 {
        -v
    } else {
        v
    }
}

/// Saturating absolute value: MIN maps to ONE.
pub open spec fn sat_abs_val(w: nat, v: int) -> int {
    if v == min_val(w) {
        max_val(w)
    } else if v < 0 {
        -v
    } else {
        v
    }
}

/// Addition overflows when the exact sum leaves the range, or lands exactly on
/// MIN (landing on MIN always counts as overflow).
pub open spec fn add_overflows(w: nat, a: int, b: int) -> bool {
    !(min_val(w) < a + b <= max_val(w))
}

pub open spec fn sat_add_val(w: nat, a: int, b: int) -> int {
    if !add_overflows(w, a, b) {
        a + b
    } else if b <= 0 {
        neg_one_val(w)
    } else {
        max_val(w)
    }
}

pub open spec fn sub_overflows(w: nat, a: int, b: int) -> bool {
    !(min_val(w) < a - b <= max_val(w))
}

pub open spec fn sat_sub_val(w: nat, a: int, b: int) -> int {
    if !sub_overflows(w, a, b) {
        a - b
    } else if b <= 0 {
        max_val(w)
    } else {
        neg_one_val(w)
    }
}

/// Wrapping fracint multiplication: the double-width product renormalized by
/// 2^(w-1) and wrapped back into width `w`.  Widths up to 64 discard the low
/// bits of the product with an arithmetic shift (floor); the 128-bit width
/// divides sign-and-magnitude style (toward zero), matching its
/// double-word implementation.
pub open spec fn wrap_mul_val(w: nat, a: int, b: int) -> int {
    if w == 128 {
        wrap(w, tdiv(a * b, half_range(w)))
    } else {
        wrap(w, (a * b) / half_range(w))
    }
}

/// The one overflowing multiplication: MIN times MIN.
pub open spec fn mul_overflows(w: nat, a: int, b: int) -> bool {
    a == min_val(w) && b == min_val(w)
}

pub open spec fn sat_mul_val(w: nat, a: int, b: int) -> int {
    if mul_overflows(w, a, b) {
        max_val(w)
    } else {
        wrap_mul_val(w, a, b)
    }
}

/// Saturating multiplication by a plain integer: clamp the exact product into
/// range, then bump a MIN result up to NEG_ONE.
pub open spec fn sat_mul_int_val(w: nat, a: int, k: int) -> int {
    if a * k <= min_val(w) {
        neg_one_val(w)
    } else if a * k > max_val(w) {
        max_val(w)
    } else {
        a * k
    }
}

/// Renormalized fracint division (the dividend promoted by 2^(w-1)), defined
/// when `|a| < |b|` so the quotient is in range.
pub open spec fn div_scaled(w: nat, a: int, b: int) -> int
    recommends
        b != 0,
{
    tdiv(a * half_range(w), b)
}

/// Saturating fracint division: zero divisors give the dividend's sign, and
/// equal-or-larger dividend magnitude saturates by the signs' agreement.
pub open spec fn sat_div_val(w: nat, a: int, b: int) -> int {
    if b == 0 {
        signum_val(w, a)
    } else if sat_abs_val(w, a) >= sat_abs_val(w, b) {
        if (a < 0) != (b < 0) {
            neg_one_val(w)
        } else {
            max_val(w)
        }
    } else {
        div_scaled(w, a, b)
    }
}

/// Saturating division by a plain integer.
pub open spec fn sat_div_int_val(w: nat, a: int, k: int) -> int {
    if k == 0 {
        signum_val(w, a)
    } else if a == min_val(w) && k == -1 {
        max_val(w)
    } else {
        tdiv(a, k)
    }
}

/// Saturating inversion, as a plain integer: ONE divided by `a`, toward zero,
/// with a zero argument mapped to -1.
pub open spec fn sat_inv_val(w: nat, a: int) -> int {
    if a == 0 {
        -1
    } else {
        tdiv(max_val(w), a)
    }
}

/// Lossless widening from width `w` to width `2w`.
pub open spec fn widen_val(w: nat, v: int) -> int {
    v * pow2i(w)
}

/// Truncation from width `2w` down to width `w`: drop the low `w` bits.
pub open spec fn truncate_val(w: nat, v: int) -> int {
    v / pow2i(w)
}

/// The discarded low half of a split, reinterpreted as a signed `w`-bit value.
pub open spec fn split_lo_val(w: nat, v: int) -> int {
    wrap(w, v)
}

/// Rounding narrowing: add one ULP when the first discarded bit is set, but
/// never increment past ONE.
pub open spec fn from_rounded_val(w: nat, v: int) -> int {
    let t = v / pow2i(w);
    if v % pow2i(w) >= half_range(w) {
        if t == max_val(w) {
            t
        } else {
            t + 1
        }
    } else {
        t
    }
}

/// Exact double-width product, except MIN times MIN saturates to the
/// double-width ONE.
pub open spec fn sat_widening_mul_val(w: nat, a: int, b: int) -> int {
    if mul_overflows(w, a, b) {
        max_val(2 * w)
    } else {
        2 * (a * b)
    }
}

} // verus!
