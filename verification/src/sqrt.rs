//! Square roots: the slow bisection oracle and the fast LUT-seeded
//! Goldschmidt iteration.
//!
//! Both algorithms are pinned exactly by spec functions that mirror their
//! finite computations over the arithmetic model; the documented accuracy of
//! `sqrt_fast` (a few ULPs) is an empirical target checked by tests, not a
//! proved bound.

use vstd::prelude::*;
use vstd::slice::slice_index_get;

use crate::consts::{isqrt_cutoff, isqrt_lut, simple_isqrt_cutoff, simple_isqrt_lut,
    SIMPLE_ISQRT_BITS};
use crate::lemmas::{lemma_div_mag_le, lemma_pow2i_consts, lemma_pow2i_pos};
use crate::model::{
    half_range, max_val, pow2i, sat_mul_val, truncate_val, widen_val, wrap, wrap_mul_val,
};
use crate::w128::fi128;
use crate::w16::fi16;
use crate::w32::fi32;
use crate::w64::fi64;
use crate::w8::fi8;

verus! {

/// Leading zero bits of `v` in a `w`-bit word (for `0 <= v < 2^w`).
pub open spec fn lz_val(w: nat, v: int) -> nat
    decreases w,
{
    if w == 0 {
        0
    } else if v >= pow2i((w - 1) as nat) {
        0
    } else {
        1 + lz_val((w - 1) as nat, v)
    }
}

/// One candidate-bit step of the bisection search: try the bit, keep it if
/// the saturated square still fits under the operand, and stop early when the
/// square hits the operand exactly or stops changing.
pub open spec fn bisect_rec(w: nat, v: int, res: int, prev: int, k: nat) -> int
    decreases k,
{
    if k == 0 {
        res
    } else {
        let test = res + pow2i((k - 1) as nat);
        let sqr = sat_mul_val(w, test, test);
        let res2 = if sqr <= v {
            test
        } else {
            res
        };
        if sqr == v || sqr == prev {
            res2
        } else {
            bisect_rec(w, v, res2, sqr, (k - 1) as nat)
        }
    }
}

/// The bisection square root: candidate bits from 2^(w-2) down.
pub open spec fn bisect_val(w: nat, v: int) -> int {
    bisect_rec(w, v, 0, 0, (w - 1) as nat)
}

/// One Goldschmidt iteration on the pair (g, h), in wrapping arithmetic:
/// r = 0.5 - g*h; g += r*g; h += r*h.
pub open spec fn gold_rec(w: nat, g: int, h: int, n: nat) -> int
    decreases n,
{
    if n == 0 {
        g
    } else {
        let half = pow2i((w - 2) as nat);
        let r = wrap(w, half - wrap_mul_val(w, g, h));
        let g2 = wrap(w, wrap_mul_val(w, r, g) + g);
        let h2 = wrap(w, wrap_mul_val(w, r, h) + h);
        gold_rec(w, g2, h2, (n - 1) as nat)
    }
}

/// The Goldschmidt square root iteration seeded with `f` close to
/// `1/sqrt(s) - 1`: g0 = f*s + s, h0 = 0.5 + f/2, then `n` refinement steps.
pub open spec fn gold_val(w: nat, s: int, f: int, n: nat) -> int {
    gold_rec(w, wrap(w, wrap_mul_val(w, f, s) + s), wrap(w, pow2i((w - 2) as nat) + f / 2), n)
}

/// The interpolated seed-table read: zero outside [0.25, cutoff), otherwise
/// a linear interpolation between adjacent entries, in 16-bit wrapping
/// arithmetic, with the last interval interpolating toward zero.
pub open spec fn lut_eval_val(lut: Seq<int>, cutoff: int, bits: nat, x: int) -> int {
    if x < pow2i(13) || x >= cutoff {
        0
    } else {
        let step = pow2i((15 - bits) as nat);
        let inx0 = x / step - pow2i((bits - 2) as nat);
        let rem_inx = (x % step) * pow2i(bits);
        if inx0 + 1 < lut.len() {
            wrap(16, wrap_mul_val(16, wrap(16, lut[inx0 + 1] - lut[inx0]), rem_inx) + lut[inx0])
        } else {
            wrap(16, lut[inx0] - wrap_mul_val(16, lut[inx0], rem_inx))
        }
    }
}

/// The slow square root: bisection at double width, truncated back.
pub open spec fn sqrt_slow_val(w: nat, v: int) -> int {
    truncate_val(w, bisect_val(2 * w, widen_val(w, v)))
}

/// The fast square root: range-reduce by an even count of leading zero bits
/// into [0.25, 1.0), read the interpolated seed, run `n` Goldschmidt steps,
/// and shift back.
pub open spec fn sqrt_fast_val(w: nat, n: nat, v: int) -> int {
    if v <= 0 {
        0
    } else {
        let lz = lz_val(w, v);
        let shift: int = if lz >= 3 {
            (lz - 1) / 2
        } else {
            0
        };
        let s2 = v * pow2i((2 * shift) as nat);
        let x16 = s2 / pow2i((w - 16) as nat);
        let seed = lut_eval_val(isqrt_lut(), isqrt_cutoff(), 5, x16);
        let f = seed * pow2i((w - 16) as nat);
        gold_val(w, s2, f, n) / pow2i(shift as nat)
    }
}

/// 2^k as an `i128`.
fn pow2_i128(k: u32) -> (r: i128)
    requires
        k <= 126,
    ensures
        r as int == pow2i(k as nat),
        r >= 1,
{
    proof {
        vstd::arithmetic::power2::lemma2_to64();
    }
    let mut r: i128 = 1;
    let mut i: u32 = 0;
    while i < k
        invariant
            0 <= i <= k <= 126,
            r as int == pow2i(i as nat),
            r >= 1,
        decreases k - i,
    {
        proof {
            lemma_pow2i_pos(i as nat);
            vstd::arithmetic::power2::lemma_pow2_strictly_increases((i + 1) as nat, 127);
            lemma_pow2i_consts();
            vstd::arithmetic::power2::lemma_pow2_unfold((i + 1) as nat);
        }
        r = r * 2;
        i = i + 1;
    }
    r
}

/// Counts the leading zero bits of a positive value in a `w`-bit word.
fn lz_count(v: i128, w: u32) -> (r: u32)
    requires
        8 <= w <= 128,
        1 <= v,
        (v as int) < half_range(w as nat),
    ensures
        r as nat == lz_val(w as nat, v as int),
        1 <= r <= w - 1,
        pow2i((w - 1 - r) as nat) <= v,
        (v as int) < pow2i((w - r) as nat),
{
    let mut k: u32 = 1;
    let mut t: i128 = pow2_i128(w - 2);
    while v < t
        invariant
            1 <= k <= w - 1,
            8 <= w <= 128,
            1 <= v,
            t as int == pow2i((w - 1 - k) as nat),
            (v as int) < pow2i((w - k) as nat),
        decreases t,
    {
        proof {
            lemma_pow2i_pos((w - 1 - k) as nat);
            if k == w - 1 {
                assert(pow2i(0) == 1) by {
                    vstd::arithmetic::power2::lemma2_to64();
                }
            }
            assert(pow2i((w - 1 - k) as nat) == 2 * pow2i((w - 2 - k) as nat)) by {
                vstd::arithmetic::power2::lemma_pow2_unfold((w - 1 - k) as nat);
            }
        }
        t = t / 2;
        k = k + 1;
    }
    proof {
        lemma_lz_from_bounds(w as nat, v as int, k as nat);
    }
    k
}

/// The leading-zero count is pinned by a power-of-two bracket.
proof fn lemma_lz_from_bounds(w: nat, v: int, k: nat)
    requires
        k <= w,
        pow2i((w - 1 - k) as nat) <= v < pow2i((w - k) as nat),
        k < w,
    ensures
        lz_val(w, v) == k,
    decreases k,
{
    if k == 0 {
        assert(v >= pow2i((w - 1) as nat));
    } else {
        assert(pow2i((w - k) as nat) <= pow2i((w - 1) as nat)) by {
            if k > 1 {
                vstd::arithmetic::power2::lemma_pow2_strictly_increases(
                    (w - k) as nat,
                    (w - 1) as nat,
                );
            }
        }
        lemma_lz_from_bounds((w - 1) as nat, v, (k - 1) as nat);
    }
}

/// A multiple of a power of two is a multiple of the next power down.
proof fn lemma_pow2_align(k: nat, x: int)
    requires
        k >= 1,
        x % pow2i(k) == 0,
    ensures
        x % pow2i((k - 1) as nat) == 0,
{
    let p = pow2i((k - 1) as nat);
    lemma_pow2i_pos((k - 1) as nat);
    lemma_pow2i_pos(k);
    assert(pow2i(k) == 2 * p) by {
        vstd::arithmetic::power2::lemma_pow2_unfold(k);
    }
    vstd::arithmetic::div_mod::lemma_fundamental_div_mod(x, 2 * p);
    let q = x / (2 * p);
    assert(x == (2 * p) * q);
    assert((2 * p) * q == p * (2 * q)) by (nonlinear_arith);
    vstd::arithmetic::div_mod::lemma_mod_multiples_basic(2 * q, p);
}


/// The stored integers of a table of 16-bit fracints.
pub open spec fn lut_views(s: Seq<fi16>) -> Seq<int> {
    s.map_values(|t: fi16| t@)
}

/// Reads the interpolated inverse-square-root seed table: for `x` in
/// [0.25, cutoff) it linearly interpolates between the two table entries
/// around `x`, using the bits below the index as the interpolation fraction;
/// outside that domain it returns ZERO.
pub fn eval_simple_isqrt_lut(lut: &[fi16], cutoff: fi16, bits: usize, x: fi16) -> (r: fi16)
    requires
        2 <= bits <= 13,
        cutoff@ > pow2i(13) ==> (cutoff@ - 1) / pow2i((15 - bits) as nat) - pow2i(
            (bits - 2) as nat,
        ) < lut@.len(),
    ensures
        r@ == lut_eval_val(lut_views(lut@), cutoff@, bits as nat, x@),
{
    proof {
        lemma_pow2i_consts();
    }
    if x.0 < 8192 || x.0 >= cutoff.0 {
        return fi16(0);
    }
    let step128 = pow2_i128((15 - bits) as u32);
    proof {
        if 15 - bits < 13 {
            vstd::arithmetic::power2::lemma_pow2_strictly_increases((15 - bits) as nat, 13);
        }
        lemma_pow2i_pos((bits - 2) as nat);
        if bits - 2 < 13 {
            vstd::arithmetic::power2::lemma_pow2_strictly_increases((bits - 2) as nat, 13);
        }
        lemma_pow2i_pos(bits as nat);
        if bits < 14 {
            vstd::arithmetic::power2::lemma_pow2_strictly_increases(bits as nat, 14);
        }
    }
    let step: i32 = step128 as i32;
    let xi: i32 = x.0 as i32;
    let q: i32 = xi.checked_div_euclid(step).unwrap();
    proof {
        vstd::arithmetic::div_mod::lemma_fundamental_div_mod(xi as int, step as int);
        vstd::arithmetic::div_mod::lemma_mod_division_less_than_divisor(xi as int, step as int);
        vstd::arithmetic::div_mod::lemma_div_pos_is_pos(xi as int, step as int);
        vstd::arithmetic::div_mod::lemma_div_is_ordered(
            pow2i(13),
            xi as int,
            step as int,
        );
        assert(pow2i(13) == pow2i((bits - 2) as nat) * pow2i((15 - bits) as nat)) by {
            vstd::arithmetic::power2::lemma_pow2_adds((bits - 2) as nat, (15 - bits) as nat);
        }
        vstd::arithmetic::div_mod::lemma_div_multiples_vanish(
            pow2i((bits - 2) as nat),
            step as int,
        );
        assert((step as int) * pow2i((bits - 2) as nat) == pow2i((bits - 2) as nat) * (
        step as int)) by (nonlinear_arith);
        vstd::arithmetic::div_mod::lemma_div_is_ordered(
            xi as int,
            cutoff@ - 1,
            step as int,
        );
    }
    let rem: i32 = xi - q * step;
    let off128 = pow2_i128((bits - 2) as u32);
    let off: i32 = off128 as i32;
    let inx0: i32 = q - off;
    let pb128 = pow2_i128(bits as u32);
    let pb: i32 = pb128 as i32;
    proof {
        assert(pow2i((15 - bits) as nat) * pow2i(bits as nat) == pow2i(15)) by {
            vstd::arithmetic::power2::lemma_pow2_adds((15 - bits) as nat, bits as nat);
        }
        assert((step as int) * (pb as int) == 0x8000) by (nonlinear_arith)
            requires
                (step as int) == pow2i((15 - bits) as nat),
                (pb as int) == pow2i(bits as nat),
                pow2i((15 - bits) as nat) * pow2i(bits as nat) == pow2i(15),
                pow2i(15) == 0x8000,
        ;
        assert(0 <= rem * pb && rem * pb <= 0x8000 - pb) by (nonlinear_arith)
            requires
                0 <= rem < step,
                pb >= 1,
                (step as int) * (pb as int) == 0x8000,
        ;
    }
    let rem_inx = fi16((rem * pb) as i16);
    let i0 = inx0 as usize;
    let y0 = *slice_index_get(lut, i0);
    proof {
        assert(lut_views(lut@)[i0 as int] == y0@);
        if i0 + 1 < lut@.len() {
            assert(lut_views(lut@)[i0 + 1] == lut@[i0 + 1]@);
        }
    }
    if i0 + 1 < lut.len() {
        let y1 = *slice_index_get(lut, i0 + 1);
        y1.wrapping_sub(y0).wrapping_mul(rem_inx).wrapping_add(y0)
    } else {
        y0.wrapping_sub(y0.wrapping_mul(rem_inx))
    }
}

/// One candidate bit of fi8's bisection search, mirroring `bisect_rec`.
fn bisect_step8(v: i8, res: i8, prev: i8, set_bit: i8, Ghost(k): Ghost<nat>) -> (r: i8)
    requires
        k <= 7,
        set_bit as int == if k == 0 {
            0int
        } else {
            pow2i((k - 1) as nat)
        },
        0 <= res as int,
        res as int + pow2i(k as nat) <= 128,
        (res as int) % pow2i(k as nat) == 0,
    ensures
        r as int == bisect_rec(8, v as int, res as int, prev as int, k),
        r >= 0,
    decreases k,
{
    proof {
        lemma_pow2i_consts();
        if k != 0 {
            lemma_pow2i_pos((k - 1) as nat);
        }
        lemma_pow2i_pos(k as nat);
    }
    if set_bit == 0 {
        return res;
    }
    proof {
        assert(pow2i(k as nat) == 2 * pow2i((k - 1) as nat)) by {
            vstd::arithmetic::power2::lemma_pow2_unfold(k as nat);
        }
    }
    let test: i8 = res + set_bit;
    let sq = fi8(test).saturating_mul(fi8(test));
    let sqr: i8 = sq.0;
    let res2: i8 = if sqr <= v {
        test
    } else {
        res
    };
    if sqr == v || sqr == prev {
        return res2;
    }
    proof {
        lemma_pow2_align(k as nat, res as int);
        vstd::arithmetic::div_mod::lemma_mod_add_multiples_vanish(
            res as int,
            pow2i((k - 1) as nat),
        );
        if k >= 2 {
            assert(pow2i((k - 1) as nat) == 2 * pow2i((k - 2) as nat)) by {
                vstd::arithmetic::power2::lemma_pow2_unfold((k - 1) as nat);
            }
        }
    }
    let next_bit: i8 = set_bit.checked_div_euclid(2).unwrap();
    proof {
        if k == 1 {
            vstd::arithmetic::div_mod::lemma_basic_div_specific_divisor(2);
        } else {
            vstd::arithmetic::div_mod::lemma_div_multiples_vanish(pow2i((k - 2) as nat), 2);
            assert(2 * pow2i((k - 2) as nat) == pow2i((k - 2) as nat) * 2) by (nonlinear_arith);
        }
    }
    bisect_step8(v, res2, sqr, next_bit, Ghost((k - 1) as nat))
}

impl fi8 {
    /// The slow bisection square root: tests candidate bits from high to low,
    /// keeping one only if the saturated square still fits under the operand;
    /// it always underestimates.
    pub fn sqrt_simple_bisection(self) -> (r: Self)
        ensures
            r@ == bisect_val(8, self@),
            r@ >= 0,
    {
        proof {
            lemma_pow2i_consts();
        }
        fi8(bisect_step8(self.0, 0, 0, 64, Ghost(7nat)))
    }
}

/// One candidate bit of fi16's bisection search, mirroring `bisect_rec`.
fn bisect_step16(v: i16, res: i16, prev: i16, set_bit: i16, Ghost(k): Ghost<nat>) -> (r: i16)
    requires
        k <= 15,
        set_bit as int == if k == 0 {
            0int
        } else {
            pow2i((k - 1) as nat)
        },
        0 <= res as int,
        res as int + pow2i(k as nat) <= 32768,
        (res as int) % pow2i(k as nat) == 0,
    ensures
        r as int == bisect_rec(16, v as int, res as int, prev as int, k),
        r >= 0,
    decreases k,
{
    proof {
        lemma_pow2i_consts();
        if k != 0 {
            lemma_pow2i_pos((k - 1) as nat);
        }
        lemma_pow2i_pos(k as nat);
    }
    if set_bit == 0 {
        return res;
    }
    proof {
        assert(pow2i(k as nat) == 2 * pow2i((k - 1) as nat)) by {
            vstd::arithmetic::power2::lemma_pow2_unfold(k as nat);
        }
    }
    let test: i16 = res + set_bit;
    let sq = fi16(test).saturating_mul(fi16(test));
    let sqr: i16 = sq.0;
    let res2: i16 = if sqr <= v {
        test
    } else {
        res
    };
    if sqr == v || sqr == prev {
        return res2;
    }
    proof {
        lemma_pow2_align(k as nat, res as int);
        vstd::arithmetic::div_mod::lemma_mod_add_multiples_vanish(
            res as int,
            pow2i((k - 1) as nat),
        );
        if k >= 2 {
            assert(pow2i((k - 1) as nat) == 2 * pow2i((k - 2) as nat)) by {
                vstd::arithmetic::power2::lemma_pow2_unfold((k - 1) as nat);
            }
        }
    }
    let next_bit: i16 = set_bit.checked_div_euclid(2).unwrap();
    proof {
        if k == 1 {
            vstd::arithmetic::div_mod::lemma_basic_div_specific_divisor(2);
        } else {
            vstd::arithmetic::div_mod::lemma_div_multiples_vanish(pow2i((k - 2) as nat), 2);
            assert(2 * pow2i((k - 2) as nat) == pow2i((k - 2) as nat) * 2) by (nonlinear_arith);
        }
    }
    bisect_step16(v, res2, sqr, next_bit, Ghost((k - 1) as nat))
}

impl fi16 {
    /// The slow bisection square root: tests candidate bits from high to low,
    /// keeping one only if the saturated square still fits under the operand;
    /// it always underestimates.
    pub fn sqrt_simple_bisection(self) -> (r: Self)
        ensures
            r@ == bisect_val(16, self@),
            r@ >= 0,
    {
        proof {
            lemma_pow2i_consts();
        }
        fi16(bisect_step16(self.0, 0, 0, 16384, Ghost(15nat)))
    }
}

/// One candidate bit of fi32's bisection search, mirroring `bisect_rec`.
fn bisect_step32(v: i32, res: i32, prev: i32, set_bit: i32, Ghost(k): Ghost<nat>) -> (r: i32)
    requires
        k <= 31,
        set_bit as int == if k == 0 {
            0int
        } else {
            pow2i((k - 1) as nat)
        },
        0 <= res as int,
        res as int + pow2i(k as nat) <= 2147483648,
        (res as int) % pow2i(k as nat) == 0,
    ensures
        r as int == bisect_rec(32, v as int, res as int, prev as int, k),
        r >= 0,
    decreases k,
{
    proof {
        lemma_pow2i_consts();
        if k != 0 {
            lemma_pow2i_pos((k - 1) as nat);
        }
        lemma_pow2i_pos(k as nat);
    }
    if set_bit == 0 {
        return res;
    }
    proof {
        assert(pow2i(k as nat) == 2 * pow2i((k - 1) as nat)) by {
            vstd::arithmetic::power2::lemma_pow2_unfold(k as nat);
        }
    }
    let test: i32 = res + set_bit;
    let sq = fi32(test).saturating_mul(fi32(test));
    let sqr: i32 = sq.0;
    let res2: i32 = if sqr <= v {
        test
    } else {
        res
    };
    if sqr == v || sqr == prev {
        return res2;
    }
    proof {
        lemma_pow2_align(k as nat, res as int);
        vstd::arithmetic::div_mod::lemma_mod_add_multiples_vanish(
            res as int,
            pow2i((k - 1) as nat),
        );
        if k >= 2 {
            assert(pow2i((k - 1) as nat) == 2 * pow2i((k - 2) as nat)) by {
                vstd::arithmetic::power2::lemma_pow2_unfold((k - 1) as nat);
            }
        }
    }
    let next_bit: i32 = set_bit.checked_div_euclid(2).unwrap();
    proof {
        if k == 1 {
            vstd::arithmetic::div_mod::lemma_basic_div_specific_divisor(2);
        } else {
            vstd::arithmetic::div_mod::lemma_div_multiples_vanish(pow2i((k - 2) as nat), 2);
            assert(2 * pow2i((k - 2) as nat) == pow2i((k - 2) as nat) * 2) by (nonlinear_arith);
        }
    }
    bisect_step32(v, res2, sqr, next_bit, Ghost((k - 1) as nat))
}

impl fi32 {
    /// The slow bisection square root: tests candidate bits from high to low,
    /// keeping one only if the saturated square still fits under the operand;
    /// it always underestimates.
    pub fn sqrt_simple_bisection(self) -> (r: Self)
        ensures
            r@ == bisect_val(32, self@),
            r@ >= 0,
    {
        proof {
            lemma_pow2i_consts();
        }
        fi32(bisect_step32(self.0, 0, 0, 1073741824, Ghost(31nat)))
    }
}

/// One candidate bit of fi64's bisection search, mirroring `bisect_rec`.
fn bisect_step64(v: i64, res: i64, prev: i64, set_bit: i64, Ghost(k): Ghost<nat>) -> (r: i64)
    requires
        k <= 63,
        set_bit as int == if k == 0 {
            0int
        } else {
            pow2i((k - 1) as nat)
        },
        0 <= res as int,
        res as int + pow2i(k as nat) <= 9223372036854775808,
        (res as int) % pow2i(k as nat) == 0,
    ensures
        r as int == bisect_rec(64, v as int, res as int, prev as int, k),
        r >= 0,
    decreases k,
{
    proof {
        lemma_pow2i_consts();
        if k != 0 {
            lemma_pow2i_pos((k - 1) as nat);
        }
        lemma_pow2i_pos(k as nat);
    }
    if set_bit == 0 {
        return res;
    }
    proof {
        assert(pow2i(k as nat) == 2 * pow2i((k - 1) as nat)) by {
            vstd::arithmetic::power2::lemma_pow2_unfold(k as nat);
        }
    }
    let test: i64 = res + set_bit;
    let sq = fi64(test).saturating_mul(fi64(test));
    let sqr: i64 = sq.0;
    let res2: i64 = if sqr <= v {
        test
    } else {
        res
    };
    if sqr == v || sqr == prev {
        return res2;
    }
    proof {
        lemma_pow2_align(k as nat, res as int);
        vstd::arithmetic::div_mod::lemma_mod_add_multiples_vanish(
            res as int,
            pow2i((k - 1) as nat),
        );
        if k >= 2 {
            assert(pow2i((k - 1) as nat) == 2 * pow2i((k - 2) as nat)) by {
                vstd::arithmetic::power2::lemma_pow2_unfold((k - 1) as nat);
            }
        }
    }
    let next_bit: i64 = set_bit.checked_div_euclid(2).unwrap();
    proof {
        if k == 1 {
            vstd::arithmetic::div_mod::lemma_basic_div_specific_divisor(2);
        } else {
            vstd::arithmetic::div_mod::lemma_div_multiples_vanish(pow2i((k - 2) as nat), 2);
            assert(2 * pow2i((k - 2) as nat) == pow2i((k - 2) as nat) * 2) by (nonlinear_arith);
        }
    }
    bisect_step64(v, res2, sqr, next_bit, Ghost((k - 1) as nat))
}

impl fi64 {
    /// The slow bisection square root: tests candidate bits from high to low,
    /// keeping one only if the saturated square still fits under the operand;
    /// it always underestimates.
    pub fn sqrt_simple_bisection(self) -> (r: Self)
        ensures
            r@ == bisect_val(64, self@),
            r@ >= 0,
    {
        proof {
            lemma_pow2i_consts();
        }
        fi64(bisect_step64(self.0, 0, 0, 4611686018427387904, Ghost(63nat)))
    }
}

/// One candidate bit of fi128's bisection search, mirroring `bisect_rec`.
fn bisect_step128(v: i128, res: i128, prev: i128, set_bit: i128, Ghost(k): Ghost<nat>) -> (r: i128)
    requires
        k <= 127,
        set_bit as int == if k == 0 {
            0int
        } else {
            pow2i((k - 1) as nat)
        },
        0 <= res as int,
        res as int + pow2i(k as nat) <= 170141183460469231731687303715884105728,
        (res as int) % pow2i(k as nat) == 0,
    ensures
        r as int == bisect_rec(128, v as int, res as int, prev as int, k),
        r >= 0,
    decreases k,
{
    proof {
        lemma_pow2i_consts();
        if k != 0 {
            lemma_pow2i_pos((k - 1) as nat);
        }
        lemma_pow2i_pos(k as nat);
    }
    if set_bit == 0 {
        return res;
    }
    proof {
        assert(pow2i(k as nat) == 2 * pow2i((k - 1) as nat)) by {
            vstd::arithmetic::power2::lemma_pow2_unfold(k as nat);
        }
    }
    let test: i128 = res + set_bit;
    let sq = fi128(test).saturating_mul(fi128(test));
    let sqr: i128 = sq.0;
    let res2: i128 = if sqr <= v {
        test
    } else {
        res
    };
    if sqr == v || sqr == prev {
        return res2;
    }
    proof {
        lemma_pow2_align(k as nat, res as int);
        vstd::arithmetic::div_mod::lemma_mod_add_multiples_vanish(
            res as int,
            pow2i((k - 1) as nat),
        );
        if k >= 2 {
            assert(pow2i((k - 1) as nat) == 2 * pow2i((k - 2) as nat)) by {
                vstd::arithmetic::power2::lemma_pow2_unfold((k - 1) as nat);
            }
        }
    }
    let next_bit: i128 = set_bit.checked_div_euclid(2).unwrap();
    proof {
        if k == 1 {
            vstd::arithmetic::div_mod::lemma_basic_div_specific_divisor(2);
        } else {
            vstd::arithmetic::div_mod::lemma_div_multiples_vanish(pow2i((k - 2) as nat), 2);
            assert(2 * pow2i((k - 2) as nat) == pow2i((k - 2) as nat) * 2) by (nonlinear_arith);
        }
    }
    bisect_step128(v, res2, sqr, next_bit, Ghost((k - 1) as nat))
}

impl fi128 {
    /// The slow bisection square root: tests candidate bits from high to low,
    /// keeping one only if the saturated square still fits under the operand;
    /// it always underestimates.
    pub fn sqrt_simple_bisection(self) -> (r: Self)
        ensures
            r@ == bisect_val(128, self@),
            r@ >= 0,
    {
        proof {
            lemma_pow2i_consts();
        }
        fi128(bisect_step128(self.0, 0, 0, 85070591730234615865843651857942052864, Ghost(127nat)))
    }
}

/// The refinement steps of fi16's Goldschmidt iteration, mirroring
/// `gold_rec`; the last step skips the `h` update, which the result no
/// longer depends on.
fn gold_steps16(g: fi16, h: fi16, n: usize) -> (r: fi16)
    ensures
        r@ == gold_rec(16, g@, h@, n as nat),
    decreases n,
{
    proof {
        lemma_pow2i_consts();
    }
    if n == 0 {
        return g;
    }
    let half = fi16(16384);
    let r0 = half.wrapping_sub(g.wrapping_mul(h));
    let g2 = r0.wrapping_mul(g).wrapping_add(g);
    if n == 1 {
        proof {
            assert(gold_rec(16, g@, h@, 1) == g2@) by {
                reveal_with_fuel(gold_rec, 2);
            }
        }
        return g2;
    }
    let h2 = r0.wrapping_mul(h).wrapping_add(h);
    gold_steps16(g2, h2, n - 1)
}

impl fi16 {
    /// The Goldschmidt square root iteration: from operand `self` in
    /// [0.25, 1.0) and a seed `f` close to `1/sqrt(self) - 1`, computes
    /// g = f*self + self and h = 0.5 + f/2 and refines g toward sqrt(self)
    /// for `n` steps.
    pub fn goldschmidt(self, f: Self, n: usize) -> (r: Self)
        ensures
            r@ == gold_val(16, self@, f@, n as nat),
    {
        proof {
            lemma_pow2i_consts();
        }
        let half = fi16(16384);
        let g0 = f.wrapping_mul(self).wrapping_add(self);
        let h0 = half.wrapping_add(fi16(f.0.checked_div_euclid(2).unwrap()));
        gold_steps16(g0, h0, n)
    }
}

/// The refinement steps of fi32's Goldschmidt iteration, mirroring
/// `gold_rec`; the last step skips the `h` update, which the result no
/// longer depends on.
fn gold_steps32(g: fi32, h: fi32, n: usize) -> (r: fi32)
    ensures
        r@ == gold_rec(32, g@, h@, n as nat),
    decreases n,
{
    proof {
        lemma_pow2i_consts();
    }
    if n == 0 {
        return g;
    }
    let half = fi32(1073741824);
    let r0 = half.wrapping_sub(g.wrapping_mul(h));
    let g2 = r0.wrapping_mul(g).wrapping_add(g);
    if n == 1 {
        proof {
            assert(gold_rec(32, g@, h@, 1) == g2@) by {
                reveal_with_fuel(gold_rec, 2);
            }
        }
        return g2;
    }
    let h2 = r0.wrapping_mul(h).wrapping_add(h);
    gold_steps32(g2, h2, n - 1)
}

impl fi32 {
    /// The Goldschmidt square root iteration: from operand `self` in
    /// [0.25, 1.0) and a seed `f` close to `1/sqrt(self) - 1`, computes
    /// g = f*self + self and h = 0.5 + f/2 and refines g toward sqrt(self)
    /// for `n` steps.
    pub fn goldschmidt(self, f: Self, n: usize) -> (r: Self)
        ensures
            r@ == gold_val(32, self@, f@, n as nat),
    {
        proof {
            lemma_pow2i_consts();
        }
        let half = fi32(1073741824);
        let g0 = f.wrapping_mul(self).wrapping_add(self);
        let h0 = half.wrapping_add(fi32(f.0.checked_div_euclid(2).unwrap()));
        gold_steps32(g0, h0, n)
    }
}

/// The refinement steps of fi64's Goldschmidt iteration, mirroring
/// `gold_rec`; the last step skips the `h` update, which the result no
/// longer depends on.
fn gold_steps64(g: fi64, h: fi64, n: usize) -> (r: fi64)
    ensures
        r@ == gold_rec(64, g@, h@, n as nat),
    decreases n,
{
    proof {
        lemma_pow2i_consts();
    }
    if n == 0 {
        return g;
    }
    let half = fi64(4611686018427387904);
    let r0 = half.wrapping_sub(g.wrapping_mul(h));
    let g2 = r0.wrapping_mul(g).wrapping_add(g);
    if n == 1 {
        proof {
            assert(gold_rec(64, g@, h@, 1) == g2@) by {
                reveal_with_fuel(gold_rec, 2);
            }
        }
        return g2;
    }
    let h2 = r0.wrapping_mul(h).wrapping_add(h);
    gold_steps64(g2, h2, n - 1)
}

impl fi64 {
    /// The Goldschmidt square root iteration: from operand `self` in
    /// [0.25, 1.0) and a seed `f` close to `1/sqrt(self) - 1`, computes
    /// g = f*self + self and h = 0.5 + f/2 and refines g toward sqrt(self)
    /// for `n` steps.
    pub fn goldschmidt(self, f: Self, n: usize) -> (r: Self)
        ensures
            r@ == gold_val(64, self@, f@, n as nat),
    {
        proof {
            lemma_pow2i_consts();
        }
        let half = fi64(4611686018427387904);
        let g0 = f.wrapping_mul(self).wrapping_add(self);
        let h0 = half.wrapping_add(fi64(f.0.checked_div_euclid(2).unwrap()));
        gold_steps64(g0, h0, n)
    }
}

/// The refinement steps of fi128's Goldschmidt iteration, mirroring
/// `gold_rec`; the last step skips the `h` update, which the result no
/// longer depends on.
fn gold_steps128(g: fi128, h: fi128, n: usize) -> (r: fi128)
    ensures
        r@ == gold_rec(128, g@, h@, n as nat),
    decreases n,
{
    proof {
        lemma_pow2i_consts();
    }
    if n == 0 {
        return g;
    }
    let half = fi128(85070591730234615865843651857942052864);
    let r0 = half.wrapping_sub(g.wrapping_mul(h));
    let g2 = r0.wrapping_mul(g).wrapping_add(g);
    if n == 1 {
        proof {
            assert(gold_rec(128, g@, h@, 1) == g2@) by {
                reveal_with_fuel(gold_rec, 2);
            }
        }
        return g2;
    }
    let h2 = r0.wrapping_mul(h).wrapping_add(h);
    gold_steps128(g2, h2, n - 1)
}

impl fi128 {
    /// The Goldschmidt square root iteration: from operand `self` in
    /// [0.25, 1.0) and a seed `f` close to `1/sqrt(self) - 1`, computes
    /// g = f*self + self and h = 0.5 + f/2 and refines g toward sqrt(self)
    /// for `n` steps.
    pub fn goldschmidt(self, f: Self, n: usize) -> (r: Self)
        ensures
            r@ == gold_val(128, self@, f@, n as nat),
    {
        proof {
            lemma_pow2i_consts();
        }
        let half = fi128(85070591730234615865843651857942052864);
        let g0 = f.wrapping_mul(self).wrapping_add(self);
        let h0 = half.wrapping_add(fi128(f.0.checked_div_euclid(2).unwrap()));
        gold_steps128(g0, h0, n)
    }
}


impl fi8 {
    /// A nearly exact truncated square root by bisection at double width:
    /// it always underestimates, and non-positive operands give ZERO.
    pub fn sqrt_slow(self) -> (r: Self)
        ensures
            r@ == sqrt_slow_val(8, self@),
    {
        self.widen().sqrt_simple_bisection().truncate()
    }
}

impl fi16 {
    /// A nearly exact truncated square root by bisection at double width:
    /// it always underestimates, and non-positive operands give ZERO.
    pub fn sqrt_slow(self) -> (r: Self)
        ensures
            r@ == sqrt_slow_val(16, self@),
    {
        self.widen().sqrt_simple_bisection().truncate()
    }
}

impl fi32 {
    /// A nearly exact truncated square root by bisection at double width:
    /// it always underestimates, and non-positive operands give ZERO.
    pub fn sqrt_slow(self) -> (r: Self)
        ensures
            r@ == sqrt_slow_val(32, self@),
    {
        self.widen().sqrt_simple_bisection().truncate()
    }
}

impl fi64 {
    /// A nearly exact truncated square root by bisection at double width:
    /// it always underestimates, and non-positive operands give ZERO.
    pub fn sqrt_slow(self) -> (r: Self)
        ensures
            r@ == sqrt_slow_val(64, self@),
    {
        self.widen().sqrt_simple_bisection().truncate()
    }
}

impl fi8 {
    /// The fast square root entry point: at 8 bits one seed-table read
    /// already exceeds the precision, so this is the slow bisection path.
    pub fn sqrt_fast(self) -> (r: Self)
        ensures
            r@ == sqrt_slow_val(8, self@),
    {
        self.sqrt_slow()
    }
}

impl fi16 {
    /// The fast square root: ZERO for non-positive operands; otherwise the
    /// operand is shifted into [0.25, 1.0) by an even number of bits, a
    /// reciprocal-square-root seed is read from the interpolated 16-bit
    /// table, 1 Goldschmidt step(s) refine it at full width, and the
    /// result is shifted back by half the reduction.
    pub fn sqrt_fast(self) -> (r: Self)
        ensures
            r@ == sqrt_fast_val(16, 1, self@),
    {
        proof {
            lemma_pow2i_consts();
        }
        if self.0 <= 0 {
            return fi16(0);
        }
        let lz = lz_count(self.0 as i128, 16);
        let shift: u32 = if lz >= 3 {
            (lz - 1) / 2
        } else {
            0
        };
        proof {
            vstd::arithmetic::div_mod::lemma_fundamental_div_mod((lz - 1) as int, 2);
            vstd::arithmetic::div_mod::lemma_mod_division_less_than_divisor((lz - 1) as int, 2);
            assert(2 * shift <= 16 - 2);
            lemma_pow2i_pos((2 * shift) as nat);
        }
        let m = pow2_i128(2 * shift);
        proof {
            assert((self@) * (m as int) < pow2i((16 - lz) as nat) * (m as int))
                by (nonlinear_arith)
                requires
                    (self@) < pow2i((16 - lz) as nat),
                    m >= 1,
            ;
            assert(pow2i((16 - lz) as nat) * (m as int) == pow2i((16 - lz + 2 * shift) as nat))
                by {
                vstd::arithmetic::power2::lemma_pow2_adds((16 - lz) as nat, (2 * shift) as nat);
            }
            if 16 - lz + 2 * shift < 16 - 1 {
                vstd::arithmetic::power2::lemma_pow2_strictly_increases(
                    (16 - lz + 2 * shift) as nat,
                    (16 - 1) as nat,
                );
            }
            assert(0 < (self@) * (m as int)) by (nonlinear_arith)
                requires
                    self@ >= 1,
                    m >= 1,
            ;
        }
        let s2 = fi16(((self.0 as i128) * m) as i16);
        let x16 = s2;
        proof {
            vstd::arithmetic::div_mod::lemma_div_basics(s2@);
        }
        let table = simple_isqrt_lut();
        let cut = simple_isqrt_cutoff();
        proof {
            vstd::arithmetic::div_mod::lemma_fundamental_div_mod_converse(32746, 1024, 31, 1002);
        }
        let seed16 = eval_simple_isqrt_lut(table.as_slice(), cut, SIMPLE_ISQRT_BITS, x16);
        proof {
            assert(lut_views(table@) =~= isqrt_lut());
        }
        let f = seed16;
        let g = s2.goldschmidt(f, 1);
        let d = pow2_i128(shift);
        proof {
            lemma_div_mag_le(g.0 as int, d as int);
        }
        let q: i128 = (g.0 as i128).checked_div_euclid(d).unwrap();
        fi16(q as i16)
    }
}

impl fi32 {
    /// The fast square root: ZERO for non-positive operands; otherwise the
    /// operand is shifted into [0.25, 1.0) by an even number of bits, a
    /// reciprocal-square-root seed is read from the interpolated 16-bit
    /// table, 2 Goldschmidt step(s) refine it at full width, and the
    /// result is shifted back by half the reduction.
    pub fn sqrt_fast(self) -> (r: Self)
        ensures
            r@ == sqrt_fast_val(32, 2, self@),
    {
        proof {
            lemma_pow2i_consts();
        }
        if self.0 <= 0 {
            return fi32(0);
        }
        let lz = lz_count(self.0 as i128, 32);
        let shift: u32 = if lz >= 3 {
            (lz - 1) / 2
        } else {
            0
        };
        proof {
            vstd::arithmetic::div_mod::lemma_fundamental_div_mod((lz - 1) as int, 2);
            vstd::arithmetic::div_mod::lemma_mod_division_less_than_divisor((lz - 1) as int, 2);
            assert(2 * shift <= 32 - 2);
            lemma_pow2i_pos((2 * shift) as nat);
        }
        let m = pow2_i128(2 * shift);
        proof {
            assert((self@) * (m as int) < pow2i((32 - lz) as nat) * (m as int))
                by (nonlinear_arith)
                requires
                    (self@) < pow2i((32 - lz) as nat),
                    m >= 1,
            ;
            assert(pow2i((32 - lz) as nat) * (m as int) == pow2i((32 - lz + 2 * shift) as nat))
                by {
                vstd::arithmetic::power2::lemma_pow2_adds((32 - lz) as nat, (2 * shift) as nat);
            }
            if 32 - lz + 2 * shift < 32 - 1 {
                vstd::arithmetic::power2::lemma_pow2_strictly_increases(
                    (32 - lz + 2 * shift) as nat,
                    (32 - 1) as nat,
                );
            }
            assert(0 < (self@) * (m as int)) by (nonlinear_arith)
                requires
                    self@ >= 1,
                    m >= 1,
            ;
        }
        let s2 = fi32(((self.0 as i128) * m) as i32);
        let x16 = s2.truncate();
        let table = simple_isqrt_lut();
        let cut = simple_isqrt_cutoff();
        proof {
            vstd::arithmetic::div_mod::lemma_fundamental_div_mod_converse(32746, 1024, 31, 1002);
        }
        let seed16 = eval_simple_isqrt_lut(table.as_slice(), cut, SIMPLE_ISQRT_BITS, x16);
        proof {
            assert(lut_views(table@) =~= isqrt_lut());
        }
        let f = seed16.widen();
        let g = s2.goldschmidt(f, 2);
        let d = pow2_i128(shift);
        proof {
            lemma_div_mag_le(g.0 as int, d as int);
        }
        let q: i128 = (g.0 as i128).checked_div_euclid(d).unwrap();
        fi32(q as i32)
    }
}

impl fi64 {
    /// The fast square root: ZERO for non-positive operands; otherwise the
    /// operand is shifted into [0.25, 1.0) by an even number of bits, a
    /// reciprocal-square-root seed is read from the interpolated 16-bit
    /// table, 3 Goldschmidt step(s) refine it at full width, and the
    /// result is shifted back by half the reduction.
    pub fn sqrt_fast(self) -> (r: Self)
        ensures
            r@ == sqrt_fast_val(64, 3, self@),
    {
        proof {
            lemma_pow2i_consts();
        }
        if self.0 <= 0 {
            return fi64(0);
        }
        let lz = lz_count(self.0 as i128, 64);
        let shift: u32 = if lz >= 3 {
            (lz - 1) / 2
        } else {
            0
        };
        proof {
            vstd::arithmetic::div_mod::lemma_fundamental_div_mod((lz - 1) as int, 2);
            vstd::arithmetic::div_mod::lemma_mod_division_less_than_divisor((lz - 1) as int, 2);
            assert(2 * shift <= 64 - 2);
            lemma_pow2i_pos((2 * shift) as nat);
        }
        let m = pow2_i128(2 * shift);
        proof {
            assert((self@) * (m as int) < pow2i((64 - lz) as nat) * (m as int))
                by (nonlinear_arith)
                requires
                    (self@) < pow2i((64 - lz) as nat),
                    m >= 1,
            ;
            assert(pow2i((64 - lz) as nat) * (m as int) == pow2i((64 - lz + 2 * shift) as nat))
                by {
                vstd::arithmetic::power2::lemma_pow2_adds((64 - lz) as nat, (2 * shift) as nat);
            }
            if 64 - lz + 2 * shift < 64 - 1 {
                vstd::arithmetic::power2::lemma_pow2_strictly_increases(
                    (64 - lz + 2 * shift) as nat,
                    (64 - 1) as nat,
                );
            }
            assert(0 < (self@) * (m as int)) by (nonlinear_arith)
                requires
                    self@ >= 1,
                    m >= 1,
            ;
        }
        let s2 = fi64(((self.0 as i128) * m) as i64);
        let t32 = s2.truncate();
        let x16 = t32.truncate();
        proof {
            lemma_pow2i_pos(32);
            lemma_pow2i_pos(16);
            vstd::arithmetic::div_mod::lemma_div_denominator(s2@, pow2i(32), pow2i(16));
            vstd::arithmetic::power2::lemma_pow2_adds(32, 16);
        }
        let table = simple_isqrt_lut();
        let cut = simple_isqrt_cutoff();
        proof {
            vstd::arithmetic::div_mod::lemma_fundamental_div_mod_converse(32746, 1024, 31, 1002);
        }
        let seed16 = eval_simple_isqrt_lut(table.as_slice(), cut, SIMPLE_ISQRT_BITS, x16);
        proof {
            assert(lut_views(table@) =~= isqrt_lut());
        }
        let f = seed16.widen().widen();
        let g = s2.goldschmidt(f, 3);
        let d = pow2_i128(shift);
        proof {
            lemma_div_mag_le(g.0 as int, d as int);
        }
        let q: i128 = (g.0 as i128).checked_div_euclid(d).unwrap();
        fi64(q as i64)
    }
}

impl fi128 {
    /// The fast square root: ZERO for non-positive operands; otherwise the
    /// operand is shifted into [0.25, 1.0) by an even number of bits, a
    /// reciprocal-square-root seed is read from the interpolated 16-bit
    /// table, 4 Goldschmidt step(s) refine it at full width, and the
    /// result is shifted back by half the reduction.
    pub fn sqrt_fast(self) -> (r: Self)
        ensures
            r@ == sqrt_fast_val(128, 4, self@),
    {
        proof {
            lemma_pow2i_consts();
        }
        if self.0 <= 0 {
            return fi128(0);
        }
        let lz = lz_count(self.0 as i128, 128);
        let shift: u32 = if lz >= 3 {
            (lz - 1) / 2
        } else {
            0
        };
        proof {
            vstd::arithmetic::div_mod::lemma_fundamental_div_mod((lz - 1) as int, 2);
            vstd::arithmetic::div_mod::lemma_mod_division_less_than_divisor((lz - 1) as int, 2);
            assert(2 * shift <= 128 - 2);
            lemma_pow2i_pos((2 * shift) as nat);
        }
        let m = pow2_i128(2 * shift);
        proof {
            assert((self@) * (m as int) < pow2i((128 - lz) as nat) * (m as int))
                by (nonlinear_arith)
                requires
                    (self@) < pow2i((128 - lz) as nat),
                    m >= 1,
            ;
            assert(pow2i((128 - lz) as nat) * (m as int) == pow2i((128 - lz + 2 * shift) as nat))
                by {
                vstd::arithmetic::power2::lemma_pow2_adds((128 - lz) as nat, (2 * shift) as nat);
            }
            if 128 - lz + 2 * shift < 128 - 1 {
                vstd::arithmetic::power2::lemma_pow2_strictly_increases(
                    (128 - lz + 2 * shift) as nat,
                    (128 - 1) as nat,
                );
            }
            assert(0 < (self@) * (m as int)) by (nonlinear_arith)
                requires
                    self@ >= 1,
                    m >= 1,
            ;
        }
        let s2 = fi128(((self.0 as i128) * m) as i128);
        let t64 = s2.truncate();
        let t32 = t64.truncate();
        let x16 = t32.truncate();
        proof {
            lemma_pow2i_pos(64);
            lemma_pow2i_pos(32);
            lemma_pow2i_pos(16);
            lemma_pow2i_pos(96);
            vstd::arithmetic::div_mod::lemma_div_denominator(s2@, pow2i(64), pow2i(32));
            vstd::arithmetic::power2::lemma_pow2_adds(64, 32);
            vstd::arithmetic::div_mod::lemma_div_denominator(s2@, pow2i(96), pow2i(16));
            vstd::arithmetic::power2::lemma_pow2_adds(96, 16);
        }
        let table = simple_isqrt_lut();
        let cut = simple_isqrt_cutoff();
        proof {
            vstd::arithmetic::div_mod::lemma_fundamental_div_mod_converse(32746, 1024, 31, 1002);
        }
        let seed16 = eval_simple_isqrt_lut(table.as_slice(), cut, SIMPLE_ISQRT_BITS, x16);
        proof {
            assert(lut_views(table@) =~= isqrt_lut());
        }
        let f = seed16.widen().widen().widen();
        let g = s2.goldschmidt(f, 4);
        let d = pow2_i128(shift);
        proof {
            lemma_div_mag_le(g.0 as int, d as int);
        }
        let q: i128 = (g.0 as i128).checked_div_euclid(d).unwrap();
        fi128(q as i128)
    }
}


/// Reference evaluation of `1/sqrt(x) - 1` through the slow bisection root:
/// the seed the interpolation table approximates, computed as
/// `(1.0 - sqrt(x)) / sqrt(x)` at double width and truncated back.
pub fn isqrt_sub1(x: fi16) -> (r: fi16)
    ensures
        ({
            let s = bisect_val(32, widen_val(16, x@));
            r@ == truncate_val(
                16,
                crate::model::sat_div_val(32, crate::model::sat_sub_val(32, max_val(32), s), s),
            )
        }),
{
    let sqrt = x.widen().sqrt_simple_bisection();
    fi32::max().saturating_sub(sqrt).saturating_div(sqrt).truncate()
}

} // verus!
