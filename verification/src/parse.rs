//! Parsing of fracint string representations.
//!
//! The accepted grammar is `['-'] [radix-prefix] digits ['.' digits]
//! [('e'|'p') ['-'] digits]`, where the radix prefix is one of `0b` (2),
//! `0o` (8) or `0x` (16), a missing prefix means radix 10, and `_` is an
//! ignorable separator inside any digit run.  The tokenizer below is verified
//! against `scan_val`; the digits are then handed to `awint`'s
//! arbitrary-precision conversion, which rounds to nearest, ties to even, at
//! the target width's fraction-bit position.

use vstd::prelude::*;

use vstd::slice::slice_index_get;

use crate::lemmas::{lemma_pow2i_consts, lemma_pow2i_pos};
use crate::model::{half_range, in_range, max_val, min_val, neg_one_val, pow2i};

verus! {

/// The error enum used to report what went wrong while parsing a fracint.
#[derive(Clone, Copy, Debug, PartialEq, Eq, Structural)]
pub enum FracintSerdeError {
    /// The radix is outside the supported set.
    RadixOutOfRange,
    /// The input was an empty string (underscores only counts as empty).
    Empty,
    /// The input was not ASCII.
    NotAscii,
    /// The input did not have an integer part.
    EmptyInteger,
    /// The integer part has a char not in the radix.
    InvalidCharInInteger,
    /// A '.' appeared, so a non-empty fraction must follow it.
    EmptyFraction,
    /// There was an invalid char in the fraction.
    InvalidCharInFraction,
    /// There was a char for the exponent but the value was empty.
    EmptyExponent,
    /// There was a char in the exponent that was not valid.
    InvalidCharInExponent,
    /// The numeric value was not in range.
    Overflow,
    /// Miscellaneous error.
    Other,
}

/// `c` is an ignorable separator or a digit of the radix.
pub open spec fn is_digit_of(c: u8, radix: int) -> bool {
    c == 95 || if radix == 2 {
        48 <= c <= 49
    } else if radix == 8 {
        48 <= c <= 55
    } else if radix == 16 {
        (48 <= c <= 57) || (97 <= c <= 102) || (65 <= c <= 70)
    } else {
        48 <= c <= 57
    }
}

/// Every byte is an underscore (true of the empty sequence).
pub open spec fn all_underscores(s: Seq<u8>) -> bool {
    forall|i: int| 0 <= i < s.len() ==> s[i] == 95
}

/// Index of the first byte at or after `i` that is not a digit of the radix.
pub open spec fn scan_digits_end(s: Seq<u8>, i: int, radix: int) -> int
    decreases s.len() - i,
{
    if i < 0 || i >= s.len() || !is_digit_of(s[i], radix) {
        i
    } else {
        scan_digits_end(s, i + 1, radix)
    }
}

/// The tokenizer: splits the input into sign, radix, integer digits, fraction
/// digits and a signed exponent digit run, or reports the first offending
/// part.  Digit runs keep their underscores.
pub open spec fn scan_val(s: Seq<u8>) -> Result<
    (bool, int, Seq<u8>, Seq<u8>, bool, Seq<u8>),
    FracintSerdeError,
> {
    if all_underscores(s) {
        Err(FracintSerdeError::Empty)
    } else {
        let sign = s[0] == 45;
        if sign && s.len() <= 1 {
            Err(FracintSerdeError::EmptyInteger)
        } else {
            let i0: int = if sign {
                1
            } else {
                0
            };
            let radix: int = if s[i0] == 48 && i0 + 1 < s.len() {
                if s[i0 + 1] == 98 {
                    2
                } else if s[i0 + 1] == 111 {
                    8
                } else if s[i0 + 1] == 120 {
                    16
                } else {
                    10
                }
            } else {
                10
            };
            let i1 = if radix == 10 {
                i0
            } else {
                i0 + 2
            };
            let int_end = scan_digits_end(s, i1, radix);
            let integer = s.subrange(i1, int_end);
            if int_end < s.len() && s[int_end] != 46 && s[int_end] != 101 && s[int_end] != 112 {
                Err(FracintSerdeError::InvalidCharInInteger)
            } else {
                let has_frac = int_end < s.len() && s[int_end] == 46;
                let frac_end = if has_frac {
                    scan_digits_end(s, int_end + 1, radix)
                } else {
                    int_end
                };
                let fraction = if has_frac {
                    s.subrange(int_end + 1, frac_end)
                } else {
                    Seq::<u8>::empty()
                };
                if has_frac && frac_end < s.len() && s[frac_end] != 101 && s[frac_end] != 112 {
                    Err(FracintSerdeError::InvalidCharInFraction)
                } else {
                    let after = if has_frac {
                        frac_end
                    } else {
                        int_end
                    };
                    let has_exp = after < s.len();
                    let exp_neg = has_exp && after + 1 < s.len() && s[after + 1] == 45;
                    let e1 = if exp_neg {
                        after + 2
                    } else {
                        after + 1
                    };
                    let exp_end = if has_exp {
                        scan_digits_end(s, e1, radix)
                    } else {
                        after
                    };
                    let exp_digits = if has_exp {
                        s.subrange(e1, exp_end)
                    } else {
                        Seq::<u8>::empty()
                    };
                    if has_exp && exp_end < s.len() {
                        Err(FracintSerdeError::InvalidCharInExponent)
                    } else if all_underscores(integer) {
                        Err(FracintSerdeError::EmptyInteger)
                    } else if has_frac && all_underscores(fraction) {
                        Err(FracintSerdeError::EmptyFraction)
                    } else if has_exp && all_underscores(exp_digits) {
                        Err(FracintSerdeError::EmptyExponent)
                    } else {
                        Ok((sign, radix, integer, fraction, exp_neg, exp_digits))
                    }
                }
            }
        }
    }
}

/// Numeric value of a digit byte (0-9, a-f, A-F).
pub open spec fn digit_of(c: u8) -> int {
    if 48 <= c <= 57 {
        c - 48
    } else if 97 <= c <= 102 {
        c - 87
    } else {
        c - 55
    }
}

/// Unsigned value of a digit run in the radix, skipping underscores.
pub open spec fn digits_val(d: Seq<u8>, radix: int) -> int
    decreases d.len(),
{
    if d.len() == 0 {
        0
    } else {
        let rest = digits_val(d.drop_last(), radix);
        if d.last() == 95 {
            rest
        } else {
            rest * radix + digit_of(d.last())
        }
    }
}

/// The largest exponent magnitude the codec accepts; anything beyond it is
/// reported as Overflow rather than handed to the arbitrary-precision
/// machinery, whose work grows with the exponent.
pub open spec fn exp_cap() -> int {
    0x100000
}

/// What `awint`'s digits-to-fixed-point conversion returns: the `w`-bit
/// unsigned pattern of `(integer.fraction) * radix^exp`, correctly rounded to
/// nearest, ties to even, at `w - 1` fraction bits, or `None` on overflow.
pub uninterp spec fn digit_bits(
    integer: Seq<u8>,
    fraction: Seq<u8>,
    exp: int,
    radix: int,
    w: nat,
) -> Option<u128>;

/// The full parse: tokenize, convert the digits, then fold the unsigned
/// pattern into the signed stored integer.  A pattern that needs the sign bit
/// is accepted only at exactly 2^(w-1), the reading of "1.0", which maps to
/// ONE or NEG_ONE by the sign; anything larger is an overflow.
pub open spec fn from_str_val(s: Seq<u8>, w: nat) -> Result<int, FracintSerdeError> {
    match scan_val(s) {
        Err(e) => Err(e),
        Ok((sign, radix, integer, fraction, exp_neg, exp_digits)) => {
            if digits_val(exp_digits, radix) > exp_cap() {
                Err(FracintSerdeError::Overflow)
            } else {
                let exp = if exp_neg {
                    -digits_val(exp_digits, radix)
                } else {
                    digits_val(exp_digits, radix)
                };
                match digit_bits(integer, fraction, exp, radix, w) {
                    None => Err(FracintSerdeError::Overflow),
                    Some(pat) => {
                        if pat >= half_range(w) {
                            if pat == half_range(w) {
                                if sign {
                                    Ok(neg_one_val(w))
                                } else {
                                    Ok(max_val(w))
                                }
                            } else {
                                Err(FracintSerdeError::Overflow)
                            }
                        } else {
                            if sign {
                                Ok(-(pat as int))
                            } else {
                                Ok(pat as int)
                            }
                        }
                    },
                }
            }
        },
    }
}

/// Relies on awint's `Awi::from_bytes_general` (and `Bits::to_u128`): the
/// correctly rounded, ties-to-even, fixed-point reading of the digit runs at
/// `w - 1` fraction bits in a `w`-bit unsigned pattern, `None` on overflow.
/// The result depends on the arguments alone; the pattern fits in `w` bits
/// because the returned big integer has bitwidth `w` and `to_u128` zero
/// extends.
#[verifier::external_body]
fn digits_to_bits(integer: &[u8], fraction: &[u8], exp: i64, radix: u8, w: u32) -> (r: Option<
    u128,
>)
    requires
        8 <= w <= 128,
        radix == 2 || radix == 8 || radix == 10 || radix == 16,
        -0x100000 <= exp <= 0x100000,
    ensures
        r == digit_bits(integer@, fraction@, exp as int, radix as int, w as nat),
        r is Some ==> (r->Some_0 as int) < pow2i(w as nat),
{
    let bw = core::num::NonZeroUsize::new(w as usize).unwrap();
    match awint::Awi::from_bytes_general(None, integer, fraction, exp as isize, radix, bw, (w
        as isize) - 1) {
        Ok(a) => Some(a.to_u128()),
        Err(_) => None,
    }
}

fn is_digit_byte(c: u8, radix: u8) -> (r: bool)
    ensures
        r == is_digit_of(c, radix as int),
{
    if c == 95 {
        true
    } else if radix == 2 {
        48 <= c && c <= 49
    } else if radix == 8 {
        48 <= c && c <= 55
    } else if radix == 16 {
        (48 <= c && c <= 57) || (97 <= c && c <= 102) || (65 <= c && c <= 70)
    } else {
        48 <= c && c <= 57
    }
}

/// Whether bytes `from..to` are underscores only.
fn range_all_underscores(bytes: &[u8], from: usize, to: usize) -> (r: bool)
    requires
        from <= to <= bytes@.len(),
    ensures
        r == all_underscores(bytes@.subrange(from as int, to as int)),
{
    let mut i = from;
    while i < to
        invariant
            from <= i <= to <= bytes@.len(),
            forall|j: int| from <= j < i ==> bytes@[j] == 95,
        decreases to - i,
    {
        if *slice_index_get(bytes, i) != 95 {
            assert(bytes@.subrange(from as int, to as int)[i - from] != 95);
            return false;
        }
        i = i + 1;
    }
    assert forall|k: int|
        0 <= k < bytes@.subrange(from as int, to as int).len() implies bytes@.subrange(
        from as int,
        to as int,
    )[k] == 95 by {
        assert(bytes@.subrange(from as int, to as int)[k] == bytes@[from + k]);
    }
    true
}

/// Scans a digit run and returns the index just past it.
fn scan_digits(bytes: &[u8], from: usize, radix: u8) -> (end: usize)
    requires
        from <= bytes@.len(),
    ensures
        from <= end <= bytes@.len(),
        end == scan_digits_end(bytes@, from as int, radix as int),
{
    let mut i = from;
    while i < bytes.len() && is_digit_byte(*slice_index_get(bytes, i), radix)
        invariant
            from <= i <= bytes@.len(),
            scan_digits_end(bytes@, from as int, radix as int) == scan_digits_end(
                bytes@,
                i as int,
                radix as int,
            ),
        decreases bytes@.len() - i,
    {
        proof {
            lemma_scan_skip(bytes@, i as int, radix as int);
        }
        i = i + 1;
    }
    i
}

/// Copies bytes `from..to` out of the slice.
fn copy_range(bytes: &[u8], from: usize, to: usize) -> (r: Vec<u8>)
    requires
        from <= to <= bytes@.len(),
    ensures
        r@ == bytes@.subrange(from as int, to as int),
{
    let mut v: Vec<u8> = Vec::new();
    let mut i = from;
    while i < to
        invariant
            from <= i <= to <= bytes@.len(),
            v@ == bytes@.subrange(from as int, i as int),
        decreases to - i,
    {
        v.push(*slice_index_get(bytes, i));
        proof {
            assert(v@ =~= bytes@.subrange(from as int, i + 1));
        }
        i = i + 1;
    }
    v
}

/// Value of an exponent digit run, saturated just past the accepted cap.
fn exp_digits_val(digits: &Vec<u8>, radix: u8) -> (r: i64)
    requires
        radix == 2 || radix == 8 || radix == 10 || radix == 16,
        forall|j: int| 0 <= j < digits@.len() ==> is_digit_of(digits@[j], radix as int),
    ensures
        0 <= r <= exp_cap() + 1,
        digits_val(digits@, radix as int) <= exp_cap() ==> r == digits_val(
            digits@,
            radix as int,
        ),
        digits_val(digits@, radix as int) > exp_cap() ==> r == exp_cap() + 1,
{
    let mut acc: i64 = 0;
    let mut i: usize = 0;
    while i < digits.len()
        invariant
            0 <= i <= digits@.len(),
            radix == 2 || radix == 8 || radix == 10 || radix == 16,
            forall|j: int| 0 <= j < digits@.len() ==> is_digit_of(digits@[j], radix as int),
            0 <= acc <= exp_cap() + 1,
            digits_val(digits@.subrange(0, i as int), radix as int) <= exp_cap() ==> acc
                == digits_val(digits@.subrange(0, i as int), radix as int),
            digits_val(digits@.subrange(0, i as int), radix as int) > exp_cap() ==> acc == exp_cap()
                + 1,
        decreases digits@.len() - i,
    {
        let ghost pre = digits@.subrange(0, i as int);
        let ghost cur = digits@.subrange(0, i + 1);
        proof {
            assert(cur.drop_last() =~= pre);
            assert(cur.last() == digits@[i as int]);
            assert(forall|j: int| 0 <= j < pre.len() ==> is_digit_of(pre[j], radix as int));
            assert(forall|j: int| 0 <= j < cur.len() ==> is_digit_of(cur[j], radix as int));
            lemma_digits_val_nonneg(pre, radix as int);
            lemma_digits_val_step(cur, radix as int);
        }
        let c = digits[i];
        if c != 95 {
            let d: i64 = if 48 <= c && c <= 57 {
                (c - 48) as i64
            } else if 97 <= c && c <= 102 {
                (c - 87) as i64
            } else {
                (c - 55) as i64
            };
            if acc > 0x100000 {
                acc = 0x100000 + 1;
            } else {
                proof {
                    assert(acc * (radix as i64) <= 0x100000 * 16) by (nonlinear_arith)
                        requires
                            0 <= acc <= 0x100000,
                            2 <= radix <= 16,
                    ;
                    assert(acc * (radix as i64) >= 0) by (nonlinear_arith)
                        requires
                            0 <= acc,
                            2 <= radix,
                    ;
                }
                acc = acc * (radix as i64) + d;
                if acc > 0x100000 {
                    acc = 0x100000 + 1;
                }
            }
        }
        i = i + 1;
    }
    proof {
        assert(digits@.subrange(0, digits@.len() as int) =~= digits@);
    }
    acc
}

/// The value of a digit run is nonnegative.
proof fn lemma_digits_val_nonneg(d: Seq<u8>, radix: int)
    requires
        radix >= 2,
        forall|j: int| 0 <= j < d.len() ==> is_digit_of(d[j], radix),
    ensures
        digits_val(d, radix) >= 0,
    decreases d.len(),
{
    if d.len() > 0 {
        assert(forall|j: int| 0 <= j < d.drop_last().len() ==> d.drop_last()[j] == d[j]);
        lemma_digits_val_nonneg(d.drop_last(), radix);
        let rest = digits_val(d.drop_last(), radix);
        if d.last() != 95 {
            assert(rest * radix >= 0) by (nonlinear_arith)
                requires
                    rest >= 0,
                    radix >= 2,
            ;
            assert(digit_of(d.last()) >= 0);
        }
    }
}

/// One unfolding step of `digits_val`, with the growth bound the saturating
/// accumulator needs.
proof fn lemma_digits_val_step(d: Seq<u8>, radix: int)
    requires
        radix >= 2,
        d.len() > 0,
        forall|j: int| 0 <= j < d.len() ==> is_digit_of(d[j], radix),
    ensures
        digits_val(d, radix) >= digits_val(d.drop_last(), radix),
{
    assert(forall|j: int| 0 <= j < d.drop_last().len() ==> d.drop_last()[j] == d[j]);
    lemma_digits_val_nonneg(d.drop_last(), radix);
    let rest = digits_val(d.drop_last(), radix);
    if d.last() != 95 {
        assert(rest * radix >= rest * 1) by (nonlinear_arith)
            requires
                rest >= 0,
                radix >= 1,
        ;
        assert(digit_of(d.last()) >= 0);
    }
}

/// Bridges the executable byte-by-byte scan and `scan_digits_end`.
proof fn lemma_scan_skip(s: Seq<u8>, i: int, radix: int)
    requires
        0 <= i < s.len(),
        is_digit_of(s[i], radix),
    ensures
        scan_digits_end(s, i, radix) == scan_digits_end(s, i + 1, radix),
{
}

/// Everything a digit scan passed over is a digit of the radix, and the scan
/// stays inside the string.
proof fn lemma_scan_digits_range(s: Seq<u8>, i: int, radix: int)
    requires
        0 <= i <= s.len(),
    ensures
        i <= scan_digits_end(s, i, radix) <= s.len(),
        forall|j: int| i <= j < scan_digits_end(s, i, radix) ==> is_digit_of(s[j], radix),
    decreases s.len() - i,
{
    if i < s.len() && is_digit_of(s[i], radix) {
        lemma_scan_digits_range(s, i + 1, radix);
    }
}

/// Tokenized parts of the input, as index ranges into the byte string.
struct ScanParts {
    sign: bool,
    radix: u8,
    int_start: usize,
    int_end: usize,
    has_frac: bool,
    frac_start: usize,
    frac_end: usize,
    has_exp: bool,
    exp_neg: bool,
    exp_start: usize,
    exp_end: usize,
}

/// The executable tokenizer; its outcome is exactly `scan_val`.
fn scan_tokens(bytes: &[u8]) -> (r: Result<ScanParts, FracintSerdeError>)
    ensures
        match r {
            Err(e) => scan_val(bytes@) == Err::<(bool, int, Seq<u8>, Seq<u8>, bool, Seq<u8>),
                FracintSerdeError,
            >(e),
            Ok(p) => {
                &&& scan_val(bytes@) matches Ok(t)
                &&& t.0 == p.sign
                &&& t.1 == p.radix as int
                &&& p.int_start <= p.int_end <= bytes@.len()
                &&& p.frac_start <= p.frac_end <= bytes@.len()
                &&& p.exp_start <= p.exp_end <= bytes@.len()
                &&& t.2 == bytes@.subrange(p.int_start as int, p.int_end as int)
                &&& t.3 == if p.has_frac {
                    bytes@.subrange(p.frac_start as int, p.frac_end as int)
                } else {
                    Seq::<u8>::empty()
                }
                &&& t.4 == p.exp_neg
                &&& t.5 == if p.has_exp {
                    bytes@.subrange(p.exp_start as int, p.exp_end as int)
                } else {
                    Seq::<u8>::empty()
                }
                &&& (p.radix == 2 || p.radix == 8 || p.radix == 10 || p.radix == 16)
                &&& (p.has_exp ==> p.exp_end == scan_digits_end(
                    bytes@,
                    p.exp_start as int,
                    p.radix as int,
                ))
            },
        },
{
    let n = bytes.len();
    if range_all_underscores(bytes, 0, n) {
        proof {
            assert(bytes@.subrange(0, n as int) =~= bytes@);
        }
        return Err(FracintSerdeError::Empty);
    }
    proof {
        assert(bytes@.subrange(0, n as int) =~= bytes@);
    }
    let sign = *slice_index_get(bytes, 0) == 45;
    if sign && n <= 1 {
        return Err(FracintSerdeError::EmptyInteger);
    }
    let i0: usize = if sign {
        1
    } else {
        0
    };
    let radix: u8 = if *slice_index_get(bytes, i0) == 48 && i0 + 1 < n {
        let c1 = *slice_index_get(bytes, i0 + 1);
        if c1 == 98 {
            2
        } else if c1 == 111 {
            8
        } else if c1 == 120 {
            16
        } else {
            10
        }
    } else {
        10
    };
    let i1: usize = if radix == 10 {
        i0
    } else {
        i0 + 2
    };
    let int_end = scan_digits(bytes, i1, radix);
    if int_end < n {
        let c = *slice_index_get(bytes, int_end);
        if c != 46 && c != 101 && c != 112 {
            return Err(FracintSerdeError::InvalidCharInInteger);
        }
    }
    let has_frac = int_end < n && *slice_index_get(bytes, int_end) == 46;
    let frac_start = if has_frac {
        int_end + 1
    } else {
        int_end
    };
    let frac_end = if has_frac {
        scan_digits(bytes, frac_start, radix)
    } else {
        int_end
    };
    if has_frac && frac_end < n {
        let c = *slice_index_get(bytes, frac_end);
        if c != 101 && c != 112 {
            return Err(FracintSerdeError::InvalidCharInFraction);
        }
    }
    let after = if has_frac {
        frac_end
    } else {
        int_end
    };
    let has_exp = after < n;
    let exp_neg = has_exp && after + 1 < n && *slice_index_get(bytes, after + 1) == 45;
    let exp_start: usize = if exp_neg {
        after + 2
    } else if has_exp {
        after + 1
    } else {
        after
    };
    let exp_end = if has_exp {
        scan_digits(bytes, exp_start, radix)
    } else {
        after
    };
    if has_exp && exp_end < n {
        return Err(FracintSerdeError::InvalidCharInExponent);
    }
    if range_all_underscores(bytes, i1, int_end) {
        return Err(FracintSerdeError::EmptyInteger);
    }
    if has_frac && range_all_underscores(bytes, frac_start, frac_end) {
        return Err(FracintSerdeError::EmptyFraction);
    }
    if has_exp && range_all_underscores(bytes, exp_start, exp_end) {
        return Err(FracintSerdeError::EmptyExponent);
    }
    Ok(
        ScanParts {
            sign,
            radix,
            int_start: i1,
            int_end,
            has_frac,
            frac_start,
            frac_end,
            has_exp,
            exp_neg,
            exp_start,
            exp_end,
        },
    )
}

/// The shared parse engine: the stored integer of the reading of `bytes` at
/// width `w`, or the first parse error, exactly as `from_str_val` describes.
pub(crate) fn parse_i128(bytes: &[u8], w: u32) -> (r: Result<i128, FracintSerdeError>)
    requires
        8 <= w <= 128,
    ensures
        match r {
            Ok(v) => from_str_val(bytes@, w as nat) == Ok::<int, FracintSerdeError>(v as int)
                && in_range(w as nat, v as int),
            Err(e) => from_str_val(bytes@, w as nat) == Err::<int, FracintSerdeError>(e),
        },
{
    proof {
        lemma_pow2i_pos((w - 1) as nat);
        lemma_pow2i_consts();
        if w < 128 {
            vstd::arithmetic::power2::lemma_pow2_strictly_increases((w - 1) as nat, 127);
        }
    }
    let p = match scan_tokens(bytes) {
        Err(e) => {
            return Err(e);
        },
        Ok(p) => p,
    };
    let integer = copy_range(bytes, p.int_start, p.int_end);
    let fraction = if p.has_frac {
        copy_range(bytes, p.frac_start, p.frac_end)
    } else {
        Vec::new()
    };
    let exp_digits = if p.has_exp {
        copy_range(bytes, p.exp_start, p.exp_end)
    } else {
        Vec::new()
    };
    proof {
        if !p.has_frac {
            assert(fraction@ =~= Seq::<u8>::empty());
        }
        if !p.has_exp {
            assert(exp_digits@ =~= Seq::<u8>::empty());
        }
        lemma_scan_digits_range(bytes@, p.exp_start as int, p.radix as int);
        assert(forall|j: int| 0 <= j < exp_digits@.len() ==> is_digit_of(
            exp_digits@[j],
            p.radix as int,
        )) by {
            assert(forall|j: int| 0 <= j < exp_digits@.len() ==> exp_digits@[j] == bytes@[
                p.exp_start + j
            ]);
        }
    }
    let exp_mag = exp_digits_val(&exp_digits, p.radix);
    if exp_mag > 0x100000 {
        return Err(FracintSerdeError::Overflow);
    }
    let exp: i64 = if p.exp_neg {
        -exp_mag
    } else {
        exp_mag
    };
    let pat = match digits_to_bits(integer.as_slice(), fraction.as_slice(), exp, p.radix, w) {
        None => {
            return Err(FracintSerdeError::Overflow);
        },
        Some(pat) => pat,
    };
    let half: u128 = half_pattern(w);
    if pat >= half {
        if pat == half {
            let m: i128 = (half - 1) as i128;
            if p.sign {
                Ok(-m)
            } else {
                Ok(m)
            }
        } else {
            Err(FracintSerdeError::Overflow)
        }
    } else {
        let v: i128 = pat as i128;
        if p.sign {
            Ok(-v)
        } else {
            Ok(v)
        }
    }
}

/// 2^(w-1) as a pattern, for the sign-bit tests of the parse engine.
pub(crate) fn half_pattern(w: u32) -> (r: u128)
    requires
        1 <= w <= 128,
    ensures
        r as int == half_range(w as nat),
{
    proof {
        vstd::arithmetic::power2::lemma2_to64();
    }
    let mut r: u128 = 1;
    let mut i: u32 = 1;
    while i < w
        invariant
            1 <= i <= w <= 128,
            r as int == pow2i((i - 1) as nat),
        decreases w - i,
    {
        proof {
            lemma_pow2i_pos((i - 1) as nat);
            vstd::arithmetic::power2::lemma_pow2_strictly_increases(i as nat, 128);
            lemma_pow2i_consts();
            assert(pow2i(i as nat) == 2 * pow2i((i - 1) as nat)) by {
                vstd::arithmetic::power2::lemma_pow2_unfold(i as nat);
            }
        }
        r = r * 2;
        i = i + 1;
    }
    r
}

} // verus!
