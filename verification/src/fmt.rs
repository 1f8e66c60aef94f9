//! Formatting of fracints as base 10 strings.
//!
//! ZERO, ONE/MAX and NEG_ONE/MIN are special-cased to the fixed literals
//! "0.0", "1.0" and "-1.0"; every other value goes through `awint`'s
//! arbitrary-precision fixed-point-to-decimal conversion, which emits enough
//! fraction digits that every distinct stored value maps to a distinct
//! string, with trailing zeros trimmed.

use vstd::prelude::*;
use vstd::string::StringExecFns;

use crate::lemmas::{lemma_pow2i_consts, lemma_pow2i_pos};
use crate::model::{in_range, max_val, min_val, neg_one_val};

verus! {

/// What `awint`'s fixed-point-to-decimal conversion returns for the value
/// `v / 2^frac_bits`: the integer and fraction digit runs of its absolute
/// value, without sign or point.
pub uninterp spec fn decimal_digits(v: int, frac_bits: nat) -> (Seq<char>, Seq<char>);

/// The base 10 string of a stored integer `v` at width `w`: fixed literals
/// for the boundary values, otherwise an optional minus sign, the integer
/// digits, a point, and the fraction digits.
pub open spec fn to_string_val(v: int, w: nat) -> Seq<char> {
    if v == 0 {
        "0.0"@
    } else if v == max_val(w) {
        "1.0"@
    } else if v == min_val(w) || v == neg_one_val(w) {
        "-1.0"@
    } else {
        let d = decimal_digits(v, (w - 1) as nat);
        if v < 0 {
            "-"@ + d.0 + "."@ + d.1
        } else {
            d.0 + "."@ + d.1
        }
    }
}

/// Relies on awint's `FP::to_str_general` at radix 10: the digit runs of the
/// fixed-point value's absolute value, the fraction carrying exactly enough
/// digits to tell distinct stored values apart, trailing zeros trimmed, and
/// at least one digit in each part.  The result depends on the arguments
/// alone.
#[verifier::external_body]
fn fixed_to_digits(v: i128, frac_bits: u32) -> (r: (String, String))
    requires
        1 <= frac_bits <= 127,
    ensures
        (r.0@, r.1@) == decimal_digits(v as int, frac_bits as nat),
{
    let fp = awint::FP::new(true, awint::InlAwi::from_i128(v), frac_bits as isize).unwrap();
    let (i, f) = awint::FP::to_str_general(&fp, 10, false, 1, 1, 4096).unwrap();
    (i, f)
}

/// The shared formatting engine behind every width's `to_string`.
pub(crate) fn format_i128(v: i128, w: u32) -> (r: String)
    requires
        8 <= w <= 128,
        in_range(w as nat, v as int),
    ensures
        r@ == to_string_val(v as int, w as nat),
{
    proof {
        lemma_pow2i_pos((w - 1) as nat);
        lemma_pow2i_consts();
        if w < 128 {
            vstd::arithmetic::power2::lemma_pow2_strictly_increases((w - 1) as nat, 127);
        }
    }
    let half: u128 = crate::parse::half_pattern(w);
    let m: i128 = (half - 1) as i128;
    if v == 0 {
        return "0.0".to_owned();
    }
    if v == m {
        return "1.0".to_owned();
    }
    if v == -m || v == -m - 1 {
        return "-1.0".to_owned();
    }
    let d = fixed_to_digits(v, w - 1);
    let mut out = String::new();
    if v < 0 {
        out.append("-");
    }
    out.append(d.0.as_str());
    out.append(".");
    out.append(d.1.as_str());
    proof {
        let dd = decimal_digits(v as int, (w - 1) as nat);
        if v < 0 {
            assert(out@ =~= "-"@ + dd.0 + "."@ + dd.1);
        } else {
            assert(out@ =~= dd.0 + "."@ + dd.1);
        }
    }
    out
}

} // verus!
