//! The 8-bit fracint.

use vstd::prelude::*;
use vstd::string::StringSliceAdditionalSpecFns;

use crate::fmt::to_string_val;
use crate::parse::{from_str_val, FracintSerdeError};
use crate::lemmas::{
    lemma_div_scaled_bounds, lemma_mul_scaled_bounds, lemma_pow2i_consts, lemma_tdiv_cases,
    lemma_tdiv_in_range, lemma_tdiv_mag, lemma_wrap_step,
};
use crate::model::{
    add_overflows, half_range, max_val, min_val, mul_overflows, neg_one_val, sat_abs_val,
    sat_add_val, sat_div_int_val, sat_div_val, sat_inv_val, sat_mul_int_val, sat_mul_val,
    sat_sub_val, signum_val, sub_overflows, wrap, wrap_abs_val, wrap_mul_val, wrap_neg_val,
};

verus! {

/// A signed fraction in [-1.0, 1.0) stored as an `i8`: the stored integer `n`
/// denotes `n / 2^7`.
#[allow(non_camel_case_types)]
#[derive(Clone, Copy, Debug, Hash, PartialEq, Eq, PartialOrd, Ord, Structural)]
pub struct fi8(pub i8);

impl View for fi8 {
    type V = int;

    open spec fn view(&self) -> int {
        self.0 as int
    }
}

impl fi8 {
    pub const BITS: usize = 8;

    /// 0.0
    pub fn zero() -> (r: Self)
        ensures
            r@ == 0,
    {
        fi8(0)
    }

    /// The smallest positive step.
    pub fn ulp() -> (r: Self)
        ensures
            r@ == 1,
    {
        fi8(1)
    }

    /// The closest representable value to 1.0 (1.0 itself is not
    /// representable); identical to `max`.
    pub fn one() -> (r: Self)
        ensures
            r@ == max_val(8),
    {
        proof {
            lemma_pow2i_consts();
        }
        fi8(127)
    }

    /// The ordering maximum, identical to `one`.
    pub fn max() -> (r: Self)
        ensures
            r@ == max_val(8),
    {
        Self::one()
    }

    /// The closest representable value to -1.0, deliberately one ULP above
    /// `min`.
    pub fn neg_one() -> (r: Self)
        ensures
            r@ == neg_one_val(8),
    {
        proof {
            lemma_pow2i_consts();
        }
        fi8(-127)
    }

    /// The ordering minimum: the two's-complement minimum, a hazard value
    /// that saturating operations never produce.
    pub fn min() -> (r: Self)
        ensures
            r@ == min_val(8),
    {
        proof {
            lemma_pow2i_consts();
        }
        fi8(-128)
    }

    pub fn from_int(x: i8) -> (r: Self)
        ensures
            r@ == x as int,
    {
        fi8(x)
    }

    pub fn as_int(self) -> (r: i8)
        ensures
            r as int == self@,
    {
        self.0
    }

    pub fn is_zero(self) -> (r: bool)
        ensures
            r == (self@ == 0),
    {
        self.0 == 0
    }

    pub fn is_negative(self) -> (r: bool)
        ensures
            r == (self@ < 0),
    {
        self.0 < 0
    }

    pub fn is_positive(self) -> (r: bool)
        ensures
            r == (self@ >= 0),
    {
        self.0 >= 0
    }

    pub fn signum(self) -> (r: Self)
        ensures
            r@ == signum_val(8, self@),
    {
        proof {
            lemma_pow2i_consts();
        }
        if self.0 < 0 {
            fi8(-127)
        } else if self.0 == 0 {
            fi8(0)
        } else {
            fi8(127)
        }
    }

    pub fn wrapping_neg(self) -> (r: Self)
        ensures
            r@ == wrap_neg_val(8, self@),
    {
        proof {
            lemma_pow2i_consts();
        }
        fi8((0 as i8).wrapping_sub(self.0))
    }

    pub fn overflowing_neg(self) -> (r: (Self, bool))
        ensures
            r.0@ == wrap_neg_val(8, self@),
            r.1 == (self@ == min_val(8)),
    {
        proof {
            lemma_pow2i_consts();
        }
        (self.wrapping_neg(), self.0 == i8::MIN)
    }

    pub fn checked_neg(self) -> (r: Option<Self>)
        ensures
            r == if self@ == min_val(8) {
                Option::<fi8>::None
            } else {
                Option::<fi8>::Some(fi8((-self@) as i8))
            },
    {
        proof {
            lemma_pow2i_consts();
        }
        let (v, o) = self.overflowing_neg();
        if o {
            None
        } else {
            Some(v)
        }
    }

    /// Saturating negation maps MIN to ONE; no saturating operation yields MIN.
    pub fn saturating_neg(self) -> (r: Self)
        ensures
            r@ == if self@ == min_val(8) {
                max_val(8)
            } else {
                -self@
            },
            r@ != min_val(8),
    {
        proof {
            lemma_pow2i_consts();
        }
        if self.0 == i8::MIN {
            fi8(127)
        } else {
            fi8(-self.0)
        }
    }

    pub fn wrapping_abs(self) -> (r: Self)
        ensures
            r@ == wrap_abs_val(8, self@),
    {
        if self.is_negative() {
            self.wrapping_neg()
        } else {
            self
        }
    }

    pub fn overflowing_abs(self) -> (r: (Self, bool))
        ensures
            r.0@ == wrap_abs_val(8, self@),
            r.1 == (self@ == min_val(8)),
    {
        proof {
            lemma_pow2i_consts();
        }
        (self.wrapping_abs(), self.0 == i8::MIN)
    }

    pub fn checked_abs(self) -> (r: Option<Self>)
        ensures
            r == if self@ == min_val(8) {
                Option::<fi8>::None
            } else {
                Option::<fi8>::Some(fi8(sat_abs_val(8, self@) as i8))
            },
    {
        proof {
            lemma_pow2i_consts();
        }
        let (v, o) = self.overflowing_abs();
        if o {
            None
        } else {
            Some(v)
        }
    }

    /// Saturating absolute value maps MIN to ONE; the result is never MIN.
    pub fn saturating_abs(self) -> (r: Self)
        ensures
            r@ == sat_abs_val(8, self@),
            r@ != min_val(8),
    {
        proof {
            lemma_pow2i_consts();
        }
        match self.checked_abs() {
            Some(v) => v,
            None => fi8(127),
        }
    }

    pub fn wrapping_add(self, rhs: Self) -> (r: Self)
        ensures
            r@ == wrap(8, self@ + rhs@),
    {
        proof {
            lemma_pow2i_consts();
            lemma_wrap_step(8, self@ + rhs@);
        }
        fi8(self.0.wrapping_add(rhs.0))
    }

    pub fn overflowing_add(self, rhs: Self) -> (r: (Self, bool))
        ensures
            r.0@ == wrap(8, self@ + rhs@),
            r.1 == add_overflows(8, self@, rhs@),
    {
        proof {
            lemma_pow2i_consts();
            lemma_wrap_step(8, self@ + rhs@);
        }
        let internal = self.0.wrapping_add(rhs.0);
        let wrapped = (self.0 > 0 && rhs.0 > 0 && internal < 0) || (self.0 < 0 && rhs.0 < 0
            && internal >= 0);
        (fi8(internal), wrapped || internal == i8::MIN)
    }

    pub fn checked_add(self, rhs: Self) -> (r: Option<Self>)
        ensures
            r == if add_overflows(8, self@, rhs@) {
                Option::<fi8>::None
            } else {
                Option::<fi8>::Some(fi8((self@ + rhs@) as i8))
            },
    {
        proof {
            lemma_pow2i_consts();
            lemma_wrap_step(8, self@ + rhs@);
        }
        let (v, o) = self.overflowing_add(rhs);
        if o {
            None
        } else {
            Some(v)
        }
    }

    /// Saturating addition clamps to NEG_ONE or ONE by the sign of `rhs`; the
    /// result is never MIN.
    pub fn saturating_add(self, rhs: Self) -> (r: Self)
        ensures
            r@ == sat_add_val(8, self@, rhs@),
            r@ != min_val(8),
    {
        proof {
            lemma_pow2i_consts();
            lemma_wrap_step(8, self@ + rhs@);
        }
        match self.checked_add(rhs) {
            Some(v) => v,
            None => if rhs.0 <= 0 {
                fi8(-127)
            } else {
                fi8(127)
            },
        }
    }

    pub fn wrapping_sub(self, rhs: Self) -> (r: Self)
        ensures
            r@ == wrap(8, self@ - rhs@),
    {
        proof {
            lemma_pow2i_consts();
            lemma_wrap_step(8, self@ - rhs@);
        }
        fi8(self.0.wrapping_sub(rhs.0))
    }

    pub fn overflowing_sub(self, rhs: Self) -> (r: (Self, bool))
        ensures
            r.0@ == wrap(8, self@ - rhs@),
            r.1 == sub_overflows(8, self@, rhs@),
    {
        proof {
            lemma_pow2i_consts();
            lemma_wrap_step(8, self@ - rhs@);
        }
        let internal = self.0.wrapping_sub(rhs.0);
        let wrapped = (self.0 >= 0 && rhs.0 < 0 && internal < 0) || (self.0 < 0 && rhs.0 >= 0
            && internal >= 0);
        (fi8(internal), wrapped || internal == i8::MIN)
    }

    pub fn checked_sub(self, rhs: Self) -> (r: Option<Self>)
        ensures
            r == if sub_overflows(8, self@, rhs@) {
                Option::<fi8>::None
            } else {
                Option::<fi8>::Some(fi8((self@ - rhs@) as i8))
            },
    {
        proof {
            lemma_pow2i_consts();
            lemma_wrap_step(8, self@ - rhs@);
        }
        let (v, o) = self.overflowing_sub(rhs);
        if o {
            None
        } else {
            Some(v)
        }
    }

    /// Saturating subtraction clamps to ONE or NEG_ONE by the sign of `rhs`;
    /// the result is never MIN.
    pub fn saturating_sub(self, rhs: Self) -> (r: Self)
        ensures
            r@ == sat_sub_val(8, self@, rhs@),
            r@ != min_val(8),
    {
        proof {
            lemma_pow2i_consts();
            lemma_wrap_step(8, self@ - rhs@);
        }
        match self.checked_sub(rhs) {
            Some(v) => v,
            None => if rhs.0 <= 0 {
                fi8(127)
            } else {
                fi8(-127)
            },
        }
    }

    pub fn wrapping_mul(self, rhs: Self) -> (r: Self)
        ensures
            r@ == wrap_mul_val(8, self@, rhs@),
    {
        proof {
            lemma_pow2i_consts();
            lemma_mul_scaled_bounds(8, self@, rhs@);
            lemma_wrap_step(8, (self@ * rhs@) / half_range(8));
        }
        let p: i16 = (self.0 as i16) * (rhs.0 as i16);
        let q: i16 = p.checked_div_euclid(128).unwrap();
        if q == 128 {
            fi8(-128)
        } else {
            fi8(q as i8)
        }
    }

    pub fn overflowing_mul(self, rhs: Self) -> (r: (Self, bool))
        ensures
            r.0@ == wrap_mul_val(8, self@, rhs@),
            r.1 == mul_overflows(8, self@, rhs@),
    {
        proof {
            lemma_pow2i_consts();
        }
        (self.wrapping_mul(rhs), self.0 == i8::MIN && rhs.0 == i8::MIN)
    }

    pub fn checked_mul(self, rhs: Self) -> (r: Option<Self>)
        ensures
            r == if mul_overflows(8, self@, rhs@) {
                Option::<fi8>::None
            } else {
                Option::<fi8>::Some(fi8(wrap_mul_val(8, self@, rhs@) as i8))
            },
    {
        proof {
            lemma_pow2i_consts();
        }
        let (v, o) = self.overflowing_mul(rhs);
        if o {
            None
        } else {
            Some(v)
        }
    }

    /// Saturating multiplication: the one overflow, MIN times MIN, clamps to
    /// ONE; given operands other than MIN the result is never MIN.
    pub fn saturating_mul(self, rhs: Self) -> (r: Self)
        ensures
            r@ == sat_mul_val(8, self@, rhs@),
            self@ != min_val(8) && rhs@ != min_val(8) ==> r@ != min_val(8),
    {
        proof {
            lemma_pow2i_consts();
            lemma_mul_scaled_bounds(8, self@, rhs@);
            lemma_wrap_step(8, (self@ * rhs@) / half_range(8));
        }
        if self.0 == i8::MIN && rhs.0 == i8::MIN {
            fi8(127)
        } else {
            self.wrapping_mul(rhs)
        }
    }

    /// Saturating multiplication by a plain integer; the result is never MIN.
    pub fn saturating_mul_int(self, rhs: i8) -> (r: Self)
        ensures
            r@ == sat_mul_int_val(8, self@, rhs as int),
            r@ != min_val(8),
    {
        proof {
            lemma_pow2i_consts();
            assert(-0x4000 <= self@ * rhs <= 0x4000) by (nonlinear_arith)
                requires
                    -0x80 <= self@ <= 0x7f,
                    -0x80 <= rhs <= 0x7f,
            ;
        }
        let p: i16 = (self.0 as i16) * (rhs as i16);
        if p <= -128 {
            fi8(-127)
        } else if p > 127 {
            fi8(127)
        } else {
            fi8(p as i8)
        }
    }

    /// Saturating division: a zero divisor gives the dividend's sign, a
    /// dividend of equal or larger saturated magnitude clamps to NEG_ONE or
    /// ONE by the signs' agreement; the result is never MIN.
    pub fn saturating_div(self, rhs: Self) -> (r: Self)
        ensures
            r@ == sat_div_val(8, self@, rhs@),
            r@ != min_val(8),
    {
        proof {
            lemma_pow2i_consts();
        }
        if rhs.0 == 0 {
            return self.signum();
        }
        let sa = self.saturating_abs();
        let sb = rhs.saturating_abs();
        if sa.0 >= sb.0 {
            if (self.0 < 0) != (rhs.0 < 0) {
                fi8(-127)
            } else {
                fi8(127)
            }
        } else {
            proof {
                lemma_div_scaled_bounds(8, self@, rhs@);
                lemma_tdiv_cases(self@ * 128, rhs@);
            }
            let n: i16 = (self.0 as i16) * 128;
            let q: i16 = n.checked_div(rhs.0 as i16).unwrap();
            fi8(q as i8)
        }
    }

    /// Saturating division by a plain integer.
    pub fn saturating_div_int(self, rhs: i8) -> (r: Self)
        ensures
            r@ == sat_div_int_val(8, self@, rhs as int),
    {
        proof {
            lemma_pow2i_consts();
        }
        if rhs == 0 {
            self.signum()
        } else if self.0 == i8::MIN && rhs == -1 {
            fi8(127)
        } else {
            proof {
                lemma_tdiv_cases(self@, rhs as int);
                lemma_tdiv_in_range(8, self@, rhs as int);
            }
            fi8(self.0.checked_div(rhs).unwrap())
        }
    }

    /// Saturating inversion: ONE divided by `self` as a plain integer,
    /// truncated toward zero, with zero mapped to -1.
    pub fn saturating_inv(self) -> (r: i8)
        ensures
            r as int == sat_inv_val(8, self@),
    {
        proof {
            lemma_pow2i_consts();
        }
        if self.0 == 0 {
            -1
        } else {
            proof {
                lemma_tdiv_cases(127, self@);
                lemma_tdiv_mag(127, self@);
            }
            let one: i8 = 127;
            one.checked_div(self.0).unwrap()
        }
    }

    /// Parses a base 10 string, or one prefixed with 0b, 0o or 0x for radix
    /// 2, 8 or 16: an optional '-', integer digits, an optional '.' and
    /// fraction digits, an optional 'e' or 'p' exponent (applied as
    /// radix^exponent), with '_' ignorable anywhere in a digit run.  The
    /// value is rounded to nearest, ties to even; "1.0" and "-1.0" are read
    /// as `one` and `neg_one`, anything else outside (-1.0, 1.0) is an
    /// overflow.
    pub fn from_str(s: &str) -> (r: Result<Self, FracintSerdeError>)
        ensures
            match r {
                Ok(v) => from_str_val(s.spec_bytes(), 8) == Ok::<int, FracintSerdeError>(v@),
                Err(e) => from_str_val(s.spec_bytes(), 8) == Err::<int, FracintSerdeError>(e),
            },
    {
        proof {
            lemma_pow2i_consts();
        }
        match crate::parse::parse_i128(s.as_bytes(), 8) {
            Ok(v) => Ok(fi8(v as i8)),
            Err(e) => Err(e),
        }
    }

    /// The base 10 string of the value, with ZERO, ONE/MAX and NEG_ONE/MIN
    /// rendered exactly as "0.0", "1.0" and "-1.0".
    pub fn to_string(&self) -> (r: String)
        ensures
            r@ == to_string_val(self@, 8),
    {
        proof {
            lemma_pow2i_consts();
        }
        crate::fmt::format_i128(self.0 as i128, 8)
    }

    /// Builds a value from `8` uniformly random stored bits: the one
    /// pattern equal to MIN is remapped to ZERO, so sampling never yields
    /// the hazard value.
    pub fn from_sample(bits: i8) -> (r: Self)
        ensures
            r@ == if bits == i8::MIN {
                0int
            } else {
                bits as int
            },
            r@ != min_val(8),
    {
        proof {
            lemma_pow2i_consts();
        }
        if bits == i8::MIN {
            fi8(0)
        } else {
            fi8(bits)
        }
    }
}

} // verus!
