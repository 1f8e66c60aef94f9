//! The 128-bit fracint.

use vstd::prelude::*;
use vstd::string::StringSliceAdditionalSpecFns;

use crate::fmt::to_string_val;
use crate::parse::{from_str_val, FracintSerdeError};
use crate::lemmas::{
    lemma_div_scaled_bounds, lemma_mul_scaled_bounds, lemma_pow2i_consts, lemma_tdiv_cases,
    lemma_tdiv_in_range, lemma_tdiv_mag, lemma_wrap_step,
};
use crate::model::{
    add_overflows, div_scaled, half_range, max_val, min_val, mul_overflows, neg_one_val,
    sat_abs_val, sat_add_val, sat_div_int_val, sat_div_val, sat_inv_val, sat_mul_int_val,
    sat_mul_val, sat_sub_val, signum_val, sub_overflows, tdiv, wrap, wrap_abs_val, wrap_mul_val,
    wrap_neg_val,
};

verus! {

/// A signed fraction in [-1.0, 1.0) stored as an `i128`: the stored integer `n`
/// denotes `n / 2^127`.
#[allow(non_camel_case_types)]
#[derive(Clone, Copy, Debug, Hash, PartialEq, Eq, PartialOrd, Ord, Structural)]
pub struct fi128(pub i128);

impl View for fi128 {
    type V = int;

    open spec fn view(&self) -> int {
        self.0 as int
    }
}

impl fi128 {
    pub const BITS: usize = 128;

    /// 0.0
    pub fn zero() -> (r: Self)
        ensures
            r@ == 0,
    {
        fi128(0)
    }

    /// The smallest positive step.
    pub fn ulp() -> (r: Self)
        ensures
            r@ == 1,
    {
        fi128(1)
    }

    /// The closest representable value to 1.0 (1.0 itself is not
    /// representable); identical to `max`.
    pub fn one() -> (r: Self)
        ensures
            r@ == max_val(128),
    {
        proof {
            lemma_pow2i_consts();
        }
        fi128(170141183460469231731687303715884105727)
    }

    /// The ordering maximum, identical to `one`.
    pub fn max() -> (r: Self)
        ensures
            r@ == max_val(128),
    {
        Self::one()
    }

    /// The closest representable value to -1.0, deliberately one ULP above
    /// `min`.
    pub fn neg_one() -> (r: Self)
        ensures
            r@ == neg_one_val(128),
    {
        proof {
            lemma_pow2i_consts();
        }
        fi128(-170141183460469231731687303715884105727)
    }

    /// The ordering minimum: the two's-complement minimum, a hazard value
    /// that saturating operations never produce.
    pub fn min() -> (r: Self)
        ensures
            r@ == min_val(128),
    {
        proof {
            lemma_pow2i_consts();
        }
        fi128(-170141183460469231731687303715884105728)
    }

    pub fn from_int(x: i128) -> (r: Self)
        ensures
            r@ == x as int,
    {
        fi128(x)
    }

    pub fn as_int(self) -> (r: i128)
        ensures
            r as int == self@,
    {
        self.0
    }

    /// Unsigned magnitude of a stored integer (MIN included).
    fn magnitude(x: i128) -> (r: u128)
        ensures
            r == if x < 0 {
                -(x as int)
            } else {
                x as int
            },
    {
        if x < 0 {
            let m: i128 = -(x + 1);
            (m as u128) + 1
        } else {
            x as u128
        }
    }

    /// The stored integer whose value is `-(q as int)`, for `q` at most one
    /// past the positive range.
    fn negate_mag(q: u128) -> (r: i128)
        requires
            q <= 0x8000_0000_0000_0000_0000_0000_0000_0000u128,
        ensures
            r as int == wrap(128, -(q as int)),
    {
        proof {
            lemma_pow2i_consts();
            lemma_wrap_step(128, -(q as int));
        }
        if q == 0 {
            0
        } else {
            let m: i128 = (q - 1) as i128;
            -m - 1
        }
    }

    pub fn is_zero(self) -> (r: bool)
        ensures
            r == (self@ == 0),
    {
        self.0 == 0
    }

    pub fn is_negative(self) -> (r: bool)
        ensures
            r == (self@ < 0),
    {
        self.0 < 0
    }

    pub fn is_positive(self) -> (r: bool)
        ensures
            r == (self@ >= 0),
    {
        self.0 >= 0
    }

    pub fn signum(self) -> (r: Self)
        ensures
            r@ == signum_val(128, self@),
    {
        proof {
            lemma_pow2i_consts();
        }
        if self.0 < 0 {
            fi128(-170141183460469231731687303715884105727)
        } else if self.0 == 0 {
            fi128(0)
        } else {
            fi128(170141183460469231731687303715884105727)
        }
    }

    pub fn wrapping_neg(self) -> (r: Self)
        ensures
            r@ == wrap_neg_val(128, self@),
    {
        proof {
            lemma_pow2i_consts();
        }
        fi128((0 as i128).wrapping_sub(self.0))
    }

    pub fn overflowing_neg(self) -> (r: (Self, bool))
        ensures
            r.0@ == wrap_neg_val(128, self@),
            r.1 == (self@ == min_val(128)),
    {
        proof {
            lemma_pow2i_consts();
        }
        (self.wrapping_neg(), self.0 == i128::MIN)
    }

    pub fn checked_neg(self) -> (r: Option<Self>)
        ensures
            r == if self@ == min_val(128) {
                Option::<fi128>::None
            } else {
                Option::<fi128>::Some(fi128((-self@) as i128))
            },
    {
        proof {
            lemma_pow2i_consts();
        }
        let (v, o) = self.overflowing_neg();
        if o {
            None
        } else {
            Some(v)
        }
    }

    /// Saturating negation maps MIN to ONE; no saturating operation yields MIN.
    pub fn saturating_neg(self) -> (r: Self)
        ensures
            r@ == if self@ == min_val(128) {
                max_val(128)
            } else {
                -self@
            },
            r@ != min_val(128),
    {
        proof {
            lemma_pow2i_consts();
        }
        if self.0 == i128::MIN {
            fi128(170141183460469231731687303715884105727)
        } else {
            fi128(-self.0)
        }
    }

    pub fn wrapping_abs(self) -> (r: Self)
        ensures
            r@ == wrap_abs_val(128, self@),
    {
        if self.is_negative() {
            self.wrapping_neg()
        } else {
            self
        }
    }

    pub fn overflowing_abs(self) -> (r: (Self, bool))
        ensures
            r.0@ == wrap_abs_val(128, self@),
            r.1 == (self@ == min_val(128)),
    {
        proof {
            lemma_pow2i_consts();
        }
        (self.wrapping_abs(), self.0 == i128::MIN)
    }

    pub fn checked_abs(self) -> (r: Option<Self>)
        ensures
            r == if self@ == min_val(128) {
                Option::<fi128>::None
            } else {
                Option::<fi128>::Some(fi128(sat_abs_val(128, self@) as i128))
            },
    {
        proof {
            lemma_pow2i_consts();
        }
        let (v, o) = self.overflowing_abs();
        if o {
            None
        } else {
            Some(v)
        }
    }

    /// Saturating absolute value maps MIN to ONE; the result is never MIN.
    pub fn saturating_abs(self) -> (r: Self)
        ensures
            r@ == sat_abs_val(128, self@),
            r@ != min_val(128),
    {
        proof {
            lemma_pow2i_consts();
        }
        match self.checked_abs() {
            Some(v) => v,
            None => fi128(170141183460469231731687303715884105727),
        }
    }

    pub fn wrapping_add(self, rhs: Self) -> (r: Self)
        ensures
            r@ == wrap(128, self@ + rhs@),
    {
        proof {
            lemma_pow2i_consts();
            lemma_wrap_step(128, self@ + rhs@);
        }
        fi128(self.0.wrapping_add(rhs.0))
    }

    pub fn overflowing_add(self, rhs: Self) -> (r: (Self, bool))
        ensures
            r.0@ == wrap(128, self@ + rhs@),
            r.1 == add_overflows(128, self@, rhs@),
    {
        proof {
            lemma_pow2i_consts();
            lemma_wrap_step(128, self@ + rhs@);
        }
        let internal = self.0.wrapping_add(rhs.0);
        let wrapped = (self.0 > 0 && rhs.0 > 0 && internal < 0) || (self.0 < 0 && rhs.0 < 0
            && internal >= 0);
        (fi128(internal), wrapped || internal == i128::MIN)
    }

    pub fn checked_add(self, rhs: Self) -> (r: Option<Self>)
        ensures
            r == if add_overflows(128, self@, rhs@) {
                Option::<fi128>::None
            } else {
                Option::<fi128>::Some(fi128((self@ + rhs@) as i128))
            },
    {
        proof {
            lemma_pow2i_consts();
            lemma_wrap_step(128, self@ + rhs@);
        }
        let (v, o) = self.overflowing_add(rhs);
        if o {
            None
        } else {
            Some(v)
        }
    }

    /// Saturating addition clamps to NEG_ONE or ONE by the sign of `rhs`; the
    /// result is never MIN.
    pub fn saturating_add(self, rhs: Self) -> (r: Self)
        ensures
            r@ == sat_add_val(128, self@, rhs@),
            r@ != min_val(128),
    {
        proof {
            lemma_pow2i_consts();
            lemma_wrap_step(128, self@ + rhs@);
        }
        match self.checked_add(rhs) {
            Some(v) => v,
            None => if rhs.0 <= 0 {
                fi128(-170141183460469231731687303715884105727)
            } else {
                fi128(170141183460469231731687303715884105727)
            },
        }
    }

    pub fn wrapping_sub(self, rhs: Self) -> (r: Self)
        ensures
            r@ == wrap(128, self@ - rhs@),
    {
        proof {
            lemma_pow2i_consts();
            lemma_wrap_step(128, self@ - rhs@);
        }
        fi128(self.0.wrapping_sub(rhs.0))
    }

    pub fn overflowing_sub(self, rhs: Self) -> (r: (Self, bool))
        ensures
            r.0@ == wrap(128, self@ - rhs@),
            r.1 == sub_overflows(128, self@, rhs@),
    {
        proof {
            lemma_pow2i_consts();
            lemma_wrap_step(128, self@ - rhs@);
        }
        let internal = self.0.wrapping_sub(rhs.0);
        let wrapped = (self.0 >= 0 && rhs.0 < 0 && internal < 0) || (self.0 < 0 && rhs.0 >= 0
            && internal >= 0);
        (fi128(internal), wrapped || internal == i128::MIN)
    }

    pub fn checked_sub(self, rhs: Self) -> (r: Option<Self>)
        ensures
            r == if sub_overflows(128, self@, rhs@) {
                Option::<fi128>::None
            } else {
                Option::<fi128>::Some(fi128((self@ - rhs@) as i128))
            },
    {
        proof {
            lemma_pow2i_consts();
            lemma_wrap_step(128, self@ - rhs@);
        }
        let (v, o) = self.overflowing_sub(rhs);
        if o {
            None
        } else {
            Some(v)
        }
    }

    /// Saturating subtraction clamps to ONE or NEG_ONE by the sign of `rhs`;
    /// the result is never MIN.
    pub fn saturating_sub(self, rhs: Self) -> (r: Self)
        ensures
            r@ == sat_sub_val(128, self@, rhs@),
            r@ != min_val(128),
    {
        proof {
            lemma_pow2i_consts();
            lemma_wrap_step(128, self@ - rhs@);
        }
        match self.checked_sub(rhs) {
            Some(v) => v,
            None => if rhs.0 <= 0 {
                fi128(170141183460469231731687303715884105727)
            } else {
                fi128(-170141183460469231731687303715884105727)
            },
        }
    }

    pub fn wrapping_mul(self, rhs: Self) -> (r: Self)
        ensures
            r@ == wrap_mul_val(128, self@, rhs@),
    {
        proof {
            lemma_pow2i_consts();
            lemma_mul_scaled_bounds(128, self@, rhs@);
            lemma_wrap_step(128, tdiv(self@ * rhs@, half_range(128)));
        }
        let neg = (self.0 < 0) != (rhs.0 < 0);
        let ua = Self::magnitude(self.0);
        let ub = Self::magnitude(rhs.0);
        let (lo, hi) = awint::awint_internals::widening_mul_add_u128(ua, ub, 0);
        proof {
            assert(ua * ub <= 28948022309329048855892746252171976963317496166410141009864396001978282409984) by (nonlinear_arith)
                requires
                    ua <= 170141183460469231731687303715884105728,
                    ub <= 170141183460469231731687303715884105728,
            ;
            vstd::arithmetic::div_mod::lemma_fundamental_div_mod_converse(
                (lo + hi * 0x1_0000_0000_0000_0000_0000_0000_0000_0000) as int,
                170141183460469231731687303715884105728,
                2 * (hi as int) + (lo as int) / 170141183460469231731687303715884105728,
                (lo as int) % 170141183460469231731687303715884105728,
            );
        }
        let mag: u128 = hi * 2 + lo / 170141183460469231731687303715884105728u128;
        proof {
            assert(mag == ((ua * ub) as int) / 170141183460469231731687303715884105728);
            assert(if (self@ < 0) != (rhs@ < 0) {
                self@ * rhs@ <= 0 && ua * ub == -(self@ * rhs@)
            } else {
                self@ * rhs@ >= 0 && ua * ub == self@ * rhs@
            }) by (nonlinear_arith)
                requires
                    ua == if self@ < 0 {
                        -self@
                    } else {
                        self@
                    },
                    ub == if rhs@ < 0 {
                        -rhs@
                    } else {
                        rhs@
                    },
            ;
            lemma_tdiv_mag(self@ * rhs@, half_range(128));
            lemma_wrap_step(128, mag as int);
            lemma_wrap_step(128, -(mag as int));
        }
        if neg {
            fi128(Self::negate_mag(mag))
        } else {
            if mag == 170141183460469231731687303715884105728u128 {
                fi128(i128::MIN)
            } else {
                fi128(mag as i128)
            }
        }
    }

    pub fn overflowing_mul(self, rhs: Self) -> (r: (Self, bool))
        ensures
            r.0@ == wrap_mul_val(128, self@, rhs@),
            r.1 == mul_overflows(128, self@, rhs@),
    {
        proof {
            lemma_pow2i_consts();
        }
        (self.wrapping_mul(rhs), self.0 == i128::MIN && rhs.0 == i128::MIN)
    }

    pub fn checked_mul(self, rhs: Self) -> (r: Option<Self>)
        ensures
            r == if mul_overflows(128, self@, rhs@) {
                Option::<fi128>::None
            } else {
                Option::<fi128>::Some(fi128(wrap_mul_val(128, self@, rhs@) as i128))
            },
    {
        proof {
            lemma_pow2i_consts();
        }
        let (v, o) = self.overflowing_mul(rhs);
        if o {
            None
        } else {
            Some(v)
        }
    }

    /// Saturating multiplication: the one overflow, MIN times MIN, clamps to
    /// ONE; given operands other than MIN the result is never MIN.
    pub fn saturating_mul(self, rhs: Self) -> (r: Self)
        ensures
            r@ == sat_mul_val(128, self@, rhs@),
            self@ != min_val(128) && rhs@ != min_val(128) ==> r@ != min_val(128),
    {
        proof {
            lemma_pow2i_consts();
            lemma_mul_scaled_bounds(128, self@, rhs@);
            lemma_wrap_step(128, (self@ * rhs@) / half_range(128));
        }
        if self.0 == i128::MIN && rhs.0 == i128::MIN {
            fi128(170141183460469231731687303715884105727)
        } else {
            self.wrapping_mul(rhs)
        }
    }

    /// Saturating multiplication by a plain integer; the result is never MIN.
    pub fn saturating_mul_int(self, rhs: i128) -> (r: Self)
        ensures
            r@ == sat_mul_int_val(128, self@, rhs as int),
            r@ != min_val(128),
    {
        proof {
            lemma_pow2i_consts();
        }
        match self.0.checked_mul(rhs) {
            Some(p) => if p == i128::MIN {
                fi128(-170141183460469231731687303715884105727)
            } else {
                fi128(p)
            },
            None => {
                proof {
                    if (self@ < 0) == ((rhs as int) < 0) {
                        assert(self@ * rhs >= 0) by (nonlinear_arith)
                            requires
                                (self@ < 0) == ((rhs as int) < 0),
                        ;
                    } else {
                        assert(self@ * rhs <= 0) by (nonlinear_arith)
                            requires
                                (self@ < 0) != ((rhs as int) < 0),
                        ;
                    }
                }
                if (self.0 < 0) != (rhs < 0) {
                    fi128(-170141183460469231731687303715884105727)
                } else {
                    fi128(170141183460469231731687303715884105727)
                }
            },
        }
    }

    /// Saturating division: a zero divisor gives the dividend's sign, a
    /// dividend of equal or larger saturated magnitude clamps to NEG_ONE or
    /// ONE by the signs' agreement; the result is never MIN.
    pub fn saturating_div(self, rhs: Self) -> (r: Self)
        ensures
            r@ == sat_div_val(128, self@, rhs@),
            r@ != min_val(128),
    {
        proof {
            lemma_pow2i_consts();
        }
        if rhs.0 == 0 {
            return self.signum();
        }
        let sa = self.saturating_abs();
        let sb = rhs.saturating_abs();
        if sa.0 >= sb.0 {
            if (self.0 < 0) != (rhs.0 < 0) {
                fi128(-170141183460469231731687303715884105727)
            } else {
                fi128(170141183460469231731687303715884105727)
            }
        } else {
            proof {
                lemma_div_scaled_bounds(128, self@, rhs@);
                lemma_tdiv_cases(self@ * 170141183460469231731687303715884105728, rhs@);
                lemma_tdiv_mag(self@ * 170141183460469231731687303715884105728, rhs@);
            }
            let neg = (self.0 < 0) != (rhs.0 < 0);
            let ua = Self::magnitude(self.0);
            let ub = Self::magnitude(rhs.0);
            let lo: u128 = (ua % 2) * 170141183460469231731687303715884105728u128;
            let hi: u128 = ua / 2;
            proof {
                assert(lo + hi * 0x1_0000_0000_0000_0000_0000_0000_0000_0000 == ua * 170141183460469231731687303715884105728);
                assert(((ua * 170141183460469231731687303715884105728) as int) / (ub as int) < 170141183460469231731687303715884105728) by {
                    vstd::arithmetic::div_mod::lemma_multiply_divide_lt(
                        (ua * 170141183460469231731687303715884105728) as int,
                        ub as int,
                        170141183460469231731687303715884105728,
                    );
                    assert((ua as int) * 170141183460469231731687303715884105728 < (ub as int) * 170141183460469231731687303715884105728) by (nonlinear_arith)
                        requires
                            ua < ub,
                    ;
                }
                vstd::arithmetic::div_mod::lemma_div_pos_is_pos((ua * 170141183460469231731687303715884105728) as int, ub as int);
            }
            let (quo, _rem) = awint::awint_internals::u256_div_rem((lo, hi), (ub, 0));
            let q: u128 = quo.0;
            proof {
                assert(quo.1 == 0);
                assert(q == ((ua * 170141183460469231731687303715884105728) as int) / (ub as int));
                assert(div_scaled(128, self@, rhs@) == if neg {
                    -(q as int)
                } else {
                    q as int
                });
            }
            if neg {
                proof {
                    lemma_wrap_step(128, -(q as int));
                }
                fi128(Self::negate_mag(q))
            } else {
                fi128(q as i128)
            }
        }
    }

    /// Saturating division by a plain integer.
    pub fn saturating_div_int(self, rhs: i128) -> (r: Self)
        ensures
            r@ == sat_div_int_val(128, self@, rhs as int),
    {
        proof {
            lemma_pow2i_consts();
        }
        if rhs == 0 {
            self.signum()
        } else if self.0 == i128::MIN && rhs == -1 {
            fi128(170141183460469231731687303715884105727)
        } else {
            proof {
                lemma_tdiv_cases(self@, rhs as int);
                lemma_tdiv_in_range(128, self@, rhs as int);
            }
            fi128(self.0.checked_div(rhs).unwrap())
        }
    }

    /// Saturating inversion: ONE divided by `self` as a plain integer,
    /// truncated toward zero, with zero mapped to -1.
    pub fn saturating_inv(self) -> (r: i128)
        ensures
            r as int == sat_inv_val(128, self@),
    {
        proof {
            lemma_pow2i_consts();
        }
        if self.0 == 0 {
            -1
        } else {
            proof {
                lemma_tdiv_cases(170141183460469231731687303715884105727, self@);
                lemma_tdiv_mag(170141183460469231731687303715884105727, self@);
            }
            let one: i128 = 170141183460469231731687303715884105727;
            one.checked_div(self.0).unwrap()
        }
    }

    /// Parses a base 10 string, or one prefixed with 0b, 0o or 0x for radix
    /// 2, 8 or 16: an optional '-', integer digits, an optional '.' and
    /// fraction digits, an optional 'e' or 'p' exponent (applied as
    /// radix^exponent), with '_' ignorable anywhere in a digit run.  The
    /// value is rounded to nearest, ties to even; "1.0" and "-1.0" are read
    /// as `one` and `neg_one`, anything else outside (-1.0, 1.0) is an
    /// overflow.
    pub fn from_str(s: &str) -> (r: Result<Self, FracintSerdeError>)
        ensures
            match r {
                Ok(v) => from_str_val(s.spec_bytes(), 128) == Ok::<int, FracintSerdeError>(v@),
                Err(e) => from_str_val(s.spec_bytes(), 128) == Err::<int, FracintSerdeError>(e),
            },
    {
        proof {
            lemma_pow2i_consts();
        }
        match crate::parse::parse_i128(s.as_bytes(), 128) {
            Ok(v) => Ok(fi128(v)),
            Err(e) => Err(e),
        }
    }

    /// The base 10 string of the value, with ZERO, ONE/MAX and NEG_ONE/MIN
    /// rendered exactly as "0.0", "1.0" and "-1.0".
    pub fn to_string(&self) -> (r: String)
        ensures
            r@ == to_string_val(self@, 128),
    {
        proof {
            lemma_pow2i_consts();
        }
        crate::fmt::format_i128(self.0 as i128, 128)
    }

    /// Builds a value from `128` uniformly random stored bits: the one
    /// pattern equal to MIN is remapped to ZERO, so sampling never yields
    /// the hazard value.
    pub fn from_sample(bits: i128) -> (r: Self)
        ensures
            r@ == if bits == i128::MIN {
                0int
            } else {
                bits as int
            },
            r@ != min_val(128),
    {
        proof {
            lemma_pow2i_consts();
        }
        if bits == i128::MIN {
            fi128(0)
        } else {
            fi128(bits)
        }
    }
}

} // verus!
