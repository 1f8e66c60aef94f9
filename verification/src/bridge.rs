//! The widen/narrow bridge between each width and its double.

use vstd::prelude::*;

use crate::lemmas::{
    lemma_mul_scaled_bounds, lemma_pow2i_consts, lemma_truncate_range, lemma_wrap_from_mod,
};
use crate::model::{
    from_rounded_val, sat_widening_mul_val, split_lo_val, truncate_val, widen_val,
};
use crate::w128::fi128;
use crate::w16::fi16;
use crate::w32::fi32;
use crate::w64::fi64;
use crate::w8::fi8;

verus! {

impl fi8 {
    /// Lossless widening: append 8 zero fraction bits.
    pub fn widen(self) -> (r: fi16)
        ensures
            r@ == widen_val(8, self@),
    {
        proof {
            lemma_pow2i_consts();
        }
        fi16((self.0 as i16) * 256)
    }

    /// Exact double-width product, except MIN times MIN, which saturates to
    /// the double-width ONE.
    pub fn saturating_widening_mul(self, rhs: Self) -> (r: fi16)
        ensures
            r@ == sat_widening_mul_val(8, self@, rhs@),
    {
        proof {
            lemma_pow2i_consts();
            lemma_mul_scaled_bounds(8, self@, rhs@);
            if self@ * rhs@ == 16384 {
                vstd::arithmetic::div_mod::lemma_div_multiples_vanish(128, 128);
                assert(128 * 128 == 16384);
            }
        }
        if self.0 == i8::MIN && rhs.0 == i8::MIN {
            fi16(i16::MAX)
        } else {
            fi16(((self.0 as i16) * (rhs.0 as i16)) * 2)
        }
    }

    /// Truncating narrowing from the double width: drop the low 8 bits.
    pub fn from_truncated(other: fi16) -> (r: fi8)
        ensures
            r@ == truncate_val(8, other@),
    {
        other.truncate()
    }

    /// Rounding narrowing from the double width: add one ULP when the first
    /// discarded bit is set, saturating at ONE instead of wrapping to MIN.
    pub fn from_rounded(other: fi16) -> (r: fi8)
        ensures
            r@ == from_rounded_val(8, other@),
    {
        proof {
            lemma_pow2i_consts();
            lemma_truncate_range(8, other@);
        }
        let t: i8 = other.0.checked_div_euclid(256).unwrap() as i8;
        let rem: i16 = other.0.checked_rem_euclid(256).unwrap();
        if rem >= 128 {
            if t == i8::MAX {
                fi8(t)
            } else {
                fi8(t + 1)
            }
        } else {
            fi8(t)
        }
    }
}

impl fi16 {
    /// The low and high halves, the high half being the truncation and the
    /// low half the discarded remainder reinterpreted as a signed value:
    /// the value is exactly recomposed as `high * 2^8 + low mod 2^8`.
    pub fn split(self) -> (r: (fi8, fi8))
        ensures
            r.0@ == split_lo_val(8, self@),
            r.1@ == truncate_val(8, self@),
    {
        proof {
            lemma_pow2i_consts();
            lemma_truncate_range(8, self@);
            lemma_wrap_from_mod(8, self@);
        }
        let rem: i16 = self.0.checked_rem_euclid(256).unwrap();
        let lo: i8 = if rem >= 128 {
            (rem - 256) as i8
        } else {
            rem as i8
        };
        (fi8(lo), self.truncate())
    }

    /// Truncation to the half width with less than one ULP of error toward
    /// negative infinity.
    pub fn truncate(self) -> (r: fi8)
        ensures
            r@ == truncate_val(8, self@),
    {
        proof {
            lemma_pow2i_consts();
            lemma_truncate_range(8, self@);
        }
        fi8(self.0.checked_div_euclid(256).unwrap() as i8)
    }
}

impl fi16 {
    /// Lossless widening: append 16 zero fraction bits.
    pub fn widen(self) -> (r: fi32)
        ensures
            r@ == widen_val(16, self@),
    {
        proof {
            lemma_pow2i_consts();
        }
        fi32((self.0 as i32) * 65536)
    }

    /// Exact double-width product, except MIN times MIN, which saturates to
    /// the double-width ONE.
    pub fn saturating_widening_mul(self, rhs: Self) -> (r: fi32)
        ensures
            r@ == sat_widening_mul_val(16, self@, rhs@),
    {
        proof {
            lemma_pow2i_consts();
            lemma_mul_scaled_bounds(16, self@, rhs@);
            if self@ * rhs@ == 1073741824 {
                vstd::arithmetic::div_mod::lemma_div_multiples_vanish(32768, 32768);
                assert(32768 * 32768 == 1073741824);
            }
        }
        if self.0 == i16::MIN && rhs.0 == i16::MIN {
            fi32(i32::MAX)
        } else {
            fi32(((self.0 as i32) * (rhs.0 as i32)) * 2)
        }
    }

    /// Truncating narrowing from the double width: drop the low 16 bits.
    pub fn from_truncated(other: fi32) -> (r: fi16)
        ensures
            r@ == truncate_val(16, other@),
    {
        other.truncate()
    }

    /// Rounding narrowing from the double width: add one ULP when the first
    /// discarded bit is set, saturating at ONE instead of wrapping to MIN.
    pub fn from_rounded(other: fi32) -> (r: fi16)
        ensures
            r@ == from_rounded_val(16, other@),
    {
        proof {
            lemma_pow2i_consts();
            lemma_truncate_range(16, other@);
        }
        let t: i16 = other.0.checked_div_euclid(65536).unwrap() as i16;
        let rem: i32 = other.0.checked_rem_euclid(65536).unwrap();
        if rem >= 32768 {
            if t == i16::MAX {
                fi16(t)
            } else {
                fi16(t + 1)
            }
        } else {
            fi16(t)
        }
    }
}

impl fi32 {
    /// The low and high halves, the high half being the truncation and the
    /// low half the discarded remainder reinterpreted as a signed value:
    /// the value is exactly recomposed as `high * 2^16 + low mod 2^16`.
    pub fn split(self) -> (r: (fi16, fi16))
        ensures
            r.0@ == split_lo_val(16, self@),
            r.1@ == truncate_val(16, self@),
    {
        proof {
            lemma_pow2i_consts();
            lemma_truncate_range(16, self@);
            lemma_wrap_from_mod(16, self@);
        }
        let rem: i32 = self.0.checked_rem_euclid(65536).unwrap();
        let lo: i16 = if rem >= 32768 {
            (rem - 65536) as i16
        } else {
            rem as i16
        };
        (fi16(lo), self.truncate())
    }

    /// Truncation to the half width with less than one ULP of error toward
    /// negative infinity.
    pub fn truncate(self) -> (r: fi16)
        ensures
            r@ == truncate_val(16, self@),
    {
        proof {
            lemma_pow2i_consts();
            lemma_truncate_range(16, self@);
        }
        fi16(self.0.checked_div_euclid(65536).unwrap() as i16)
    }
}

impl fi32 {
    /// Lossless widening: append 32 zero fraction bits.
    pub fn widen(self) -> (r: fi64)
        ensures
            r@ == widen_val(32, self@),
    {
        proof {
            lemma_pow2i_consts();
        }
        fi64((self.0 as i64) * 4294967296)
    }

    /// Exact double-width product, except MIN times MIN, which saturates to
    /// the double-width ONE.
    pub fn saturating_widening_mul(self, rhs: Self) -> (r: fi64)
        ensures
            r@ == sat_widening_mul_val(32, self@, rhs@),
    {
        proof {
            lemma_pow2i_consts();
            lemma_mul_scaled_bounds(32, self@, rhs@);
            if self@ * rhs@ == 4611686018427387904 {
                vstd::arithmetic::div_mod::lemma_div_multiples_vanish(2147483648, 2147483648);
                assert(2147483648 * 2147483648 == 4611686018427387904);
            }
        }
        if self.0 == i32::MIN && rhs.0 == i32::MIN {
            fi64(i64::MAX)
        } else {
            fi64(((self.0 as i64) * (rhs.0 as i64)) * 2)
        }
    }

    /// Truncating narrowing from the double width: drop the low 32 bits.
    pub fn from_truncated(other: fi64) -> (r: fi32)
        ensures
            r@ == truncate_val(32, other@),
    {
        other.truncate()
    }

    /// Rounding narrowing from the double width: add one ULP when the first
    /// discarded bit is set, saturating at ONE instead of wrapping to MIN.
    pub fn from_rounded(other: fi64) -> (r: fi32)
        ensures
            r@ == from_rounded_val(32, other@),
    {
        proof {
            lemma_pow2i_consts();
            lemma_truncate_range(32, other@);
        }
        let t: i32 = other.0.checked_div_euclid(4294967296).unwrap() as i32;
        let rem: i64 = other.0.checked_rem_euclid(4294967296).unwrap();
        if rem >= 2147483648 {
            if t == i32::MAX {
                fi32(t)
            } else {
                fi32(t + 1)
            }
        } else {
            fi32(t)
        }
    }
}

impl fi64 {
    /// The low and high halves, the high half being the truncation and the
    /// low half the discarded remainder reinterpreted as a signed value:
    /// the value is exactly recomposed as `high * 2^32 + low mod 2^32`.
    pub fn split(self) -> (r: (fi32, fi32))
        ensures
            r.0@ == split_lo_val(32, self@),
            r.1@ == truncate_val(32, self@),
    {
        proof {
            lemma_pow2i_consts();
            lemma_truncate_range(32, self@);
            lemma_wrap_from_mod(32, self@);
        }
        let rem: i64 = self.0.checked_rem_euclid(4294967296).unwrap();
        let lo: i32 = if rem >= 2147483648 {
            (rem - 4294967296) as i32
        } else {
            rem as i32
        };
        (fi32(lo), self.truncate())
    }

    /// Truncation to the half width with less than one ULP of error toward
    /// negative infinity.
    pub fn truncate(self) -> (r: fi32)
        ensures
            r@ == truncate_val(32, self@),
    {
        proof {
            lemma_pow2i_consts();
            lemma_truncate_range(32, self@);
        }
        fi32(self.0.checked_div_euclid(4294967296).unwrap() as i32)
    }
}

impl fi64 {
    /// Lossless widening: append 64 zero fraction bits.
    pub fn widen(self) -> (r: fi128)
        ensures
            r@ == widen_val(64, self@),
    {
        proof {
            lemma_pow2i_consts();
        }
        fi128((self.0 as i128) * 18446744073709551616)
    }

    /// Exact double-width product, except MIN times MIN, which saturates to
    /// the double-width ONE.
    pub fn saturating_widening_mul(self, rhs: Self) -> (r: fi128)
        ensures
            r@ == sat_widening_mul_val(64, self@, rhs@),
    {
        proof {
            lemma_pow2i_consts();
            lemma_mul_scaled_bounds(64, self@, rhs@);
            if self@ * rhs@ == 85070591730234615865843651857942052864 {
                vstd::arithmetic::div_mod::lemma_div_multiples_vanish(9223372036854775808, 9223372036854775808);
                assert(9223372036854775808 * 9223372036854775808 == 85070591730234615865843651857942052864);
            }
        }
        if self.0 == i64::MIN && rhs.0 == i64::MIN {
            fi128(i128::MAX)
        } else {
            fi128(((self.0 as i128) * (rhs.0 as i128)) * 2)
        }
    }

    /// Truncating narrowing from the double width: drop the low 64 bits.
    pub fn from_truncated(other: fi128) -> (r: fi64)
        ensures
            r@ == truncate_val(64, other@),
    {
        other.truncate()
    }

    /// Rounding narrowing from the double width: add one ULP when the first
    /// discarded bit is set, saturating at ONE instead of wrapping to MIN.
    pub fn from_rounded(other: fi128) -> (r: fi64)
        ensures
            r@ == from_rounded_val(64, other@),
    {
        proof {
            lemma_pow2i_consts();
            lemma_truncate_range(64, other@);
        }
        let t: i64 = other.0.checked_div_euclid(18446744073709551616).unwrap() as i64;
        let rem: i128 = other.0.checked_rem_euclid(18446744073709551616).unwrap();
        if rem >= 9223372036854775808 {
            if t == i64::MAX {
                fi64(t)
            } else {
                fi64(t + 1)
            }
        } else {
            fi64(t)
        }
    }
}

impl fi128 {
    /// The low and high halves, the high half being the truncation and the
    /// low half the discarded remainder reinterpreted as a signed value:
    /// the value is exactly recomposed as `high * 2^64 + low mod 2^64`.
    pub fn split(self) -> (r: (fi64, fi64))
        ensures
            r.0@ == split_lo_val(64, self@),
            r.1@ == truncate_val(64, self@),
    {
        proof {
            lemma_pow2i_consts();
            lemma_truncate_range(64, self@);
            lemma_wrap_from_mod(64, self@);
        }
        let rem: i128 = self.0.checked_rem_euclid(18446744073709551616).unwrap();
        let lo: i64 = if rem >= 9223372036854775808 {
            (rem - 18446744073709551616) as i64
        } else {
            rem as i64
        };
        (fi64(lo), self.truncate())
    }

    /// Truncation to the half width with less than one ULP of error toward
    /// negative infinity.
    pub fn truncate(self) -> (r: fi64)
        ensures
            r@ == truncate_val(64, self@),
    {
        proof {
            lemma_pow2i_consts();
            lemma_truncate_range(64, self@);
        }
        fi64(self.0.checked_div_euclid(18446744073709551616).unwrap() as i64)
    }
}

} // verus!
