//! Concrete checks of the crate's stated laws and of the remaining public
//! operations: round trips, the MIN corner cases, saturation behavior, the
//! widen/narrow bridge, and sampling.

use fracints::{fi128, fi16, fi32, fi64, fi8};

#[test]
fn wrapping_add_sub_roundtrip_cases() {
    let pairs8: [(i8, i8); 6] = [(3, 100), (-128, 127), (-128, -128), (127, 127), (0, -1), (-100, -100)];
    for (a, b) in pairs8 {
        assert_eq!(fi8(a).wrapping_add(fi8(b)).wrapping_sub(fi8(b)), fi8(a));
    }
    let pairs64: [(i64, i64); 4] = [(i64::MIN, i64::MAX), (1 << 62, 1 << 62), (-5, 7), (i64::MAX, i64::MAX)];
    for (a, b) in pairs64 {
        assert_eq!(fi64(a).wrapping_add(fi64(b)).wrapping_sub(fi64(b)), fi64(a));
    }
    let a = fi128(i128::MIN / 3);
    let b = fi128(i128::MAX / 5);
    assert_eq!(a.wrapping_add(b).wrapping_sub(b), a);
}

#[test]
fn min_negation_cases() {
    assert_eq!(fi8::min().wrapping_neg(), fi8::min());
    assert_eq!(fi8::min().wrapping_abs(), fi8::min());
    assert_eq!(fi8::min().saturating_neg(), fi8::one());
    assert_eq!(fi8::min().saturating_abs(), fi8::one());
    assert_eq!(fi64::min().wrapping_neg(), fi64::min());
    assert_eq!(fi64::min().wrapping_abs(), fi64::min());
    assert_eq!(fi64::min().saturating_neg(), fi64::one());
    assert_eq!(fi128::min().wrapping_neg(), fi128::min());
    assert_eq!(fi128::min().saturating_neg(), fi128::one());
    assert_eq!(fi16::min().checked_neg(), None);
    assert_eq!(fi16::min().checked_abs(), None);
    assert_eq!(fi16(-5).checked_neg(), Some(fi16(5)));
    assert_eq!(fi16(-5).checked_abs(), Some(fi16(5)));
    assert_eq!(fi16(-5).overflowing_neg(), (fi16(5), false));
    assert_eq!(fi16::min().overflowing_abs(), (fi16::min(), true));
}

#[test]
fn mul_min_corner_cases() {
    assert_eq!(fi32::min().wrapping_mul(fi32::min()), fi32::min());
    assert_eq!(fi32::min().saturating_mul(fi32::min()), fi32::one());
    assert_eq!(fi32::min().checked_mul(fi32::min()), None);
    assert_eq!(fi32::min().overflowing_mul(fi32::min()), (fi32::min(), true));
    assert_eq!(fi128::min().wrapping_mul(fi128::min()), fi128::min());
    assert_eq!(fi128::min().saturating_mul(fi128::min()), fi128::one());
    // the widening multiplication is exact away from the corner
    assert_eq!(fi32::min().saturating_widening_mul(fi32::min()), fi64::one());
    let x = fi32::from_str("0.123456789").unwrap();
    assert_eq!(
        x.saturating_widening_mul(x).to_string(),
        "0.0152415787947921023"
    );
    assert_eq!(fi8(64).saturating_widening_mul(fi8(64)), fi16(64 * 64 * 2));
    assert_eq!(fi8(-64).saturating_widening_mul(fi8(64)), fi16(-64 * 64 * 2));
}

#[test]
fn div_by_zero_gives_signum() {
    assert_eq!(fi16(100).saturating_div(fi16::zero()), fi16::one());
    assert_eq!(fi16(-100).saturating_div(fi16::zero()), fi16::neg_one());
    assert_eq!(fi16::zero().saturating_div(fi16::zero()), fi16::zero());
    assert_eq!(fi16(100).signum(), fi16::one());
    assert_eq!(fi16(-100).signum(), fi16::neg_one());
    assert_eq!(fi16::zero().signum(), fi16::zero());
    // division by a plain integer
    assert_eq!(fi16(100).saturating_div_int(0), fi16::one());
    assert_eq!(fi16::min().saturating_div_int(-1), fi16::one());
    assert_eq!(fi16(100).saturating_div_int(3), fi16(33));
    assert_eq!(
        fi64::one().saturating_div_int(3).to_string(),
        "0.3333333333333333333"
    );
    assert_eq!(fi16(-100).saturating_div_int(3), fi16(-33));
}

#[test]
fn widen_truncate_roundtrip_cases() {
    let xs8: [i8; 5] = [0, 1, -1, i8::MIN, i8::MAX];
    for x in xs8 {
        assert_eq!(fi8(x).widen().truncate(), fi8(x));
        assert_eq!(fi8::from_truncated(fi8(x).widen()), fi8(x));
        assert_eq!(fi8::from_rounded(fi8(x).widen()), fi8(x));
    }
    let xs64: [i64; 4] = [0, 42, i64::MIN, i64::MAX];
    for x in xs64 {
        assert_eq!(fi64(x).widen().truncate(), fi64(x));
    }
    // split gives back the low and high halves exactly
    let d = fi16(0x1234 * 2 + 1);
    let (lo, hi) = d.split();
    assert_eq!(hi, d.truncate());
    assert_eq!((hi.0 as i16) * 256 + (lo.0 as i16 & 0xff), d.0);
    // rounding narrowing adds one ULP when the first discarded bit is set,
    // saturating at ONE
    assert_eq!(fi8::from_rounded(fi16(0x0180)), fi8(2));
    assert_eq!(fi8::from_rounded(fi16(0x017f)), fi8(1));
    assert_eq!(fi8::from_rounded(fi16(0x7fff)), fi8::one());
}

#[test]
fn saturating_chains_avoid_min() {
    let mut x = fi8::neg_one();
    x = x.saturating_add(fi8::neg_one());
    assert_ne!(x, fi8::min());
    x = x.saturating_mul(fi8::one());
    assert_ne!(x, fi8::min());
    x = x.saturating_sub(fi8::one());
    assert_ne!(x, fi8::min());
    x = x.saturating_div(fi8::ulp());
    assert_ne!(x, fi8::min());
    x = x.saturating_neg();
    assert_ne!(x, fi8::min());
    x = x.saturating_mul_int(-128);
    assert_ne!(x, fi8::min());
    assert_eq!(fi8::neg_one().saturating_add(fi8::neg_one()), fi8::neg_one());
    assert_eq!(fi8::one().saturating_add(fi8::one()), fi8::one());
    assert_eq!(fi8::neg_one().saturating_sub(fi8::one()), fi8::neg_one());
    assert_eq!(fi8::min().saturating_sub(fi8::zero()), fi8::one());
}

#[test]
fn eight_bit_overflow_corners() {
    // -0.5 * -0.5 == 0.25, stored as M/4 + 1
    assert_eq!(fi8(-64).saturating_mul(fi8(-64)), fi8(32));
    assert_eq!(fi8(32), fi8(127 / 4 + 1));
    // adding two quarters reaches one half exactly
    assert_eq!(fi8(32).saturating_add(fi8(31)), fi8(63));
    // wrapping the sum of two MAX values wraps through the range
    assert_eq!(fi8(127).wrapping_add(fi8(127)), fi8(-2));
    // checked reports the wrap, saturating clamps it
    assert_eq!(fi8(127).checked_add(fi8(127)), None);
    assert_eq!(fi8(127).saturating_add(fi8(127)), fi8(127));
    assert_eq!(fi8(-128).checked_add(fi8(0)), None);
    assert_eq!(fi8(64).checked_add(fi8(-64)), Some(fi8(0)));
    assert_eq!(fi8(64).checked_sub(fi8(64)), Some(fi8(0)));
    assert_eq!(fi8(-64).checked_mul(fi8(-64)), Some(fi8(32)));
}

#[test]
fn predicates_and_conversions() {
    assert!(fi32::zero().is_zero());
    assert!(!fi32(1).is_zero());
    assert!(fi32(-1).is_negative());
    assert!(fi32(0).is_positive());
    assert!(fi32(1).is_positive());
    assert_eq!(fi32::from_int(77).as_int(), 77);
    assert_eq!(fi32::BITS, 32);
    // saturating inversion: 1.0 / x as a plain integer
    assert_eq!(fi8(64).saturating_inv(), 1);
    assert_eq!(fi8(1).saturating_inv(), 127);
    assert_eq!(fi8(0).saturating_inv(), -1);
    assert_eq!(fi8(-64).saturating_inv(), -1);
    // multiplication by a plain integer saturates and avoids MIN
    assert_eq!(fi8(64).saturating_mul_int(3), fi8(127));
    assert_eq!(fi8(64).saturating_mul_int(-3), fi8(-127));
    assert_eq!(fi8(10).saturating_mul_int(3), fi8(30));
    assert_eq!(fi8(-64).saturating_mul_int(2), fi8(-127));
}

#[test]
fn sampling_remaps_min() {
    assert_eq!(fi8::from_sample(i8::MIN), fi8::zero());
    assert_eq!(fi8::from_sample(5), fi8(5));
    assert_eq!(fi8::from_sample(-5), fi8(-5));
    assert_eq!(fi64::from_sample(i64::MIN), fi64::zero());
    assert_eq!(fi64::from_sample(i64::MAX), fi64::max());
    assert_eq!(fi128::from_sample(i128::MIN), fi128::zero());
}

#[test]
fn taylor_constants_load() {
    let c8 = fracints::consts::Const8::load();
    assert_eq!(c8.num_4divtau, fi8(81));
    assert_eq!(c8.num_4divtau_sqr, fi8(52));
    assert_eq!(c8.cos_taylor_iters, 0);
    let c64 = fracints::consts::Const64::load();
    assert_eq!(c64.num_4divtau, fi64(81));
    let c128 = fracints::consts::Const128::load();
    assert_eq!(c128.sin_taylor_iters, 0);
}

#[test]
fn seed_table_reads() {
    let lut = fracints::consts::simple_isqrt_lut();
    let cutoff = fracints::consts::simple_isqrt_cutoff();
    let bits = fracints::consts::SIMPLE_ISQRT_BITS;
    // below the 0.25 domain start and at the cutoff the read is ZERO
    assert_eq!(
        fracints::sqrt::eval_simple_isqrt_lut(lut.as_slice(), cutoff, bits, fi16(100)),
        fi16::zero()
    );
    assert_eq!(
        fracints::sqrt::eval_simple_isqrt_lut(lut.as_slice(), cutoff, bits, cutoff),
        fi16::zero()
    );
    // at exactly 0.25 the read is the first table entry
    assert_eq!(
        fracints::sqrt::eval_simple_isqrt_lut(lut.as_slice(), cutoff, bits, fi16(8192)),
        fi16(32684)
    );
    // the seed curve never overestimates the true value on sampled points
    let mut x = fi16(8192);
    while x.0 < cutoff.0 {
        let approx = fracints::sqrt::eval_simple_isqrt_lut(lut.as_slice(), cutoff, bits, x);
        let exact = fracints::sqrt::isqrt_sub1(x);
        assert!(approx.0 <= exact.0);
        x = fi16(x.0 + 997);
    }
}
