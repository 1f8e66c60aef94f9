//! The boundary-value cases of the arithmetic and codec, at every width.

use fracints::{fi128, fi16, fi32, fi64, fi8};

#[test]
fn basic_cases() {
    assert_eq!(fi8(i8::MIN / 2).to_string(), "-0.5".to_string());
    assert_eq!(fi8(i8::MAX / 2 + 1).to_string(), "0.5".to_string());
    assert_eq!(fi8::from_str("-0.5").unwrap(), fi8(i8::MIN / 2));
    assert_eq!(fi8::from_str("0.5").unwrap(), fi8(i8::MAX / 2 + 1));
    assert_eq!(fi8::from_str("-0.5").unwrap(), fi8(i8::MIN / 2));
    assert_eq!(fi8::min().to_string(), "-1.0".to_string());
    assert_eq!(fi8::neg_one().to_string(), "-1.0".to_string());
    assert_eq!(fi8::zero().to_string(), "0.0".to_string());
    assert_eq!(fi8::one().to_string(), "1.0".to_string());
    assert_eq!(fi8::max().to_string(), "1.0".to_string());
    assert_eq!(fi8::from_str("-1.0").unwrap(), fi8::neg_one());
    assert_eq!(fi8::from_str("0.0").unwrap(), fi8::zero());
    assert_eq!(fi8::from_str("1.0").unwrap(), fi8::one());

    assert_eq!(fi8(i8::MAX / 4 + 1).saturating_add(fi8(i8::MAX / 4)), fi8(i8::MAX / 2));
    assert_eq!(fi8(i8::MIN / 4).saturating_add(fi8(i8::MIN / 4)), fi8(i8::MIN / 2));
    assert_eq!(fi8(i8::MAX / 4 + 1).saturating_add(fi8(i8::MIN / 4)), fi8(0));
    assert_eq!(fi8(i8::MIN / 4).saturating_add(fi8(i8::MAX / 4 + 1)), fi8(0));
    assert_eq!(fi8(i8::MAX / 4).saturating_sub(fi8(i8::MAX / 4)), fi8(0));
    assert_eq!(fi8(i8::MIN / 4).saturating_sub(fi8(i8::MIN / 4)), fi8(0));
    assert_eq!(
        fi8(i8::MAX / 4 + 1).saturating_sub(fi8(i8::MIN / 4)),
        fi8(i8::MAX / 2 + 1)
    );
    assert_eq!(fi8(i8::MIN / 4).saturating_sub(fi8(i8::MAX / 4 + 1)), fi8(i8::MIN / 2));

    assert_eq!(fi8(i8::MAX).wrapping_add(fi8(i8::MAX)), fi8(-2));
    assert_eq!(fi8(i8::MAX).wrapping_add(fi8(i8::MIN)), fi8(-1));
    assert_eq!(fi8(i8::MIN).wrapping_add(fi8(i8::MAX)), fi8(-1));
    assert_eq!(fi8(i8::MIN).wrapping_add(fi8(i8::MIN)), fi8(0));
    assert_eq!(fi8(i8::MAX).wrapping_sub(fi8(i8::MAX)), fi8(0));
    assert_eq!(fi8(i8::MAX).wrapping_sub(fi8(i8::MIN)), fi8(-1));
    assert_eq!(fi8(i8::MIN).wrapping_sub(fi8(i8::MAX)), fi8(1));
    assert_eq!(fi8(i8::MIN).wrapping_sub(fi8(i8::MIN)), fi8(0));

    assert_eq!(
        fi8(i8::MIN / 2).saturating_mul(fi8(i8::MIN / 2)),
        fi8(i8::MAX / 4 + 1)
    );
    assert_eq!(
        fi8(i8::MIN / 2).saturating_mul(fi8(i8::MAX / 2 + 1)),
        fi8(i8::MIN / 4)
    );
    assert_eq!(
        fi8(i8::MAX / 2 + 1).saturating_mul(fi8(i8::MIN / 2)),
        fi8(i8::MIN / 4)
    );
    assert_eq!(
        fi8(i8::MAX / 2 + 1).saturating_mul(fi8(i8::MAX / 2 + 1)),
        fi8(i8::MAX / 4 + 1)
    );

    assert_eq!(fi8(i8::MIN / 2).saturating_div(fi8(i8::MIN / 2)), fi8::one());
    assert_eq!(fi8(i8::MIN / 2).saturating_div(fi8(i8::MAX / 2 + 1)), fi8::neg_one());
    assert_eq!(fi8(i8::MAX / 2 + 1).saturating_div(fi8(i8::MAX / 2 + 1)), fi8::one());
    assert_eq!(
        fi8(i8::MAX / 4 + 1).saturating_div(fi8(i8::MAX / 2 + 1)),
        fi8(i8::MAX / 2 + 1)
    );

    assert_eq!(fi8(i8::MIN).wrapping_mul(fi8(i8::MIN)), fi8::min());
    assert_eq!(fi8(i8::MIN).wrapping_mul(fi8(i8::MAX)), fi8::neg_one());
    assert_eq!(fi8(i8::MAX).wrapping_mul(fi8(i8::MIN)), fi8::neg_one());
    assert_eq!(fi8(i8::MAX).wrapping_mul(fi8(i8::MAX)), fi8(i8::MAX - 1));
    assert_eq!(fi8::min().saturating_div(fi8::neg_one()), fi8::one());
    assert_eq!(fi8::min().saturating_div(fi8::min()), fi8::one());
    assert_eq!(fi8::min().saturating_div(fi8::neg_one()), fi8::one());
    assert_eq!(fi8::neg_one().saturating_div(fi8::min()), fi8::one());
    assert_eq!(fi8::neg_one().saturating_div(fi8::neg_one()), fi8::one());
    assert_eq!(fi8::min().saturating_div(fi8::max()), fi8::neg_one());
    assert_eq!(fi8::neg_one().saturating_div(fi8::max()), fi8::neg_one());
    assert_eq!(fi8::max().saturating_div(fi8::min()), fi8::neg_one());
    assert_eq!(fi8::max().saturating_div(fi8::neg_one()), fi8::neg_one());
    assert_eq!(fi8::max().saturating_div(fi8::max()), fi8::one());

    assert_eq!(fi16(i16::MIN / 2).to_string(), "-0.5".to_string());
    assert_eq!(fi16(i16::MAX / 2 + 1).to_string(), "0.5".to_string());
    assert_eq!(fi16::from_str("-0.5").unwrap(), fi16(i16::MIN / 2));
    assert_eq!(fi16::from_str("0.5").unwrap(), fi16(i16::MAX / 2 + 1));
    assert_eq!(fi16::from_str("-0.5").unwrap(), fi16(i16::MIN / 2));
    assert_eq!(fi16::min().to_string(), "-1.0".to_string());
    assert_eq!(fi16::neg_one().to_string(), "-1.0".to_string());
    assert_eq!(fi16::zero().to_string(), "0.0".to_string());
    assert_eq!(fi16::one().to_string(), "1.0".to_string());
    assert_eq!(fi16::max().to_string(), "1.0".to_string());
    assert_eq!(fi16::from_str("-1.0").unwrap(), fi16::neg_one());
    assert_eq!(fi16::from_str("0.0").unwrap(), fi16::zero());
    assert_eq!(fi16::from_str("1.0").unwrap(), fi16::one());

    assert_eq!(fi16(i16::MAX / 4 + 1).saturating_add(fi16(i16::MAX / 4)), fi16(i16::MAX / 2));
    assert_eq!(fi16(i16::MIN / 4).saturating_add(fi16(i16::MIN / 4)), fi16(i16::MIN / 2));
    assert_eq!(fi16(i16::MAX / 4 + 1).saturating_add(fi16(i16::MIN / 4)), fi16(0));
    assert_eq!(fi16(i16::MIN / 4).saturating_add(fi16(i16::MAX / 4 + 1)), fi16(0));
    assert_eq!(fi16(i16::MAX / 4).saturating_sub(fi16(i16::MAX / 4)), fi16(0));
    assert_eq!(fi16(i16::MIN / 4).saturating_sub(fi16(i16::MIN / 4)), fi16(0));
    assert_eq!(
        fi16(i16::MAX / 4 + 1).saturating_sub(fi16(i16::MIN / 4)),
        fi16(i16::MAX / 2 + 1)
    );
    assert_eq!(fi16(i16::MIN / 4).saturating_sub(fi16(i16::MAX / 4 + 1)), fi16(i16::MIN / 2));

    assert_eq!(fi16(i16::MAX).wrapping_add(fi16(i16::MAX)), fi16(-2));
    assert_eq!(fi16(i16::MAX).wrapping_add(fi16(i16::MIN)), fi16(-1));
    assert_eq!(fi16(i16::MIN).wrapping_add(fi16(i16::MAX)), fi16(-1));
    assert_eq!(fi16(i16::MIN).wrapping_add(fi16(i16::MIN)), fi16(0));
    assert_eq!(fi16(i16::MAX).wrapping_sub(fi16(i16::MAX)), fi16(0));
    assert_eq!(fi16(i16::MAX).wrapping_sub(fi16(i16::MIN)), fi16(-1));
    assert_eq!(fi16(i16::MIN).wrapping_sub(fi16(i16::MAX)), fi16(1));
    assert_eq!(fi16(i16::MIN).wrapping_sub(fi16(i16::MIN)), fi16(0));

    assert_eq!(
        fi16(i16::MIN / 2).saturating_mul(fi16(i16::MIN / 2)),
        fi16(i16::MAX / 4 + 1)
    );
    assert_eq!(
        fi16(i16::MIN / 2).saturating_mul(fi16(i16::MAX / 2 + 1)),
        fi16(i16::MIN / 4)
    );
    assert_eq!(
        fi16(i16::MAX / 2 + 1).saturating_mul(fi16(i16::MIN / 2)),
        fi16(i16::MIN / 4)
    );
    assert_eq!(
        fi16(i16::MAX / 2 + 1).saturating_mul(fi16(i16::MAX / 2 + 1)),
        fi16(i16::MAX / 4 + 1)
    );

    assert_eq!(fi16(i16::MIN / 2).saturating_div(fi16(i16::MIN / 2)), fi16::one());
    assert_eq!(fi16(i16::MIN / 2).saturating_div(fi16(i16::MAX / 2 + 1)), fi16::neg_one());
    assert_eq!(fi16(i16::MAX / 2 + 1).saturating_div(fi16(i16::MAX / 2 + 1)), fi16::one());
    assert_eq!(
        fi16(i16::MAX / 4 + 1).saturating_div(fi16(i16::MAX / 2 + 1)),
        fi16(i16::MAX / 2 + 1)
    );

    assert_eq!(fi16(i16::MIN).wrapping_mul(fi16(i16::MIN)), fi16::min());
    assert_eq!(fi16(i16::MIN).wrapping_mul(fi16(i16::MAX)), fi16::neg_one());
    assert_eq!(fi16(i16::MAX).wrapping_mul(fi16(i16::MIN)), fi16::neg_one());
    assert_eq!(fi16(i16::MAX).wrapping_mul(fi16(i16::MAX)), fi16(i16::MAX - 1));
    assert_eq!(fi16::min().saturating_div(fi16::neg_one()), fi16::one());
    assert_eq!(fi16::min().saturating_div(fi16::min()), fi16::one());
    assert_eq!(fi16::min().saturating_div(fi16::neg_one()), fi16::one());
    assert_eq!(fi16::neg_one().saturating_div(fi16::min()), fi16::one());
    assert_eq!(fi16::neg_one().saturating_div(fi16::neg_one()), fi16::one());
    assert_eq!(fi16::min().saturating_div(fi16::max()), fi16::neg_one());
    assert_eq!(fi16::neg_one().saturating_div(fi16::max()), fi16::neg_one());
    assert_eq!(fi16::max().saturating_div(fi16::min()), fi16::neg_one());
    assert_eq!(fi16::max().saturating_div(fi16::neg_one()), fi16::neg_one());
    assert_eq!(fi16::max().saturating_div(fi16::max()), fi16::one());

    assert_eq!(fi32(i32::MIN / 2).to_string(), "-0.5".to_string());
    assert_eq!(fi32(i32::MAX / 2 + 1).to_string(), "0.5".to_string());
    assert_eq!(fi32::from_str("-0.5").unwrap(), fi32(i32::MIN / 2));
    assert_eq!(fi32::from_str("0.5").unwrap(), fi32(i32::MAX / 2 + 1));
    assert_eq!(fi32::from_str("-0.5").unwrap(), fi32(i32::MIN / 2));
    assert_eq!(fi32::min().to_string(), "-1.0".to_string());
    assert_eq!(fi32::neg_one().to_string(), "-1.0".to_string());
    assert_eq!(fi32::zero().to_string(), "0.0".to_string());
    assert_eq!(fi32::one().to_string(), "1.0".to_string());
    assert_eq!(fi32::max().to_string(), "1.0".to_string());
    assert_eq!(fi32::from_str("-1.0").unwrap(), fi32::neg_one());
    assert_eq!(fi32::from_str("0.0").unwrap(), fi32::zero());
    assert_eq!(fi32::from_str("1.0").unwrap(), fi32::one());

    assert_eq!(fi32(i32::MAX / 4 + 1).saturating_add(fi32(i32::MAX / 4)), fi32(i32::MAX / 2));
    assert_eq!(fi32(i32::MIN / 4).saturating_add(fi32(i32::MIN / 4)), fi32(i32::MIN / 2));
    assert_eq!(fi32(i32::MAX / 4 + 1).saturating_add(fi32(i32::MIN / 4)), fi32(0));
    assert_eq!(fi32(i32::MIN / 4).saturating_add(fi32(i32::MAX / 4 + 1)), fi32(0));
    assert_eq!(fi32(i32::MAX / 4).saturating_sub(fi32(i32::MAX / 4)), fi32(0));
    assert_eq!(fi32(i32::MIN / 4).saturating_sub(fi32(i32::MIN / 4)), fi32(0));
    assert_eq!(
        fi32(i32::MAX / 4 + 1).saturating_sub(fi32(i32::MIN / 4)),
        fi32(i32::MAX / 2 + 1)
    );
    assert_eq!(fi32(i32::MIN / 4).saturating_sub(fi32(i32::MAX / 4 + 1)), fi32(i32::MIN / 2));

    assert_eq!(fi32(i32::MAX).wrapping_add(fi32(i32::MAX)), fi32(-2));
    assert_eq!(fi32(i32::MAX).wrapping_add(fi32(i32::MIN)), fi32(-1));
    assert_eq!(fi32(i32::MIN).wrapping_add(fi32(i32::MAX)), fi32(-1));
    assert_eq!(fi32(i32::MIN).wrapping_add(fi32(i32::MIN)), fi32(0));
    assert_eq!(fi32(i32::MAX).wrapping_sub(fi32(i32::MAX)), fi32(0));
    assert_eq!(fi32(i32::MAX).wrapping_sub(fi32(i32::MIN)), fi32(-1));
    assert_eq!(fi32(i32::MIN).wrapping_sub(fi32(i32::MAX)), fi32(1));
    assert_eq!(fi32(i32::MIN).wrapping_sub(fi32(i32::MIN)), fi32(0));

    assert_eq!(
        fi32(i32::MIN / 2).saturating_mul(fi32(i32::MIN / 2)),
        fi32(i32::MAX / 4 + 1)
    );
    assert_eq!(
        fi32(i32::MIN / 2).saturating_mul(fi32(i32::MAX / 2 + 1)),
        fi32(i32::MIN / 4)
    );
    assert_eq!(
        fi32(i32::MAX / 2 + 1).saturating_mul(fi32(i32::MIN / 2)),
        fi32(i32::MIN / 4)
    );
    assert_eq!(
        fi32(i32::MAX / 2 + 1).saturating_mul(fi32(i32::MAX / 2 + 1)),
        fi32(i32::MAX / 4 + 1)
    );

    assert_eq!(fi32(i32::MIN / 2).saturating_div(fi32(i32::MIN / 2)), fi32::one());
    assert_eq!(fi32(i32::MIN / 2).saturating_div(fi32(i32::MAX / 2 + 1)), fi32::neg_one());
    assert_eq!(fi32(i32::MAX / 2 + 1).saturating_div(fi32(i32::MAX / 2 + 1)), fi32::one());
    assert_eq!(
        fi32(i32::MAX / 4 + 1).saturating_div(fi32(i32::MAX / 2 + 1)),
        fi32(i32::MAX / 2 + 1)
    );

    assert_eq!(fi32(i32::MIN).wrapping_mul(fi32(i32::MIN)), fi32::min());
    assert_eq!(fi32(i32::MIN).wrapping_mul(fi32(i32::MAX)), fi32::neg_one());
    assert_eq!(fi32(i32::MAX).wrapping_mul(fi32(i32::MIN)), fi32::neg_one());
    assert_eq!(fi32(i32::MAX).wrapping_mul(fi32(i32::MAX)), fi32(i32::MAX - 1));
    assert_eq!(fi32::min().saturating_div(fi32::neg_one()), fi32::one());
    assert_eq!(fi32::min().saturating_div(fi32::min()), fi32::one());
    assert_eq!(fi32::min().saturating_div(fi32::neg_one()), fi32::one());
    assert_eq!(fi32::neg_one().saturating_div(fi32::min()), fi32::one());
    assert_eq!(fi32::neg_one().saturating_div(fi32::neg_one()), fi32::one());
    assert_eq!(fi32::min().saturating_div(fi32::max()), fi32::neg_one());
    assert_eq!(fi32::neg_one().saturating_div(fi32::max()), fi32::neg_one());
    assert_eq!(fi32::max().saturating_div(fi32::min()), fi32::neg_one());
    assert_eq!(fi32::max().saturating_div(fi32::neg_one()), fi32::neg_one());
    assert_eq!(fi32::max().saturating_div(fi32::max()), fi32::one());

    assert_eq!(fi64(i64::MIN / 2).to_string(), "-0.5".to_string());
    assert_eq!(fi64(i64::MAX / 2 + 1).to_string(), "0.5".to_string());
    assert_eq!(fi64::from_str("-0.5").unwrap(), fi64(i64::MIN / 2));
    assert_eq!(fi64::from_str("0.5").unwrap(), fi64(i64::MAX / 2 + 1));
    assert_eq!(fi64::from_str("-0.5").unwrap(), fi64(i64::MIN / 2));
    assert_eq!(fi64::min().to_string(), "-1.0".to_string());
    assert_eq!(fi64::neg_one().to_string(), "-1.0".to_string());
    assert_eq!(fi64::zero().to_string(), "0.0".to_string());
    assert_eq!(fi64::one().to_string(), "1.0".to_string());
    assert_eq!(fi64::max().to_string(), "1.0".to_string());
    assert_eq!(fi64::from_str("-1.0").unwrap(), fi64::neg_one());
    assert_eq!(fi64::from_str("0.0").unwrap(), fi64::zero());
    assert_eq!(fi64::from_str("1.0").unwrap(), fi64::one());

    assert_eq!(fi64(i64::MAX / 4 + 1).saturating_add(fi64(i64::MAX / 4)), fi64(i64::MAX / 2));
    assert_eq!(fi64(i64::MIN / 4).saturating_add(fi64(i64::MIN / 4)), fi64(i64::MIN / 2));
    assert_eq!(fi64(i64::MAX / 4 + 1).saturating_add(fi64(i64::MIN / 4)), fi64(0));
    assert_eq!(fi64(i64::MIN / 4).saturating_add(fi64(i64::MAX / 4 + 1)), fi64(0));
    assert_eq!(fi64(i64::MAX / 4).saturating_sub(fi64(i64::MAX / 4)), fi64(0));
    assert_eq!(fi64(i64::MIN / 4).saturating_sub(fi64(i64::MIN / 4)), fi64(0));
    assert_eq!(
        fi64(i64::MAX / 4 + 1).saturating_sub(fi64(i64::MIN / 4)),
        fi64(i64::MAX / 2 + 1)
    );
    assert_eq!(fi64(i64::MIN / 4).saturating_sub(fi64(i64::MAX / 4 + 1)), fi64(i64::MIN / 2));

    assert_eq!(fi64(i64::MAX).wrapping_add(fi64(i64::MAX)), fi64(-2));
    assert_eq!(fi64(i64::MAX).wrapping_add(fi64(i64::MIN)), fi64(-1));
    assert_eq!(fi64(i64::MIN).wrapping_add(fi64(i64::MAX)), fi64(-1));
    assert_eq!(fi64(i64::MIN).wrapping_add(fi64(i64::MIN)), fi64(0));
    assert_eq!(fi64(i64::MAX).wrapping_sub(fi64(i64::MAX)), fi64(0));
    assert_eq!(fi64(i64::MAX).wrapping_sub(fi64(i64::MIN)), fi64(-1));
    assert_eq!(fi64(i64::MIN).wrapping_sub(fi64(i64::MAX)), fi64(1));
    assert_eq!(fi64(i64::MIN).wrapping_sub(fi64(i64::MIN)), fi64(0));

    assert_eq!(
        fi64(i64::MIN / 2).saturating_mul(fi64(i64::MIN / 2)),
        fi64(i64::MAX / 4 + 1)
    );
    assert_eq!(
        fi64(i64::MIN / 2).saturating_mul(fi64(i64::MAX / 2 + 1)),
        fi64(i64::MIN / 4)
    );
    assert_eq!(
        fi64(i64::MAX / 2 + 1).saturating_mul(fi64(i64::MIN / 2)),
        fi64(i64::MIN / 4)
    );
    assert_eq!(
        fi64(i64::MAX / 2 + 1).saturating_mul(fi64(i64::MAX / 2 + 1)),
        fi64(i64::MAX / 4 + 1)
    );

    assert_eq!(fi64(i64::MIN / 2).saturating_div(fi64(i64::MIN / 2)), fi64::one());
    assert_eq!(fi64(i64::MIN / 2).saturating_div(fi64(i64::MAX / 2 + 1)), fi64::neg_one());
    assert_eq!(fi64(i64::MAX / 2 + 1).saturating_div(fi64(i64::MAX / 2 + 1)), fi64::one());
    assert_eq!(
        fi64(i64::MAX / 4 + 1).saturating_div(fi64(i64::MAX / 2 + 1)),
        fi64(i64::MAX / 2 + 1)
    );

    assert_eq!(fi64(i64::MIN).wrapping_mul(fi64(i64::MIN)), fi64::min());
    assert_eq!(fi64(i64::MIN).wrapping_mul(fi64(i64::MAX)), fi64::neg_one());
    assert_eq!(fi64(i64::MAX).wrapping_mul(fi64(i64::MIN)), fi64::neg_one());
    assert_eq!(fi64(i64::MAX).wrapping_mul(fi64(i64::MAX)), fi64(i64::MAX - 1));
    assert_eq!(fi64::min().saturating_div(fi64::neg_one()), fi64::one());
    assert_eq!(fi64::min().saturating_div(fi64::min()), fi64::one());
    assert_eq!(fi64::min().saturating_div(fi64::neg_one()), fi64::one());
    assert_eq!(fi64::neg_one().saturating_div(fi64::min()), fi64::one());
    assert_eq!(fi64::neg_one().saturating_div(fi64::neg_one()), fi64::one());
    assert_eq!(fi64::min().saturating_div(fi64::max()), fi64::neg_one());
    assert_eq!(fi64::neg_one().saturating_div(fi64::max()), fi64::neg_one());
    assert_eq!(fi64::max().saturating_div(fi64::min()), fi64::neg_one());
    assert_eq!(fi64::max().saturating_div(fi64::neg_one()), fi64::neg_one());
    assert_eq!(fi64::max().saturating_div(fi64::max()), fi64::one());

    assert_eq!(fi128(i128::MIN / 2).to_string(), "-0.5".to_string());
    assert_eq!(fi128(i128::MAX / 2 + 1).to_string(), "0.5".to_string());
    assert_eq!(fi128::from_str("-0.5").unwrap(), fi128(i128::MIN / 2));
    assert_eq!(fi128::from_str("0.5").unwrap(), fi128(i128::MAX / 2 + 1));
    assert_eq!(fi128::from_str("-0.5").unwrap(), fi128(i128::MIN / 2));
    assert_eq!(fi128::min().to_string(), "-1.0".to_string());
    assert_eq!(fi128::neg_one().to_string(), "-1.0".to_string());
    assert_eq!(fi128::zero().to_string(), "0.0".to_string());
    assert_eq!(fi128::one().to_string(), "1.0".to_string());
    assert_eq!(fi128::max().to_string(), "1.0".to_string());
    assert_eq!(fi128::from_str("-1.0").unwrap(), fi128::neg_one());
    assert_eq!(fi128::from_str("0.0").unwrap(), fi128::zero());
    assert_eq!(fi128::from_str("1.0").unwrap(), fi128::one());

    assert_eq!(fi128(i128::MAX / 4 + 1).saturating_add(fi128(i128::MAX / 4)), fi128(i128::MAX / 2));
    assert_eq!(fi128(i128::MIN / 4).saturating_add(fi128(i128::MIN / 4)), fi128(i128::MIN / 2));
    assert_eq!(fi128(i128::MAX / 4 + 1).saturating_add(fi128(i128::MIN / 4)), fi128(0));
    assert_eq!(fi128(i128::MIN / 4).saturating_add(fi128(i128::MAX / 4 + 1)), fi128(0));
    assert_eq!(fi128(i128::MAX / 4).saturating_sub(fi128(i128::MAX / 4)), fi128(0));
    assert_eq!(fi128(i128::MIN / 4).saturating_sub(fi128(i128::MIN / 4)), fi128(0));
    assert_eq!(
        fi128(i128::MAX / 4 + 1).saturating_sub(fi128(i128::MIN / 4)),
        fi128(i128::MAX / 2 + 1)
    );
    assert_eq!(fi128(i128::MIN / 4).saturating_sub(fi128(i128::MAX / 4 + 1)), fi128(i128::MIN / 2));

    assert_eq!(fi128(i128::MAX).wrapping_add(fi128(i128::MAX)), fi128(-2));
    assert_eq!(fi128(i128::MAX).wrapping_add(fi128(i128::MIN)), fi128(-1));
    assert_eq!(fi128(i128::MIN).wrapping_add(fi128(i128::MAX)), fi128(-1));
    assert_eq!(fi128(i128::MIN).wrapping_add(fi128(i128::MIN)), fi128(0));
    assert_eq!(fi128(i128::MAX).wrapping_sub(fi128(i128::MAX)), fi128(0));
    assert_eq!(fi128(i128::MAX).wrapping_sub(fi128(i128::MIN)), fi128(-1));
    assert_eq!(fi128(i128::MIN).wrapping_sub(fi128(i128::MAX)), fi128(1));
    assert_eq!(fi128(i128::MIN).wrapping_sub(fi128(i128::MIN)), fi128(0));

    assert_eq!(
        fi128(i128::MIN / 2).saturating_mul(fi128(i128::MIN / 2)),
        fi128(i128::MAX / 4 + 1)
    );
    assert_eq!(
        fi128(i128::MIN / 2).saturating_mul(fi128(i128::MAX / 2 + 1)),
        fi128(i128::MIN / 4)
    );
    assert_eq!(
        fi128(i128::MAX / 2 + 1).saturating_mul(fi128(i128::MIN / 2)),
        fi128(i128::MIN / 4)
    );
    assert_eq!(
        fi128(i128::MAX / 2 + 1).saturating_mul(fi128(i128::MAX / 2 + 1)),
        fi128(i128::MAX / 4 + 1)
    );

    assert_eq!(fi128(i128::MIN / 2).saturating_div(fi128(i128::MIN / 2)), fi128::one());
    assert_eq!(fi128(i128::MIN / 2).saturating_div(fi128(i128::MAX / 2 + 1)), fi128::neg_one());
    assert_eq!(fi128(i128::MAX / 2 + 1).saturating_div(fi128(i128::MAX / 2 + 1)), fi128::one());
    assert_eq!(
        fi128(i128::MAX / 4 + 1).saturating_div(fi128(i128::MAX / 2 + 1)),
        fi128(i128::MAX / 2 + 1)
    );

    assert_eq!(fi128(i128::MIN).wrapping_mul(fi128(i128::MIN)), fi128::min());
    assert_eq!(fi128(i128::MIN).wrapping_mul(fi128(i128::MAX)), fi128::neg_one());
    assert_eq!(fi128(i128::MAX).wrapping_mul(fi128(i128::MIN)), fi128::neg_one());
    assert_eq!(fi128(i128::MAX).wrapping_mul(fi128(i128::MAX)), fi128(i128::MAX - 1));
    assert_eq!(fi128::min().saturating_div(fi128::neg_one()), fi128::one());
    assert_eq!(fi128::min().saturating_div(fi128::min()), fi128::one());
    assert_eq!(fi128::min().saturating_div(fi128::neg_one()), fi128::one());
    assert_eq!(fi128::neg_one().saturating_div(fi128::min()), fi128::one());
    assert_eq!(fi128::neg_one().saturating_div(fi128::neg_one()), fi128::one());
    assert_eq!(fi128::min().saturating_div(fi128::max()), fi128::neg_one());
    assert_eq!(fi128::neg_one().saturating_div(fi128::max()), fi128::neg_one());
    assert_eq!(fi128::max().saturating_div(fi128::min()), fi128::neg_one());
    assert_eq!(fi128::max().saturating_div(fi128::neg_one()), fi128::neg_one());
    assert_eq!(fi128::max().saturating_div(fi128::max()), fi128::one());

}
