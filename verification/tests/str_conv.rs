//! The string codec: every parse error on the input that provokes it, the
//! rounding boundaries, and the formatting of exact values.

use fracints::{fi128, fi16, fi32, fi64, fi8, FracintSerdeError};

#[test]
fn from_str() {
    assert_eq!(fi8::from_str(""), Err(FracintSerdeError::Empty));
    assert_eq!(fi8::from_str("_"), Err(FracintSerdeError::Empty));
    assert_eq!(fi8::from_str("-"), Err(FracintSerdeError::EmptyInteger));
    assert_eq!(fi8::from_str("x"), Err(FracintSerdeError::InvalidCharInInteger));
    assert_eq!(fi8::from_str("0a"), Err(FracintSerdeError::InvalidCharInInteger));
    assert_eq!(fi8::from_str("0b"), Err(FracintSerdeError::EmptyInteger));
    assert_eq!(fi8::from_str("0o"), Err(FracintSerdeError::EmptyInteger));
    assert_eq!(fi8::from_str("0x"), Err(FracintSerdeError::EmptyInteger));
    assert_eq!(fi8::from_str("."), Err(FracintSerdeError::EmptyInteger));
    assert_eq!(fi8::from_str("e"), Err(FracintSerdeError::EmptyInteger));
    assert_eq!(fi8::from_str("p"), Err(FracintSerdeError::EmptyInteger));
    assert_eq!(fi8::from_str("0."), Err(FracintSerdeError::EmptyFraction));
    assert_eq!(fi8::from_str("0._"), Err(FracintSerdeError::EmptyFraction));
    assert_eq!(fi8::from_str("0.a"), Err(FracintSerdeError::InvalidCharInFraction));
    assert_eq!(fi8::from_str("0e"), Err(FracintSerdeError::EmptyExponent));
    assert_eq!(fi8::from_str("0.0e"), Err(FracintSerdeError::EmptyExponent));
    assert_eq!(fi8::from_str("0.0e-"), Err(FracintSerdeError::EmptyExponent));
    assert_eq!(fi8::from_str("0.0e-_"), Err(FracintSerdeError::EmptyExponent));
    assert_eq!(fi8::from_str("0.0ea"), Err(FracintSerdeError::InvalidCharInExponent));
    assert_eq!(fi8::from_str("0b2"), Err(FracintSerdeError::InvalidCharInInteger));
    assert_eq!(fi8::from_str("0o9"), Err(FracintSerdeError::InvalidCharInInteger));
    assert_eq!(fi8::from_str("0xg"), Err(FracintSerdeError::InvalidCharInInteger));

    assert_eq!(fi8::from_str("0"), Ok(fi8(0)));
    assert_eq!(fi8::from_str("-0"), Ok(fi8(0)));
    assert_eq!(fi8::from_str("-_0_00_._00_0_e-_00_0_"), Ok(fi8(0)));
    assert_eq!(fi8::from_str("1"), Ok(fi8::one()));
    assert_eq!(fi8::from_str("-1"), Ok(fi8::neg_one()));

    assert_eq!(fi8::from_str("0.5"), Ok(fi8(64)));
    assert_eq!(fi8::from_str("0.00390625"), Ok(fi8(0)));
    assert_eq!(fi8::from_str("0.00390626"), Ok(fi8(1)));
    assert_eq!(fi8::from_str("0.01171874"), Ok(fi8(1)));
    assert_eq!(fi8::from_str("0.01171875"), Ok(fi8(2)));
    assert_eq!(fi8::from_str("0b1e-111"), Ok(fi8(1)));
    assert_eq!(fi8::from_str("0b10e-1000"), Ok(fi8(1)));
    assert_eq!(fi8::from_str("-0.001p3"), Ok(fi8::neg_one()));
    assert_eq!(fi8::from_str("-0.999"), Ok(fi8::neg_one()));

    assert_eq!(
        fi128::from_str("0.636619772367581343075535053490057448137_8"),
        Ok(fi128(108315241484954818046902227470560947936))
    );

    // exponents scale by radix^exponent before the single rounding
    assert_eq!(
        fi64::from_str("0.000123e2").unwrap(),
        fi64::from_str("0.0123").unwrap()
    );
    assert_eq!(
        fi64::from_str("123.456e-3").unwrap(),
        fi64::from_str("0.123456").unwrap()
    );
    assert_eq!(
        fi64::from_str("42e-7").unwrap(),
        fi64::from_str("0.0000042").unwrap()
    );

    // the other radixes, with 'p' for the hexadecimal exponent
    assert_eq!(
        fi8::from_str("0b0.1010101").unwrap(),
        fi8::from_str("0.664").unwrap()
    );
    assert_eq!(
        fi64::from_str("-0xbeef.123456_p-5").unwrap(),
        fi64::from_str("-0.046614714728434592").unwrap()
    );
}

#[test]
fn to_str() {
    assert_eq!(fi8::zero().to_string(), "0.0");
    assert_eq!(fi8::one().to_string(), "1.0");
    assert_eq!(fi8::neg_one().to_string(), "-1.0");
    assert_eq!(fi8::min().to_string(), "-1.0");
    assert_eq!(fi8(1).to_string(), "0.008");
    assert_eq!(fi8(2).to_string(), "0.016");

    assert_eq!(fi16(1).to_string(), "0.00003");
    assert_eq!(fi32(1).to_string(), "0.0000000005");
    assert_eq!(fi64(1).to_string(), "0.0000000000000000001");
    assert_eq!(fi128(1).to_string(), "0.000000000000000000000000000000000000006");

    assert_eq!(
        fi128(108315241484954818046902227470560947936).to_string(),
        "0.636619772367581343075535053490057448135"
    );
}
