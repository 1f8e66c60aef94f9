//! The square roots: the bisection oracle, the seed curve, and the fast
//! Goldschmidt path at every width.

use fracints::sqrt::isqrt_sub1;
use fracints::{fi128, fi16, fi32, fi64, fi8};

#[test]
fn sqrt() {
    assert_eq!(fi64::from_str("0.0").unwrap().sqrt_slow(), fi64::from_str("0.0").unwrap());
    assert_eq!(
        fi64::ulp().sqrt_slow(),
        fi64::from_str("0.0000000003292722539").unwrap()
    );
    assert_eq!(
        fi64::from_str("0.000000000001").unwrap().sqrt_slow(),
        fi64::from_str("0.0000009999999980021").unwrap()
    );
    assert_eq!(
        fi64::from_str("0.5").unwrap().sqrt_slow(),
        fi64::from_str("0.7071067811865475244").unwrap()
    );
    assert_eq!(fi64::from_str("1.0").unwrap().sqrt_slow(), fi64::from_str("1.0").unwrap());

    assert_eq!(
        isqrt_sub1(fi16::from_str("0.25").unwrap()),
        fi16::from_str("1.0").unwrap()
    );
    assert_eq!(
        isqrt_sub1(fi16::from_str("0.5").unwrap()),
        fi16::from_str("0.41418").unwrap()
    );
    assert_eq!(
        isqrt_sub1(fi16::from_str("0.75").unwrap()),
        fi16::from_str("0.15469").unwrap()
    );
    assert_eq!(
        isqrt_sub1(fi16::from_str("1.0").unwrap()),
        fi16::from_str("0.0").unwrap()
    );

    assert_eq!(
        fi128::from_str("0.07").unwrap().sqrt_fast(),
        fi128::from_str("0.264575131106459059050161575363926042568").unwrap()
    );
    assert_eq!(
        fi64::from_str("0.07").unwrap().sqrt_fast(),
        fi64::from_str("0.2645751311064590591").unwrap()
    );
    assert_eq!(
        fi32::from_str("0.07").unwrap().sqrt_fast(),
        fi32::from_str("0.2645751303").unwrap()
    );
    assert_eq!(
        fi16::from_str("0.07").unwrap().sqrt_fast(),
        fi16::from_str("0.26459").unwrap()
    );
    assert_eq!(
        fi8::from_str("0.07").unwrap().sqrt_fast(),
        fi8::from_str("0.258").unwrap()
    );

    assert_eq!(
        fi128::ulp().sqrt_fast(),
        fi128::from_str("0.00000000000000000007666467083416870407").unwrap()
    );
    assert_eq!(
        fi128::from_str("0.11").unwrap().sqrt_fast(),
        fi128::from_str("0.331662479035539984911493273667068668386").unwrap()
    );
    assert_eq!(fi64::from_str("0.0").unwrap().sqrt_fast(), fi64::from_str("0.0").unwrap());
    assert_eq!(fi64::from_str("1.0").unwrap().sqrt_fast(), fi64::from_str("1.0").unwrap());
}
