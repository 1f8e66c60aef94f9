//! Reference checks of the primitive casting and shifting behavior the
//! stored-integer arithmetic relies on.

#[test]
fn general_sanity_test() {
    // iX >> i/uX is an arithmetic shift: dividing by a power of two and
    // rounding toward negative infinity
    assert_eq!(123i8 >> 3u8, 15);
    assert_eq!(-123i8 >> 3u8, -16);
    assert_eq!(123i8 >> 3i8, 15);

    // uX >> i/uX is a logical shift, adding zeros at the end
    assert_eq!(123u8 >> 3, 15);
    assert_eq!(234u8 >> 3u8, 29);
    assert_eq!(234u8 >> 3i8, 29);

    // i/uX << i/uX is a logical shift, adding zeros at the end
    assert_eq!(13i8 << 3, 104);
    assert_eq!(-13i8 << 3, -104);
    assert_eq!(13u8 << 3, 104);

    // casting: iX as uX and uX as iX leave the bits unchanged
    // iX as uX is numerically equal if iX >= 0
    assert_eq!(127i8 as u8, 127u8);
    assert_eq!(-120i8 as u8, 136u8);

    // uX as iX is equal if uX <= iX::MAX
    assert_eq!(63u8 as i8, 63i8);
    assert_eq!(200u8 as i8, -56i8);

    // iX to iD sign-extends, always equal
    assert_eq!(i16::from(-128i8), -128i16);
    assert_eq!(i16::from(-120i8), -120i16);
    assert_eq!(i16::from(127i8), 127i16);

    // iX as uD sign-extends the bits, equal if iX >= 0
    assert_eq!(127i8 as u16, 127u16);
    assert_eq!(-100i8 as u16, 65436u16);

    // uX to uD zero-extends, always equal
    assert_eq!(u16::from(255u8), 255u16);

    // uX as iD zero-extends, always equal
    assert_eq!(255u8 as i16, 255i16);

    // i/uD as i/uX is plain truncation
    // uD as uX is equal if uD <= uX::MAX
    assert_eq!(255u16 as u8, 255u8);
    assert_eq!(9001u16 as u8, 41u8);

    // iD as uX is equal if 0 <= iD <= uX::MAX
    assert_eq!(100i16 as u8, 100u8);
    assert_eq!(-3i16 as u8, 253u8);
    assert_eq!(1000i16 as u8, 232u8);

    // uD as iX is equal if uD <= iX::MAX
    assert_eq!(100u16 as i8, 100i8);
    assert_eq!(3u16 as i8, 3i8);
    assert_eq!(1000u16 as i8, -24i8);

    // iD as iX is equal if iX::MIN <= iD <= iX::MAX
    assert_eq!(-120i16 as i8, -120i8);
    assert_eq!(127i16 as i8, 127i8);
    assert_eq!(1000i16 as i8, -24i8);
}
