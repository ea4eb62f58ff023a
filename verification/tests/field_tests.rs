use rust_tc::util::clear_scalar;
use rust_tc::{Fr, IntoScalar};

#[test]
fn test_clear() {
    let mut scalar: Fr = Fr::random();
    assert_ne!(scalar, Fr::zero());

    clear_scalar(&mut scalar);
    assert_eq!(scalar, Fr::zero());
}

#[test]
fn small_numbers_add_and_multiply_as_integers() {
    let a = Fr::from_u64(6);
    let b = Fr::from_u64(7);
    assert_eq!(Fr::from_u64(13), a.plus(&b));
    assert_eq!(Fr::from_u64(42), a.times(&b));
    assert_eq!(Fr::from_u64(1), b.minus(&a));
    assert_eq!(Fr::zero(), a.plus(&a.negate()));
    assert_eq!(Fr::zero().minus(&Fr::one()), a.minus(&b));
}

#[test]
fn inverse_multiplies_to_one() {
    let a = Fr::from_u64(123456789);
    let inverse = a.invert().unwrap();
    assert_eq!(Fr::one(), a.times(&inverse));
    assert_ne!(a, inverse);
    assert_eq!(None, Fr::zero().invert());
    assert_eq!(Some(Fr::one()), Fr::one().invert());
}

#[test]
fn bytes_round_trip_and_are_little_endian() {
    let a = Fr::from_u64(0x0102);
    let bytes = a.to_bytes();
    assert_eq!(2, bytes[0]);
    assert_eq!(1, bytes[1]);
    assert!(bytes[2..].iter().all(|b| *b == 0));
    assert_eq!(Some(a), Fr::from_bytes(&bytes));
    assert_eq!([0u8; 32], Fr::zero().to_bytes());
    let mut one = [0u8; 32];
    one[0] = 1;
    assert_eq!(one, Fr::one().to_bytes());
}

#[test]
fn from_bytes_rejects_what_is_not_below_the_modulus() {
    // The modulus itself, little-endian.
    let modulus: [u8; 32] = [
        0x01, 0x00, 0x00, 0x00, 0xff, 0xff, 0xff, 0xff, 0xfe, 0x5b, 0xfe, 0xff, 0x02, 0xa4, 0xbd,
        0x53, 0x05, 0xd8, 0xa1, 0x09, 0x08, 0xd8, 0x39, 0x33, 0x48, 0x7d, 0x9d, 0x29, 0x53, 0xa7,
        0xed, 0x73,
    ];
    assert_eq!(None, Fr::from_bytes(&modulus));
    assert_eq!(None, Fr::from_bytes(&[0xff; 32]));
    let mut below = modulus;
    below[0] = 0;
    let greatest = Fr::from_bytes(&below).unwrap();
    assert_eq!(Fr::zero(), greatest.plus(&Fr::one()));
    assert_eq!(greatest, Fr::one().negate());
}

#[test]
fn from_raw_reduces() {
    assert_eq!(Fr::from_u64(5), Fr::from_raw([5, 0, 0, 0]));
    // 2^64
    let big = Fr::from_raw([0, 1, 0, 0]);
    let two_32 = Fr::from_u64(1 << 32);
    assert_eq!(two_32.times(&two_32), big);
    // The modulus reduces to zero.
    let modulus = [
        0xffff_ffff_0000_0001,
        0x53bd_a402_fffe_5bfe,
        0x3339_d808_09a1_d805,
        0x73ed_a753_299d_7d48,
    ];
    assert_eq!(Fr::zero(), Fr::from_raw(modulus));
}

#[test]
fn integers_convert_to_scalars() {
    assert_eq!(Fr::from_u64(7), 7u64.into_scalar());
    assert_eq!(Fr::from_u64(7), 7usize.into_scalar());
    assert_eq!(Fr::from_u64(7), 7i32.into_scalar());
    assert_eq!(Fr::from_u64(7), 7i64.into_scalar());
    assert_eq!(Fr::from_u64(7).negate(), (-7i32).into_scalar());
    assert_eq!(Fr::from_u64(7).negate(), (-7i64).into_scalar());
    assert_eq!(Fr::from_u64(7), (&7u64).into_scalar());
    assert_eq!(Fr::from_u64(7), Fr::from_u64(7).into_scalar());
    assert_eq!(
        Fr::from_u64(1 << 31).negate(),
        i32::MIN.into_scalar()
    );
    assert_eq!(
        Fr::from_u64(1 << 63).negate(),
        i64::MIN.into_scalar()
    );
}

#[test]
fn zero_test_and_equality() {
    assert!(Fr::zero().is_zero());
    assert!(!Fr::one().is_zero());
    assert!(Fr::from_u64(3).equals(&Fr::from_u64(3)));
    assert!(!Fr::from_u64(3).equals(&Fr::from_u64(4)));
}
