use contract_abi::numbers::{BigInt, BigUint};
use std::cmp::Ordering;

#[test]
fn digits_are_little_endian() {
    let number = BigUint::from_bytes_le(&[0x39, 0x30]);
    assert_eq!(number.to_u128(), Some(12345));
    assert_eq!(number.to_bytes_le(), vec![0x39, 0x30]);
}

#[test]
fn leading_zeros_do_not_count() {
    let number = BigUint::from_bytes_le(&[7, 0, 0, 0]);
    assert_eq!(number.to_bytes_le(), vec![7]);
    assert_eq!(number, BigUint::from_u128(7));
    assert!(BigUint::from_bytes_le(&[0, 0]).is_zero());
    assert!(!number.is_zero());
}

#[test]
fn numbers_of_sixteen_bytes_fit() {
    assert_eq!(BigUint::from_bytes_le(&[0xff; 16]).to_u128(), Some(u128::MAX));
    let mut digits = vec![0u8; 16];
    digits.push(1);
    assert_eq!(BigUint::from_bytes_le(&digits).to_u128(), None);
    assert_eq!(BigUint::from_u128(u128::MAX).to_bytes_le(), vec![0xff; 16]);
}

#[test]
fn naturals_compare_by_value() {
    let big = BigUint::from_bytes_le(&[0, 0, 0, 0, 0, 0, 0, 0, 1]);
    let small = BigUint::from_u128(255);
    assert_eq!(big.compare(&small), Ordering::Greater);
    assert_eq!(small.compare(&big), Ordering::Less);
    assert_eq!(small.compare(&small.clone()), Ordering::Equal);
}

#[test]
fn zero_has_no_sign() {
    let zero = BigInt::new(true, BigUint::from_u128(0));
    assert!(!zero.is_negative());
    assert_eq!(zero, BigInt::new(false, BigUint::from_u128(0)));
}

#[test]
fn integers_compare_by_value() {
    let minus_two = BigInt::new(true, BigUint::from_u128(2));
    let minus_one = BigInt::new(true, BigUint::from_u128(1));
    let one = BigInt::new(false, BigUint::from_u128(1));
    assert_eq!(minus_two.compare(&minus_one), Ordering::Less);
    assert_eq!(minus_one.compare(&one), Ordering::Less);
    assert_eq!(one.compare(&minus_two), Ordering::Greater);
    assert_eq!(minus_two.compare(&minus_two.clone()), Ordering::Equal);
    assert_eq!(minus_two.magnitude().to_u128(), Some(2));
}
