use bignat::integer::Integer;
use bignat::Sign;

#[test]
fn integer_from_u8() {
    assert_eq!(Integer::new(u8::MIN).parts, vec![u8::MIN as u64]);
    assert_eq!(Integer::new(u8::MAX).parts, vec![u8::MAX as u64]);
    assert_eq!(Integer::new(42u8).parts, vec![42u8 as u64]);
}

#[test]
fn tests_integer_from_u64() {
    assert_eq!(Integer::new(u64::MIN).parts, vec![u64::MIN]);
    assert_eq!(Integer::new(u64::MAX).parts, vec![u64::MAX]);
    assert_eq!(Integer::new(42u64).parts, vec![42u64]);
}

#[test]
fn integer_signs() {
    assert_eq!(Integer::new(0u32).sign, None);
    assert_eq!(Integer::new(0i32).sign, None);
    assert_eq!(Integer::new(7u16).sign, Some(Sign::Positive));
    assert_eq!(Integer::new(7i64).sign, Some(Sign::Positive));
    assert_eq!(Integer::new(-7i64).sign, Some(Sign::Negative));
    assert_eq!(Integer::new(-7i64).parts, vec![7]);
    assert_eq!(Integer::new(i64::MIN).parts, vec![1 << 63]);
    assert_eq!(Integer::new(i8::MIN).parts, vec![128]);
    assert_eq!(Integer::new(isize::MIN).sign, Some(Sign::Negative));
}

#[test]
fn integer_of_two_limbs() {
    assert_eq!(Integer::new(42i128).parts, vec![42, 0]);
    assert_eq!(Integer::new(42u128).parts, vec![42, 0]);
    assert_eq!(Integer::new(u128::MAX).parts, vec![u64::MAX, u64::MAX]);
    assert_eq!(Integer::new(i128::MIN).parts, vec![0, 1 << 63]);
    assert_eq!(Integer::new(i128::MIN).sign, Some(Sign::Negative));
    assert_eq!(Integer::new(i128::MAX).parts, vec![u64::MAX, u64::MAX >> 1]);
    assert_eq!(Integer::new(i128::MAX).sign, Some(Sign::Positive));
    assert_eq!(Integer::new(-1i128).parts, vec![1, 0]);
    assert_eq!(Integer::new(0i128).sign, None);
}
