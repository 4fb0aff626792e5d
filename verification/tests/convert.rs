use bignat::naturals::Natural;
use std::str::FromStr;

#[test]
fn from_str_test() {
    assert_eq!(Natural::from_str("100"), Natural::try_from(100));
    assert_eq!(
        Natural::from_str("100000000000000000000"),
        Ok(Natural::from(100000000000000000000u128))
    );
    assert_eq!(
        Natural::from_str("1000000000000000000900"),
        Ok(Natural::from(1000000000000000000900u128))
    );
    assert_eq!(
        Natural::from_str("9345623510000000000234500000000900"),
        Natural::try_from(9345623510000000000234500000000900i128)
    );
    assert_eq!(
        Natural::from_str(&u128::MAX.to_string()),
        Ok(Natural::Big(vec![u64::MAX, u64::MAX]))
    );
    assert_eq!(
        Natural::from_str("340282366920938463463374607431768211456"),
        Ok(Natural::Big(vec![0, 0, 1]))
    );
}

#[test]
fn naturals_from_primitive() {
    if let Natural::Small(small) = Natural::from(8u8) {
        assert_eq!(8u64, small);
    } else {
        panic!("Type u8 is small enough to stay on Stack.");
    }
    assert!(
        Natural::from((u8::MAX as u16) << 3).is_small(),
        "Type u16 is small enough to stay on Stack."
    );
    if let Natural::Small(small) = Natural::from(2147483647u32) {
        assert_eq!(2147483647u64, small);
    } else {
        panic!("Type u32 is small enough to stay on Stack.");
    }
}

#[test]
fn naturals_from_u128() {
    if let Natural::Small(small) = Natural::from(2147483647u128) {
        assert_eq!(2147483647u64, small);
    } else {
        panic!(
            "Given value of type u128 is still small enough to fit into usize and can therefore stay on Stack."
        );
    }
    if let Natural::Big(parts) = Natural::from(u128::MAX) {
        assert_eq!(parts, vec![u64::MAX, u64::MAX]);
    } else {
        panic!("This value is not small enough to fit on the stack. Is is split into 2 parts.");
    }
    if let Natural::Big(parts) = Natural::from((u64::MAX as u128) << 32) {
        assert_eq!(parts, vec![0xFFFFFFFF00000000u64, 0xFFFFFFFFu64]);
    } else {
        panic!("This value is not small enough to fit on the stack. Is is split into 2 parts.");
    }
}

#[test]
fn parse_rejects_empty_text() {
    assert_eq!(Natural::from_str(""), Err(()));
    assert_eq!(Natural::parse_decimal_bytes(b""), Err(()));
}

#[test]
fn parse_rejects_what_is_no_digit() {
    assert_eq!(Natural::from_str("12a4"), Err(()));
    assert_eq!(Natural::from_str("+5"), Err(()));
    assert_eq!(Natural::from_str("-5"), Err(()));
    assert_eq!(Natural::from_str(" 5"), Err(()));
    assert_eq!(Natural::from_str("1234567890123456789x"), Err(()));
    assert_eq!(Natural::from_str("x1234567890123456789"), Err(()));
    assert_eq!(Natural::from_str("\u{663}"), Err(()));
}

#[test]
fn parse_takes_whole_chunks() {
    assert_eq!(
        Natural::from_str("1000000000000000000"),
        Ok(Natural::Small(1_000_000_000_000_000_000))
    );
    assert_eq!(
        Natural::from_str("9999999999999999999"),
        Ok(Natural::Small(9_999_999_999_999_999_999))
    );
    assert_eq!(
        Natural::from_str("18446744073709551615"),
        Ok(Natural::Small(u64::MAX))
    );
    assert_eq!(
        Natural::from_str("18446744073709551616"),
        Ok(Natural::Big(vec![0, 1]))
    );
    assert_eq!(
        Natural::from_str("00000000000000000000000000000000000000042"),
        Ok(Natural::Small(42))
    );
}

#[test]
fn format_gives_the_digits() {
    assert_eq!(Natural::Small(0).to_decimal_string(), "0");
    assert_eq!(Natural::Small(7).to_decimal_string(), "7");
    assert_eq!(Natural::Small(u64::MAX).to_decimal_string(), "18446744073709551615");
    assert_eq!(
        Natural::Big(vec![0, 1]).to_decimal_string(),
        "18446744073709551616"
    );
    assert_eq!(
        Natural::Big(vec![0, 0, 1]).to_decimal_string(),
        "340282366920938463463374607431768211456"
    );
    assert_eq!(
        Natural::from(10_000_000_000_000_000_000u128).to_decimal_string(),
        "10000000000000000000"
    );
    assert_eq!(
        Natural::from(100_000_000_000_000_000_000_000_000_000_000_000_007u128).to_decimal_string(),
        "100000000000000000000000000000000000007"
    );
    assert_eq!(Natural::Small(0).to_decimal_bytes(), b"0".to_vec());
}

#[test]
fn format_then_parse_gives_the_value_back() {
    let values = vec![
        Natural::Small(0),
        Natural::Small(1),
        Natural::Small(u64::MAX),
        Natural::Big(vec![0, 1]),
        Natural::Big(vec![u64::MAX, u64::MAX, u64::MAX]),
        Natural::Big(vec![1, 0, 0, 0, 0, 7]),
    ];
    for v in values {
        assert_eq!(Natural::from_str(&v.to_decimal_string()), Ok(v));
    }
}

#[test]
fn negative_values_do_not_convert() {
    assert_eq!(Natural::try_from(-1i8), Err(()));
    assert_eq!(Natural::try_from(i64::MIN), Err(()));
    assert_eq!(Natural::try_from(-1i128), Err(()));
    assert_eq!(Natural::try_from(0i32), Ok(Natural::Small(0)));
    assert_eq!(Natural::try_from(i64::MAX), Ok(Natural::Small(i64::MAX as u64)));
    assert_eq!(
        Natural::try_from(i128::MAX),
        Ok(Natural::Big(vec![u64::MAX, u64::MAX >> 1]))
    );
}

#[test]
fn only_small_values_give_a_word() {
    assert_eq!(Natural::Small(42).try_into_word(), Ok(42));
    assert_eq!(Natural::Big(vec![0, 1]).try_into_word(), Err(()));
    assert_eq!(u64::try_from(Natural::Small(9)), Ok(9));
    assert_eq!(u64::try_from(Natural::Big(vec![1, 1])), Err(()));
}
