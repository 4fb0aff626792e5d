use bignat::naturals::Natural;
use bignat::naturals::Natural::{Big, Small};

#[test]
fn big_lhs_rhs_0() {
    let lhs = Big(vec![1, 1, 1]);
    let rhs = Big(vec![1, 1]);
    let expected = Big(vec![2, 2, 1]);
    assert_eq!(expected, lhs + rhs);
}

#[test]
fn big_lhs_rhs_1() {
    let lhs = Big(vec![1, 1]);
    let rhs = Big(vec![1, 1, 2]);
    let expected = Big(vec![2, 2, 2]);
    assert_eq!(expected, lhs + rhs);
}

#[test]
fn big_lhs_rhs_2() {
    let lhs = Big(vec![1, u64::MAX, 1, 1]);
    let rhs = Big(vec![1, 1]);
    let expected = Big(vec![2, 0, 2, 1]);
    assert_eq!(expected, lhs + rhs);
}

#[test]
fn big_lhs_rhs_3() {
    let lhs = Small(0);
    let rhs = Small(0);
    let expected = Small(0);
    assert_eq!(expected, lhs + rhs);
}

#[test]
fn pow_1() {
    assert_eq!(Small(5).pow(Small(5)), Small(3125));
}

#[test]
fn shl_inside_small() {
    let expected = Natural::Small(0);
    let output = expected.clone() << Small(1);
    assert_eq!(expected, output);

    let expected = Natural::Small(8);
    let output = Natural::Small(1) << Small(3);
    assert_eq!(expected, output);

    let expected = Natural::Small(0b1010001010000000);
    let output = Natural::Small(0b101000101) << Small(7);
    assert_eq!(expected, output);
}

#[test]
fn shl_small_into_big() {
    let expected = Natural::Big(vec![0, 1]);
    let output = Natural::Small(1) << Small(64);
    assert_eq!(expected, output);

    let expected = Natural::Big(vec![0, 8]);
    let output = Natural::Small(1) << Small(64 + 3);
    assert_eq!(expected, output);

    let expected = Natural::Big(vec![0, 0b101000101]);
    let output = Natural::Small(0b101000101) << Small(64);
    assert_eq!(expected, output);

    let expected = Natural::Big(vec![0, 0b1010001010000000]);
    let output = Natural::Small(0b101000101) << Small(64 + 7);
    assert_eq!(expected, output);
}

#[test]
fn pow_0() {
    assert_eq!(
        Natural::two().pow(Small(100)),
        "1267650600228229401496703205376".parse().unwrap()
    );
}
