use bignat::division::div_rem;
use bignat::naturals::Natural;
use bignat::naturals::Natural::{Big, Small};
use std::str::FromStr;

fn samples() -> Vec<Natural> {
    vec![
        Small(0),
        Small(1),
        Small(2),
        Small(u64::MAX),
        Big(vec![0, 1]),
        Big(vec![u64::MAX, u64::MAX]),
        Big(vec![1, 2, 3]),
        Big(vec![u64::MAX, 0, u64::MAX, 7]),
    ]
}

#[test]
fn add_carries_into_a_new_limb() {
    assert_eq!(Small(u64::MAX) + Small(1), Big(vec![0, 1]));
    assert_eq!(Small(u64::MAX) + Small(u64::MAX), Big(vec![u64::MAX - 1, 1]));
    assert_eq!(
        Big(vec![u64::MAX, u64::MAX]) + Small(1),
        Big(vec![0, 0, 1])
    );
    assert_eq!(
        Big(vec![u64::MAX, u64::MAX]) + Big(vec![u64::MAX, u64::MAX]),
        Big(vec![u64::MAX - 1, u64::MAX, 1])
    );
    assert_eq!(Small(7) + Big(vec![1, 1]), Big(vec![8, 1]));
}

#[test]
fn add_zero_and_commute() {
    for a in samples() {
        assert_eq!(a.clone() + Small(0), a);
        assert_eq!(Small(0) + a.clone(), a);
        for b in samples() {
            assert_eq!(a.clone() + b.clone(), b.clone() + a.clone());
            for c in samples() {
                assert_eq!(
                    (a.clone() + b.clone()) + c.clone(),
                    a.clone() + (b.clone() + c.clone())
                );
            }
        }
    }
}

#[test]
fn sub_underflows_to_none() {
    assert_eq!(Small(3) - Small(5), None);
    assert_eq!(Small(5) - Small(3), Some(Small(2)));
    assert_eq!(Small(5) - Small(5), Some(Small(0)));
    assert_eq!(Small(5) - Big(vec![0, 1]), None);
    assert_eq!(Big(vec![0, 1]) - Big(vec![1, 1]), None);
    assert_eq!(Big(vec![0, 1]) - Big(vec![0, 0, 1]), None);
}

#[test]
fn sub_borrows_and_trims() {
    assert_eq!(Big(vec![0, 1]) - Small(1), Some(Small(u64::MAX)));
    assert_eq!(
        Big(vec![0, 0, 1]) - Small(1),
        Some(Big(vec![u64::MAX, u64::MAX]))
    );
    assert_eq!(Big(vec![5, 7]) - Big(vec![5, 7]), Some(Small(0)));
    assert_eq!(Big(vec![5, 7]) - Big(vec![6, 6]), Some(Big(vec![u64::MAX, 0]).trim()));
    assert_eq!(Big(vec![5, 7]) - Big(vec![6, 6]), Some(Small(u64::MAX)));
}

#[test]
fn sub_then_add_gives_the_minuend_back() {
    for a in samples() {
        for b in samples() {
            match a.clone() - b.clone() {
                Some(diff) => {
                    assert!(!a.less_than(&b));
                    assert_eq!(diff + b.clone(), a);
                }
                None => assert!(a.less_than(&b)),
            }
        }
    }
}

#[test]
fn mul_by_one_and_by_zero() {
    for a in samples() {
        assert_eq!(a.clone() * Small(1), a);
        assert_eq!(Small(1) * a.clone(), a);
        assert_eq!(a.clone() * Small(0), Small(0));
        assert_eq!(Small(0) * a.clone(), Small(0));
        for b in samples() {
            assert_eq!(a.clone() * b.clone(), b.clone() * a.clone());
        }
    }
}

#[test]
fn mul_gives_the_full_product() {
    assert_eq!(Small(6) * Small(7), Small(42));
    assert_eq!(
        Small(u64::MAX) * Small(u64::MAX),
        Big(vec![1, u64::MAX - 1])
    );
    assert_eq!(Small(1 << 32) * Small(1 << 32), Big(vec![0, 1]));
    assert_eq!(
        Big(vec![u64::MAX, u64::MAX]) * Big(vec![u64::MAX, u64::MAX]),
        Big(vec![1, 0, u64::MAX - 1, u64::MAX])
    );
    assert_eq!(
        Natural::from_str("123456789012345678901234567890").unwrap()
            * Natural::from_str("987654321098765432109876543210").unwrap(),
        Natural::from_str("121932631137021795226185032733622923332237463801111263526900").unwrap()
    );
}

#[test]
fn shift_up_puts_zero_limbs_below() {
    assert_eq!(Small(1).shift_up(0), Small(1));
    assert_eq!(Small(1).shift_up(1), Big(vec![0, 1]));
    assert_eq!(Small(7).shift_up(3), Big(vec![0, 0, 0, 7]));
    assert_eq!(Big(vec![1, 2]).shift_up(2), Big(vec![0, 0, 1, 2]));
    assert_eq!(Small(0).shift_up(4), Small(0));
}

#[test]
fn division_and_remainder() {
    assert_eq!(Small(17) / Small(5), Small(3));
    assert_eq!(Small(17) % Small(5), Small(2));
    assert_eq!(Small(5) % Big(vec![0, 1]), Small(5));
    assert_eq!(Small(5) / Big(vec![0, 1]), Small(0));
    assert_eq!(Big(vec![0, 1]) / Small(2), Small(1 << 63));
    assert_eq!(Big(vec![1, 1]) % Small(2), Small(1));
    assert_eq!(Big(vec![0, 0, 1]) / Big(vec![0, 1]), Big(vec![0, 1]));
    assert_eq!(Big(vec![5, 0, 1]) % Big(vec![0, 1]), Small(5));
    assert_eq!(
        Natural::from_str("1000000000000000000000000000000000000000").unwrap()
            / Natural::from_str("33333333333333333333").unwrap(),
        Natural::from_str("30000000000000000000").unwrap()
    );
    assert_eq!(
        Natural::from_str("1000000000000000000000000000000000000000").unwrap()
            % Natural::from_str("33333333333333333333").unwrap(),
        Natural::from_str("10000000000000000000").unwrap()
    );
    let (q, r) = div_rem(Big(vec![7, 7, 7]), Big(vec![3, 3]));
    assert_eq!(q * Big(vec![3, 3]) + r, Big(vec![7, 7, 7]));
}

#[test]
fn quotient_times_divisor_plus_remainder_is_the_dividend() {
    for a in samples() {
        for b in samples() {
            if b == Small(0) {
                continue;
            }
            let q = a.clone() / b.clone();
            let r = a.clone() % b.clone();
            assert!(r.less_than(&b));
            assert_eq!(q * b.clone() + r, a);
        }
    }
}

#[test]
fn power_of_zero_is_one() {
    for a in samples() {
        assert_eq!(a.pow(Small(0)), Small(1));
    }
}

#[test]
fn powers() {
    assert_eq!(Small(0).pow(Small(5)), Small(0));
    assert_eq!(Small(7).pow(Small(1)), Small(7));
    assert_eq!(Small(2).pow(Small(64)), Big(vec![0, 1]));
    assert_eq!(Small(10).pow(Small(19)), Small(10_000_000_000_000_000_000));
    assert_eq!(
        Small(3).pow(Small(100)),
        Natural::from_str("515377520732011331036461129765621272702107522001").unwrap()
    );
}

#[test]
fn shift_by_the_limb_width() {
    assert_eq!(Small(1) << Small(64), Big(vec![0, 1]));
    assert_eq!(Small(1) << Small(0), Small(1));
    assert_eq!(Small(u64::MAX) << Small(4), Big(vec![u64::MAX << 4, 15]));
    assert_eq!(
        Big(vec![1 << 63, 1]) << Small(1),
        Big(vec![0, 3])
    );
    assert_eq!(
        Big(vec![u64::MAX, u64::MAX]) << Small(130),
        Big(vec![0, 0, u64::MAX << 2, u64::MAX, 3])
    );
    assert_eq!(Small(0) << Small(1000), Small(0));
    assert_eq!(Small(3) << Small(200), Small(3) * Small(2).pow(Small(200)));
}

#[test]
fn checked_operations_refuse_what_is_outside_their_domain() {
    assert_eq!(Small(7).checked_div(Small(0)), None);
    assert_eq!(Small(7).checked_div(Big(vec![0, 0])), None);
    assert_eq!(Small(7).checked_rem(Small(0)), None);
    assert_eq!(Small(7).checked_div(Small(2)), Some(Small(3)));
    assert_eq!(Small(7).checked_rem(Small(2)), Some(Small(1)));
    assert_eq!(Small(1).checked_shift_up(Natural::max_hunks()), None);
    assert_eq!(Small(1).checked_shift_up(usize::MAX), None);
    assert_eq!(Small(1).checked_shift_up(2), Some(Big(vec![0, 0, 1])));
    assert_eq!(Small(1).checked_shl(Big(vec![0, 64])), None);
    assert_eq!(Small(1).checked_shl(Big(vec![0, 16])), None);
    assert_eq!(
        Small(1).checked_shl(Small(64) * Small(Natural::max_hunks() as u64 - 1)),
        None
    );
    assert_eq!(Small(1).checked_shl(Small(65)), Some(Big(vec![0, 2])));
    assert!(Small(0).is_zero());
    assert!(Big(vec![0, 0]).is_zero());
    assert!(!Big(vec![0, 1]).is_zero());
}
