use bignat::naturals::iter::BitIter;
use bignat::naturals::Natural;
use bignat::naturals::Natural::{Big, Small};
use std::cmp::Ordering;

fn bits_of(n: Natural) -> Vec<u8> {
    let mut iter = BitIter::from(n);
    let mut bits = Vec::new();
    while let Some(b) = iter.next() {
        bits.push(if b { 1 } else { 0 });
    }
    bits
}

#[test]
fn test_bit_iter() {
    let bits = bits_of(Small(100));
    assert_eq!(bits, vec![1, 1, 0, 0, 1, 0, 0]);
}

#[test]
fn trim() {
    assert_eq!(vec![2usize, 0usize], vec![2usize, 0usize]);
    assert_eq!(Small(2u64), Big(vec![2u64, 0u64]).trim());
    assert_eq!(
        Small(u64::MAX),
        Big(vec![u64::MAX, 0u64, 0u64, 0u64]).trim()
    );
    assert_eq!(
        Big(vec![1u64 << 8usize, u64::MAX]),
        Big(vec![1u64 << 8usize, u64::MAX, 0u64, 0u64]).trim()
    );
    assert_eq!(
        Big(vec![1u64 << 8usize, 0u64, u64::MAX]),
        Big(vec![1u64 << 8usize, 0u64, u64::MAX, 0u64, 0u64, 0u64,]).trim()
    );
}

#[test]
fn trim_of_nothing_but_zeros_is_zero() {
    assert_eq!(Big(vec![]).trim(), Small(0));
    assert_eq!(Big(vec![0]).trim(), Small(0));
    assert_eq!(Big(vec![0, 0, 0]).trim(), Small(0));
    assert_eq!(Big(vec![5]).trim(), Small(5));
    assert_eq!(Small(9).trim(), Small(9));
    assert_eq!(Natural::from_limbs(vec![3, 0, 4, 0]), Big(vec![3, 0, 4]));
}

#[test]
fn trim_twice_is_trim_once() {
    for limbs in [vec![], vec![0], vec![7, 0], vec![1, 2, 0, 0], vec![0, 0, 3]] {
        let once = Big(limbs).trim();
        let twice = once.clone().trim();
        assert_eq!(once, twice);
        assert!(once.is_small() || (once.len() >= 2 && once.last_hunk() != 0));
    }
}

#[test]
fn all_bits_at_once() {
    assert_eq!(
        Small(100).to_bits(),
        vec![true, true, false, false, true, false, false]
    );
    assert_eq!(Small(0).to_bits(), vec![false]);
    assert_eq!(Big(vec![0, 1]).to_bits().len(), 65);
}

#[test]
fn zero_has_one_bit() {
    assert_eq!(bits_of(Small(0)), vec![0]);
    assert_eq!(bits_of(Small(1)), vec![1]);
    assert_eq!(bits_of(Small(2)), vec![1, 0]);
}

#[test]
fn bits_run_over_limbs() {
    let mut expected = vec![1, 0, 1];
    expected.extend(std::iter::repeat(0).take(63));
    expected.push(1);
    assert_eq!(bits_of(Big(vec![1, 5])), expected);
    assert_eq!(bits_of(Small(u64::MAX)), vec![1; 64]);
    let mut iter = Big(vec![0, 1]).bits();
    let mut count = 0;
    while iter.next().is_some() {
        count += 1;
    }
    assert_eq!(count, 65);
    assert_eq!(iter.next(), None);
}

#[test]
fn bit_length_counts_up_to_the_top_bit() {
    assert_eq!(Small(0).BITS(), Small(0));
    assert_eq!(Small(1).BITS(), Small(1));
    assert_eq!(Small(100).BITS(), Small(7));
    assert_eq!(Small(u64::MAX).BITS(), Small(64));
    assert_eq!(Big(vec![0, 1]).BITS(), Small(65));
    assert_eq!(Big(vec![0, 0, 1 << 63]).BITS(), Small(192));
}

#[test]
fn accessors() {
    let n = Big(vec![3, 4, 5]);
    assert_eq!(n.first_hunk(), 3);
    assert_eq!(n.last_hunk(), 5);
    assert_eq!(n.len(), 3);
    assert!(n.is_big());
    assert!(!n.is_small());
    assert_eq!(Small(8).first_hunk(), 8);
    assert_eq!(Small(8).last_hunk(), 8);
    assert_eq!(Small(8).len(), 1);
    assert_eq!(Natural::max_hunks(), (isize::MAX / 8) as usize);
    assert_eq!(Natural::new(5u8), Small(5));
    assert_eq!(Natural::new(1u128 << 64), Big(vec![0, 1]));
    assert_eq!(Natural::zero(), Small(0));
    assert_eq!(Natural::one(), Small(1));
    assert_eq!(Natural::two(), Small(2));
    assert_eq!(Natural::max_small(), Small(u64::MAX));
}

#[test]
fn equality_is_by_variant_and_limbs() {
    assert_eq!(Big(vec![1, 2]), Big(vec![1, 2]));
    assert_ne!(Big(vec![1, 2]), Big(vec![1, 2, 3]));
    assert_ne!(Big(vec![1, 2, 3]), Big(vec![1, 2]));
    assert_ne!(Big(vec![1, 2]), Big(vec![1, 3]));
    assert_ne!(Small(1), Big(vec![1, 0]));
    assert_ne!(Small(1), Small(2));
}

#[test]
fn order_is_by_value() {
    assert_eq!(Small(3).compare(&Small(5)), Ordering::Less);
    assert_eq!(Small(5).compare(&Small(5)), Ordering::Equal);
    assert_eq!(Small(u64::MAX).compare(&Big(vec![0, 1])), Ordering::Less);
    assert_eq!(Big(vec![0, 1]).compare(&Small(u64::MAX)), Ordering::Greater);
    assert_eq!(Big(vec![5, 1]).compare(&Big(vec![4, 2])), Ordering::Less);
    assert_eq!(Big(vec![5, 2]).compare(&Big(vec![4, 2])), Ordering::Greater);
    assert_eq!(Big(vec![9, 9]).compare(&Big(vec![0, 0, 1])), Ordering::Less);
    assert_eq!(Big(vec![4, 2]).compare(&Big(vec![4, 2])), Ordering::Equal);
    assert!(Small(3) < Small(5));
    assert!(Big(vec![0, 1]) >= Small(7));
    assert!(Small(3).less_than(&Big(vec![0, 1])));
    assert!(!Big(vec![0, 1]).less_than(&Small(3)));
}
