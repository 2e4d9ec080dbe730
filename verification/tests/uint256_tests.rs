use bridge_core::uint256::Uint256;

#[test]
fn checked_add_carries_across_limbs() {
    let a = Uint256 { lo: u128::MAX, hi: 0 };
    let b = Uint256::one();
    assert_eq!(a.checked_add(b), Some(Uint256 { lo: 0, hi: 1 }));

    let c = Uint256 { lo: u128::MAX, hi: 3 };
    let d = Uint256 { lo: 5, hi: 2 };
    assert_eq!(c.checked_add(d), Some(Uint256 { lo: 4, hi: 6 }));
}

#[test]
fn checked_add_detects_overflow_at_max() {
    let max = Uint256::max_value();
    assert_eq!(max.checked_add(Uint256::one()), None);
    assert_eq!(max.checked_add(max), None);
    assert_eq!(max.checked_add(Uint256::zero()), Some(max));
}

#[test]
fn checked_sub_borrows_across_limbs() {
    let a = Uint256 { lo: 0, hi: 1 };
    assert_eq!(a.checked_sub(Uint256::one()), Some(Uint256 { lo: u128::MAX, hi: 0 }));

    let b = Uint256 { lo: 3, hi: 7 };
    let c = Uint256 { lo: 5, hi: 2 };
    assert_eq!(b.checked_sub(c), Some(Uint256 { lo: u128::MAX - 1, hi: 4 }));
}

#[test]
fn checked_sub_detects_underflow() {
    assert_eq!(Uint256::zero().checked_sub(Uint256::one()), None);
    let small = Uint256 { lo: 5, hi: 1 };
    let large = Uint256 { lo: 4, hi: 2 };
    assert_eq!(small.checked_sub(large), None);
    assert_eq!(small.checked_sub(small), Some(Uint256::zero()));
}

#[test]
fn lt_orders_by_value() {
    let small = Uint256 { lo: u128::MAX, hi: 0 };
    let large = Uint256 { lo: 0, hi: 1 };
    assert!(small.lt(large));
    assert!(!large.lt(small));
    assert!(!small.lt(small));
    assert!(Uint256::zero().lt(Uint256::one()));
}
