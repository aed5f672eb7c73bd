use dex_orderbook::amount::{Amount, ACCURACY};

#[test]
fn integer_scaling_and_saturation() {
    assert_eq!(Amount::from_integer(3).inner, 3 * ACCURACY);
    assert_eq!(Amount::from_integer(u128::MAX / 10).inner, u128::MAX);
    assert_eq!(Amount::zero().inner, 0);
    assert_eq!(Amount::from_inner(17).into_inner(), 17);
}

#[test]
fn checked_and_saturating_arithmetic() {
    let a = Amount::from_inner(5);
    let b = Amount::from_inner(7);
    assert_eq!(a.checked_add(&b), Some(Amount::from_inner(12)));
    assert_eq!(Amount::from_inner(u128::MAX).checked_add(&a), None);
    assert_eq!(Amount::from_inner(u128::MAX).saturating_add(&a), Amount::from_inner(u128::MAX));
    assert_eq!(b.checked_sub(&a), Some(Amount::from_inner(2)));
    assert_eq!(a.checked_sub(&b), None);
}

#[test]
fn fixed_point_product_and_quotient() {
    let half = Amount::from_inner(ACCURACY / 2);
    let three = Amount::from_integer(3);
    assert_eq!(three.checked_mul(&half), Some(Amount::from_inner(3 * ACCURACY / 2)));
    assert_eq!(three.checked_div(&half), Some(Amount::from_integer(6)));
    assert_eq!(three.checked_div(&Amount::zero()), None);
    assert_eq!(Amount::from_inner(1).checked_div(&Amount::from_integer(3)), Some(Amount::from_inner(0)));
    assert_eq!(Amount::from_inner(u128::MAX).checked_div(&Amount::from_inner(1)), None);
}
