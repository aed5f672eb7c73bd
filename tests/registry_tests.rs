use dex_orderbook::amount::Amount;
use dex_orderbook::engine::OrderType;
use dex_orderbook::registry::{DexError, Module};
use sp_arithmetic::FixedU128;

fn units(n: u128) -> Amount {
    Amount::from_integer(n)
}

#[test]
#[allow(non_snake_case)]
fn balance_FixedU128_integer_conversion_works() {
    let value = FixedU128::from(2u128);
    println!("Value for Testing: {}", value);
    let amount = Amount::from_inner(value.into_inner());
    let balance_converted = Module::convert_fixed_u128_to_balance(amount);
    assert!(balance_converted.is_some());
    println!("Value in Substrate Balance type (u128): {}", balance_converted.unwrap());
    let balance = Module::convert_balance_to_fixed_u128(balance_converted.unwrap());
    assert!(balance.is_some());
    println!("Value after converting back to FixedU128 type: {}", balance.unwrap().inner);
    assert_eq!(balance, Some(amount));
}

#[test]
fn balance_fixed_u128_float_conversion_works() {
    let value = FixedU128::from_float(2.3456789);
    println!("Value for Testing: {}", value);
    let amount = Amount::from_inner(value.into_inner());
    let balance_converted = Module::convert_fixed_u128_to_balance(amount);
    assert!(balance_converted.is_some());
    println!("Value in Substrate Balance type (u128): {}", balance_converted.unwrap());
    let balance = Module::convert_balance_to_fixed_u128(balance_converted.unwrap());
    assert!(balance.is_some());
    println!("Value after converting back to FixedU128 type: {}", balance.unwrap().inner);
    assert_eq!(balance, Some(amount));
}

#[test]
fn it_works_for_default_value() {
    let module = Module::new();
    assert_eq!(module.book_id(), 0);
    assert_eq!(OrderType::default(), OrderType::NoneType);
}

#[test]
fn correct_error_for_none_value() {
    let mut module = Module::new();
    let pair = module.create_order_book(1, 2, 0).unwrap();
    assert_eq!(
        module.basic_order_checks(pair, units(1), units(1), OrderType::NoneType, &vec![1], 1_000_000),
        Err(DexError::OrderTypeIsNone)
    );
}

#[test]
fn conversion_values() {
    assert_eq!(Module::convert_fixed_u128_to_balance(units(2)), Some(2_000_000_000_000));
    assert_eq!(Module::convert_fixed_u128_to_balance(Amount::from_inner(1_999_999)), Some(1));
    assert_eq!(Module::convert_balance_to_fixed_u128(5), Some(Amount::from_inner(5_000_000)));
    assert_eq!(
        Module::convert_balance_to_fixed_u128(u128::MAX),
        Some(Amount::from_inner(u128::MAX / 1_000_000_000_000))
    );
    assert_eq!(Module::u32_to_asset_id(9), 9);
}

#[test]
fn trade_amount_rounds_down() {
    let price = Amount::from_inner(1_500_000_000_000_000_000);
    assert_eq!(Module::calculate_trade_amount(price, units(3)), Some(Amount::from_inner(4_500_000_000_000_000_000)));
    assert_eq!(Module::calculate_trade_amount(Amount::from_inner(3), Amount::from_inner(1)), Some(Amount::from_inner(0)));
    assert_eq!(Module::calculate_trade_amount(Amount::from_inner(u128::MAX), units(2)), None);
}

#[test]
fn registration_checks() {
    assert_eq!(Module::check_registration(3, 3, 10, 10), Err(DexError::SameAssetIdsError));
    assert_eq!(Module::check_registration(3, 4, 0, 10), Err(DexError::InsufficientAssetBalance));
    assert_eq!(Module::check_registration(3, 4, 10, 0), Err(DexError::InsufficientAssetBalance));
    assert_eq!(Module::check_registration(3, 4, 10, 10), Ok(()));
}

#[test]
fn books_get_consecutive_ids() {
    let mut module = Module::new();
    assert_eq!(module.create_order_book(1, 2, 5), Ok(0));
    assert_eq!(module.create_order_book(1, 3, 5), Ok(1));
    assert_eq!(module.book_id(), 2);
    assert_eq!(*module.books[1].get_base_asset(), 3);
    assert_eq!(*module.books[1].get_trading_asset(), 1);
}

#[test]
fn order_checks() {
    let mut module = Module::new();
    let pair = module.create_order_book(1, 2, 0).unwrap();
    // a whole unit is 10^12 ledger units
    let five_units = 5_000_000_000_000;
    assert_eq!(
        module.basic_order_checks(pair, units(1), units(0), OrderType::AskLimit, &vec![1], five_units),
        Err(DexError::PriceOrQuantityIsZero)
    );
    assert_eq!(
        module.basic_order_checks(7, units(1), units(1), OrderType::AskLimit, &vec![1], five_units),
        Err(DexError::TradingPairNotFound)
    );
    assert_eq!(
        module.basic_order_checks(pair, units(1), units(6), OrderType::AskLimit, &vec![1], five_units),
        Err(DexError::InsufficientAssetBalance)
    );
    assert_eq!(
        module.basic_order_checks(pair, units(1), units(5), OrderType::AskLimit, &vec![1], five_units),
        Ok(())
    );
    assert_eq!(
        module.basic_order_checks(pair, units(2), units(3), OrderType::BidLimit, &vec![1], five_units),
        Err(DexError::InsufficientAssetBalance)
    );
    assert_eq!(
        module.basic_order_checks(pair, units(1), units(5), OrderType::BidLimit, &vec![1], five_units),
        Ok(())
    );
    assert_eq!(
        module.basic_order_checks(pair, Amount::from_inner(u128::MAX), units(2), OrderType::BidLimit, &vec![1], five_units),
        Err(DexError::CalculationOverflow)
    );
    assert_eq!(
        module.basic_order_checks(pair, units(1), units(1), OrderType::BidStopLimit, &vec![1], five_units),
        Err(DexError::UnsupportedOrderType)
    );
    module.submit_limit_order(pair, OrderType::AskLimit, vec![1], units(1), units(1), 9, five_units).unwrap();
    assert_eq!(
        module.basic_order_checks(pair, units(1), units(1), OrderType::AskLimit, &vec![1], five_units),
        Err(DexError::DuplicateOrderId)
    );
}

#[test]
fn submit_and_cancel_through_registry() {
    let mut module = Module::new();
    let pair = module.create_order_book(1, 2, 0).unwrap();
    let balance = 100_000_000_000_000;
    let (fills, resting) = module
        .submit_limit_order(pair, OrderType::AskLimit, vec![1], units(10), units(5), 9, balance)
        .unwrap();
    assert!(fills.is_empty());
    assert!(resting.is_some());
    let (fills, resting) = module
        .submit_limit_order(pair, OrderType::BidLimit, vec![2], units(10), units(2), 8, balance)
        .unwrap();
    assert_eq!(fills.len(), 1);
    assert!(resting.is_none());
    assert_eq!(Module::trade_settlement(&fills[0]), Some((20_000_000_000_000, 2_000_000_000_000)));
    assert_eq!(
        module.submit_limit_order(pair, OrderType::AskMarket, vec![3], units(10), units(2), 8, balance).unwrap_err(),
        DexError::UnsupportedOrderType
    );
    assert_eq!(module.cancel_order(5, &vec![1]).unwrap_err(), DexError::TradingPairNotFound);
    assert_eq!(module.cancel_order(pair, &vec![2]).unwrap_err(), DexError::NotFound);
    let o = module.cancel_order(pair, &vec![1]).unwrap();
    assert_eq!(o.quantity, units(3));
    module.books[pair as usize].enabled = false;
    assert_eq!(
        module.submit_limit_order(pair, OrderType::AskLimit, vec![4], units(10), units(2), 8, balance).unwrap_err(),
        DexError::TradingPairDisabled
    );
}
