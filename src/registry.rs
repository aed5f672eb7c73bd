//! The registry of order books: creating books for trading pairs, the checks
//! an order passes before it reaches a book, and the conversions between
//! ledger balances and fixed-point amounts.

use crate::amount::{fixed_div, fixed_mul, min_u128, Amount, ACCURACY};
use crate::book::{cancel_effect, submit_effect, EngineError, OrderBook};
use crate::engine::{
    fills_view, AccountId, AssetId, BlockNumber, Fill, Order, OrderType, OrderView,
    TradingPair,
};
use crate::index::{find_entry, has_id, index_view, IndexEntry};
use vstd::arithmetic::div_mod::{lemma_div_multiples_vanish, lemma_div_multiples_vanish_quotient};
use vstd::prelude::*;

verus! {

/// A ledger balance, in the ledger's smallest units.
pub type Balance = u128;

/// Why the registry turned a request down.
#[derive(Clone, Copy, PartialEq, Eq, Debug, Structural)]
pub enum DexError {
    /// A trading pair needs two different assets.
    SameAssetIdsError,
    /// The account's free balance does not cover the request.
    InsufficientAssetBalance,
    /// No further trading pair identifier is available.
    StorageOverflow,
    /// A fixed-point computation does not fit.
    CalculationOverflow,
    /// No book exists for the trading pair.
    TradingPairNotFound,
    /// The book accepts no new orders.
    TradingPairDisabled,
    /// The price or the quantity is zero.
    PriceOrQuantityIsZero,
    /// The order has no type.
    OrderTypeIsNone,
    /// The order type is not executed.
    UnsupportedOrderType,
    /// An order with the same identifier rests in the book.
    DuplicateOrderId,
    /// No resting order has the identifier.
    NotFound,
}

/// The registry's error for a book's error.
pub open spec fn lift_error(e: EngineError) -> DexError {
    match e {
        EngineError::TradingPairDisabled => DexError::TradingPairDisabled,
        EngineError::PriceOrQuantityIsZero => DexError::PriceOrQuantityIsZero,
        EngineError::OrderTypeIsNone => DexError::OrderTypeIsNone,
        EngineError::UnsupportedOrderType => DexError::UnsupportedOrderType,
        EngineError::DuplicateOrderId => DexError::DuplicateOrderId,
        EngineError::NotFound => DexError::NotFound,
    }
}

pub fn lift_engine_error(e: EngineError) -> (r: DexError)
    ensures
        r == lift_error(e),
{
    match e {
        EngineError::TradingPairDisabled => DexError::TradingPairDisabled,
        EngineError::PriceOrQuantityIsZero => DexError::PriceOrQuantityIsZero,
        EngineError::OrderTypeIsNone => DexError::OrderTypeIsNone,
        EngineError::UnsupportedOrderType => DexError::UnsupportedOrderType,
        EngineError::DuplicateOrderId => DexError::DuplicateOrderId,
        EngineError::NotFound => DexError::NotFound,
    }
}

/// A ledger balance as a fixed-point amount: a whole unit is 10^12 ledger
/// units; a balance too large for the scaling saturates first.
pub open spec fn balance_to_fixed(x: u128) -> u128 {
    (min_u128(x as int * ACCURACY as int) / 1_000_000_000_000) as u128
}

/// A fixed-point amount in ledger units, rounded down.
pub open spec fn fixed_to_balance(x: u128) -> u128 {
    x / 1_000_000
}

/// The registry of order books; a book's trading pair identifier is its
/// position.
#[derive(Debug)]
pub struct Module {
    pub books: Vec<OrderBook>,
}

impl Module {
    pub open spec fn wf(&self) -> bool {
        &&& forall|k: int| 0 <= k < self.books@.len() ==> (#[trigger] self.books@[k]).wf()
        &&& forall|k: int| 0 <= k < self.books@.len() ==> (#[trigger] self.books@[k]).id == k
    }

    /// Why `basic_order_checks` refuses an order, if it does.
    pub open spec fn check_error(
        &self,
        trading_pair: TradingPair,
        price: u128,
        quantity: u128,
        order_type: OrderType,
        order_id: Seq<u8>,
        free_balance: Balance,
    ) -> Option<DexError> {
        if price == 0 || quantity == 0 {
            Some(DexError::PriceOrQuantityIsZero)
        } else if order_type == OrderType::NoneType {
            Some(DexError::OrderTypeIsNone)
        } else if trading_pair >= self.books@.len() {
            Some(DexError::TradingPairNotFound)
        } else if order_type == OrderType::AskLimit || order_type == OrderType::AskMarket {
            if balance_to_fixed(free_balance) < quantity {
                Some(DexError::InsufficientAssetBalance)
            } else if self.books@[trading_pair as int].contains_id(order_id) {
                Some(DexError::DuplicateOrderId)
            } else {
                None
            }
        } else if order_type == OrderType::BidLimit || order_type == OrderType::BidMarket {
            if fixed_mul(price, quantity) > u128::MAX {
                Some(DexError::CalculationOverflow)
            } else if (balance_to_fixed(free_balance) as int) < fixed_mul(price, quantity) {
                Some(DexError::InsufficientAssetBalance)
            } else if self.books@[trading_pair as int].contains_id(order_id) {
                Some(DexError::DuplicateOrderId)
            } else {
                None
            }
        } else {
            Some(DexError::UnsupportedOrderType)
        }
    }

    pub fn new() -> (r: Module)
        ensures
            r.wf(),
            r.books@.len() == 0,
    {
        Module { books: Vec::new() }
    }

    /// The identifier the next book will get.
    pub fn book_id(&self) -> (r: usize)
        ensures
            r == self.books@.len(),
    {
        self.books.len()
    }

    pub fn u32_to_asset_id(input: u32) -> (r: AssetId)
        ensures
            r == input,
    {
        input
    }

    /// A registration is refused for two equal assets, and for an account
    /// without a positive free balance in both.
    pub fn check_registration(
        trading_asset_id: u32,
        base_asset_id: u32,
        trading_balance: Balance,
        base_balance: Balance,
    ) -> (r: Result<(), DexError>)
        ensures
            trading_asset_id == base_asset_id ==> r == Err::<(), DexError>(DexError::SameAssetIdsError),
            trading_asset_id != base_asset_id && (trading_balance == 0 || base_balance == 0) ==> r
                == Err::<(), DexError>(DexError::InsufficientAssetBalance),
            trading_asset_id != base_asset_id && trading_balance > 0 && base_balance > 0 ==> r
                == Ok::<(), DexError>(()),
    {
        if trading_asset_id == base_asset_id {
            return Err(DexError::SameAssetIdsError);
        }
        if trading_balance > 0 && base_balance > 0 {
            Ok(())
        } else {
            Err(DexError::InsufficientAssetBalance)
        }
    }

    /// Creates an empty book for a pair and returns its identifier.
    pub fn create_order_book(
        &mut self,
        trading_asset_id: AssetId,
        base_asset_id: AssetId,
        current_block: BlockNumber,
    ) -> (r: Result<TradingPair, DexError>)
        requires
            old(self).wf(),
        ensures
            final(self).wf(),
            old(self).books@.len() < u32::MAX ==> r == Ok::<TradingPair, DexError>(
                old(self).books@.len() as u32,
            ),
            old(self).books@.len() >= u32::MAX ==> r == Err::<TradingPair, DexError>(
                DexError::StorageOverflow,
            ) && final(self).books@ == old(self).books@,
            r.is_ok() ==> final(self).books@.len() == old(self).books@.len() + 1 && final(self).books@.drop_last() == old(self).books@ && final(self).books@.last().trading_asset
                == trading_asset_id && final(self).books@.last().base_asset == base_asset_id
                && final(self).books@.last().enabled && final(self).books@.last().orders@.len() == 0
                && final(self).books@.last().bids.levels@.len() == 0 && final(self).books@.last().asks.levels@.len()
                == 0,
    {
        let n = self.books.len();
        if n >= u32::MAX as usize {
            return Err(DexError::StorageOverflow);
        }
        let id = n as u32;
        let book = OrderBook::new(id, trading_asset_id, base_asset_id, current_block);
        self.books.push(book);
        proof {
            assert(self.books@.drop_last() =~= old(self).books@);
            assert forall|k: int| 0 <= k < self.books@.len() implies (#[trigger] self.books@[k]).wf()
                && self.books@[k].id == k by {
                if k < n {
                    assert(self.books@[k] == old(self).books@[k]);
                }
            }
        }
        Ok(id)
    }

    /// The fixed-point product of price and quantity: the amount of the base
    /// asset a bid commits.
    pub fn calculate_trade_amount(price: Amount, quantity: Amount) -> (r: Option<Amount>)
        ensures
            fixed_mul(price.inner, quantity.inner) <= u128::MAX ==> r == Some(
                Amount { inner: fixed_mul(price.inner, quantity.inner) as u128 },
            ),
            fixed_mul(price.inner, quantity.inner) > u128::MAX ==> r.is_none(),
    {
        price.checked_mul(&quantity)
    }

    /// A ledger balance as a fixed-point amount.
    pub fn convert_balance_to_fixed_u128(x: Balance) -> (r: Option<Amount>)
        ensures
            r == Some(Amount { inner: balance_to_fixed(x) }),
            x as int * ACCURACY as int <= u128::MAX ==> r == Some(
                Amount { inner: (x * 1_000_000) as u128 },
            ),
    {
        let y = Amount::from_integer(x);
        let d = Amount::from_integer(1_000_000_000_000);
        proof {
            let a = y.inner as int;
            lemma_div_multiples_vanish_quotient(ACCURACY as int, a, 1_000_000_000_000);
            assert(fixed_div(y.inner, d.inner) == a / 1_000_000_000_000);
            if x as int * ACCURACY as int <= u128::MAX {
                lemma_div_multiples_vanish(x as int * 1_000_000, 1_000_000_000_000);
            }
        }
        y.checked_div(&d)
    }

    /// A fixed-point amount in ledger units.
    pub fn convert_fixed_u128_to_balance(x: Amount) -> (r: Option<Balance>)
        ensures
            r == Some(fixed_to_balance(x.inner)),
    {
        let d = Amount::from_integer(1_000_000);
        proof {
            lemma_div_multiples_vanish_quotient(ACCURACY as int, x.inner as int, 1_000_000);
            assert(fixed_div(x.inner, d.inner) == x.inner / 1_000_000);
        }
        match x.checked_div(&d) {
            Some(v) => Some(v.into_inner()),
            None => None,
        }
    }

    /// Whether no resting order of the book has identifier `order_id`.
    pub fn check_order_id(orders: &Vec<IndexEntry>, order_id: &Vec<u8>) -> (r: bool)
        ensures
            r == !has_id(index_view(orders@), order_id@),
    {
        match find_entry(orders, order_id) {
            Some(j) => {
                proof {
                    assert(index_view(orders@)[j as int].id == order_id@);
                }
                false
            },
            None => true,
        }
    }

    /// The balance covers the amount, and the identifier is new to the book.
    pub fn has_balance_for_trading(
        orders: &Vec<IndexEntry>,
        balance_to_check: Amount,
        computed_amount: Amount,
        order_id: &Vec<u8>,
    ) -> (r: Result<(), DexError>)
        ensures
            balance_to_check.inner < computed_amount.inner ==> r == Err::<(), DexError>(
                DexError::InsufficientAssetBalance,
            ),
            balance_to_check.inner >= computed_amount.inner && has_id(index_view(orders@), order_id@)
                ==> r == Err::<(), DexError>(DexError::DuplicateOrderId),
            balance_to_check.inner >= computed_amount.inner && !has_id(
                index_view(orders@),
                order_id@,
            ) ==> r == Ok::<(), DexError>(()),
    {
        if balance_to_check.inner >= computed_amount.inner {
            if Self::check_order_id(orders, order_id) {
                Ok(())
            } else {
                Err(DexError::DuplicateOrderId)
            }
        } else {
            Err(DexError::InsufficientAssetBalance)
        }
    }

    /// The checks an order passes before it reaches its book: positive price
    /// and quantity, a type, a known pair, a free balance (in the asset the
    /// order spends: the trading asset for asks, the base asset for bids)
    /// that covers the quantity or the price times the quantity, and a new
    /// identifier.
    pub fn basic_order_checks(
        &self,
        trading_pair: TradingPair,
        price: Amount,
        quantity: Amount,
        order_type: OrderType,
        order_id: &Vec<u8>,
        free_balance: Balance,
    ) -> (r: Result<(), DexError>)
        requires
            self.wf(),
        ensures
            match self.check_error(
                trading_pair,
                price.inner,
                quantity.inner,
                order_type,
                order_id@,
                free_balance,
            ) {
                Some(e) => r == Err::<(), DexError>(e),
                None => r == Ok::<(), DexError>(()),
            },
    {
        if price.inner == 0 || quantity.inner == 0 {
            return Err(DexError::PriceOrQuantityIsZero);
        }
        if order_type == OrderType::NoneType {
            return Err(DexError::OrderTypeIsNone);
        }
        if trading_pair as usize >= self.books.len() {
            return Err(DexError::TradingPairNotFound);
        }
        let book = &self.books[trading_pair as usize];
        match order_type {
            OrderType::AskLimit | OrderType::AskMarket => {
                match Self::convert_balance_to_fixed_u128(free_balance) {
                    Some(balance) => Self::has_balance_for_trading(
                        &book.orders,
                        balance,
                        quantity,
                        order_id,
                    ),
                    None => Err(DexError::CalculationOverflow),
                }
            },
            OrderType::BidLimit | OrderType::BidMarket => {
                match Self::convert_balance_to_fixed_u128(free_balance) {
                    Some(balance) => match Self::calculate_trade_amount(price, quantity) {
                        Some(amount) => Self::has_balance_for_trading(
                            &book.orders,
                            balance,
                            amount,
                            order_id,
                        ),
                        None => Err(DexError::CalculationOverflow),
                    },
                    None => Err(DexError::CalculationOverflow),
                }
            },
            _ => Err(DexError::UnsupportedOrderType),
        }
    }
}

/// The order that `submit_limit_order` builds from its arguments.
pub open spec fn order_of(
    order_type: OrderType,
    order_id: Seq<u8>,
    price: u128,
    quantity: u128,
    trader: AccountId,
) -> OrderView {
    OrderView {
        id: order_id,
        order_type,
        price,
        quantity,
        market_maker: false,
        origin: trader,
        expiry: 0,
    }
}

impl Module {
    /// Checks an order and submits it as a limit order to its book.
    pub fn submit_limit_order(
        &mut self,
        trading_pair: TradingPair,
        order_type: OrderType,
        order_id: Vec<u8>,
        price: Amount,
        quantity: Amount,
        trader: AccountId,
        free_balance: Balance,
    ) -> (r: Result<(Vec<Fill>, Option<Order>), DexError>)
        requires
            old(self).wf(),
        ensures
            final(self).wf(),
            ({
                let ov = order_of(order_type, order_id@, price.inner, quantity.inner, trader);
                let checked = old(self).check_error(
                    trading_pair,
                    price.inner,
                    quantity.inner,
                    order_type,
                    order_id@,
                    free_balance,
                );
                match checked {
                    Some(e) => r == Err::<(Vec<Fill>, Option<Order>), DexError>(e) && final(self).books@
                        == old(self).books@,
                    None => {
                        let b = old(self).books@[trading_pair as int];
                        match r {
                            Err(e) => b.submit_error(ov).is_some() && e == lift_error(
                                b.submit_error(ov).unwrap(),
                            ),
                            Ok((fills, resting)) => {
                                &&& final(self).books@.len() == old(self).books@.len()
                                &&& forall|k: int|
                                    0 <= k < final(self).books@.len() && k != trading_pair ==> #[trigger] final(self).books@[k]
                                        == old(self).books@[k]
                                &&& submit_effect(
                                    b,
                                    final(self).books@[trading_pair as int],
                                    ov,
                                    fills_view(fills@),
                                    match resting {
                                        Some(o) => Some(o@),
                                        None => None,
                                    },
                                )
                            },
                        }
                    },
                }
            }),
            r.is_err() ==> final(self).books@ == old(self).books@,
    {
        match self.basic_order_checks(
            trading_pair,
            price,
            quantity,
            order_type,
            &order_id,
            free_balance,
        ) {
            Err(e) => {
                return Err(e);
            },
            Ok(()) => {},
        }
        let order = Order::new(order_id, order_type, price, quantity, trader, 0);
        let k = trading_pair as usize;
        let ghost old_books = self.books@;
        let mut book = self.books.remove(k);
        let r = book.submit_limit(order);
        self.books.insert(k, book);
        proof {
            assert forall|x: int| 0 <= x < self.books@.len() && x != k implies #[trigger] self.books@[x]
                == old_books[x] by {}
            assert(self.books@[k as int] == book);
            assert forall|x: int| 0 <= x < self.books@.len() implies (#[trigger] self.books@[x]).wf()
                && self.books@[x].id == x by {
                if x != k {
                    assert(self.books@[x] == old_books[x]);
                }
            }
            if r.is_err() {
                assert(self.books@ =~= old_books);
            }
        }
        match r {
            Ok(x) => Ok(x),
            Err(e) => Err(lift_engine_error(e)),
        }
    }

    /// Cancels a resting order of a pair's book and returns it.
    pub fn cancel_order(&mut self, trading_pair: TradingPair, order_id: &Vec<u8>) -> (r: Result<
        Order,
        DexError,
    >)
        requires
            old(self).wf(),
        ensures
            final(self).wf(),
            trading_pair >= old(self).books@.len() ==> r == Err::<Order, DexError>(
                DexError::TradingPairNotFound,
            ),
            trading_pair < old(self).books@.len() ==> (r.is_err() <==> !old(self).books@[trading_pair as int].contains_id(
                order_id@,
            )),
            trading_pair < old(self).books@.len() && r.is_err() ==> r == Err::<Order, DexError>(
                DexError::NotFound,
            ),
            r.is_err() ==> final(self).books@ == old(self).books@,
            match r {
                Ok(o) => {
                    &&& final(self).books@.len() == old(self).books@.len()
                    &&& forall|k: int|
                        0 <= k < final(self).books@.len() && k != trading_pair ==> #[trigger] final(self).books@[k]
                            == old(self).books@[k]
                    &&& cancel_effect(
                        old(self).books@[trading_pair as int],
                        final(self).books@[trading_pair as int],
                        order_id@,
                        o@,
                    )
                },
                Err(_) => true,
            },
    {
        if trading_pair as usize >= self.books.len() {
            return Err(DexError::TradingPairNotFound);
        }
        let k = trading_pair as usize;
        let ghost old_books = self.books@;
        let mut book = self.books.remove(k);
        let r = book.cancel(order_id);
        self.books.insert(k, book);
        proof {
            assert forall|x: int| 0 <= x < self.books@.len() && x != k implies #[trigger] self.books@[x]
                == old_books[x] by {}
            assert(self.books@[k as int] == book);
            assert forall|x: int| 0 <= x < self.books@.len() implies (#[trigger] self.books@[x]).wf()
                && self.books@[x].id == x by {
                if x != k {
                    assert(self.books@[x] == old_books[x]);
                }
            }
            if r.is_err() {
                assert(self.books@ =~= old_books);
            }
        }
        match r {
            Ok(o) => Ok(o),
            Err(e) => Err(lift_engine_error(e)),
        }
    }

    /// The ledger amounts that settle a fill: the base asset the buyer pays
    /// (price times quantity) and the trading asset the seller delivers,
    /// both in ledger units; `None` when the product does not fit.
    pub fn trade_settlement(fill: &Fill) -> (r: Option<(Balance, Balance)>)
        ensures
            fixed_mul(fill.price.inner, fill.quantity.inner) > u128::MAX ==> r.is_none(),
            fixed_mul(fill.price.inner, fill.quantity.inner) <= u128::MAX ==> r == Some(
                (
                    fixed_to_balance(fixed_mul(fill.price.inner, fill.quantity.inner) as u128),
                    fixed_to_balance(fill.quantity.inner),
                ),
            ),
    {
        let amount = match Self::calculate_trade_amount(fill.price, fill.quantity) {
            Some(a) => a,
            None => {
                return None;
            },
        };
        let base = match Self::convert_fixed_u128_to_balance(amount) {
            Some(b) => b,
            None => {
                return None;
            },
        };
        let traded = match Self::convert_fixed_u128_to_balance(fill.quantity) {
            Some(b) => b,
            None => {
                return None;
            },
        };
        Some((base, traded))
    }
}

} // verus!
