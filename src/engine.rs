//! The records the engine works on: order types, orders, price levels,
//! fills and market-data points, with their mathematical views.

use crate::amount::Amount;
use vstd::prelude::*;

verus! {

/// Identifies a trading pair (an order book) in the registry.
pub type TradingPair = u32;

/// An account that owns orders.
pub type AccountId = u64;

/// A block height: the period marker of market data and order expiry.
pub type BlockNumber = u64;

/// An asset of the ledger.
pub type AssetId = u32;

/// The kind of an order. Only the two limit kinds are executed; the others
/// are part of the data model only.
#[derive(Clone, Copy, PartialEq, Eq, Debug, Structural)]
pub enum OrderType {
    BidLimit,
    BidMarket,
    BidStopLimit,
    BidStopMarket,
    BidStopLoss,
    BidFillKill,
    PostOnly,
    AskLimit,
    AskMarket,
    AskStopLimit,
    AskStopMarket,
    AskStopLoss,
    AskFillKill,
    NoneType,
}

impl Default for OrderType {
    fn default() -> (r: OrderType)
        ensures
            r == OrderType::NoneType,
    {
        OrderType::NoneType
    }
}

/// A side of the book.
#[derive(Clone, Copy, PartialEq, Eq, Debug, Structural)]
pub enum Side {
    Bid,
    Ask,
}

/// The side whose resting orders an order of `side` trades against.
pub open spec fn opposite(side: Side) -> Side {
    match side {
        Side::Bid => Side::Ask,
        Side::Ask => Side::Bid,
    }
}

/// On `side`, price `a` has strictly higher priority than price `b`.
pub open spec fn better(side: Side, a: u128, b: u128) -> bool {
    match side {
        Side::Bid => a > b,
        Side::Ask => a < b,
    }
}

/// On `side`, price `a` has at least the priority of price `b`.
pub open spec fn at_least_as_good(side: Side, a: u128, b: u128) -> bool {
    !better(side, b, a)
}

/// An incoming order of `side` with limit `limit` trades with a resting order
/// at `maker_price`.
pub open spec fn crosses(side: Side, limit: u128, maker_price: u128) -> bool {
    match side {
        Side::Bid => maker_price <= limit,
        Side::Ask => maker_price >= limit,
    }
}

pub fn crosses_exec(side: Side, limit: &Amount, maker_price: &Amount) -> (r: bool)
    ensures
        r == crosses(side, limit.inner, maker_price.inner),
{
    match side {
        Side::Bid => maker_price.inner <= limit.inner,
        Side::Ask => maker_price.inner >= limit.inner,
    }
}

pub fn better_exec(side: Side, a: &Amount, b: &Amount) -> (r: bool)
    ensures
        r == better(side, a.inner, b.inner),
{
    match side {
        Side::Bid => a.inner > b.inner,
        Side::Ask => a.inner < b.inner,
    }
}

/// What an order is, as plain values.
pub struct OrderView {
    pub id: Seq<u8>,
    pub order_type: OrderType,
    pub price: u128,
    pub quantity: u128,
    pub market_maker: bool,
    pub origin: AccountId,
    pub expiry: BlockNumber,
}

/// An order: identity, kind, limit price and the quantity that remains.
#[derive(Debug)]
pub struct Order {
    pub id: Vec<u8>,
    pub order_type: OrderType,
    pub price: Amount,
    pub quantity: Amount,
    pub market_maker: bool,
    pub origin: AccountId,
    pub expiry: BlockNumber,
}

impl View for Order {
    type V = OrderView;

    open spec fn view(&self) -> OrderView {
        OrderView {
            id: self.id@,
            order_type: self.order_type,
            price: self.price.inner,
            quantity: self.quantity.inner,
            market_maker: self.market_maker,
            origin: self.origin,
            expiry: self.expiry,
        }
    }
}

/// `o` with its remaining quantity set to `q`.
pub open spec fn with_quantity(o: OrderView, q: u128) -> OrderView {
    OrderView { quantity: q, ..o }
}

/// A byte-for-byte copy of an identifier.
pub fn copy_id(id: &Vec<u8>) -> (r: Vec<u8>)
    ensures
        r@ == id@,
{
    let mut r: Vec<u8> = Vec::with_capacity(id.len());
    let mut i: usize = 0;
    while i < id.len()
        invariant
            i <= id.len(),
            r@ == id@.subrange(0, i as int),
        decreases id.len() - i,
    {
        r.push(id[i]);
        i = i + 1;
        assert(r@ =~= id@.subrange(0, i as int));
    }
    assert(r@ =~= id@);
    r
}

/// Whether two identifiers hold the same bytes.
pub fn same_id(a: &Vec<u8>, b: &Vec<u8>) -> (r: bool)
    ensures
        r == (a@ == b@),
{
    if a.len() != b.len() {
        return false;
    }
    let mut i: usize = 0;
    while i < a.len()
        invariant
            a.len() == b.len(),
            i <= a.len(),
            forall|k: int| 0 <= k < i ==> a@[k] == b@[k],
        decreases a.len() - i,
    {
        if a[i] != b[i] {
            return false;
        }
        i = i + 1;
    }
    assert(a@ =~= b@);
    true
}

impl Order {
    pub fn new(
        id: Vec<u8>,
        order_type: OrderType,
        price: Amount,
        quantity: Amount,
        origin: AccountId,
        expiry: BlockNumber,
    ) -> (r: Order)
        ensures
            r@ == (OrderView {
                id: id@,
                order_type,
                price: price.inner,
                quantity: quantity.inner,
                market_maker: false,
                origin,
                expiry,
            }),
    {
        Order { id, order_type, price, quantity, market_maker: false, origin, expiry }
    }

    /// A field-for-field copy.
    pub fn duplicate(&self) -> (r: Order)
        ensures
            r@ == self@,
    {
        Order {
            id: copy_id(&self.id),
            order_type: self.order_type,
            price: self.price,
            quantity: self.quantity,
            market_maker: self.market_maker,
            origin: self.origin,
            expiry: self.expiry,
        }
    }

    pub fn get_origin(&self) -> (r: &AccountId)
        ensures
            *r == self.origin,
    {
        &self.origin
    }

    pub fn get_quantity(&self) -> (r: &Amount)
        ensures
            *r == self.quantity,
    {
        &self.quantity
    }

    pub fn get_price(&self) -> (r: &Amount)
        ensures
            *r == self.price,
    {
        &self.price
    }

    pub fn get_expiry(&self) -> (r: &BlockNumber)
        ensures
            *r == self.expiry,
    {
        &self.expiry
    }

    pub fn get_id(&self) -> (r: &Vec<u8>)
        ensures
            r@ == self.id@,
    {
        &self.id
    }

    pub fn get_order_type(&self) -> (r: &OrderType)
        ensures
            *r == self.order_type,
    {
        &self.order_type
    }

    pub fn is_market_maker(&self) -> (r: bool)
        ensures
            r == self.market_maker,
    {
        self.market_maker
    }

    pub fn set_quantity(&mut self, new_quantity: Amount)
        ensures
            final(self)@ == with_quantity(old(self)@, new_quantity.inner),
    {
        self.quantity = new_quantity;
    }
}

/// The resting orders at one price, oldest first.
#[derive(Debug)]
pub struct PriceLevel {
    pub price_level: Amount,
    pub queue: Vec<Order>,
}

/// The views of a queue of orders, in the same order.
pub open spec fn queue_view(q: Seq<Order>) -> Seq<OrderView> {
    q.map_values(|o: Order| o@)
}

impl PriceLevel {
    pub fn get_price_level(&self) -> (r: &Amount)
        ensures
            *r == self.price_level,
    {
        &self.price_level
    }

    pub fn get_orders(&self) -> (r: &Vec<Order>)
        ensures
            r@ == self.queue@,
    {
        &self.queue
    }

    pub fn get_orders_mut(&mut self) -> (r: &mut Vec<Order>)
        ensures
            *r == old(self).queue,
            *final(self) == (PriceLevel { price_level: old(self).price_level, queue: *final(r) }),
    {
        &mut self.queue
    }
}

/// The orders of a side in priority order: the queues of its levels, best
/// level first, each oldest first.
pub open spec fn flatten(levels: Seq<PriceLevel>) -> Seq<OrderView>
    decreases levels.len(),
{
    if levels.len() == 0 {
        Seq::empty()
    } else {
        queue_view(levels[0].queue@) + flatten(levels.skip(1))
    }
}

/// A well-formed side: no empty level, every order at its level's price with
/// a positive price and quantity, and level prices strictly in priority order.
pub open spec fn wf_levels(side: Side, levels: Seq<PriceLevel>) -> bool {
    &&& forall|k: int| 0 <= k < levels.len() ==> #[trigger] levels[k].queue@.len() > 0
    &&& forall|k: int, i: int|
        0 <= k < levels.len() && 0 <= i < levels[k].queue@.len() ==> {
            &&& (#[trigger] levels[k].queue@[i])@.price == levels[k].price_level.inner
            &&& levels[k].queue@[i]@.quantity > 0
            &&& levels[k].queue@[i]@.price > 0
        }
    &&& forall|k1: int, k2: int|
        0 <= k1 < k2 < levels.len() ==> better(
            side,
            #[trigger] levels[k1].price_level.inner,
            #[trigger] levels[k2].price_level.inner,
        )
}

/// A trade between an incoming order (the taker) and a resting one (the maker).
#[derive(Debug)]
pub struct Fill {
    pub taker: Vec<u8>,
    pub maker: Vec<u8>,
    pub price: Amount,
    pub quantity: Amount,
}

pub struct FillView {
    pub taker: Seq<u8>,
    pub maker: Seq<u8>,
    pub price: u128,
    pub quantity: u128,
}

impl View for Fill {
    type V = FillView;

    open spec fn view(&self) -> FillView {
        FillView {
            taker: self.taker@,
            maker: self.maker@,
            price: self.price.inner,
            quantity: self.quantity.inner,
        }
    }
}

pub open spec fn fills_view(fills: Seq<Fill>) -> Seq<FillView> {
    fills.map_values(|f: Fill| f@)
}

/// Opening and closing best prices and traded volume of one period.
#[derive(Clone, Copy, Debug)]
pub struct MarketData {
    pub current_block: BlockNumber,
    pub opening_bid: Amount,
    pub opening_ask: Amount,
    pub closing_bid: Amount,
    pub closing_ask: Amount,
    pub volume: Amount,
}

impl MarketData {
    pub fn get_current_block(&self) -> (r: BlockNumber)
        ensures
            r == self.current_block,
    {
        self.current_block
    }

    pub fn get_opening_bid(&self) -> (r: Amount)
        ensures
            r == self.opening_bid,
    {
        self.opening_bid
    }

    pub fn get_opening_ask(&self) -> (r: Amount)
        ensures
            r == self.opening_ask,
    {
        self.opening_ask
    }

    pub fn get_closing_bid(&self) -> (r: Amount)
        ensures
            r == self.closing_bid,
    {
        self.closing_bid
    }

    pub fn get_closing_ask(&self) -> (r: Amount)
        ensures
            r == self.closing_ask,
    {
        self.closing_ask
    }

    pub fn get_volume(&self) -> (r: Amount)
        ensures
            r == self.volume,
    {
        self.volume
    }
}

} // verus!
