//! The order book of one trading pair: both sides, the order index, market
//! data, and the operations that submit and cancel orders.

use crate::amount::{min_u128, Amount};
use crate::engine::{
    copy_id, fills_view, flatten, opposite, same_id, wf_levels,
    AssetId, BlockNumber, Fill, FillView, MarketData, Order, OrderType, OrderView, PriceLevel,
    Side, TradingPair,
};
use crate::index::{
    consistent, entry_of, find_entry, has_id, index_view, lemma_consistent_ids,
    lemma_consistent_insert, lemma_consistent_remove, tag, EntryView, IndexEntry,
};
use crate::levels::{insert_order, remove_order, resting_position, PriceLevelIndex};
use crate::matching::{
    arrange, lemma_conservation, match_against, match_incoming, sum_quantities, MatchOutcome,
};
use vstd::prelude::*;

verus! {

/// Why the book turned an operation down.
#[derive(Clone, Copy, PartialEq, Eq, Debug, Structural)]
pub enum EngineError {
    /// The trading pair accepts no new orders.
    TradingPairDisabled,
    /// The price or the quantity is zero.
    PriceOrQuantityIsZero,
    /// The order has no type.
    OrderTypeIsNone,
    /// The order is not a limit order.
    UnsupportedOrderType,
    /// An order with the same identifier rests in the book.
    DuplicateOrderId,
    /// No resting order has the identifier.
    NotFound,
}

/// The best price of a side, or zero when it is empty.
pub open spec fn best_price(levels: Seq<PriceLevel>) -> u128 {
    if levels.len() > 0 {
        levels[0].price_level.inner
    } else {
        0
    }
}

/// The side a limit order of type `t` rests on.
pub open spec fn limit_side(t: OrderType) -> Side {
    if t == OrderType::BidLimit {
        Side::Bid
    } else {
        Side::Ask
    }
}

/// The part of an incoming order that rests after matching.
pub open spec fn resting_view(o: OrderView, remaining: u128) -> OrderView {
    OrderView { quantity: remaining, market_maker: true, ..o }
}

/// A period's point after trades of `traded` in all, with the best prices
/// that followed them.
pub open spec fn after_trades(p: MarketData, bid: u128, ask: u128, traded: int) -> MarketData {
    MarketData {
        closing_bid: Amount { inner: bid },
        closing_ask: Amount { inner: ask },
        volume: Amount { inner: min_u128(p.volume.inner + traded) },
        ..p
    }
}

/// What an accepted submission of `o` does: `fills` are the trades of
/// matching `o` against the opposite side, that side keeps what they did not
/// take, what remains of `o` rests on its own side behind the orders at least
/// as good, and the fills and remainder add up to `o`'s quantity. Resting
/// orders filled in full leave the book; the nonce advances; the current
/// market-data period records the trades.
pub open spec fn submit_effect(
    old_b: OrderBook,
    new_b: OrderBook,
    o: OrderView,
    fills: Seq<FillView>,
    resting: Option<OrderView>,
) -> bool {
    let side = limit_side(o.order_type);
    let out = old_b.outcome(o);
    &&& old_b.submit_error(o).is_none()
    &&& fills == out.fills
    &&& sum_quantities(out.fills) + out.remaining == o.quantity
    &&& new_b.side_orders(opposite(side)) == out.rest
    &&& if out.remaining > 0 {
        &&& resting == Some(resting_view(o, out.remaining))
        &&& new_b.side_orders(side) == old_b.side_orders(side).insert(
            resting_position(side, old_b.side_orders(side), o.price) as int,
            resting_view(o, out.remaining),
        )
    } else {
        &&& resting.is_none()
        &&& new_b.side_orders(side) == old_b.side_orders(side)
    }
    &&& forall|k: int|
        0 <= k < out.fills.len() && (#[trigger] out.fills[k]).quantity == old_b.side_orders(
            opposite(side),
        )[k].quantity ==> !new_b.contains_id(out.fills[k].maker)
    &&& new_b.nonce == old_b.nonce.wrapping_add(1)
    &&& new_b.same_pair(&old_b)
    &&& new_b.market_data@ == if out.fills.len() > 0 && old_b.market_data@.len() > 0 {
        old_b.market_data@.update(
            old_b.market_data@.len() - 1,
            after_trades(
                old_b.market_data@.last(),
                best_price(new_b.bids.levels@),
                best_price(new_b.asks.levels@),
                sum_quantities(out.fills),
            ),
        )
    } else {
        old_b.market_data@
    }
}

/// What cancelling the resting order `o` with identifier `id` does: it
/// leaves its side, the rest of the book as it was, the identifier no longer
/// indexed.
pub open spec fn cancel_effect(old_b: OrderBook, new_b: OrderBook, id: Seq<u8>, o: OrderView) -> bool {
    &&& o.id == id
    &&& !new_b.contains_id(id)
    &&& exists|side: Side, p: int|
        0 <= p < old_b.side_orders(side).len() && #[trigger] old_b.side_orders(side)[p] == o
            && new_b.side_orders(side) == old_b.side_orders(side).remove(p) && new_b.side_orders(
            opposite(side),
        ) == old_b.side_orders(opposite(side))
    &&& new_b.nonce == old_b.nonce
    &&& new_b.market_data@ == old_b.market_data@
    &&& new_b.same_pair(&old_b)
}

/// The pending sides are well formed, bids and asks.
#[verifier::opaque]
pub open spec fn pending_wf(bids: PriceLevelIndex, asks: PriceLevelIndex) -> bool {
    &&& bids.side == Side::Bid
    &&& asks.side == Side::Ask
    &&& wf_levels(Side::Bid, bids.levels@)
    &&& wf_levels(Side::Ask, asks.levels@)
}

/// Some order queued in `levels` has identifier `id`.
pub open spec fn levels_have_id(levels: Seq<PriceLevel>, id: Seq<u8>) -> bool {
    exists|k: int, i: int|
        0 <= k < levels.len() && 0 <= i < levels[k].queue@.len() && (#[trigger] levels[k].queue@[i]).id@
            == id
}

/// Whether some order queued in `levels` has identifier `id`.
pub fn levels_contain_id(levels: &Vec<PriceLevel>, id: &Vec<u8>) -> (r: bool)
    ensures
        r == levels_have_id(levels@, id@),
{
    let mut k: usize = 0;
    while k < levels.len()
        invariant
            k <= levels@.len(),
            forall|a: int, i: int|
                0 <= a < k && 0 <= i < levels@[a].queue@.len() ==> (#[trigger] levels@[a].queue@[i]).id@
                    != id@,
        decreases levels.len() - k,
    {
        let mut i: usize = 0;
        while i < levels[k].queue.len()
            invariant
                k < levels@.len(),
                i <= levels@[k as int].queue@.len(),
                forall|a: int, b: int|
                    0 <= a < k && 0 <= b < levels@[a].queue@.len() ==> (#[trigger] levels@[a].queue@[b]).id@
                        != id@,
                forall|b: int| 0 <= b < i ==> (#[trigger] levels@[k as int].queue@[b]).id@ != id@,
            decreases levels[k as int].queue@.len() - i,
        {
            if same_id(&levels[k].queue[i].id, id) {
                return true;
            }
            i = i + 1;
        }
        k = k + 1;
    }
    false
}

/// The order book of one trading pair.
#[derive(Debug)]
pub struct OrderBook {
    pub id: TradingPair,
    pub trading_asset: AssetId,
    pub base_asset: AssetId,
    pub nonce: u64,
    /// The order index: one entry per resting order.
    pub orders: Vec<IndexEntry>,
    /// Pending bids of the advanced order types, which are not executed.
    pub advanced_bid_orders: PriceLevelIndex,
    /// Pending asks of the advanced order types, which are not executed.
    pub advanced_ask_orders: PriceLevelIndex,
    pub bids: PriceLevelIndex,
    pub asks: PriceLevelIndex,
    pub market_data: Vec<MarketData>,
    pub enabled: bool,
}

impl OrderBook {
    /// The resting orders of `side` in priority order.
    pub open spec fn side_orders(&self, side: Side) -> Seq<OrderView> {
        match side {
            Side::Bid => flatten(self.bids.levels@),
            Side::Ask => flatten(self.asks.levels@),
        }
    }

    /// The index entries that the resting orders call for, bids first.
    pub open spec fn all_entries(&self) -> Seq<EntryView> {
        tag(flatten(self.bids.levels@), Side::Bid) + tag(flatten(self.asks.levels@), Side::Ask)
    }

    pub open spec fn index(&self) -> Seq<EntryView> {
        index_view(self.orders@)
    }

    pub open spec fn contains_id(&self, id: Seq<u8>) -> bool {
        has_id(self.index(), id)
    }

    /// The best bid is at or above the best ask.
    pub open spec fn crossed(&self) -> bool {
        self.bids.levels@.len() > 0 && self.asks.levels@.len() > 0 && self.bids.levels@[0].price_level.inner
            >= self.asks.levels@[0].price_level.inner
    }

    pub open spec fn wf(&self) -> bool {
        &&& self.bids.side == Side::Bid
        &&& self.asks.side == Side::Ask
        &&& wf_levels(Side::Bid, self.bids.levels@)
        &&& wf_levels(Side::Ask, self.asks.levels@)
        &&& consistent(self.index(), self.all_entries())
        &&& !self.crossed()
        &&& pending_wf(self.advanced_bid_orders, self.advanced_ask_orders)
    }

    /// Why `submit_limit` refuses `o`, if it does.
    pub open spec fn submit_error(&self, o: OrderView) -> Option<EngineError> {
        if !self.enabled {
            Some(EngineError::TradingPairDisabled)
        } else if o.price == 0 || o.quantity == 0 {
            Some(EngineError::PriceOrQuantityIsZero)
        } else if o.order_type == OrderType::NoneType {
            Some(EngineError::OrderTypeIsNone)
        } else if o.order_type != OrderType::BidLimit && o.order_type != OrderType::AskLimit {
            Some(EngineError::UnsupportedOrderType)
        } else if self.contains_id(o.id) || self.pending_has_id(o.id) {
            Some(EngineError::DuplicateOrderId)
        } else {
            None
        }
    }

    /// A pending order of an advanced type has identifier `id`.
    pub open spec fn pending_has_id(&self, id: Seq<u8>) -> bool {
        levels_have_id(self.advanced_bid_orders.levels@, id) || levels_have_id(
            self.advanced_ask_orders.levels@,
            id,
        )
    }

    /// Why `submit_advanced_order` refuses `o`, if it does.
    pub open spec fn advanced_error(&self, o: OrderView) -> Option<EngineError> {
        if !self.enabled {
            Some(EngineError::TradingPairDisabled)
        } else if o.price == 0 || o.quantity == 0 {
            Some(EngineError::PriceOrQuantityIsZero)
        } else if o.order_type == OrderType::NoneType {
            Some(EngineError::OrderTypeIsNone)
        } else if o.order_type == OrderType::BidLimit || o.order_type == OrderType::AskLimit
            || o.order_type == OrderType::PostOnly {
            Some(EngineError::UnsupportedOrderType)
        } else if self.contains_id(o.id) || self.pending_has_id(o.id) {
            Some(EngineError::DuplicateOrderId)
        } else {
            None
        }
    }

    /// The pending orders of an advanced type on `side`, by trigger price.
    pub open spec fn pending_orders(&self, side: Side) -> Seq<OrderView> {
        match side {
            Side::Bid => flatten(self.advanced_bid_orders.levels@),
            Side::Ask => flatten(self.advanced_ask_orders.levels@),
        }
    }

    /// Matching `o` against this book.
    pub open spec fn outcome(&self, o: OrderView) -> MatchOutcome {
        let side = limit_side(o.order_type);
        match_incoming(side, o.id, o.price, o.quantity, self.side_orders(opposite(side)))
    }

    /// The fields that no operation on resting orders changes.
    pub open spec fn same_pair(&self, other: &OrderBook) -> bool {
        &&& self.id == other.id
        &&& self.trading_asset == other.trading_asset
        &&& self.base_asset == other.base_asset
        &&& self.enabled == other.enabled
        &&& self.advanced_bid_orders == other.advanced_bid_orders
        &&& self.advanced_ask_orders == other.advanced_ask_orders
    }

    /// An empty, enabled book whose first market-data period starts at
    /// `current_block` with all values zero.
    pub fn new(
        id: TradingPair,
        trading_asset: AssetId,
        base_asset: AssetId,
        current_block: BlockNumber,
    ) -> (r: OrderBook)
        ensures
            r.wf(),
            r.id == id,
            r.trading_asset == trading_asset,
            r.base_asset == base_asset,
            r.nonce == 0,
            r.enabled,
            r.bids.levels@.len() == 0,
            r.asks.levels@.len() == 0,
            r.orders@.len() == 0,
            r.market_data@ == seq![
                MarketData {
                    current_block,
                    opening_bid: Amount { inner: 0 },
                    opening_ask: Amount { inner: 0 },
                    closing_bid: Amount { inner: 0 },
                    closing_ask: Amount { inner: 0 },
                    volume: Amount { inner: 0 },
                },
            ],
    {
        let mut market_data: Vec<MarketData> = Vec::new();
        market_data.push(
            MarketData {
                current_block,
                opening_bid: Amount { inner: 0 },
                opening_ask: Amount { inner: 0 },
                closing_bid: Amount { inner: 0 },
                closing_ask: Amount { inner: 0 },
                volume: Amount { inner: 0 },
            },
        );
        let r = OrderBook {
            id,
            trading_asset,
            base_asset,
            nonce: 0,
            orders: Vec::new(),
            advanced_bid_orders: PriceLevelIndex::new(Side::Bid),
            advanced_ask_orders: PriceLevelIndex::new(Side::Ask),
            bids: PriceLevelIndex::new(Side::Bid),
            asks: PriceLevelIndex::new(Side::Ask),
            market_data,
            enabled: true,
        };
        proof {
            reveal(pending_wf);
            assert(flatten(r.bids.levels@) =~= Seq::<OrderView>::empty());
            assert(flatten(r.asks.levels@) =~= Seq::<OrderView>::empty());
            assert(r.all_entries() =~= Seq::<EntryView>::empty());
            assert(r.index() =~= Seq::<EntryView>::empty());
        }
        r
    }

    /// The best bid price, if any bid rests.
    pub fn best_bid(&self) -> (r: Option<Amount>)
        ensures
            r == (if self.bids.levels@.len() > 0 {
                Some(self.bids.levels@[0].price_level)
            } else {
                None
            }),
    {
        if self.bids.levels.len() > 0 {
            Some(self.bids.levels[0].price_level)
        } else {
            None
        }
    }

    /// The best ask price, if any ask rests.
    pub fn best_ask(&self) -> (r: Option<Amount>)
        ensures
            r == (if self.asks.levels@.len() > 0 {
                Some(self.asks.levels@[0].price_level)
            } else {
                None
            }),
    {
        if self.asks.levels.len() > 0 {
            Some(self.asks.levels[0].price_level)
        } else {
            None
        }
    }

    fn best_price_of(levels: &Vec<PriceLevel>) -> (r: Amount)
        ensures
            r.inner == best_price(levels@),
    {
        if levels.len() > 0 {
            levels[0].price_level
        } else {
            Amount { inner: 0 }
        }
    }

    /// Records trades of `traded` in all in the current period: the closing
    /// prices become the best prices now, the volume grows by `traded`.
    fn record_trades(&mut self, traded: Amount)
        ensures
            final(self).market_data@ == (if old(self).market_data@.len() > 0 {
                old(self).market_data@.update(
                    old(self).market_data@.len() - 1,
                    after_trades(
                        old(self).market_data@.last(),
                        best_price(old(self).bids.levels@),
                        best_price(old(self).asks.levels@),
                        traded.inner as int,
                    ),
                )
            } else {
                old(self).market_data@
            }),
            final(self).bids == old(self).bids,
            final(self).asks == old(self).asks,
            final(self).orders == old(self).orders,
            final(self).nonce == old(self).nonce,
            final(self).same_pair(old(self)),
    {
        let n = self.market_data.len();
        if n > 0 {
            let last = self.market_data.remove(n - 1);
            let point = MarketData {
                current_block: last.current_block,
                opening_bid: last.opening_bid,
                opening_ask: last.opening_ask,
                closing_bid: Self::best_price_of(&self.bids.levels),
                closing_ask: Self::best_price_of(&self.asks.levels),
                volume: last.volume.saturating_add(&traded),
            };
            self.market_data.push(point);
            proof {
                assert(self.market_data@ =~= old(self).market_data@.update(n - 1, point));
            }
        }
    }

    /// Updates the current period for one trade: the closing prices become
    /// the best prices now, and the volume grows by the fill's quantity.
    pub fn on_fill(&mut self, fill: &Fill)
        requires
            old(self).wf(),
        ensures
            final(self).wf(),
            final(self).market_data@ == (if old(self).market_data@.len() > 0 {
                old(self).market_data@.update(
                    old(self).market_data@.len() - 1,
                    after_trades(
                        old(self).market_data@.last(),
                        best_price(old(self).bids.levels@),
                        best_price(old(self).asks.levels@),
                        fill.quantity.inner as int,
                    ),
                )
            } else {
                old(self).market_data@
            }),
            final(self).bids == old(self).bids,
            final(self).asks == old(self).asks,
            final(self).orders == old(self).orders,
    {
        self.record_trades(fill.quantity);
    }

    /// Starts a new period at `block`: its opening and closing prices are the
    /// best prices now (zero for an empty side), its volume zero.
    pub fn on_period_start(&mut self, block: BlockNumber)
        requires
            old(self).wf(),
        ensures
            final(self).wf(),
            final(self).market_data@ == old(self).market_data@.push(
                MarketData {
                    current_block: block,
                    opening_bid: Amount { inner: best_price(old(self).bids.levels@) },
                    opening_ask: Amount { inner: best_price(old(self).asks.levels@) },
                    closing_bid: Amount { inner: best_price(old(self).bids.levels@) },
                    closing_ask: Amount { inner: best_price(old(self).asks.levels@) },
                    volume: Amount { inner: 0 },
                },
            ),
            final(self).bids == old(self).bids,
            final(self).asks == old(self).asks,
            final(self).orders == old(self).orders,
    {
        let bid = Self::best_price_of(&self.bids.levels);
        let ask = Self::best_price_of(&self.asks.levels);
        self.market_data.push(
            MarketData {
                current_block: block,
                opening_bid: bid,
                opening_ask: ask,
                closing_bid: bid,
                closing_ask: ask,
                volume: Amount { inner: 0 },
            },
        );
    }
}

impl OrderBook {
    /// Submits a limit order: matches it against the opposite side under
    /// price-time priority, then rests what remains on its own side. Returns
    /// the fills in the order they happened and the resting order, if any.
    pub fn submit_limit(&mut self, order: Order) -> (r: Result<(Vec<Fill>, Option<Order>), EngineError>)
        requires
            old(self).wf(),
        ensures
            final(self).wf(),
            !final(self).crossed(),
            match r {
                Err(e) => old(self).submit_error(order@) == Some(e) && *final(self) == *old(self),
                Ok((fills, resting)) => submit_effect(
                    *old(self),
                    *final(self),
                    order@,
                    fills_view(fills@),
                    match resting {
                        Some(o) => Some(o@),
                        None => None,
                    },
                ),
            },
    {
        if !self.enabled {
            return Err(EngineError::TradingPairDisabled);
        }
        if order.price.inner == 0 || order.quantity.inner == 0 {
            return Err(EngineError::PriceOrQuantityIsZero);
        }
        let side = match order.order_type {
            OrderType::NoneType => {
                return Err(EngineError::OrderTypeIsNone);
            },
            OrderType::BidLimit => Side::Bid,
            OrderType::AskLimit => Side::Ask,
            _ => {
                return Err(EngineError::UnsupportedOrderType);
            },
        };
        match find_entry(&self.orders, &order.id) {
            Some(j) => {
                proof {
                    assert(self.index()[j as int].id == order@.id);
                }
                return Err(EngineError::DuplicateOrderId);
            },
            None => {},
        }
        if levels_contain_id(&self.advanced_bid_orders.levels, &order.id) || levels_contain_id(
            &self.advanced_ask_orders.levels,
            &order.id,
        ) {
            return Err(EngineError::DuplicateOrderId);
        }
        let ghost old_self = *self;
        let ghost fb = flatten(self.bids.levels@);
        let ghost fa = flatten(self.asks.levels@);
        let (fills, left) = match side {
            Side::Bid => {
                proof {
                    assert(arrange(Side::Ask, tag(fa, Side::Ask), tag(fb, Side::Bid))
                        =~= self.all_entries());
                }
                match_against(
                    &mut self.asks.levels,
                    &mut self.orders,
                    Side::Bid,
                    &order.id,
                    order.price,
                    order.quantity,
                    Ghost(tag(fb, Side::Bid)),
                )
            },
            Side::Ask => {
                proof {
                    assert(arrange(Side::Bid, tag(fb, Side::Bid), tag(fa, Side::Ask))
                        =~= self.all_entries());
                }
                match_against(
                    &mut self.bids.levels,
                    &mut self.orders,
                    Side::Ask,
                    &order.id,
                    order.price,
                    order.quantity,
                    Ghost(tag(fa, Side::Ask)),
                )
            },
        };
        let ghost out = old_self.outcome(order@);
        proof {
            lemma_conservation(side, order@.id, order@.price, order@.quantity, old_self.side_orders(opposite(side)));
            assert(self.all_entries() =~= arrange(
                opposite(side),
                tag(self.side_orders(opposite(side)), opposite(side)),
                tag(old_self.side_orders(side), side),
            ));
        }
        let traded = Amount { inner: order.quantity.inner - left.inner };
        let resting = if left.inner > 0 {
            let ghost ov = order@;
            let mut o = order;
            o.quantity = left;
            o.market_maker = true;
            let copy = o.duplicate();
            let entry = IndexEntry {
                id: copy_id(&o.id),
                side,
                price: o.price,
                quantity: o.quantity,
            };
            let ghost e = entry@;
            let ghost own0 = old_self.side_orders(side);
            let ghost rp = resting_position(side, own0, ov.price) as int;
            let ghost all1 = self.all_entries();
            let ghost idx1 = self.index();
            let ghost fb1 = flatten(self.bids.levels@);
            let ghost fa1 = flatten(self.asks.levels@);
            match side {
                Side::Bid => insert_order(&mut self.bids.levels, Side::Bid, o),
                Side::Ask => insert_order(&mut self.asks.levels, Side::Ask, o),
            }
            self.orders.push(entry);
            proof {
                assert(o@ == resting_view(ov, left.inner));
                assert(e == entry_of(o@, side));
                lemma_consistent_ids(idx1, all1, ov.id);
                let p = match side {
                    Side::Bid => rp,
                    Side::Ask => fb1.len() + rp,
                };
                assert(tag(own0.insert(rp, o@), side) =~= tag(own0, side).insert(rp, e));
                match side {
                    Side::Bid => {
                        assert(own0 == fb1);
                        assert(self.all_entries() == tag(own0.insert(rp, o@), side) + tag(fa1, Side::Ask));
                    },
                    Side::Ask => {
                        assert(own0 == fa1);
                        assert(self.all_entries() == tag(fb1, Side::Bid) + tag(own0.insert(rp, o@), side));
                    },
                }
                assert(self.all_entries() =~= all1.insert(p, e));
                lemma_consistent_insert(idx1, all1, p, e);
                assert(self.index() =~= idx1.push(e));
            }
            Some(copy)
        } else {
            None
        };
        self.nonce = self.nonce.wrapping_add(1);
        let ghost before_record = *self;
        if fills.len() > 0 {
            self.record_trades(traded);
        }
        proof {
            assert(fills_view(fills@).len() == fills@.len());
            assert(self.bids == before_record.bids);
            // no crossing: the opposite side only lost its best orders, and a
            // resting remainder does not cross the opposite best price
            if old_self.bids.levels@.len() > 0 && old_self.asks.levels@.len() > 0 {
                assert(old_self.bids.levels@[0].price_level.inner < old_self.asks.levels@[0].price_level.inner);
            }
            assert(self.wf());
            lemma_filled_leave_book(old_self, *self, order@);
        }
        Ok((fills, resting))
    }
}

impl OrderBook {
    /// Cancels the resting order with identifier `order_id` and returns it,
    /// or `NotFound`, leaving the book as it was, when none rests.
    pub fn cancel(&mut self, order_id: &Vec<u8>) -> (r: Result<Order, EngineError>)
        requires
            old(self).wf(),
        ensures
            final(self).wf(),
            r.is_err() <==> !old(self).contains_id(order_id@),
            match r {
                Err(e) => e == EngineError::NotFound && *final(self) == *old(self),
                Ok(o) => cancel_effect(*old(self), *final(self), order_id@, o@),
            },
    {
        let j = match find_entry(&self.orders, order_id) {
            Some(j) => j,
            None => {
                return Err(EngineError::NotFound);
            },
        };
        proof {
            assert(self.index()[j as int].id == order_id@);
        }
        let side = self.orders[j].side;
        let price = self.orders[j].price;
        let ghost old_self = *self;
        let ghost all = self.all_entries();
        let ghost idx = self.index();
        let ghost fb = flatten(self.bids.levels@);
        let ghost fa = flatten(self.asks.levels@);
        let ghost e = idx[j as int];
        proof {
            assert(all.contains(e));
        }
        let ghost q = choose|q: int| 0 <= q < all.len() && all[q] == e;
        proof {
            if q < fb.len() {
                assert(all[q] == entry_of(fb[q], Side::Bid));
            } else {
                assert(all[q] == entry_of(fa[q - fb.len()], Side::Ask));
            }
        }
        let removed = match side {
            Side::Bid => remove_order(&mut self.bids.levels, Side::Bid, order_id, &price),
            Side::Ask => remove_order(&mut self.asks.levels, Side::Ask, order_id, &price),
        };
        match removed {
            None => {
                proof {
                    if side == Side::Bid {
                        assert(fb[q].id == order_id@);
                    } else {
                        assert(fa[q - fb.len()].id == order_id@);
                    }
                }
                Err(EngineError::NotFound)
            },
            Some(o) => {
                let _entry = self.orders.remove(j);
                proof {
                    let own = old_self.side_orders(side);
                    let p = choose|p: int|
                        0 <= p < own.len() && #[trigger] own[p] == o@ && o@.id == order_id@
                            && o@.price == price.inner && self.side_orders(side) == own.remove(p);
                    let pa = match side {
                        Side::Bid => p,
                        Side::Ask => fb.len() + p,
                    };
                    assert(all[pa] == entry_of(own[p], side));
                    if pa != q {
                        if pa < q {
                            assert(all[pa].id != all[q].id);
                        } else {
                            assert(all[q].id != all[pa].id);
                        }
                    }
                    lemma_consistent_remove(idx, all, j as int, q);
                    assert(self.index() =~= idx.remove(j as int));
                    assert(tag(own.remove(p), side) =~= tag(own, side).remove(p));
                    assert(self.all_entries() =~= all.remove(q));
                    assert forall|k: int| 0 <= k < self.index().len() implies #[trigger] self.index()[k].id
                        != order_id@ by {
                        let kk = if k < j { k } else { k + 1 };
                        assert(self.index()[k] == idx[kk]);
                        if kk < j {
                            assert(idx[kk].id != idx[j as int].id);
                        } else {
                            assert(idx[j as int].id != idx[kk].id);
                        }
                    }
                    assert(old_self.side_orders(side)[p] == o@);
                    assert(self.side_orders(opposite(side)) == old_self.side_orders(opposite(side)));
                }
                Ok(o)
            },
        }
    }
}

impl OrderBook {
    /// Accepts an order of an advanced type (market, stop, fill-or-kill) as
    /// pending on its side, queued by its trigger price. Pending orders are
    /// not matched.
    pub fn submit_advanced_order(&mut self, order: Order) -> (r: Result<(), EngineError>)
        requires
            old(self).wf(),
        ensures
            final(self).wf(),
            match old(self).advanced_error(order@) {
                Some(e) => r == Err::<(), EngineError>(e) && *final(self) == *old(self),
                None => {
                    let side = if order@.order_type == OrderType::BidMarket || order@.order_type
                        == OrderType::BidStopLimit || order@.order_type == OrderType::BidStopMarket
                        || order@.order_type == OrderType::BidStopLoss || order@.order_type
                        == OrderType::BidFillKill {
                        Side::Bid
                    } else {
                        Side::Ask
                    };
                    &&& r == Ok::<(), EngineError>(())
                    &&& final(self).pending_orders(side) == old(self).pending_orders(side).insert(
                        resting_position(side, old(self).pending_orders(side), order@.price)
                            as int,
                        order@,
                    )
                    &&& final(self).pending_orders(opposite(side)) == old(self).pending_orders(
                        opposite(side),
                    )
                    &&& final(self).bids == old(self).bids
                    &&& final(self).asks == old(self).asks
                    &&& final(self).orders == old(self).orders
                    &&& final(self).market_data == old(self).market_data
                    &&& final(self).nonce == old(self).nonce.wrapping_add(1)
                },
            },
    {
        if !self.enabled {
            return Err(EngineError::TradingPairDisabled);
        }
        if order.price.inner == 0 || order.quantity.inner == 0 {
            return Err(EngineError::PriceOrQuantityIsZero);
        }
        let side = match order.order_type {
            OrderType::NoneType => {
                return Err(EngineError::OrderTypeIsNone);
            },
            OrderType::BidLimit | OrderType::AskLimit | OrderType::PostOnly => {
                return Err(EngineError::UnsupportedOrderType);
            },
            OrderType::BidMarket | OrderType::BidStopLimit | OrderType::BidStopMarket
            | OrderType::BidStopLoss | OrderType::BidFillKill => Side::Bid,
            _ => Side::Ask,
        };
        match find_entry(&self.orders, &order.id) {
            Some(j) => {
                proof {
                    assert(self.index()[j as int].id == order@.id);
                }
                return Err(EngineError::DuplicateOrderId);
            },
            None => {},
        }
        if levels_contain_id(&self.advanced_bid_orders.levels, &order.id) || levels_contain_id(
            &self.advanced_ask_orders.levels,
            &order.id,
        ) {
            return Err(EngineError::DuplicateOrderId);
        }
        proof {
            reveal(pending_wf);
        }
        match side {
            Side::Bid => self.advanced_bid_orders.insert(order),
            Side::Ask => self.advanced_ask_orders.insert(order),
        }
        self.nonce = self.nonce.wrapping_add(1);
        proof {
            reveal(pending_wf);
        }
        Ok(())
    }
}

/// After a submission, no resting order that it filled in full is left in
/// the book.
proof fn lemma_filled_leave_book(old_b: OrderBook, new_b: OrderBook, o: OrderView)
    requires
        old_b.wf(),
        new_b.wf(),
        old_b.submit_error(o).is_none(),
        new_b.side_orders(opposite(limit_side(o.order_type))) == old_b.outcome(o).rest,
        old_b.outcome(o).remaining > 0 ==> new_b.side_orders(limit_side(o.order_type))
            == old_b.side_orders(limit_side(o.order_type)).insert(
            resting_position(
                limit_side(o.order_type),
                old_b.side_orders(limit_side(o.order_type)),
                o.price,
            ) as int,
            resting_view(o, old_b.outcome(o).remaining),
        ),
        old_b.outcome(o).remaining == 0 ==> new_b.side_orders(limit_side(o.order_type))
            == old_b.side_orders(limit_side(o.order_type)),
    ensures
        forall|k: int|
            0 <= k < old_b.outcome(o).fills.len() && (#[trigger] old_b.outcome(o).fills[k]).quantity
                == old_b.side_orders(opposite(limit_side(o.order_type)))[k].quantity
                ==> !new_b.contains_id(old_b.outcome(o).fills[k].maker),
{
    let side = limit_side(o.order_type);
    let os = opposite(side);
    let out = old_b.outcome(o);
    let book = old_b.side_orders(os);
    let own = old_b.side_orders(side);
    let all = old_b.all_entries();
    let fb = flatten(old_b.bids.levels@);
    let off_opp: int = match os {
        Side::Bid => 0,
        Side::Ask => fb.len() as int,
    };
    let off_own: int = match side {
        Side::Bid => 0,
        Side::Ask => fb.len() as int,
    };
    assert forall|i: int| 0 <= i < book.len() implies #[trigger] all[off_opp + i] == entry_of(book[i], os) by {}
    assert forall|i: int| 0 <= i < own.len() implies #[trigger] all[off_own + i] == entry_of(own[i], side) by {}
    assert forall|i: int, j: int| 0 <= i < j < book.len() implies #[trigger] book[i].id
        != #[trigger] book[j].id by {
        assert(all[off_opp + i].id != all[off_opp + j].id);
    }
    crate::laws::lemma_filled_orders_leave(side, o.id, o.price, o.quantity, book);
    crate::laws::lemma_price_time_priority(side, o.id, o.price, o.quantity, book);
    lemma_consistent_ids(old_b.index(), all, o.id);
    assert forall|k: int|
        0 <= k < out.fills.len() && (#[trigger] out.fills[k]).quantity == book[k].quantity implies !new_b.contains_id(
        out.fills[k].maker,
    ) by {
        let m = out.fills[k].maker;
        assert(m == book[k].id);
        assert(all[off_opp + k].id == m);
        lemma_consistent_ids(new_b.index(), new_b.all_entries(), m);
        let na = new_b.all_entries();
        let nb = flatten(new_b.bids.levels@);
        if has_id(na, m) {
            let i = choose|i: int| 0 <= i < na.len() && #[trigger] na[i].id == m;
            let in_bids = i < nb.len();
            let i2 = if in_bids { i } else { i - nb.len() };
            if (in_bids && os == Side::Bid) || (!in_bids && os == Side::Ask) {
                assert(new_b.side_orders(os)[i2].id == m);
                assert(out.rest[i2].id != m);
            } else {
                let own2 = new_b.side_orders(side);
                assert(own2[i2].id == m);
                if out.remaining > 0 {
                    let rp = resting_position(side, own, o.price) as int;
                    if i2 == rp {
                        assert(own2[i2].id == o.id);
                        assert(has_id(all, o.id));
                    } else {
                        let i3 = if i2 < rp { i2 } else { i2 - 1 };
                        assert(own2[i2] == own[i3]);
                        assert(all[off_own + i3].id == m);
                        if off_own + i3 < off_opp + k {
                            assert(all[off_own + i3].id != all[off_opp + k].id);
                        } else {
                            assert(all[off_opp + k].id != all[off_own + i3].id);
                        }
                    }
                } else {
                    assert(own2[i2] == own[i2]);
                    assert(all[off_own + i2].id == m);
                    if off_own + i2 < off_opp + k {
                        assert(all[off_own + i2].id != all[off_opp + k].id);
                    } else {
                        assert(all[off_opp + k].id != all[off_own + i2].id);
                    }
                }
            }
        }
    }
}

impl OrderBook {
    pub fn get_trading_asset(&self) -> (r: &AssetId)
        ensures
            *r == self.trading_asset,
    {
        &self.trading_asset
    }

    pub fn get_base_asset(&self) -> (r: &AssetId)
        ensures
            *r == self.base_asset,
    {
        &self.base_asset
    }

    /// The order index.
    pub fn get_orders(&self) -> (r: &Vec<IndexEntry>)
        ensures
            r@ == self.orders@,
    {
        &self.orders
    }

    pub fn get_bids(self) -> (r: PriceLevelIndex)
        ensures
            r == self.bids,
    {
        self.bids
    }

    pub fn get_asks(self) -> (r: PriceLevelIndex)
        ensures
            r == self.asks,
    {
        self.asks
    }

    pub fn get_advanced_asks(self) -> (r: PriceLevelIndex)
        ensures
            r == self.advanced_ask_orders,
    {
        self.advanced_ask_orders
    }

    pub fn get_advanced_bids(self) -> (r: PriceLevelIndex)
        ensures
            r == self.advanced_bid_orders,
    {
        self.advanced_bid_orders
    }

    pub fn get_market_data(&self) -> (r: &Vec<MarketData>)
        ensures
            r@ == self.market_data@,
    {
        &self.market_data
    }
}

} // verus!
