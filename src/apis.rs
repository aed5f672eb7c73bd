//! A plain snapshot of a book for outside readers: per level its price and
//! the quantity resting there, the market data, and whether it is enabled.

use crate::amount::{min_u128, Amount};
use crate::book::OrderBook;
use crate::engine::{queue_view, OrderView, PriceLevel};
use vstd::prelude::*;

verus! {

/// One period of market data as readers see it.
#[derive(Clone, Copy, PartialEq, Eq, Debug, Structural)]
pub struct MarketData {
    pub current_block_num: u64,
    pub closing_ask: Amount,
    pub closing_bid: Amount,
    pub volume: Amount,
}

/// One price level: its price and the quantity resting at it.
#[derive(Clone, Copy, PartialEq, Eq, Debug, Structural)]
pub struct PriceLevelData {
    pub price_level: Amount,
    pub amount: Amount,
}

/// A book as readers see it; both sides best level first.
#[derive(Debug)]
pub struct OrderBookApi {
    pub bids: Vec<PriceLevelData>,
    pub asks: Vec<PriceLevelData>,
    pub market_data: Vec<MarketData>,
    pub enabled: bool,
}

/// The quantity resting in a queue.
pub open spec fn queue_total(q: Seq<OrderView>) -> int
    decreases q.len(),
{
    if q.len() == 0 {
        0
    } else {
        queue_total(q.drop_last()) + q.last().quantity
    }
}

/// A level as readers see it; the quantity saturates at the largest amount.
pub open spec fn level_data(l: PriceLevel) -> PriceLevelData {
    PriceLevelData {
        price_level: l.price_level,
        amount: Amount { inner: min_u128(queue_total(queue_view(l.queue@))) },
    }
}

pub open spec fn market_data_view(m: crate::engine::MarketData) -> MarketData {
    MarketData {
        current_block_num: m.current_block,
        closing_ask: m.closing_ask,
        closing_bid: m.closing_bid,
        volume: m.volume,
    }
}

proof fn lemma_queue_total_nonneg(q: Seq<OrderView>)
    ensures
        queue_total(q) >= 0,
    decreases q.len(),
{
    if q.len() > 0 {
        lemma_queue_total_nonneg(q.drop_last());
    }
}

fn level_summary(l: &PriceLevel) -> (r: PriceLevelData)
    ensures
        r == level_data(*l),
{
    let mut total = Amount { inner: 0 };
    let mut i: usize = 0;
    let ghost qv = queue_view(l.queue@);
    while i < l.queue.len()
        invariant
            qv == queue_view(l.queue@),
            i <= l.queue@.len(),
            total.inner == min_u128(queue_total(qv.take(i as int))),
        decreases l.queue.len() - i,
    {
        let q = l.queue[i].quantity;
        proof {
            assert(qv.take(i + 1).drop_last() =~= qv.take(i as int));
            assert(qv.take(i + 1).last() == l.queue@[i as int]@);
            lemma_queue_total_nonneg(qv.take(i as int));
        }
        total = total.saturating_add(&q);
        i = i + 1;
    }
    proof {
        assert(qv.take(i as int) =~= qv);
    }
    PriceLevelData { price_level: l.price_level, amount: total }
}

fn levels_summary(levels: &Vec<PriceLevel>) -> (r: Vec<PriceLevelData>)
    ensures
        r@ == levels@.map_values(|l: PriceLevel| level_data(l)),
{
    let mut r: Vec<PriceLevelData> = Vec::new();
    let mut k: usize = 0;
    while k < levels.len()
        invariant
            k <= levels@.len(),
            r@ == levels@.take(k as int).map_values(|l: PriceLevel| level_data(l)),
        decreases levels.len() - k,
    {
        r.push(level_summary(&levels[k]));
        k = k + 1;
        proof {
            assert(r@ =~= levels@.take(k as int).map_values(|l: PriceLevel| level_data(l)));
        }
    }
    proof {
        assert(levels@.take(k as int) =~= levels@);
    }
    r
}

impl OrderBook {
    /// The snapshot of this book that readers get.
    pub fn to_api(&self) -> (r: OrderBookApi)
        ensures
            r.bids@ == self.bids.levels@.map_values(|l: PriceLevel| level_data(l)),
            r.asks@ == self.asks.levels@.map_values(|l: PriceLevel| level_data(l)),
            r.market_data@ == self.market_data@.map_values(
                |m: crate::engine::MarketData| market_data_view(m),
            ),
            r.enabled == self.enabled,
    {
        let mut md: Vec<MarketData> = Vec::new();
        let mut k: usize = 0;
        while k < self.market_data.len()
            invariant
                k <= self.market_data@.len(),
                md@ == self.market_data@.take(k as int).map_values(
                    |m: crate::engine::MarketData| market_data_view(m),
                ),
            decreases self.market_data.len() - k,
        {
            let m = self.market_data[k];
            md.push(
                MarketData {
                    current_block_num: m.current_block,
                    closing_ask: m.closing_ask,
                    closing_bid: m.closing_bid,
                    volume: m.volume,
                },
            );
            k = k + 1;
            proof {
                assert(md@ =~= self.market_data@.take(k as int).map_values(
                    |m: crate::engine::MarketData| market_data_view(m),
                ));
            }
        }
        proof {
            assert(self.market_data@.take(k as int) =~= self.market_data@);
        }
        OrderBookApi {
            bids: levels_summary(&self.bids.levels),
            asks: levels_summary(&self.asks.levels),
            market_data: md,
            enabled: self.enabled,
        }
    }
}

} // verus!
