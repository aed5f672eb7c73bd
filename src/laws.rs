//! Properties that hold of every well-formed book and of every matching.

use crate::book::OrderBook;
use crate::engine::{with_quantity, OrderView, Side};
use crate::index::unique_ids;
use crate::matching::match_incoming;
use vstd::prelude::*;

verus! {

/// Every order in the index stands, with the same side, price and quantity,
/// in the queues, and every queued order is indexed; an identifier occurs
/// at most once in each, so each indexed order has exactly one place.
pub proof fn lemma_index_matches_queues(book: OrderBook)
    requires
        book.wf(),
    ensures
        forall|j: int| 0 <= j < book.index().len() ==> #[trigger] book.all_entries().contains(book.index()[j]),
        forall|i: int| 0 <= i < book.all_entries().len() ==> #[trigger] book.index().contains(book.all_entries()[i]),
        unique_ids(book.index()),
        unique_ids(book.all_entries()),
{
}

/// A well-formed book is never crossed: the best bid is below the best ask.
pub proof fn lemma_book_not_crossed(book: OrderBook)
    requires
        book.wf(),
    ensures
        book.bids.levels@.len() > 0 && book.asks.levels@.len() > 0 ==> book.bids.levels@[0].price_level.inner
            < book.asks.levels@[0].price_level.inner,
{
}

/// Price-time priority: the fills take the resting orders in their order
/// (price first, then arrival), each ahead of the next. Every fill but the
/// last takes its resting order whole, so of two resting orders the later
/// one trades only after the earlier one is filled in full; and the book
/// keeps what the fills did not take, in the same order.
pub proof fn lemma_price_time_priority(
    side: Side,
    taker: Seq<u8>,
    limit: u128,
    quantity: u128,
    book: Seq<OrderView>,
)
    ensures
        ({
            let out = match_incoming(side, taker, limit, quantity, book);
            let n = out.fills.len() as int;
            &&& n <= book.len()
            &&& forall|k: int|
                0 <= k < n ==> (#[trigger] out.fills[k]).maker == book[k].id && out.fills[k].price
                    == book[k].price && out.fills[k].taker == taker && out.fills[k].quantity
                    <= book[k].quantity
            &&& forall|k: int| 0 <= k < n - 1 ==> (#[trigger] out.fills[k]).quantity == book[k].quantity
            &&& forall|i: int, j: int|
                0 <= i < j < book.len() && j < n ==> (#[trigger] out.fills[i]).quantity
                    == book[i].quantity && #[trigger] out.fills[j].maker == book[j].id
            &&& out.rest == if n > 0 && out.fills[n - 1].quantity < book[n - 1].quantity {
                book.skip(n - 1).update(
                    0,
                    with_quantity(
                        book[n - 1],
                        (book[n - 1].quantity - out.fills[n - 1].quantity) as u128,
                    ),
                )
            } else {
                book.skip(n)
            }
        }),
    decreases book.len(),
{
    let out = match_incoming(side, taker, limit, quantity, book);
    if quantity == 0 || book.len() == 0 || !crate::engine::crosses(side, limit, book[0].price) {
        assert(book.skip(0) =~= book);
    } else if book[0].quantity > quantity {
        assert(book.skip(0) =~= book);
    } else {
        let rem = (quantity - book[0].quantity) as u128;
        let tail = book.skip(1);
        lemma_price_time_priority(side, taker, limit, rem, tail);
        let next = match_incoming(side, taker, limit, rem, tail);
        let n = out.fills.len() as int;
        assert(n == next.fills.len() + 1);
        assert forall|k: int| 0 < k < n implies #[trigger] out.fills[k] == next.fills[k - 1] by {}
        assert forall|k: int|
            0 <= k < n implies (#[trigger] out.fills[k]).maker == book[k].id && out.fills[k].price
                == book[k].price && out.fills[k].taker == taker && out.fills[k].quantity
                <= book[k].quantity by {
            if k > 0 {
                assert(out.fills[k] == next.fills[k - 1]);
                assert(tail[k - 1] == book[k]);
            }
        }
        assert forall|k: int| 0 <= k < n - 1 implies (#[trigger] out.fills[k]).quantity
            == book[k].quantity by {
            if k > 0 {
                assert(out.fills[k] == next.fills[k - 1]);
                assert(tail[k - 1] == book[k]);
            }
        }
        if n > 1 {
            assert(out.fills[n - 1] == next.fills[n - 2]);
            assert(book[n - 1] == tail[n - 2]);
            assert(tail.skip(n - 2) =~= book.skip(n - 1));
        }
        assert(tail.skip(n - 1) =~= book.skip(n));
    }
}

/// A resting order that a matching fills in full leaves the book: where the
/// identifiers are distinct, none of what remains carries its identifier.
pub proof fn lemma_filled_orders_leave(
    side: Side,
    taker: Seq<u8>,
    limit: u128,
    quantity: u128,
    book: Seq<OrderView>,
)
    requires
        forall|i: int, j: int| 0 <= i < j < book.len() ==> #[trigger] book[i].id != #[trigger] book[j].id,
    ensures
        ({
            let out = match_incoming(side, taker, limit, quantity, book);
            forall|k: int, i: int|
                0 <= k < out.fills.len() && (#[trigger] out.fills[k]).quantity == book[k].quantity
                    && 0 <= i < out.rest.len() ==> #[trigger] out.rest[i].id != out.fills[k].maker
        }),
{
    let out = match_incoming(side, taker, limit, quantity, book);
    lemma_price_time_priority(side, taker, limit, quantity, book);
    let n = out.fills.len() as int;
    assert forall|k: int, i: int|
        0 <= k < out.fills.len() && (#[trigger] out.fills[k]).quantity == book[k].quantity && 0 <= i
            < out.rest.len() implies #[trigger] out.rest[i].id != out.fills[k].maker by {
        if n > 0 && out.fills[n - 1].quantity < book[n - 1].quantity {
            assert(k < n - 1);
            assert(out.rest[i].id == book[i + n - 1].id);
            assert(book[k].id != book[i + n - 1].id);
        } else {
            assert(out.rest[i] == book[i + n]);
            assert(book[k].id != book[i + n].id);
        }
    }
}

} // verus!
