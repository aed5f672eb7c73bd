//! Price-time priority matching of an incoming limit order against the
//! opposite side of the book.

use crate::amount::Amount;
use crate::engine::{
    at_least_as_good, copy_id, crosses, crosses_exec, fills_view, flatten, opposite,
    with_quantity, wf_levels, Fill, FillView, OrderView, PriceLevel, Side,
};
use crate::index::{
    consistent, entry_of, find_entry, has_id, index_view, lemma_consistent_remove,
    lemma_consistent_update, tag, EntryView, IndexEntry,
};
use crate::levels::{lemma_take_out, lemma_update_front};
use vstd::prelude::*;

verus! {

/// What matching an incoming order leaves: the trades in the order they
/// happen, the opposite side's orders afterwards, and the incoming quantity
/// that found no counterpart.
pub struct MatchOutcome {
    pub fills: Seq<FillView>,
    pub rest: Seq<OrderView>,
    pub remaining: u128,
}

/// Matching an order of `side` (identifier `taker`, limit `limit`, quantity
/// `remaining`) against the opposite side's orders `book`, best first: while
/// quantity remains and the best resting order crosses the limit, trade the
/// smaller of the two quantities at the resting order's price; a resting
/// order filled in full leaves the book, one filled in part keeps its place.
pub open spec fn match_incoming(
    side: Side,
    taker: Seq<u8>,
    limit: u128,
    remaining: u128,
    book: Seq<OrderView>,
) -> MatchOutcome
    decreases book.len(),
{
    if remaining == 0 || book.len() == 0 || !crosses(side, limit, book[0].price) {
        MatchOutcome { fills: seq![], rest: book, remaining }
    } else if book[0].quantity > remaining {
        MatchOutcome {
            fills: seq![
                FillView {
                    taker,
                    maker: book[0].id,
                    price: book[0].price,
                    quantity: remaining,
                },
            ],
            rest: book.update(0, with_quantity(book[0], (book[0].quantity - remaining) as u128)),
            remaining: 0,
        }
    } else {
        let next = match_incoming(
            side,
            taker,
            limit,
            (remaining - book[0].quantity) as u128,
            book.skip(1),
        );
        MatchOutcome {
            fills: seq![
                FillView {
                    taker,
                    maker: book[0].id,
                    price: book[0].price,
                    quantity: book[0].quantity,
                },
            ] + next.fills,
            rest: next.rest,
            remaining: next.remaining,
        }
    }
}

/// The sum of the traded quantities.
pub open spec fn sum_quantities(fills: Seq<FillView>) -> int
    decreases fills.len(),
{
    if fills.len() == 0 {
        0
    } else {
        fills[0].quantity + sum_quantities(fills.skip(1))
    }
}

/// Conservation: what the fills trade and what remains add up to the
/// incoming quantity.
pub proof fn lemma_conservation(
    side: Side,
    taker: Seq<u8>,
    limit: u128,
    quantity: u128,
    book: Seq<OrderView>,
)
    ensures
        sum_quantities(match_incoming(side, taker, limit, quantity, book).fills) + match_incoming(
            side,
            taker,
            limit,
            quantity,
            book,
        ).remaining == quantity,
        match_incoming(side, taker, limit, quantity, book).remaining <= quantity,
    decreases book.len(),
{
    let out = match_incoming(side, taker, limit, quantity, book);
    if quantity == 0 || book.len() == 0 || !crosses(side, limit, book[0].price) {
        assert(sum_quantities(out.fills) == 0);
    } else if book[0].quantity > quantity {
        assert(out.fills.skip(1) =~= Seq::<FillView>::empty());
        assert(sum_quantities(out.fills.skip(1)) == 0);
        assert(sum_quantities(out.fills) == quantity);
    } else {
        let rem = (quantity - book[0].quantity) as u128;
        lemma_conservation(side, taker, limit, rem, book.skip(1));
        let next = match_incoming(side, taker, limit, rem, book.skip(1));
        assert(out.fills.skip(1) =~= next.fills);
        assert(sum_quantities(out.fills) == book[0].quantity + sum_quantities(next.fills));
    }
}

/// The index entries of both sides, bids first, with `mine` standing for
/// the orders of `side`.
pub open spec fn arrange(side: Side, mine: Seq<EntryView>, other: Seq<EntryView>) -> Seq<EntryView> {
    match side {
        Side::Bid => mine + other,
        Side::Ask => other + mine,
    }
}

/// The state matching keeps: the opposite side well formed, the index in
/// step with both sides (`other` standing for the taker's own side), and the
/// taker's identifier not indexed.
pub open spec fn match_step_ok(
    taker_side: Side,
    taker: Seq<u8>,
    limit: u128,
    opp: Seq<PriceLevel>,
    index: Seq<IndexEntry>,
    other: Seq<EntryView>,
) -> bool {
    &&& wf_levels(opposite(taker_side), opp)
    &&& consistent(
        index_view(index),
        arrange(opposite(taker_side), tag(flatten(opp), opposite(taker_side)), other),
    )
    &&& !has_id(index_view(index), taker)
}

proof fn lemma_index_front(
    os: Side,
    opp: Seq<PriceLevel>,
    index: Seq<IndexEntry>,
    other: Seq<EntryView>,
    j: int,
) -> (p: int)
    requires
        wf_levels(os, opp),
        opp.len() > 0,
        consistent(index_view(index), arrange(os, tag(flatten(opp), os), other)),
        0 <= j < index.len(),
        index[j].id@ == opp[0].queue@[0].id@,
    ensures
        p == (match os {
            Side::Bid => 0,
            Side::Ask => other.len() as int,
        }),
        0 <= p < arrange(os, tag(flatten(opp), os), other).len(),
        index_view(index)[j] == arrange(os, tag(flatten(opp), os), other)[p],
        arrange(os, tag(flatten(opp), os), other)[p] == entry_of(opp[0].queue@[0]@, os),
{
    let all = arrange(os, tag(flatten(opp), os), other);
    assert(opp[0].queue@.len() > 0);
    assert(flatten(opp)[0] == opp[0].queue@[0]@);
    let p = match os {
        Side::Bid => 0,
        Side::Ask => other.len() as int,
    };
    assert(all[p] == entry_of(opp[0].queue@[0]@, os));
    assert(index_view(index).contains(all[p]));
    let jj = choose|jj: int| 0 <= jj < index_view(index).len() && index_view(index)[jj] == all[p];
    assert(index_view(index)[j].id == all[p].id);
    if jj != j {
        if jj < j {
            assert(index_view(index)[jj].id != index_view(index)[j].id);
        } else {
            assert(index_view(index)[j].id != index_view(index)[jj].id);
        }
    }
    p
}

/// Trades an incoming order of `taker_side` against the opposite side
/// `opp`, keeping the order index in step; returns the fills and the
/// quantity left unmatched.
pub fn match_against(
    opp: &mut Vec<PriceLevel>,
    index: &mut Vec<IndexEntry>,
    taker_side: Side,
    taker_id: &Vec<u8>,
    limit: Amount,
    quantity: Amount,
    Ghost(other): Ghost<Seq<EntryView>>,
) -> (res: (Vec<Fill>, Amount))
    requires
        match_step_ok(taker_side, taker_id@, limit.inner, old(opp)@, old(index)@, other),
    ensures
        ({
            let out = match_incoming(
                taker_side,
                taker_id@,
                limit.inner,
                quantity.inner,
                flatten(old(opp)@),
            );
            &&& fills_view(res.0@) == out.fills
            &&& res.1.inner == out.remaining
            &&& flatten(final(opp)@) == out.rest
        }),
        match_step_ok(taker_side, taker_id@, limit.inner, final(opp)@, final(index)@, other),
        final(opp)@.len() > 0 ==> old(opp)@.len() > 0 && at_least_as_good(
            opposite(taker_side),
            old(opp)@[0].price_level.inner,
            final(opp)@[0].price_level.inner,
        ),
        res.1.inner > 0 ==> final(opp)@.len() == 0 || !crosses(
            taker_side,
            limit.inner,
            final(opp)@[0].price_level.inner,
        ),
{
    let ghost os = opposite(taker_side);
    let ghost opp0 = opp@;
    let ghost out0 = match_incoming(taker_side, taker_id@, limit.inner, quantity.inner, flatten(opp0));
    let mut fills: Vec<Fill> = Vec::new();
    let mut rem = quantity;
    proof {
        assert(fills_view(fills@) =~= Seq::<FillView>::empty());
        assert(out0.fills =~= fills_view(fills@) + out0.fills);
    }
    while rem.inner > 0 && opp.len() > 0 && crosses_exec(taker_side, &limit, &opp[0].price_level)
        invariant
            os == opposite(taker_side),
            match_step_ok(taker_side, taker_id@, limit.inner, opp@, index@, other),
            ({
                let cur = match_incoming(taker_side, taker_id@, limit.inner, rem.inner, flatten(opp@));
                &&& out0.fills == fills_view(fills@) + cur.fills
                &&& out0.rest == cur.rest
                &&& out0.remaining == cur.remaining
            }),
            opp@.len() > 0 ==> opp0.len() > 0 && at_least_as_good(
                os,
                opp0[0].price_level.inner,
                opp@[0].price_level.inner,
            ),
        decreases flatten(opp@).len() + (if rem.inner > 0 { 1int } else { 0int }),
    {
        let ghost lv = opp@;
        let ghost iv = index@;
        let ghost fv = fills@;
        let ghost rem0 = rem.inner;
        let ghost all = arrange(os, tag(flatten(lv), os), other);
        let mut lvl = opp.remove(0);
        let ghost l0 = lvl;
        proof {
            assert(lv[0] == l0);
            assert(l0.queue@.len() > 0);
        }
        let mut maker = lvl.queue.remove(0);
        let ghost m0 = maker@;
        proof {
            assert(flatten(lv)[0] == m0);
            assert(m0.price == l0.price_level.inner);
            assert(m0.quantity > 0);
        }
        let found = find_entry(index, &maker.id);
        let j = match found {
            Some(j) => j,
            None => {
                proof {
                    let p = match os {
                        Side::Bid => 0,
                        Side::Ask => other.len() as int,
                    };
                    assert(all[p] == entry_of(m0, os));
                    assert(index_view(iv).contains(all[p]));
                    let jj = choose|jj: int|
                        0 <= jj < index_view(iv).len() && index_view(iv)[jj] == all[p];
                    assert(index_view(iv)[jj].id == m0.id);
                }
                0
            },
        };
        let ghost p = lemma_index_front(os, lv, iv, other, j as int);
        let q: Amount;
        if maker.quantity.inner > rem.inner {
            q = rem;
            let new_q = Amount { inner: maker.quantity.inner - rem.inner };
            maker.quantity = new_q;
            let fill = Fill {
                taker: copy_id(taker_id),
                maker: copy_id(&maker.id),
                price: maker.price,
                quantity: q,
            };
            fills.push(fill);
            let e = index.remove(j);
            let ghost ev = e@;
            index.insert(j, IndexEntry { id: e.id, side: e.side, price: e.price, quantity: new_q });
            let ghost mg = maker;
            lvl.queue.insert(0, maker);
            opp.insert(0, lvl);
            rem = Amount { inner: 0 };
            proof {
                let ne = entry_of(mg@, os);
                assert(index_view(index@) =~= index_view(iv).update(j as int, ne));
                assert(opp@ =~= lv.update(0, lvl));
                assert(lvl.queue@ =~= l0.queue@.update(0, mg));
                lemma_update_front(os, lv, opp@, mg);
                assert(tag(flatten(opp@), os) =~= tag(flatten(lv), os).update(0, ne));
                lemma_consistent_update(index_view(iv), all, j as int, p, ne);
                assert(arrange(os, tag(flatten(opp@), os), other) =~= all.update(p, ne));
                assert forall|k: int| 0 <= k < index_view(index@).len() implies #[trigger] index_view(
                    index@,
                )[k].id != taker_id@ by {
                    assert(index_view(index@)[k].id == index_view(iv)[k].id);
                }
                assert(mg@ == with_quantity(m0, (m0.quantity - rem0) as u128));
                assert(fills_view(fills@) =~= fills_view(fv).push(fill@));
                let cur = match_incoming(taker_side, taker_id@, limit.inner, 0, flatten(opp@));
                assert(cur.fills =~= Seq::<FillView>::empty());
                assert(out0.fills =~= fills_view(fills@) + cur.fills);
            }
        } else {
            q = maker.quantity;
            rem = Amount { inner: rem.inner - maker.quantity.inner };
            let fill = Fill {
                taker: copy_id(taker_id),
                maker: copy_id(&maker.id),
                price: maker.price,
                quantity: q,
            };
            fills.push(fill);
            let _e = index.remove(j);
            if lvl.queue.len() > 0 {
                opp.insert(0, lvl);
            }
            proof {
                if l0.queue@.len() > 1 {
                    assert(opp@[0] == lvl);
                    assert forall|x: int| 0 <= x < opp@.len() && x != 0 implies opp@[x] == lv[x] by {}
                } else {
                    assert(opp@ =~= lv.remove(0));
                }
                lemma_take_out(os, lv, 0, 0, opp@);
                assert(lv.take(0) =~= Seq::<PriceLevel>::empty());
                assert(flatten(lv.take(0)) =~= Seq::<OrderView>::empty());
                assert(flatten(opp@) == flatten(lv).remove(0));
                assert(index_view(index@) =~= index_view(iv).remove(j as int));
                lemma_consistent_remove(index_view(iv), all, j as int, p);
                assert(tag(flatten(opp@), os) =~= tag(flatten(lv), os).remove(0));
                assert(arrange(os, tag(flatten(opp@), os), other) =~= all.remove(p));
                assert forall|k: int| 0 <= k < index_view(index@).len() implies #[trigger] index_view(
                    index@,
                )[k].id != taker_id@ by {
                    let kk = if k < j { k } else { k + 1 };
                    assert(index_view(index@)[k] == index_view(iv)[kk]);
                }
                assert(flatten(lv).skip(1) =~= flatten(lv).remove(0));
                assert(fills_view(fills@) =~= fills_view(fv).push(fill@));
                let cur = match_incoming(taker_side, taker_id@, limit.inner, rem.inner, flatten(opp@));
                assert(out0.fills =~= fills_view(fills@) + cur.fills);
                if opp@.len() > 0 && l0.queue@.len() == 1 {
                    assert(opp@[0] == lv[1]);
                }
            }
        }
    }
    (fills, rem)
}

} // verus!
