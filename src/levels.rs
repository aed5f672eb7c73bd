//! One side of the book as an ordered sequence of price levels, best first:
//! the facts about its orders in priority order, and the two operations
//! that add and remove a single resting order.

use crate::amount::Amount;
use crate::engine::{
    at_least_as_good, better, better_exec, flatten, queue_view, same_id, wf_levels, Order,
    OrderView, PriceLevel, Side,
};
use vstd::prelude::*;

verus! {

/// Where a new resting order of `side` at `price` joins the orders `flat`
/// (in priority order): behind every order whose price is at least as good.
pub open spec fn resting_position(side: Side, flat: Seq<OrderView>, price: u128) -> nat
    decreases flat.len(),
{
    if flat.len() == 0 || better(side, price, flat[0].price) {
        0
    } else {
        1 + resting_position(side, flat.skip(1), price)
    }
}

pub proof fn lemma_flatten_concat(a: Seq<PriceLevel>, b: Seq<PriceLevel>)
    ensures
        flatten(a + b) == flatten(a) + flatten(b),
    decreases a.len(),
{
    if a.len() == 0 {
        assert(a + b =~= b);
        assert(flatten(a) + flatten(b) =~= flatten(b));
    } else {
        assert((a + b).skip(1) =~= a.skip(1) + b);
        lemma_flatten_concat(a.skip(1), b);
        assert(flatten(a + b) =~= flatten(a) + flatten(b));
    }
}

pub proof fn lemma_flatten_single(l: PriceLevel)
    ensures
        flatten(seq![l]) == queue_view(l.queue@),
{
    assert(seq![l].skip(1) =~= Seq::<PriceLevel>::empty());
    assert(flatten(seq![l].skip(1)) == Seq::<OrderView>::empty());
    assert(flatten(seq![l]) =~= queue_view(l.queue@));
}

/// Every order of a side stands in the queue of one of its levels.
pub proof fn lemma_flatten_origin(levels: Seq<PriceLevel>, p: int)
    requires
        0 <= p < flatten(levels).len(),
    ensures
        exists|k: int, i: int|
            0 <= k < levels.len() && 0 <= i < levels[k].queue@.len() && (#[trigger] levels[k].queue@[i])@
                == flatten(levels)[p],
    decreases levels.len(),
{
    if levels.len() > 0 {
        let q = queue_view(levels[0].queue@);
        if p < q.len() {
            assert(levels[0].queue@[p]@ == flatten(levels)[p]);
        } else {
            lemma_flatten_origin(levels.skip(1), p - q.len());
            let (k, i) = choose|k: int, i: int|
                0 <= k < levels.skip(1).len() && 0 <= i < levels.skip(1)[k].queue@.len() && (
                #[trigger] levels.skip(1)[k].queue@[i])@ == flatten(levels.skip(1))[p - q.len()];
            assert(levels[k + 1].queue@[i]@ == flatten(levels)[p]);
        }
    }
}

/// A prefix of orders that are all at least as good as `price` is passed over.
pub proof fn lemma_resting_position_append(
    side: Side,
    a: Seq<OrderView>,
    b: Seq<OrderView>,
    price: u128,
)
    requires
        forall|i: int| 0 <= i < a.len() ==> at_least_as_good(side, #[trigger] a[i].price, price),
    ensures
        resting_position(side, a + b, price) == a.len() + resting_position(side, b, price),
    decreases a.len(),
{
    if a.len() == 0 {
        assert(a + b =~= b);
    } else {
        assert((a + b)[0] == a[0]);
        assert((a + b).skip(1) =~= a.skip(1) + b);
        assert forall|i: int| 0 <= i < a.skip(1).len() implies at_least_as_good(
            side,
            #[trigger] a.skip(1)[i].price,
            price,
        ) by {
            assert(a.skip(1)[i] == a[i + 1]);
        }
        lemma_resting_position_append(side, a.skip(1), b, price);
    }
}

pub proof fn lemma_wf_take(side: Side, levels: Seq<PriceLevel>, k: int)
    requires
        wf_levels(side, levels),
        0 <= k <= levels.len(),
    ensures
        wf_levels(side, levels.take(k)),
        wf_levels(side, levels.skip(k)),
{
    let t = levels.take(k);
    let s = levels.skip(k);
    assert forall|a: int| 0 <= a < t.len() implies #[trigger] t[a] == levels[a] by {}
    assert forall|a: int| 0 <= a < s.len() implies #[trigger] s[a] == levels[a + k] by {}
    assert forall|k1: int, k2: int| 0 <= k1 < k2 < s.len() implies better(
        side,
        #[trigger] s[k1].price_level.inner,
        #[trigger] s[k2].price_level.inner,
    ) by {
        assert(s[k1] == levels[k1 + k] && s[k2] == levels[k2 + k]);
    }
}

/// The place of a new resting order is behind the levels at least as good
/// as its price.
pub proof fn lemma_position_at(side: Side, levels: Seq<PriceLevel>, kk: int, price: u128)
    requires
        wf_levels(side, levels),
        0 <= kk <= levels.len(),
        forall|a: int| 0 <= a < kk ==> at_least_as_good(side, #[trigger] levels[a].price_level.inner, price),
        kk < levels.len() ==> better(side, price, levels[kk].price_level.inner),
    ensures
        resting_position(side, flatten(levels), price) == flatten(levels.take(kk)).len(),
        flatten(levels) == flatten(levels.take(kk)) + flatten(levels.skip(kk)),
{
    lemma_wf_take(side, levels, kk);
    let a = levels.take(kk);
    let c = levels.skip(kk);
    assert(levels =~= a + c);
    lemma_flatten_concat(a, c);
    assert forall|i: int| 0 <= i < flatten(a).len() implies at_least_as_good(
        side,
        #[trigger] flatten(a)[i].price,
        price,
    ) by {
        lemma_flatten_origin(a, i);
        let (x, y) = choose|x: int, y: int|
            0 <= x < a.len() && 0 <= y < a[x].queue@.len() && (#[trigger] a[x].queue@[y])@
                == flatten(a)[i];
        assert(a[x] == levels[x]);
    }
    lemma_resting_position_append(side, flatten(a), flatten(c), price);
    if c.len() > 0 {
        assert(c[0] == levels[kk]);
        assert(c[0].queue@.len() > 0);
        assert(flatten(c)[0] == c[0].queue@[0]@);
        assert(better(side, price, flatten(c)[0].price));
    }
    assert(resting_position(side, flatten(c), price) == 0);
}

/// Appending an order to the queue of level `k`.
pub proof fn lemma_append_to_level(
    side: Side,
    levels: Seq<PriceLevel>,
    k: int,
    lvl: PriceLevel,
    o: Order,
)
    requires
        wf_levels(side, levels),
        0 <= k < levels.len(),
        o@.price == levels[k].price_level.inner,
        o@.quantity > 0,
        o@.price > 0,
        lvl.price_level == levels[k].price_level,
        lvl.queue@ == levels[k].queue@.push(o),
        forall|a: int| 0 <= a < k ==> better(side, #[trigger] levels[a].price_level.inner, o@.price),
    ensures
        wf_levels(side, levels.update(k, lvl)),
        flatten(levels.update(k, lvl)) == flatten(levels).insert(
            resting_position(side, flatten(levels), o@.price) as int,
            o@,
        ),
        resting_position(side, flatten(levels), o@.price) <= flatten(levels).len(),
{
    let l0 = levels[k];
    let nl = levels.update(k, lvl);
    if k + 1 < levels.len() {
        assert(better(side, levels[k].price_level.inner, levels[k + 1].price_level.inner));
    }
    lemma_position_at(side, levels, k + 1, o@.price);
    let a = levels.take(k);
    let c = levels.skip(k + 1);
    assert(levels =~= a + seq![l0] + c);
    assert(nl =~= a + seq![lvl] + c);
    assert(levels.take(k + 1) =~= a + seq![l0]);
    lemma_flatten_concat(a + seq![l0], c);
    lemma_flatten_concat(a, seq![l0]);
    lemma_flatten_concat(a + seq![lvl], c);
    lemma_flatten_concat(a, seq![lvl]);
    lemma_flatten_single(l0);
    lemma_flatten_single(lvl);
    assert(queue_view(lvl.queue@) =~= queue_view(l0.queue@).push(o@));
    assert(flatten(nl) =~= flatten(levels).insert(
        resting_position(side, flatten(levels), o@.price) as int,
        o@,
    ));
    assert forall|k1: int, k2: int| 0 <= k1 < k2 < nl.len() implies better(
        side,
        #[trigger] nl[k1].price_level.inner,
        #[trigger] nl[k2].price_level.inner,
    ) by {
        assert(nl[k1].price_level == levels[k1].price_level);
        assert(nl[k2].price_level == levels[k2].price_level);
    }
    assert forall|x: int, y: int| 0 <= x < nl.len() && 0 <= y < nl[x].queue@.len() implies {
        &&& (#[trigger] nl[x].queue@[y])@.price == nl[x].price_level.inner
        &&& nl[x].queue@[y]@.quantity > 0
        &&& nl[x].queue@[y]@.price > 0
    } by {
        if x == k && y == l0.queue@.len() {
            assert(nl[x].queue@[y] == o);
        } else {
            assert(nl[x].queue@[y] == levels[x].queue@[y]);
        }
    }
    assert forall|x: int| 0 <= x < nl.len() implies #[trigger] nl[x].queue@.len() > 0 by {
        assert(levels[x].queue@.len() > 0);
    }
}

/// Inserting a new level holding one order at position `k`.
pub proof fn lemma_new_level(side: Side, levels: Seq<PriceLevel>, k: int, lvl: PriceLevel, o: Order)
    requires
        wf_levels(side, levels),
        0 <= k <= levels.len(),
        o@.quantity > 0,
        o@.price > 0,
        lvl.price_level.inner == o@.price,
        lvl.queue@ == seq![o],
        forall|a: int| 0 <= a < k ==> better(side, #[trigger] levels[a].price_level.inner, o@.price),
        k < levels.len() ==> better(side, o@.price, levels[k].price_level.inner),
    ensures
        wf_levels(side, levels.insert(k, lvl)),
        flatten(levels.insert(k, lvl)) == flatten(levels).insert(
            resting_position(side, flatten(levels), o@.price) as int,
            o@,
        ),
        resting_position(side, flatten(levels), o@.price) <= flatten(levels).len(),
{
    let nl = levels.insert(k, lvl);
    lemma_position_at(side, levels, k, o@.price);
    let a = levels.take(k);
    let c = levels.skip(k);
    assert(nl =~= a + seq![lvl] + c);
    lemma_flatten_concat(a + seq![lvl], c);
    lemma_flatten_concat(a, seq![lvl]);
    lemma_flatten_single(lvl);
    assert(queue_view(lvl.queue@) =~= seq![o@]);
    assert(flatten(nl) =~= flatten(levels).insert(
        resting_position(side, flatten(levels), o@.price) as int,
        o@,
    ));
    assert forall|k1: int, k2: int| 0 <= k1 < k2 < nl.len() implies better(
        side,
        #[trigger] nl[k1].price_level.inner,
        #[trigger] nl[k2].price_level.inner,
    ) by {
        if k2 < k {
            assert(nl[k1] == levels[k1] && nl[k2] == levels[k2]);
        } else if k2 == k {
            assert(nl[k1] == levels[k1]);
        } else if k1 == k {
            assert(nl[k2] == levels[k2 - 1]);
            if k2 - 1 > k {
                assert(better(side, levels[k].price_level.inner, levels[k2 - 1].price_level.inner));
            }
        } else if k1 < k {
            assert(nl[k1] == levels[k1] && nl[k2] == levels[k2 - 1]);
            if k2 - 1 > k {
                assert(better(side, levels[k].price_level.inner, levels[k2 - 1].price_level.inner));
            }
        } else {
            assert(nl[k1] == levels[k1 - 1] && nl[k2] == levels[k2 - 1]);
        }
    }
    assert forall|x: int, y: int| 0 <= x < nl.len() && 0 <= y < nl[x].queue@.len() implies {
        &&& (#[trigger] nl[x].queue@[y])@.price == nl[x].price_level.inner
        &&& nl[x].queue@[y]@.quantity > 0
        &&& nl[x].queue@[y]@.price > 0
    } by {
        if x < k {
            assert(nl[x] == levels[x]);
        } else if x > k {
            assert(nl[x] == levels[x - 1]);
        }
    }
    assert forall|x: int| 0 <= x < nl.len() implies #[trigger] nl[x].queue@.len() > 0 by {
        if x < k {
            assert(nl[x] == levels[x]);
        } else if x > k {
            assert(nl[x] == levels[x - 1]);
        }
    }
}

/// Adds a resting order to its side: at the end of the queue of its price,
/// or as a new level at its place in the order of prices.
pub fn insert_order(levels: &mut Vec<PriceLevel>, side: Side, o: Order)
    requires
        wf_levels(side, old(levels)@),
        o@.price > 0,
        o@.quantity > 0,
    ensures
        wf_levels(side, final(levels)@),
        flatten(final(levels)@) == flatten(old(levels)@).insert(
            resting_position(side, flatten(old(levels)@), o@.price) as int,
            o@,
        ),
        resting_position(side, flatten(old(levels)@), o@.price) <= flatten(old(levels)@).len(),
        final(levels)@.len() > 0,
        at_least_as_good(side, final(levels)@[0].price_level.inner, o@.price),
        final(levels)@[0].price_level.inner == o@.price || (old(levels)@.len() > 0
            && final(levels)@[0].price_level.inner == old(levels)@[0].price_level.inner),
{
    let ghost old_levels = levels@;
    let ghost ov = o@;
    let mut k: usize = 0;
    while k < levels.len() && better_exec(side, &levels[k].price_level, &o.price)
        invariant
            levels@ == old_levels,
            ov == o@,
            k <= levels@.len(),
            forall|a: int| 0 <= a < k ==> better(side, #[trigger] levels@[a].price_level.inner, ov.price),
        decreases levels.len() - k,
    {
        k = k + 1;
    }
    if k < levels.len() && levels[k].price_level.inner == o.price.inner {
        let mut lvl = levels.remove(k);
        lvl.queue.push(o);
        levels.insert(k, lvl);
        proof {
            assert(levels@ =~= old_levels.update(k as int, lvl));
            lemma_append_to_level(side, old_levels, k as int, lvl, o);
            if k > 0 {
                assert(levels@[0] == old_levels[0]);
            }
        }
    } else {
        let price = o.price;
        let ghost og = o;
        let mut q: Vec<Order> = Vec::new();
        q.push(o);
        let lvl = PriceLevel { price_level: price, queue: q };
        levels.insert(k, lvl);
        proof {
            assert(lvl.queue@ =~= seq![og]);
            if k < old_levels.len() {
                assert(!better(side, old_levels[k as int].price_level.inner, ov.price));
                assert(better(side, ov.price, old_levels[k as int].price_level.inner));
            }
            lemma_new_level(side, old_levels, k as int, lvl, og);
            if k > 0 {
                assert(levels@[0] == old_levels[0]);
            }
        }
    }
}

/// Taking order `i` out of the queue of level `k`, and the level out of the
/// side when that empties it.
pub proof fn lemma_take_out(side: Side, levels: Seq<PriceLevel>, k: int, i: int, nl: Seq<PriceLevel>)
    requires
        wf_levels(side, levels),
        0 <= k < levels.len(),
        0 <= i < levels[k].queue@.len(),
        levels[k].queue@.len() == 1 ==> nl == levels.remove(k),
        levels[k].queue@.len() > 1 ==> {
            &&& nl.len() == levels.len()
            &&& nl[k].price_level == levels[k].price_level
            &&& nl[k].queue@ == levels[k].queue@.remove(i)
            &&& forall|x: int| 0 <= x < nl.len() && x != k ==> nl[x] == levels[x]
        },
    ensures
        wf_levels(side, nl),
        flatten(nl) == flatten(levels).remove(flatten(levels.take(k)).len() + i),
        flatten(levels.take(k)).len() + i < flatten(levels).len(),
        flatten(levels)[flatten(levels.take(k)).len() + i] == levels[k].queue@[i]@,
        nl.len() > 0 ==> at_least_as_good(
            side,
            levels[0].price_level.inner,
            nl[0].price_level.inner,
        ),
{
    let l0 = levels[k];
    let a = levels.take(k);
    let c = levels.skip(k + 1);
    assert(levels =~= a + seq![l0] + c);
    lemma_flatten_concat(a + seq![l0], c);
    lemma_flatten_concat(a, seq![l0]);
    lemma_flatten_single(l0);
    let n = flatten(a).len();
    assert(flatten(levels)[n + i] == queue_view(l0.queue@)[i]);
    if l0.queue@.len() == 1 {
        assert(nl =~= a + c);
        lemma_flatten_concat(a, c);
        assert(flatten(nl) =~= flatten(levels).remove(n + i));
        assert forall|k1: int, k2: int| 0 <= k1 < k2 < nl.len() implies better(
            side,
            #[trigger] nl[k1].price_level.inner,
            #[trigger] nl[k2].price_level.inner,
        ) by {
            let a1 = if k1 < k { k1 } else { k1 + 1 };
            let a2 = if k2 < k { k2 } else { k2 + 1 };
            assert(nl[k1] == levels[a1] && nl[k2] == levels[a2]);
        }
        assert forall|x: int, y: int| 0 <= x < nl.len() && 0 <= y < nl[x].queue@.len() implies {
            &&& (#[trigger] nl[x].queue@[y])@.price == nl[x].price_level.inner
            &&& nl[x].queue@[y]@.quantity > 0
            &&& nl[x].queue@[y]@.price > 0
        } by {
            let xx = if x < k { x } else { x + 1 };
            assert(nl[x] == levels[xx]);
        }
        assert forall|x: int| 0 <= x < nl.len() implies #[trigger] nl[x].queue@.len() > 0 by {
            let xx = if x < k { x } else { x + 1 };
            assert(nl[x] == levels[xx]);
        }
        if nl.len() > 0 {
            let z = if k == 0 { 1int } else { 0int };
            assert(nl[0] == levels[z]);
            if z == 1 {
                assert(better(side, levels[0].price_level.inner, levels[1].price_level.inner));
            }
        }
    } else {
        let l1 = nl[k];
        assert(nl =~= a + seq![l1] + c);
        lemma_flatten_concat(a + seq![l1], c);
        lemma_flatten_concat(a, seq![l1]);
        lemma_flatten_single(l1);
        assert(queue_view(l1.queue@) =~= queue_view(l0.queue@).remove(i));
        assert(flatten(nl) =~= flatten(levels).remove(n + i));
        assert forall|k1: int, k2: int| 0 <= k1 < k2 < nl.len() implies better(
            side,
            #[trigger] nl[k1].price_level.inner,
            #[trigger] nl[k2].price_level.inner,
        ) by {
            assert(nl[k1].price_level == levels[k1].price_level);
            assert(nl[k2].price_level == levels[k2].price_level);
        }
        assert forall|x: int, y: int| 0 <= x < nl.len() && 0 <= y < nl[x].queue@.len() implies {
            &&& (#[trigger] nl[x].queue@[y])@.price == nl[x].price_level.inner
            &&& nl[x].queue@[y]@.quantity > 0
            &&& nl[x].queue@[y]@.price > 0
        } by {
            if x == k {
                let yy = if y < i { y } else { y + 1 };
                assert(nl[x].queue@[y] == levels[x].queue@[yy]);
            } else {
                assert(nl[x] == levels[x]);
            }
        }
        assert forall|x: int| 0 <= x < nl.len() implies #[trigger] nl[x].queue@.len() > 0 by {
            assert(levels[x].queue@.len() > 0);
        }
    }
}

/// Takes the order with identifier `id` out of the level at `price`,
/// removing the level if that empties it.
pub fn remove_order(levels: &mut Vec<PriceLevel>, side: Side, id: &Vec<u8>, price: &Amount) -> (r:
    Option<Order>)
    requires
        wf_levels(side, old(levels)@),
    ensures
        wf_levels(side, final(levels)@),
        match r {
            Some(o) => exists|p: int|
                0 <= p < flatten(old(levels)@).len() && #[trigger] flatten(old(levels)@)[p] == o@
                    && o@.id == id@ && o@.price == price.inner && flatten(final(levels)@)
                    == flatten(old(levels)@).remove(p),
            None => final(levels)@ == old(levels)@ && forall|p: int|
                0 <= p < flatten(old(levels)@).len() && #[trigger] flatten(old(levels)@)[p].id
                    == id@ ==> flatten(old(levels)@)[p].price != price.inner,
        },
        final(levels)@.len() > 0 ==> at_least_as_good(
            side,
            old(levels)@[0].price_level.inner,
            final(levels)@[0].price_level.inner,
        ),
{
    let ghost old_levels = levels@;
    let mut k: usize = 0;
    while k < levels.len() && levels[k].price_level.inner != price.inner
        invariant
            levels@ == old_levels,
            k <= levels@.len(),
            forall|a: int| 0 <= a < k ==> #[trigger] levels@[a].price_level.inner != price.inner,
        decreases levels.len() - k,
    {
        k = k + 1;
    }
    if k == levels.len() {
        proof {
            assert forall|p: int|
                0 <= p < flatten(old_levels).len() && #[trigger] flatten(old_levels)[p].id
                    == id@ implies flatten(old_levels)[p].price != price.inner by {
                lemma_flatten_origin(old_levels, p);
                let (x, y) = choose|x: int, y: int|
                    0 <= x < old_levels.len() && 0 <= y < old_levels[x].queue@.len() && (
                    #[trigger] old_levels[x].queue@[y])@ == flatten(old_levels)[p];
                assert(old_levels[x].price_level.inner != price.inner);
            }
        }
        return None;
    }
    let mut i: usize = 0;
    while i < levels[k].queue.len() && !same_id(&levels[k].queue[i].id, id)
        invariant
            levels@ == old_levels,
            k < levels@.len(),
            i <= levels@[k as int].queue@.len(),
            forall|b: int| 0 <= b < i ==> (#[trigger] levels@[k as int].queue@[b]).id@ != id@,
        decreases levels[k as int].queue@.len() - i,
    {
        i = i + 1;
    }
    if i == levels[k].queue.len() {
        proof {
            assert forall|p: int|
                0 <= p < flatten(old_levels).len() && #[trigger] flatten(old_levels)[p].id
                    == id@ implies flatten(old_levels)[p].price != price.inner by {
                lemma_flatten_origin(old_levels, p);
                let (x, y) = choose|x: int, y: int|
                    0 <= x < old_levels.len() && 0 <= y < old_levels[x].queue@.len() && (
                    #[trigger] old_levels[x].queue@[y])@ == flatten(old_levels)[p];
                if old_levels[x].price_level.inner == price.inner {
                    if x != k {
                        if x < k {
                            assert(better(
                                side,
                                old_levels[x].price_level.inner,
                                old_levels[k as int].price_level.inner,
                            ));
                        } else {
                            assert(better(
                                side,
                                old_levels[k as int].price_level.inner,
                                old_levels[x].price_level.inner,
                            ));
                        }
                    }
                    assert(old_levels[k as int].queue@[y].id@ != id@);
                }
            }
        }
        return None;
    }
    let mut lvl = levels.remove(k);
    let o = lvl.queue.remove(i);
    if lvl.queue.len() > 0 {
        levels.insert(k, lvl);
    }
    proof {
        let ol = old_levels[k as int];
        if ol.queue@.len() > 1 {
            assert(levels@[k as int] == lvl);
        } else {
            assert(levels@ =~= old_levels.remove(k as int));
        }
        lemma_take_out(side, old_levels, k as int, i as int, levels@);
        let p = flatten(old_levels.take(k as int)).len() + i;
        assert(flatten(old_levels)[p] == o@);
    }
    Some(o)
}

/// Changing the oldest order of the best level, its price kept.
pub proof fn lemma_update_front(side: Side, levels: Seq<PriceLevel>, nl: Seq<PriceLevel>, m: Order)
    requires
        wf_levels(side, levels),
        levels.len() > 0,
        nl.len() == levels.len(),
        nl[0].price_level == levels[0].price_level,
        nl[0].queue@ == levels[0].queue@.update(0, m),
        forall|x: int| 0 < x < nl.len() ==> nl[x] == levels[x],
        m@.price == levels[0].queue@[0]@.price,
        m@.quantity > 0,
    ensures
        wf_levels(side, nl),
        flatten(nl) == flatten(levels).update(0, m@),
{
    assert(levels[0].queue@.len() > 0);
    assert(nl.skip(1) =~= levels.skip(1));
    assert(queue_view(nl[0].queue@) =~= queue_view(levels[0].queue@).update(0, m@));
    assert(flatten(nl) =~= flatten(levels).update(0, m@));
    assert forall|k1: int, k2: int| 0 <= k1 < k2 < nl.len() implies better(
        side,
        #[trigger] nl[k1].price_level.inner,
        #[trigger] nl[k2].price_level.inner,
    ) by {
        assert(nl[k1].price_level == levels[k1].price_level);
        assert(nl[k2].price_level == levels[k2].price_level);
    }
    assert forall|x: int, y: int| 0 <= x < nl.len() && 0 <= y < nl[x].queue@.len() implies {
        &&& (#[trigger] nl[x].queue@[y])@.price == nl[x].price_level.inner
        &&& nl[x].queue@[y]@.quantity > 0
        &&& nl[x].queue@[y]@.price > 0
    } by {
        if x == 0 && y == 0 {
            assert(nl[x].queue@[y] == m);
        } else {
            assert(nl[x].queue@[y] == levels[x].queue@[y]);
        }
    }
    assert forall|x: int| 0 <= x < nl.len() implies #[trigger] nl[x].queue@.len() > 0 by {
        assert(levels[x].queue@.len() > 0);
    }
}

/// One side of the book: its price levels, best first, with no empty level.
#[derive(Debug)]
pub struct PriceLevelIndex {
    pub side: Side,
    pub levels: Vec<PriceLevel>,
}

impl PriceLevelIndex {
    pub open spec fn wf(&self) -> bool {
        wf_levels(self.side, self.levels@)
    }

    /// The resting orders in priority order.
    pub open spec fn orders(&self) -> Seq<OrderView> {
        flatten(self.levels@)
    }

    pub fn new(side: Side) -> (r: PriceLevelIndex)
        ensures
            r.wf(),
            r.side == side,
            r.levels@.len() == 0,
    {
        PriceLevelIndex { side, levels: Vec::new() }
    }

    /// The number of price levels.
    pub fn len(&self) -> (r: usize)
        ensures
            r == self.levels@.len(),
    {
        self.levels.len()
    }

    pub fn is_empty(&self) -> (r: bool)
        ensures
            r == (self.levels@.len() == 0),
    {
        self.levels.len() == 0
    }

    /// The level of the best price, if any.
    pub fn best(&self) -> (r: Option<&PriceLevel>)
        ensures
            self.levels@.len() == 0 ==> r.is_none(),
            self.levels@.len() > 0 ==> r == Some(&self.levels@[0]),
    {
        if self.levels.len() == 0 {
            None
        } else {
            Some(&self.levels[0])
        }
    }

    /// Adds a resting order behind the orders at least as good as its price.
    pub fn insert(&mut self, o: Order)
        requires
            old(self).wf(),
            o@.price > 0,
            o@.quantity > 0,
        ensures
            final(self).wf(),
            final(self).side == old(self).side,
            final(self).orders() == old(self).orders().insert(
                resting_position(old(self).side, old(self).orders(), o@.price) as int,
                o@,
            ),
    {
        insert_order(&mut self.levels, self.side, o);
    }

    /// Removes and returns the level of the best price.
    pub fn pop_best_level(&mut self) -> (r: Option<PriceLevel>)
        requires
            old(self).wf(),
        ensures
            final(self).wf(),
            final(self).side == old(self).side,
            old(self).levels@.len() == 0 ==> r.is_none() && final(self).levels@ == old(self).levels@,
            old(self).levels@.len() > 0 ==> r == Some(old(self).levels@[0]) && final(self).levels@
                == old(self).levels@.skip(1),
    {
        if self.levels.len() == 0 {
            None
        } else {
            let l = self.levels.remove(0);
            proof {
                assert(self.levels@ =~= old(self).levels@.skip(1));
                lemma_wf_take(self.side, old(self).levels@, 1);
            }
            Some(l)
        }
    }

    /// Takes the order `id` out of the level at `price`.
    pub fn remove(&mut self, id: &Vec<u8>, price: &Amount) -> (r: Option<Order>)
        requires
            old(self).wf(),
        ensures
            final(self).wf(),
            final(self).side == old(self).side,
            match r {
                Some(o) => exists|p: int|
                    0 <= p < old(self).orders().len() && #[trigger] old(self).orders()[p] == o@
                        && o@.id == id@ && o@.price == price.inner && final(self).orders()
                        == old(self).orders().remove(p),
                None => final(self).levels@ == old(self).levels@ && forall|p: int|
                    0 <= p < old(self).orders().len() && #[trigger] old(self).orders()[p].id == id@
                        ==> old(self).orders()[p].price != price.inner,
            },
    {
        remove_order(&mut self.levels, self.side, id, price)
    }

    /// Removes and returns all levels, best first.
    pub fn drain(&mut self) -> (r: Vec<PriceLevel>)
        ensures
            r@ == old(self).levels@,
            final(self).levels@.len() == 0,
            final(self).side == old(self).side,
            final(self).wf(),
    {
        let mut taken: Vec<PriceLevel> = Vec::new();
        std::mem::swap(&mut taken, &mut self.levels);
        taken
    }

    /// The prices of the levels, best first.
    pub fn prices(&self) -> (r: Vec<Amount>)
        ensures
            r@.len() == self.levels@.len(),
            forall|k: int| 0 <= k < r@.len() ==> #[trigger] r@[k] == self.levels@[k].price_level,
    {
        let mut r: Vec<Amount> = Vec::new();
        let mut k: usize = 0;
        while k < self.levels.len()
            invariant
                k <= self.levels@.len(),
                r@.len() == k,
                forall|x: int| 0 <= x < k ==> #[trigger] r@[x] == self.levels@[x].price_level,
            decreases self.levels.len() - k,
        {
            r.push(self.levels[k].price_level);
            k = k + 1;
        }
        r
    }
}

} // verus!
