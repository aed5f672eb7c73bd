//! The order index: where each resting order stands (side, price) and how
//! much of it remains, kept in step with the price-level queues.

use crate::amount::Amount;
use crate::engine::{same_id, OrderView, Side};
use vstd::prelude::*;

verus! {

/// One resting order as the index records it.
#[derive(Debug)]
pub struct IndexEntry {
    pub id: Vec<u8>,
    pub side: Side,
    pub price: Amount,
    pub quantity: Amount,
}

pub struct EntryView {
    pub id: Seq<u8>,
    pub side: Side,
    pub price: u128,
    pub quantity: u128,
}

impl View for IndexEntry {
    type V = EntryView;

    open spec fn view(&self) -> EntryView {
        EntryView {
            id: self.id@,
            side: self.side,
            price: self.price.inner,
            quantity: self.quantity.inner,
        }
    }
}

pub open spec fn index_view(v: Seq<IndexEntry>) -> Seq<EntryView> {
    v.map_values(|e: IndexEntry| e@)
}

/// The index entry that a resting order of `side` has.
pub open spec fn entry_of(o: OrderView, side: Side) -> EntryView {
    EntryView { id: o.id, side, price: o.price, quantity: o.quantity }
}

/// The index entries of the orders of one side.
pub open spec fn tag(orders: Seq<OrderView>, side: Side) -> Seq<EntryView> {
    orders.map_values(|o: OrderView| entry_of(o, side))
}

pub open spec fn unique_ids(s: Seq<EntryView>) -> bool {
    forall|i: int, j: int| 0 <= i < j < s.len() ==> #[trigger] s[i].id != #[trigger] s[j].id
}

pub open spec fn has_id(s: Seq<EntryView>, id: Seq<u8>) -> bool {
    exists|i: int| 0 <= i < s.len() && #[trigger] s[i].id == id
}

/// The index and the resting orders hold the same entries, each identifier
/// at most once: every indexed order stands in exactly one queue with the
/// recorded side, price and quantity, and every queued order is indexed.
pub open spec fn consistent(index: Seq<EntryView>, all: Seq<EntryView>) -> bool {
    &&& unique_ids(index)
    &&& unique_ids(all)
    &&& forall|j: int| 0 <= j < index.len() ==> #[trigger] all.contains(index[j])
    &&& forall|i: int| 0 <= i < all.len() ==> #[trigger] index.contains(all[i])
}

pub proof fn lemma_consistent_ids(index: Seq<EntryView>, all: Seq<EntryView>, id: Seq<u8>)
    requires
        consistent(index, all),
    ensures
        has_id(index, id) <==> has_id(all, id),
{
    if has_id(index, id) {
        let j = choose|j: int| 0 <= j < index.len() && #[trigger] index[j].id == id;
        assert(all.contains(index[j]));
        let i = choose|i: int| 0 <= i < all.len() && #[trigger] all[i] == index[j];
        assert(all[i].id == id);
    }
    if has_id(all, id) {
        let i = choose|i: int| 0 <= i < all.len() && #[trigger] all[i].id == id;
        assert(index.contains(all[i]));
        let j = choose|j: int| 0 <= j < index.len() && #[trigger] index[j] == all[i];
        assert(index[j].id == id);
    }
}

/// Removing an order from the queues together with its index entry.
pub proof fn lemma_consistent_remove(index: Seq<EntryView>, all: Seq<EntryView>, j: int, p: int)
    requires
        consistent(index, all),
        0 <= j < index.len(),
        0 <= p < all.len(),
        index[j] == all[p],
    ensures
        consistent(index.remove(j), all.remove(p)),
{
    let ni = index.remove(j);
    let na = all.remove(p);
    assert forall|a: int, b: int| 0 <= a < b < ni.len() implies #[trigger] ni[a].id
        != #[trigger] ni[b].id by {
        let aa = if a < j { a } else { a + 1 };
        let bb = if b < j { b } else { b + 1 };
        assert(ni[a] == index[aa] && ni[b] == index[bb]);
    }
    assert forall|a: int, b: int| 0 <= a < b < na.len() implies #[trigger] na[a].id
        != #[trigger] na[b].id by {
        let aa = if a < p { a } else { a + 1 };
        let bb = if b < p { b } else { b + 1 };
        assert(na[a] == all[aa] && na[b] == all[bb]);
    }
    assert forall|jn: int| 0 <= jn < ni.len() implies #[trigger] na.contains(ni[jn]) by {
        let jj = if jn < j { jn } else { jn + 1 };
        assert(ni[jn] == index[jj]);
        assert(index[jj].id != index[j].id);
        assert(all.contains(index[jj]));
        let i = choose|i: int| 0 <= i < all.len() && #[trigger] all[i] == index[jj];
        assert(i != p);
        let ii = if i < p { i } else { i - 1 };
        assert(na[ii] == all[i]);
    }
    assert forall|iN: int| 0 <= iN < na.len() implies #[trigger] ni.contains(na[iN]) by {
        let ii = if iN < p { iN } else { iN + 1 };
        assert(na[iN] == all[ii]);
        assert(all[ii].id != all[p].id);
        assert(index.contains(all[ii]));
        let jj = choose|jj: int| 0 <= jj < index.len() && #[trigger] index[jj] == all[ii];
        assert(jj != j);
        let jn = if jj < j { jj } else { jj - 1 };
        assert(ni[jn] == index[jj]);
    }
}

/// Changing an order in the queues and its index entry alike, identifier kept.
pub proof fn lemma_consistent_update(
    index: Seq<EntryView>,
    all: Seq<EntryView>,
    j: int,
    p: int,
    e: EntryView,
)
    requires
        consistent(index, all),
        0 <= j < index.len(),
        0 <= p < all.len(),
        index[j] == all[p],
        e.id == all[p].id,
    ensures
        consistent(index.update(j, e), all.update(p, e)),
{
    let ni = index.update(j, e);
    let na = all.update(p, e);
    assert forall|a: int, b: int| 0 <= a < b < ni.len() implies #[trigger] ni[a].id
        != #[trigger] ni[b].id by {
        assert(ni[a].id == index[a].id && ni[b].id == index[b].id);
    }
    assert forall|a: int, b: int| 0 <= a < b < na.len() implies #[trigger] na[a].id
        != #[trigger] na[b].id by {
        assert(na[a].id == all[a].id && na[b].id == all[b].id);
    }
    assert forall|jn: int| 0 <= jn < ni.len() implies #[trigger] na.contains(ni[jn]) by {
        if jn == j {
            assert(na[p] == ni[jn]);
        } else {
            assert(all.contains(index[jn]));
            let i = choose|i: int| 0 <= i < all.len() && #[trigger] all[i] == index[jn];
            assert(index[jn].id != index[j].id);
            assert(i != p);
            assert(na[i] == ni[jn]);
        }
    }
    assert forall|iN: int| 0 <= iN < na.len() implies #[trigger] ni.contains(na[iN]) by {
        if iN == p {
            assert(ni[j] == na[iN]);
        } else {
            assert(index.contains(all[iN]));
            let jj = choose|jj: int| 0 <= jj < index.len() && #[trigger] index[jj] == all[iN];
            assert(all[iN].id != all[p].id);
            assert(jj != j);
            assert(ni[jj] == na[iN]);
        }
    }
}

/// Adding a new order to the queues and its entry to the index.
pub proof fn lemma_consistent_insert(index: Seq<EntryView>, all: Seq<EntryView>, p: int, e: EntryView)
    requires
        consistent(index, all),
        0 <= p <= all.len(),
        !has_id(all, e.id),
    ensures
        consistent(index.push(e), all.insert(p, e)),
{
    let ni = index.push(e);
    let na = all.insert(p, e);
    lemma_consistent_ids(index, all, e.id);
    assert forall|a: int, b: int| 0 <= a < b < ni.len() implies #[trigger] ni[a].id
        != #[trigger] ni[b].id by {
        if b == index.len() {
            assert(ni[a] == index[a]);
        }
    }
    assert forall|a: int, b: int| 0 <= a < b < na.len() implies #[trigger] na[a].id
        != #[trigger] na[b].id by {
        if a == p {
            let bb = b - 1;
            assert(na[b] == all[bb]);
        } else if b == p {
            assert(na[a] == all[a]);
        } else {
            let aa = if a < p { a } else { a - 1 };
            let bb = if b < p { b } else { b - 1 };
            assert(na[a] == all[aa] && na[b] == all[bb]);
        }
    }
    assert forall|jn: int| 0 <= jn < ni.len() implies #[trigger] na.contains(ni[jn]) by {
        if jn == index.len() {
            assert(na[p] == ni[jn]);
        } else {
            assert(all.contains(index[jn]));
            let i = choose|i: int| 0 <= i < all.len() && #[trigger] all[i] == index[jn];
            let ii = if i < p { i } else { i + 1 };
            assert(na[ii] == all[i]);
        }
    }
    assert forall|iN: int| 0 <= iN < na.len() implies #[trigger] ni.contains(na[iN]) by {
        if iN == p {
            assert(ni[index.len() as int] == na[iN]);
        } else {
            let ii = if iN < p { iN } else { iN - 1 };
            assert(na[iN] == all[ii]);
            assert(index.contains(all[ii]));
            let jj = choose|jj: int| 0 <= jj < index.len() && #[trigger] index[jj] == all[ii];
            assert(ni[jj] == na[iN]);
        }
    }
}

/// The position of the entry for `id`, if the index has one.
pub fn find_entry(index: &Vec<IndexEntry>, id: &Vec<u8>) -> (r: Option<usize>)
    ensures
        match r {
            Some(j) => j < index@.len() && index@[j as int].id@ == id@,
            None => !has_id(index_view(index@), id@),
        },
{
    let mut j: usize = 0;
    while j < index.len()
        invariant
            j <= index@.len(),
            forall|k: int| 0 <= k < j ==> index@[k].id@ != id@,
        decreases index.len() - j,
    {
        if same_id(&index[j].id, id) {
            return Some(j);
        }
        j = j + 1;
    }
    assert forall|k: int| 0 <= k < index_view(index@).len() implies #[trigger] index_view(
        index@,
    )[k].id != id@ by {
        assert(index_view(index@)[k] == index@[k]@);
    }
    None
}

} // verus!
