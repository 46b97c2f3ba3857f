use vstd::prelude::*;

use crate::cart::{spec_lookup, Cart};
use crate::seqtools::{lemma_filter_member_index, lemma_filter_step};
use crate::item::{Item, Kind};
use crate::{ItemId, Quantity};

verus! {

/// The stock row carrying `id`: the first row with that id, if any. On a
/// well-formed store ids are unique, so "first" is "the".
pub open spec fn spec_find_item(s: Seq<Item>, id: ItemId) -> Option<Item>
    decreases s.len(),
{
    if s.len() == 0 {
        None
    } else if s[0].id == id {
        Some(s[0])
    } else {
        spec_find_item(s.drop_first(), id)
    }
}

/// A well-formed store finds at a row exactly that row.
pub proof fn lemma_find_item_index(s: Seq<Item>, id: ItemId, i: int)
    requires
        stock_wf_ids(s),
        0 <= i < s.len(),
        s[i].id == id,
    ensures
        spec_find_item(s, id) == Some(s[i]),
    decreases s.len(),
{
    if i > 0 {
        lemma_find_item_index(s.drop_first(), id, i - 1);
    }
}

/// If no row carries `id`, nothing is found.
pub proof fn lemma_find_item_absent(s: Seq<Item>, id: ItemId)
    requires
        forall|i: int| 0 <= i < s.len() ==> s[i].id != id,
    ensures
        spec_find_item(s, id) is None,
    decreases s.len(),
{
    if s.len() > 0 {
        lemma_find_item_absent(s.drop_first(), id);
    }
}

/// Ids are unique across the rows.
pub open spec fn stock_wf_ids(s: Seq<Item>) -> bool {
    forall|i: int, j: int| 0 <= i < j < s.len() ==> s[i].id != s[j].id
}

/// What a clamped decrement leaves of a quantity: the stock never goes
/// below zero, even when more was sold than was in stock.
pub open spec fn spec_dec_qty(have: u32, take: Option<Quantity>) -> u32 {
    match take {
        None => have,
        Some(q) => if have >= q {
            (have - q) as u32
        } else {
            0u32
        },
    }
}

/// Filtering rows keeps ids unique and below the id bound.
proof fn lemma_filter_keeps_wf(s: Seq<Item>, pred: spec_fn(Item) -> bool, bound: u32)
    requires
        stock_wf_ids(s),
        forall|i: int| 0 <= i < s.len() ==> s[i].id < bound,
    ensures
        stock_wf_ids(s.filter(pred)),
        forall|i: int| 0 <= i < s.filter(pred).len() ==> s.filter(pred)[i].id < bound,
    decreases s.len(),
{
    reveal(Seq::filter);
    if s.len() > 0 {
        let prefix = s.drop_last();
        assert(forall|i: int| 0 <= i < prefix.len() ==> prefix[i] == s[i]);
        lemma_filter_keeps_wf(prefix, pred, bound);
        let f = s.filter(pred);
        let fp = prefix.filter(pred);
        if pred(s.last()) {
            assert(f == fp.push(s.last()));
            assert forall|i: int, j: int| 0 <= i < j < f.len() implies f[i].id != f[j].id by {
                if j < f.len() - 1 {
                    assert(f[i] == fp[i] && f[j] == fp[j]);
                } else {
                    assert(f[i] == fp[i] && f[j] == s.last());
                    lemma_filter_member_index(prefix, pred, i);
                    let k = choose|k: int| 0 <= k < prefix.len() && prefix[k] == fp[i];
                    assert(s[k].id != s[s.len() - 1].id);
                }
            }
            assert forall|i: int| 0 <= i < f.len() implies f[i].id < bound by {
                if i < f.len() - 1 {
                    assert(f[i] == fp[i]);
                }
            }
        } else {
            assert(f == fp);
        }
    }
}

/// Is `after` exactly `before` with each row's stock decremented by the
/// quantity `cart` asks of it, clamped at zero? Rows keep their id,
/// title, kind and description; rows the cart does not name keep their
/// quantity.
pub open spec fn spec_stock_decremented(
    before: Seq<Item>,
    after: Seq<Item>,
    cart: Seq<(ItemId, Quantity)>,
) -> bool {
    &&& after.len() == before.len()
    &&& forall|j: int|
        #![trigger after[j]]
        0 <= j < before.len() ==> {
            &&& after[j].id == before[j].id
            &&& after[j].title == before[j].title
            &&& after[j].kind == before[j].kind
            &&& after[j].description == before[j].description
            &&& after[j].quantity == spec_dec_qty(before[j].quantity, spec_lookup(cart, before[j].id))
        }
}

/// The authoritative inventory table: one row per product, keyed by a
/// store-assigned id.
#[derive(Debug)]
pub struct StockStore {
    pub items: Vec<Item>,
    /// The id the next inserted row receives; grows by one per insert.
    pub next_id: u32,
}

impl StockStore {
    /// Every row's id is unique and below `next_id`.
    pub open spec fn wf(&self) -> bool {
        &&& stock_wf_ids(self.items@)
        &&& forall|i: int| 0 <= i < self.items@.len() ==> self.items@[i].id < self.next_id
    }

    /// An empty store; the first insert receives id 1, as a database
    /// table's row ids would.
    pub fn new() -> (r: StockStore)
        ensures
            r.items@ =~= Seq::<Item>::empty(),
            r.next_id == 1,
            r.wf(),
    {
        StockStore { items: Vec::new(), next_id: 1 }
    }

    /// Index of the row that carries `id`, if any.
    fn find_index(&self, id: ItemId) -> (r: Option<usize>)
        ensures
            match r {
                Some(i) => i < self.items@.len() && self.items@[i as int].id == id,
                None => forall|i: int| 0 <= i < self.items@.len() ==> self.items@[i].id != id,
            },
    {
        let n = self.items.len();
        for i in 0..n
            invariant
                n == self.items@.len(),
                forall|j: int| 0 <= j < i ==> self.items@[j].id != id,
        {
            if self.items[i].id == id {
                return Some(i);
            }
        }
        None
    }

    /// The stock row for `id`, if the store has one.
    pub fn get(&self, id: ItemId) -> (r: Option<&Item>)
        requires
            self.wf(),
        ensures
            match r {
                Some(it) => spec_find_item(self.items@, id) == Some(*it),
                None => spec_find_item(self.items@, id) is None,
            },
    {
        match self.find_index(id) {
            Some(i) => {
                proof {
                    lemma_find_item_index(self.items@, id, i as int);
                }
                Some(&self.items[i])
            },
            None => {
                proof {
                    lemma_find_item_absent(self.items@, id);
                }
                None
            },
        }
    }

    /// All rows, in store order.
    pub fn list_all(&self) -> (r: &Vec<Item>)
        ensures
            r@ == self.items@,
    {
        &self.items
    }

    /// The rows whose ids appear in `ids`, in store order; an id with no
    /// row contributes nothing, and the caller must detect the gap.
    pub fn get_matching_ids(&self, ids: &Vec<ItemId>) -> (r: Vec<Item>)
        ensures
            r@ == self.items@.filter(|it: Item| ids@.contains(it.id)),
    {
        let mut r: Vec<Item> = Vec::new();
        let n = self.items.len();
        proof {
            assert(self.items@.take(0).filter(|it: Item| ids@.contains(it.id)) =~= Seq::<
                Item,
            >::empty());
        }
        for i in 0..n
            invariant
                n == self.items@.len(),
                r@ == self.items@.take(i as int).filter(|it: Item| ids@.contains(it.id)),
        {
            let mut found = false;
            let m = ids.len();
            for k in 0..m
                invariant
                    m == ids@.len(),
                    i < self.items@.len(),
                    found == exists|j: int| 0 <= j < k && ids@[j] == self.items@[i as int].id,
            {
                if ids[k] == self.items[i].id {
                    found = true;
                }
            }
            proof {
                let pred = |it: Item| ids@.contains(it.id);
                assert(found == pred(self.items@[i as int]));
                lemma_filter_step(self.items@, pred, i as int);
            }
            if found {
                r.push(self.items[i].clone());
            }
        }
        proof {
            assert(self.items@.take(n as int) =~= self.items@);
        }
        r
    }

    /// The id-to-title pairs for the rows whose id the cart names, in
    /// store order; cart ids with no row contribute nothing.
    pub fn get_title_map(&self, cart: &Cart) -> (r: Vec<(ItemId, String)>)
        requires
            cart.wf(),
        ensures
            r@ == self.items@.filter(|it: Item| spec_lookup(cart@, it.id) is Some).map(
                |_j: int, it: Item| (it.id, it.title),
            ),
    {
        let mut r: Vec<(ItemId, String)> = Vec::new();
        let n = self.items.len();
        proof {
            let pred = |it: Item| spec_lookup(cart@, it.id) is Some;
            let f = |_j: int, it: Item| (it.id, it.title);
            assert(self.items@.take(0).filter(pred) =~= Seq::<Item>::empty());
            assert(self.items@.take(0).filter(pred).map(f) =~= Seq::<(ItemId, String)>::empty());
        }
        for i in 0..n
            invariant
                n == self.items@.len(),
                cart.wf(),
                r@ == self.items@.take(i as int).filter(
                    |it: Item| spec_lookup(cart@, it.id) is Some,
                ).map(|_j: int, it: Item| (it.id, it.title)),
        {
            let hit = cart.lookup(self.items[i].id);
            proof {
                let pred = |it: Item| spec_lookup(cart@, it.id) is Some;
                let f = |_j: int, it: Item| (it.id, it.title);
                lemma_filter_step(self.items@, pred, i as int);
                if hit is Some {
                    let fprev = self.items@.take(i as int).filter(pred);
                    assert(self.items@.take(i + 1).filter(pred).map(f) =~= fprev.map(f).push(
                        (self.items@[i as int].id, self.items@[i as int].title),
                    ));
                } else {
                    assert(self.items@.take(i + 1).filter(pred).map(f) == self.items@.take(
                        i as int,
                    ).filter(pred).map(f));
                }
            }
            if hit.is_some() {
                r.push((self.items[i].id, self.items[i].title.clone()));
            }
        }
        proof {
            assert(self.items@.take(n as int) =~= self.items@);
        }
        r
    }

    /// Appends a new row with the given fields under a fresh id and
    /// returns that id; `None` only when the id space is exhausted, in
    /// which case the store is unchanged.
    pub fn put_item(&mut self, title: String, kind: Kind, description: String, quantity: u32) -> (r:
        Option<ItemId>)
        requires
            old(self).wf(),
        ensures
            final(self).wf(),
            match r {
                Some(id) => {
                    &&& id == old(self).next_id
                    &&& final(self).items@ =~= old(self).items@.push(
                        Item { id, title, kind, description, quantity },
                    )
                    &&& final(self).next_id == old(self).next_id + 1
                },
                None => {
                    &&& old(self).next_id == u32::MAX
                    &&& *final(self) == *old(self)
                },
            },
    {
        if self.next_id == u32::MAX {
            return None;
        }
        let id = self.next_id;
        self.items.push(Item { id, title, kind, description, quantity });
        self.next_id = id + 1;
        Some(id)
    }

    /// Overwrites the fields of the row carrying `id`, keeping its id, and
    /// reports whether a row was updated; with no such row the store is
    /// unchanged and the caller sees `false` (the "0 rows updated" signal).
    pub fn update_item(
        &mut self,
        id: ItemId,
        title: String,
        kind: Kind,
        description: String,
        quantity: u32,
    ) -> (updated: bool)
        requires
            old(self).wf(),
        ensures
            final(self).wf(),
            final(self).next_id == old(self).next_id,
            updated == (spec_find_item(old(self).items@, id) is Some),
            if updated {
                final(self).items@ =~= old(self).items@.map(
                    |_j: int, it: Item|
                        if it.id == id {
                            Item { id, title, kind, description, quantity }
                        } else {
                            it
                        },
                )
            } else {
                *final(self) == *old(self)
            },
    {
        let ghost title_g = title;
        let ghost desc_g = description;
        match self.find_index(id) {
            Some(i) => {
                proof {
                    lemma_find_item_index(self.items@, id, i as int);
                }
                self.items[i] = Item { id, title, kind, description, quantity };
                proof {
                    let mapped = old(self).items@.map(
                        |_j: int, it: Item|
                            if it.id == id {
                                Item { id, title: title_g, kind, description: desc_g, quantity }
                            } else {
                                it
                            },
                    );
                    assert forall|j: int| 0 <= j < self.items@.len() implies self.items@[j]
                        == mapped[j] by {
                        if j != i {
                            assert(old(self).items@[j].id != id);
                        }
                    }
                    assert(self.items@ =~= mapped);
                }
                true
            },
            None => {
                proof {
                    lemma_find_item_absent(self.items@, id);
                }
                false
            },
        }
    }

    /// Deletes every row whose id appears in `ids`; the kept rows keep
    /// their relative order. Returns how many rows were deleted.
    pub fn delete_items(&mut self, ids: &Vec<ItemId>) -> (deleted: usize)
        requires
            old(self).wf(),
        ensures
            final(self).wf(),
            final(self).next_id == old(self).next_id,
            final(self).items@ == old(self).items@.filter(|it: Item| !ids@.contains(it.id)),
            deleted == old(self).items@.len() - final(self).items@.len(),
    {
        let mut kept: Vec<Item> = Vec::new();
        let n = self.items.len();
        proof {
            assert(self.items@.take(0).filter(|it: Item| !ids@.contains(it.id)) =~= Seq::<
                Item,
            >::empty());
        }
        for i in 0..n
            invariant
                n == self.items@.len(),
                kept@ == self.items@.take(i as int).filter(|it: Item| !ids@.contains(it.id)),
        {
            let mut found = false;
            let m = ids.len();
            for k in 0..m
                invariant
                    m == ids@.len(),
                    i < self.items@.len(),
                    found == exists|j: int| 0 <= j < k && ids@[j] == self.items@[i as int].id,
            {
                if ids[k] == self.items[i].id {
                    found = true;
                }
            }
            proof {
                let pred = |it: Item| !ids@.contains(it.id);
                assert(!found == pred(self.items@[i as int]));
                lemma_filter_step(self.items@, pred, i as int);
            }
            if !found {
                kept.push(self.items[i].clone());
            }
        }
        proof {
            let pred = |it: Item| !ids@.contains(it.id);
            assert(self.items@.take(n as int) =~= self.items@);
            self.items@.lemma_filter_len(pred);
            lemma_filter_keeps_wf(self.items@, pred, self.next_id);
        }
        let deleted = self.items.len() - kept.len();
        self.items = kept;
        deleted
    }

    /// Decrements each row's stock by the quantity `cart` asks of it,
    /// clamped at zero: selling more than is in stock leaves zero, never a
    /// negative count. Rows the cart does not name are untouched; cart ids
    /// with no row change nothing.
    pub fn dec_items(&mut self, cart: &Cart)
        requires
            old(self).wf(),
            cart.wf(),
        ensures
            final(self).wf(),
            final(self).next_id == old(self).next_id,
            spec_stock_decremented(old(self).items@, final(self).items@, cart@),
    {
        let n = self.items.len();
        for i in 0..n
            invariant
                n == self.items@.len(),
                cart.wf(),
                self.next_id == old(self).next_id,
                self.items@.len() == old(self).items@.len(),
                forall|j: int| i <= j < n ==> self.items@[j] == old(self).items@[j],
                forall|j: int|
                    #![trigger self.items@[j]]
                    0 <= j < i ==> {
                        let before = old(self).items@[j];
                        let after = self.items@[j];
                        &&& after.id == before.id
                        &&& after.title == before.title
                        &&& after.kind == before.kind
                        &&& after.description == before.description
                        &&& after.quantity == spec_dec_qty(
                            before.quantity,
                            spec_lookup(cart@, before.id),
                        )
                    },
        {
            let have = self.items[i].quantity;
            let newq = match cart.lookup(self.items[i].id) {
                None => have,
                Some(q) => if have >= q {
                    have - q
                } else {
                    0
                },
            };
            self.items[i].quantity = newq;
        }
        proof {
            assert forall|i: int, j: int|
                0 <= i < j < self.items@.len() implies self.items@[i].id != self.items@[j].id by {
                assert(self.items@[i].id == old(self).items@[i].id);
                assert(self.items@[j].id == old(self).items@[j].id);
            }
        }
    }
}


/// Stock never goes negative: whatever a cart asked for, a decremented
/// store leaves every row's quantity at least zero — exactly the old
/// quantity less the cart's, or zero where the cart asked for more.
pub proof fn lemma_stock_never_negative(
    before: Seq<Item>,
    after: Seq<Item>,
    cart: Seq<(ItemId, Quantity)>,
)
    requires
        spec_stock_decremented(before, after, cart),
    ensures
        forall|j: int|
            #![trigger after[j]]
            0 <= j < after.len() ==> {
                &&& after[j].quantity >= 0
                &&& after[j].quantity as int == (match spec_lookup(cart, before[j].id) {
                    None => before[j].quantity as int,
                    Some(q) => if before[j].quantity >= q {
                        before[j].quantity - q
                    } else {
                        0
                    },
                })
            },
{
}

} // verus!
