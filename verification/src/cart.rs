use vstd::prelude::*;

use crate::{ItemId, Quantity};

verus! {

/// One line of a shopper's cart: an item id and the desired quantity.
#[derive(Clone, Copy, Debug, PartialEq, Eq, Structural)]
pub struct CartEntry {
    pub item: ItemId,
    pub qty: Quantity,
}

/// The quantity a cart associates with `id`: the first entry that carries
/// `id`, if any. On well-formed carts ids are unique, so "first" is "the".
pub open spec fn spec_lookup(s: Seq<(ItemId, Quantity)>, id: ItemId) -> Option<Quantity>
    decreases s.len(),
{
    if s.len() == 0 {
        None
    } else if s[0].0 == id {
        Some(s[0].1)
    } else {
        spec_lookup(s.drop_first(), id)
    }
}

/// A client-submitted mapping from item id to desired quantity.
/// Keys are unique; the order of entries carries no meaning.
#[derive(Debug)]
pub struct Cart {
    pub entries: Vec<CartEntry>,
}

impl View for Cart {
    type V = Seq<(ItemId, Quantity)>;

    open spec fn view(&self) -> Seq<(ItemId, Quantity)> {
        self.entries@.map(|_i: int, e: CartEntry| (e.item, e.qty))
    }
}

/// Ids are unique across the entries.
pub open spec fn cart_wf(s: Seq<(ItemId, Quantity)>) -> bool {
    forall|i: int, j: int| 0 <= i < j < s.len() ==> s[i].0 != s[j].0
}

/// A well-formed cart maps `id` to `Some(q)` exactly at an entry `(id, q)`.
pub proof fn lemma_lookup_index(s: Seq<(ItemId, Quantity)>, id: ItemId, i: int)
    requires
        cart_wf(s),
        0 <= i < s.len(),
        s[i].0 == id,
    ensures
        spec_lookup(s, id) == Some(s[i].1),
    decreases s.len(),
{
    if i > 0 {
        lemma_lookup_index(s.drop_first(), id, i - 1);
    }
}

/// If no entry carries `id`, the lookup is `None`.
pub proof fn lemma_lookup_absent(s: Seq<(ItemId, Quantity)>, id: ItemId)
    requires
        forall|i: int| 0 <= i < s.len() ==> s[i].0 != id,
    ensures
        spec_lookup(s, id) is None,
    decreases s.len(),
{
    if s.len() > 0 {
        lemma_lookup_absent(s.drop_first(), id);
    }
}

/// A present lookup names an entry of the cart.
pub proof fn lemma_lookup_some_index(s: Seq<(ItemId, Quantity)>, id: ItemId)
    requires
        spec_lookup(s, id) is Some,
    ensures
        exists|i: int|
            0 <= i < s.len() && s[i].0 == id && s[i].1 == spec_lookup(s, id).unwrap(),
    decreases s.len(),
{
    if s.len() > 0 && s[0].0 != id {
        lemma_lookup_some_index(s.drop_first(), id);
        let j = choose|j: int|
            0 <= j < s.drop_first().len() && s.drop_first()[j].0 == id && s.drop_first()[j].1
                == spec_lookup(s.drop_first(), id).unwrap();
        assert(s[j + 1].0 == id && s[j + 1].1 == spec_lookup(s, id).unwrap());
    }
}

/// Replacing the entry at `i` changes the lookup at that entry's id alone.
pub proof fn lemma_lookup_update(
    s: Seq<(ItemId, Quantity)>,
    i: int,
    e: (ItemId, Quantity),
    id: ItemId,
)
    requires
        cart_wf(s),
        0 <= i < s.len(),
        s[i].0 == e.0,
    ensures
        spec_lookup(s.update(i, e), id) == if id == e.0 {
            Some(e.1)
        } else {
            spec_lookup(s, id)
        },
    decreases s.len(),
{
    let t = s.update(i, e);
    if i == 0 {
        assert(t.drop_first() =~= s.drop_first());
        if id != e.0 {
            if spec_lookup(s.drop_first(), id) is Some {
                lemma_lookup_some_index(s.drop_first(), id);
            }
        }
    } else {
        assert(t.drop_first() =~= s.drop_first().update(i - 1, e));
        lemma_lookup_update(s.drop_first(), i - 1, e, id);
    }
}

/// Appending an entry with a fresh id changes the lookup at that id alone.
pub proof fn lemma_lookup_push(s: Seq<(ItemId, Quantity)>, e: (ItemId, Quantity), id: ItemId)
    requires
        forall|i: int| 0 <= i < s.len() ==> s[i].0 != e.0,
    ensures
        spec_lookup(s.push(e), id) == if id == e.0 {
            Some(e.1)
        } else {
            spec_lookup(s, id)
        },
    decreases s.len(),
{
    assert(s.push(e)[0] == if s.len() == 0 {
        e
    } else {
        s[0]
    });
    if s.len() == 0 {
        assert(s.push(e).drop_first() =~= Seq::<(ItemId, Quantity)>::empty());
        assert(spec_lookup(Seq::<(ItemId, Quantity)>::empty(), id) is None);
    } else {
        assert(s.push(e).drop_first() =~= s.drop_first().push(e));
        assert forall|i: int| 0 <= i < s.drop_first().len() implies s.drop_first()[i].0 != e.0 by {
            assert(s.drop_first()[i] == s[i + 1]);
        }
        lemma_lookup_push(s.drop_first(), e, id);
        assert(spec_lookup(s.drop_first().push(e), id) == if id == e.0 {
            Some(e.1)
        } else {
            spec_lookup(s.drop_first(), id)
        });
    }
}

/// Removing the entry at `i` changes the lookup at that entry's id alone.
pub proof fn lemma_lookup_remove(s: Seq<(ItemId, Quantity)>, i: int, id: ItemId)
    requires
        cart_wf(s),
        0 <= i < s.len(),
    ensures
        spec_lookup(s.remove(i), id) == if id == s[i].0 {
            None::<Quantity>
        } else {
            spec_lookup(s, id)
        },
    decreases s.len(),
{
    let t = s.remove(i);
    if i == 0 {
        assert(t =~= s.drop_first());
        if id == s[0].0 {
            lemma_lookup_absent(s.drop_first(), id);
        }
    } else {
        assert(t.drop_first() =~= s.drop_first().remove(i - 1));
        lemma_lookup_remove(s.drop_first(), i - 1, id);
    }
}

/// The quantity a cart associates with `id` when later entries overwrite
/// earlier ones, as collecting pairs into a map does.
pub open spec fn spec_lookup_last(s: Seq<(ItemId, Quantity)>, id: ItemId) -> Option<Quantity>
    decreases s.len(),
{
    if s.len() == 0 {
        None
    } else if s.last().0 == id {
        Some(s.last().1)
    } else {
        spec_lookup_last(s.drop_last(), id)
    }
}

/// How many items a cart asks for in all: the sum of its quantities.
pub open spec fn spec_cart_count(s: Seq<(ItemId, Quantity)>) -> int
    decreases s.len(),
{
    if s.len() == 0 {
        0
    } else {
        spec_cart_count(s.drop_last()) + s.last().1
    }
}

/// A cart's item count is at least nothing and grows at most linearly
/// with its length.
pub proof fn lemma_cart_count_bounds(s: Seq<(ItemId, Quantity)>)
    ensures
        0 <= spec_cart_count(s) <= s.len() * (u32::MAX as int),
    decreases s.len(),
{
    if s.len() > 0 {
        lemma_cart_count_bounds(s.drop_last());
        assert((s.len() - 1) * (u32::MAX as int) + (u32::MAX as int) == s.len() * (
        u32::MAX as int)) by (nonlinear_arith);
    }
}

/// A well-formed cart has no more entries than there are item ids.
pub proof fn lemma_cart_len_bound(s: Seq<(ItemId, Quantity)>)
    requires
        cart_wf(s),
    ensures
        s.len() <= 0x1_0000_0000,
{
    let ids = s.map(|_i: int, e: (ItemId, Quantity)| e.0);
    assert forall|i: int, j: int| 0 <= i < j < ids.len() implies ids[i] != ids[j] by {
        assert(ids[i] == s[i].0 && ids[j] == s[j].0);
    }
    crate::seqtools::lemma_distinct_u32_len(ids);
}

/// An action a shopper takes on their cart.
#[derive(Clone, Copy, Debug)]
pub enum CartAction {
    AddItem(ItemId),
    RemoveItem(ItemId),
    IncItem(ItemId),
    DecItem(ItemId),
}

/// What a cart maps `id` to after `action`, in terms of what it mapped
/// `id` to before.
pub open spec fn spec_cart_after(
    before: Option<Quantity>,
    action: CartAction,
    id: ItemId,
) -> Option<Quantity> {
    match action {
        CartAction::AddItem(t) | CartAction::IncItem(t) => if id == t {
            match before {
                None => Some(1u32),
                Some(q) => Some(if q == u32::MAX {
                    q
                } else {
                    (q + 1) as u32
                }),
            }
        } else {
            before
        },
        CartAction::RemoveItem(t) => if id == t {
            None
        } else {
            before
        },
        CartAction::DecItem(t) => if id == t {
            match before {
                None => Some(1u32),
                Some(q) => Some(if q == 0 {
                    0u32
                } else {
                    (q - 1) as u32
                }),
            }
        } else {
            before
        },
    }
}

impl Clone for Cart {
    fn clone(&self) -> (r: Cart)
        ensures
            r@ == self@,
    {
        let mut entries: Vec<CartEntry> = Vec::new();
        let n = self.entries.len();
        for k in 0..n
            invariant
                n == self.entries@.len(),
                entries@ =~= self.entries@.take(k as int),
        {
            entries.push(self.entries[k]);
        }
        assert(entries@ =~= self.entries@);
        let r = Cart { entries };
        assert(r@ =~= self@);
        r
    }
}

/// Collects id-quantity pairs into a cart, as collecting into a map does:
/// a later pair for the same id overwrites an earlier one.
pub fn to_map(pairs: &Vec<CartEntry>) -> (r: Cart)
    ensures
        r.wf(),
        forall|id: ItemId| #[trigger]
            spec_lookup(r@, id) == spec_lookup_last(
                pairs@.map(|_i: int, e: CartEntry| (e.item, e.qty)),
                id,
            ),
{
    let ghost all = pairs@.map(|_i: int, e: CartEntry| (e.item, e.qty));
    let mut cart = Cart::new();
    let n = pairs.len();
    for i in 0..n
        invariant
            n == pairs@.len(),
            all == pairs@.map(|_i: int, e: CartEntry| (e.item, e.qty)),
            cart.wf(),
            forall|id: ItemId| #[trigger]
                spec_lookup(cart@, id) == spec_lookup_last(all.take(i as int), id),
    {
        let e = pairs[i];
        let prev = cart;
        proof {
            assert(all.take(i + 1).drop_last() =~= all.take(i as int));
            assert(all.take(i + 1).last() == (e.item, e.qty));
        }
        match prev.find_index(e.item) {
            Some(k) => {
                let mut entries = prev.entries;
                entries[k] = e;
                cart = Cart { entries };
                proof {
                    assert(cart@ =~= prev@.update(k as int, (e.item, e.qty)));
                    assert forall|id: ItemId| #[trigger] spec_lookup(cart@, id)
                        == spec_lookup_last(all.take(i + 1), id) by {
                        lemma_lookup_update(prev@, k as int, (e.item, e.qty), id);
                    }
                }
            },
            None => {
                let mut entries = prev.entries;
                entries.push(e);
                cart = Cart { entries };
                proof {
                    assert(cart@ =~= prev@.push((e.item, e.qty)));
                    assert forall|id: ItemId| #[trigger] spec_lookup(cart@, id)
                        == spec_lookup_last(all.take(i + 1), id) by {
                        lemma_lookup_push(prev@, (e.item, e.qty), id);
                    }
                }
            },
        }
    }
    proof {
        assert(all.take(n as int) =~= all);
    }
    cart
}

impl Cart {
    /// Ids are unique across the entries.
    pub open spec fn wf(&self) -> bool {
        cart_wf(self@)
    }

    /// How many items this cart asks for in all.
    pub fn count(&self) -> (r: u64)
        requires
            self.wf(),
        ensures
            r == spec_cart_count(self@),
    {
        proof {
            lemma_cart_len_bound(self@);
        }
        let n = self.entries.len();
        let mut total: u64 = 0;
        for i in 0..n
            invariant
                self.wf(),
                n == self@.len(),
                n <= 0x1_0000_0000,
                total == spec_cart_count(self@.take(i as int)),
        {
            proof {
                lemma_cart_count_bounds(self@.take(i as int));
                assert((i as int) * (u32::MAX as int) + (u32::MAX as int) <= 0x1_0000_0000
                    * (u32::MAX as int)) by (nonlinear_arith)
                    requires
                        0 <= (i as int) && (i as int) < 0x1_0000_0000,
                ;
                assert(self@.take(i + 1).drop_last() =~= self@.take(i as int));
                assert(self@.take(i + 1).last() == self@[i as int]);
            }
            total = total + (self.entries[i].qty as u64);
        }
        proof {
            assert(self@.take(n as int) =~= self@);
        }
        total
    }

    /// An empty cart.
    pub fn new() -> (r: Cart)
        ensures
            r@ =~= Seq::<(ItemId, Quantity)>::empty(),
            r.wf(),
    {
        let entries: Vec<CartEntry> = Vec::new();
        let r = Cart { entries };
        assert(r@ =~= Seq::<(ItemId, Quantity)>::empty());
        r
    }

    /// Index of the entry that carries `id`, if any.
    fn find_index(&self, id: ItemId) -> (r: Option<usize>)
        ensures
            match r {
                Some(i) => i < self@.len() && self@[i as int].0 == id,
                None => forall|i: int| 0 <= i < self@.len() ==> self@[i].0 != id,
            },
    {
        let n = self.entries.len();
        for i in 0..n
            invariant
                n == self@.len(),
                forall|j: int| 0 <= j < i ==> self@[j].0 != id,
        {
            if self.entries[i].item == id {
                return Some(i);
            }
        }
        None
    }

    /// The quantity this cart asks for `id`, if the id is in the cart.
    pub fn lookup(&self, id: ItemId) -> (r: Option<Quantity>)
        requires
            self.wf(),
        ensures
            r == spec_lookup(self@, id),
    {
        match self.find_index(id) {
            Some(i) => {
                proof {
                    lemma_lookup_index(self@, id, i as int);
                }
                Some(self.entries[i].qty)
            },
            None => {
                proof {
                    lemma_lookup_absent(self@, id);
                }
                None
            },
        }
    }

    /// The new cart a shopper's `action` produces. Adding an item already
    /// in the cart raises its quantity by one (staying at `u32::MAX` once
    /// reached, rather than failing); removing deletes the line; lowering
    /// a line stops at zero, and lowering or raising an absent line starts
    /// it at one.
    pub fn update_cart(&self, action: CartAction) -> (r: Cart)
        requires
            self.wf(),
        ensures
            r.wf(),
            forall|id: ItemId| #[trigger]
                spec_lookup(r@, id) == spec_cart_after(spec_lookup(self@, id), action, id),
    {
        let target = match action {
            CartAction::AddItem(t) => t,
            CartAction::IncItem(t) => t,
            CartAction::RemoveItem(t) => t,
            CartAction::DecItem(t) => t,
        };
        let mut entries: Vec<CartEntry> = Vec::new();
        let n = self.entries.len();
        for k in 0..n
            invariant
                n == self.entries@.len(),
                entries@ =~= self.entries@.take(k as int),
        {
            entries.push(self.entries[k]);
        }
        assert(entries@ =~= self.entries@);
        assert(Cart { entries }@ =~= self@);
        let idx = self.find_index(target);
        match action {
            CartAction::AddItem(_) | CartAction::IncItem(_) => {
                match idx {
                    Some(i) => {
                        let q = entries[i].qty;
                        let newq = if q == u32::MAX {
                            q
                        } else {
                            q + 1
                        };
                        entries[i] = CartEntry { item: target, qty: newq };
                        let r = Cart { entries };
                        proof {
                            assert(r@ =~= self@.update(i as int, (target, newq)));
                            assert forall|id: ItemId| #[trigger] spec_lookup(r@, id)
                                == spec_cart_after(spec_lookup(self@, id), action, id) by {
                                lemma_lookup_update(self@, i as int, (target, newq), id);
                                lemma_lookup_index(self@, target, i as int);
                            }
                        }
                        r
                    },
                    None => {
                        entries.push(CartEntry { item: target, qty: 1 });
                        let r = Cart { entries };
                        proof {
                            assert(r@ =~= self@.push((target, 1u32)));
                            assert forall|id: ItemId| #[trigger] spec_lookup(r@, id)
                                == spec_cart_after(spec_lookup(self@, id), action, id) by {
                                lemma_lookup_push(self@, (target, 1u32), id);
                                lemma_lookup_absent(self@, target);
                            }
                        }
                        r
                    },
                }
            },
            CartAction::RemoveItem(_) => {
                match idx {
                    Some(i) => {
                        entries.remove(i);
                        let r = Cart { entries };
                        proof {
                            assert(r@ =~= self@.remove(i as int));
                            assert forall|id: ItemId| #[trigger] spec_lookup(r@, id)
                                == spec_cart_after(spec_lookup(self@, id), action, id) by {
                                lemma_lookup_remove(self@, i as int, id);
                                lemma_lookup_index(self@, target, i as int);
                            }
                        }
                        r
                    },
                    None => {
                        let r = Cart { entries };
                        proof {
                            assert(r@ =~= self@);
                            assert forall|id: ItemId| #[trigger] spec_lookup(r@, id)
                                == spec_cart_after(spec_lookup(self@, id), action, id) by {
                                if id == target {
                                    lemma_lookup_absent(self@, target);
                                }
                            }
                        }
                        r
                    },
                }
            },
            CartAction::DecItem(_) => {
                match idx {
                    Some(i) => {
                        let q = entries[i].qty;
                        let newq = if q == 0 {
                            0
                        } else {
                            q - 1
                        };
                        entries[i] = CartEntry { item: target, qty: newq };
                        let r = Cart { entries };
                        proof {
                            assert(r@ =~= self@.update(i as int, (target, newq)));
                            assert forall|id: ItemId| #[trigger] spec_lookup(r@, id)
                                == spec_cart_after(spec_lookup(self@, id), action, id) by {
                                lemma_lookup_update(self@, i as int, (target, newq), id);
                                lemma_lookup_index(self@, target, i as int);
                            }
                        }
                        r
                    },
                    None => {
                        entries.push(CartEntry { item: target, qty: 1 });
                        let r = Cart { entries };
                        proof {
                            assert(r@ =~= self@.push((target, 1u32)));
                            assert forall|id: ItemId| #[trigger] spec_lookup(r@, id)
                                == spec_cart_after(spec_lookup(self@, id), action, id) by {
                                lemma_lookup_push(self@, (target, 1u32), id);
                                lemma_lookup_absent(self@, target);
                            }
                        }
                        r
                    },
                }
            },
        }
    }
}

} // verus!
