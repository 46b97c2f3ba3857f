use vstd::prelude::*;

use crate::address::Address;
use crate::cart::{cart_wf, Cart};
use crate::seqtools::lemma_filter_step;
use crate::{ItemId, Quantity};

verus! {

/// A persisted order: the customer, the charged total in minor units, the
/// purchased lines, the shipping address, and the shipping state. An
/// order, its lines and its address are created together and live
/// together.
#[derive(Debug)]
pub struct Order {
    pub id: u32,
    pub name: String,
    pub email: String,
    /// What the customer paid, in minor units.
    pub total: u64,
    /// The purchased lines: item id to quantity.
    pub cart: Cart,
    pub address: Address,
    pub shipped: bool,
    pub tracking_number: Option<String>,
}

/// The mathematical shape of an order: every field as a plain value, the
/// lines as a sequence of pairs.
pub ghost struct OrderModel {
    pub id: u32,
    pub name: Seq<char>,
    pub email: Seq<char>,
    pub total: u64,
    pub cart: Seq<(ItemId, Quantity)>,
    pub address: Address,
    pub shipped: bool,
    pub tracking_number: Option<Seq<char>>,
}

impl View for Order {
    type V = OrderModel;

    open spec fn view(&self) -> OrderModel {
        OrderModel {
            id: self.id,
            name: self.name@,
            email: self.email@,
            total: self.total,
            cart: self.cart@,
            address: self.address,
            shipped: self.shipped,
            tracking_number: match self.tracking_number {
                None => None,
                Some(t) => Some(t@),
            },
        }
    }
}

impl Clone for Order {
    fn clone(&self) -> (r: Order)
        ensures
            r@ == self@,
    {
        Order {
            id: self.id,
            name: self.name.clone(),
            email: self.email.clone(),
            total: self.total,
            cart: self.cart.clone(),
            address: self.address.clone(),
            shipped: self.shipped,
            tracking_number: match &self.tracking_number {
                None => None,
                Some(t) => Some(t.clone()),
            },
        }
    }
}

/// The admin's view filter over persisted orders.
#[derive(Clone, Copy, Debug, PartialEq, Eq, Structural)]
pub enum OrderFilter {
    All,
    Shipped,
    Unshipped,
}

/// Does an order fall under the filter?
pub open spec fn spec_filter_match(filter: OrderFilter, o: OrderModel) -> bool {
    match filter {
        OrderFilter::All => true,
        OrderFilter::Shipped => o.shipped,
        OrderFilter::Unshipped => !o.shipped,
    }
}

/// Why a shipping update was refused.
#[derive(Clone, Copy, Debug, PartialEq, Eq, Structural)]
pub enum OrderError {
    /// No order carries the given id.
    NotFound,
    /// The order has already been shipped; shipping it again is refused
    /// and changes nothing, its tracking number included.
    AlreadyShipped,
}

/// The order carrying `id`: the first such order, if any. On a
/// well-formed store ids are unique, so "first" is "the".
pub open spec fn spec_find_order(s: Seq<OrderModel>, id: u32) -> Option<OrderModel>
    decreases s.len(),
{
    if s.len() == 0 {
        None
    } else if s[0].id == id {
        Some(s[0])
    } else {
        spec_find_order(s.drop_first(), id)
    }
}

/// A well-formed store finds at an order exactly that order.
pub proof fn lemma_find_order_index(s: Seq<OrderModel>, id: u32, i: int)
    requires
        orders_wf_ids(s),
        0 <= i < s.len(),
        s[i].id == id,
    ensures
        spec_find_order(s, id) == Some(s[i]),
    decreases s.len(),
{
    if i > 0 {
        lemma_find_order_index(s.drop_first(), id, i - 1);
    }
}

/// If no order carries `id`, nothing is found.
pub proof fn lemma_find_order_absent(s: Seq<OrderModel>, id: u32)
    requires
        forall|i: int| 0 <= i < s.len() ==> s[i].id != id,
    ensures
        spec_find_order(s, id) is None,
    decreases s.len(),
{
    if s.len() > 0 {
        lemma_find_order_absent(s.drop_first(), id);
    }
}

/// Ids are unique across the orders.
pub open spec fn orders_wf_ids(s: Seq<OrderModel>) -> bool {
    forall|i: int, j: int| 0 <= i < j < s.len() ==> s[i].id != s[j].id
}

/// The persisted orders, keyed by a store-assigned id.
#[derive(Debug)]
pub struct OrderStore {
    pub orders: Vec<Order>,
    /// The id the next inserted order receives; grows by one per insert.
    pub next_id: u32,
}

impl OrderStore {
    /// The mathematical shape of the store: each order as a model, in
    /// store order.
    pub open spec fn models(&self) -> Seq<OrderModel> {
        self.orders@.map(|_i: int, o: Order| o@)
    }

    /// Ids are unique and below `next_id`; each order's lines form a
    /// well-formed cart, and each order owns its address.
    pub open spec fn wf(&self) -> bool {
        &&& orders_wf_ids(self.models())
        &&& forall|i: int| 0 <= i < self.models().len() ==> (#[trigger] self.models()[i]).id
            < self.next_id
        &&& forall|i: int| 0 <= i < self.models().len() ==> cart_wf(
            (#[trigger] self.models()[i]).cart,
        )
        &&& forall|i: int| 0 <= i < self.models().len() ==> (#[trigger] self.models()[i]).address.order
            == self.models()[i].id
    }

    /// An empty store; the first insert receives id 1, as a database
    /// table's row ids would.
    pub fn new() -> (r: OrderStore)
        ensures
            r.models() =~= Seq::<OrderModel>::empty(),
            r.next_id == 1,
            r.wf(),
    {
        let r = OrderStore { orders: Vec::new(), next_id: 1 };
        proof {
            assert(r.models() =~= Seq::<OrderModel>::empty());
        }
        r
    }

    /// Index of the order that carries `id`, if any.
    fn find_index(&self, id: u32) -> (r: Option<usize>)
        ensures
            match r {
                Some(i) => i < self.models().len() && self.models()[i as int].id == id,
                None => forall|i: int| 0 <= i < self.models().len() ==> self.models()[i].id != id,
            },
    {
        let n = self.orders.len();
        for i in 0..n
            invariant
                n == self.orders@.len(),
                forall|j: int| 0 <= j < i ==> self.models()[j].id != id,
        {
            if self.orders[i].id == id {
                return Some(i);
            }
        }
        None
    }

    /// Persists a new order together with its lines and its address, as
    /// one unit, under a fresh id: unshipped, with no tracking number, and
    /// with the address keyed to the new order. Returns the id; `None`
    /// only when the id space is exhausted, in which case the store is
    /// unchanged.
    pub fn insert_order(
        &mut self,
        name: String,
        email: String,
        total: u64,
        cart: Cart,
        address: Address,
    ) -> (r: Option<u32>)
        requires
            old(self).wf(),
            cart.wf(),
        ensures
            final(self).wf(),
            match r {
                Some(id) => {
                    &&& id == old(self).next_id
                    &&& final(self).next_id == old(self).next_id + 1
                    &&& final(self).models() =~= old(self).models().push(
                        OrderModel {
                            id,
                            name: name@,
                            email: email@,
                            total,
                            cart: cart@,
                            address: Address { order: id, ..address },
                            shipped: false,
                            tracking_number: None,
                        },
                    )
                },
                None => {
                    &&& old(self).next_id == u32::MAX
                    &&& final(self).models() == old(self).models()
                    &&& final(self).next_id == old(self).next_id
                },
            },
    {
        if self.next_id == u32::MAX {
            return None;
        }
        let id = self.next_id;
        let address = Address { order: id, ..address };
        let order = Order {
            id,
            name,
            email,
            total,
            cart,
            address,
            shipped: false,
            tracking_number: None,
        };
        self.orders.push(order);
        self.next_id = id + 1;
        proof {
            assert(self.models() =~= old(self).models().push(
                self.orders@[self.orders@.len() - 1]@,
            ));
        }
        Some(id)
    }

    /// The orders that fall under `filter`, in store order.
    pub fn get_orders(&self, filter: OrderFilter) -> (r: Vec<Order>)
        ensures
            r@.map(|_i: int, o: Order| o@) == self.models().filter(
                |o: OrderModel| spec_filter_match(filter, o),
            ),
    {
        let mut r: Vec<Order> = Vec::new();
        let n = self.orders.len();
        proof {
            let pred = |o: OrderModel| spec_filter_match(filter, o);
            assert(self.models().take(0).filter(pred) =~= Seq::<OrderModel>::empty());
            assert(r@.map(|_i: int, o: Order| o@) =~= Seq::<OrderModel>::empty());
        }
        for i in 0..n
            invariant
                n == self.orders@.len(),
                r@.map(|_i: int, o: Order| o@) == self.models().take(i as int).filter(
                    |o: OrderModel| spec_filter_match(filter, o),
                ),
        {
            let keep = match filter {
                OrderFilter::All => true,
                OrderFilter::Shipped => self.orders[i].shipped,
                OrderFilter::Unshipped => !self.orders[i].shipped,
            };
            proof {
                let pred = |o: OrderModel| spec_filter_match(filter, o);
                lemma_filter_step(self.models(), pred, i as int);
                assert(keep == pred(self.models()[i as int]));
            }
            if keep {
                let ghost before = r@.map(|_i: int, o: Order| o@);
                r.push(self.orders[i].clone());
                proof {
                    assert(r@.map(|_i: int, o: Order| o@) =~= before.push(
                        self.models()[i as int],
                    ));
                }
            }
        }
        proof {
            assert(self.models().take(n as int) =~= self.models());
        }
        r
    }

    /// Deletes the order carrying `id`, its lines and its address with
    /// it; reports whether an order was deleted.
    pub fn delete_order(&mut self, id: u32) -> (deleted: bool)
        requires
            old(self).wf(),
        ensures
            final(self).wf(),
            final(self).next_id == old(self).next_id,
            final(self).models() == old(self).models().filter(|o: OrderModel| o.id != id),
            deleted == (spec_find_order(old(self).models(), id) is Some),
    {
        let ghost pred = |o: OrderModel| o.id != id;
        let mut kept: Vec<Order> = Vec::new();
        let mut deleted = false;
        let n = self.orders.len();
        proof {
            assert(self.models().take(0).filter(pred) =~= Seq::<OrderModel>::empty());
            assert(kept@.map(|_i: int, o: Order| o@) =~= Seq::<OrderModel>::empty());
        }
        for i in 0..n
            invariant
                n == self.orders@.len(),
                old(self) == self,
                kept@.map(|_i: int, o: Order| o@) == self.models().take(i as int).filter(
                    |o: OrderModel| o.id != id,
                ),
                deleted == exists|j: int| 0 <= j < i && self.models()[j].id == id,
        {
            proof {
                let pred = |o: OrderModel| o.id != id;
                lemma_filter_step(self.models(), pred, i as int);
            }
            if self.orders[i].id == id {
                deleted = true;
            } else {
                let ghost before = kept@.map(|_i: int, o: Order| o@);
                kept.push(self.orders[i].clone());
                proof {
                    assert(kept@.map(|_i: int, o: Order| o@) =~= before.push(
                        self.models()[i as int],
                    ));
                }
            }
        }
        proof {
            assert(self.models().take(n as int) =~= self.models());
            if deleted {
                let j = choose|j: int| 0 <= j < n && self.models()[j].id == id;
                lemma_find_order_index(self.models(), id, j);
            } else {
                lemma_find_order_absent(self.models(), id);
            }
        }
        self.orders = kept;
        proof {
            lemma_orders_filter_keeps_wf(old(self).models(), pred, old(self).next_id);
        }
        deleted
    }

    /// Marks the order carrying `id` as shipped under `tracking`. Refused
    /// when no order carries `id` or when the order has already shipped;
    /// a refusal changes nothing, the order's tracking number included.
    pub fn mark_shipped(&mut self, id: u32, tracking: String) -> (r: Result<(), OrderError>)
        requires
            old(self).wf(),
        ensures
            final(self).wf(),
            final(self).next_id == old(self).next_id,
            match r {
                Ok(()) => {
                    &&& spec_find_order(old(self).models(), id) matches Some(o) && !o.shipped
                    &&& final(self).models() =~= old(self).models().map(
                        |_j: int, o: OrderModel|
                            if o.id == id {
                                OrderModel {
                                    shipped: true,
                                    tracking_number: Some(tracking@),
                                    ..o
                                }
                            } else {
                                o
                            },
                    )
                },
                Err(OrderError::NotFound) => {
                    &&& spec_find_order(old(self).models(), id) is None
                    &&& final(self).models() == old(self).models()
                },
                Err(OrderError::AlreadyShipped) => {
                    &&& spec_find_order(old(self).models(), id) matches Some(o) && o.shipped
                    &&& final(self).models() == old(self).models()
                },
            },
    {
        match self.find_index(id) {
            None => {
                proof {
                    lemma_find_order_absent(self.models(), id);
                }
                Err(OrderError::NotFound)
            },
            Some(i) => {
                proof {
                    lemma_find_order_index(self.models(), id, i as int);
                }
                if self.orders[i].shipped {
                    Err(OrderError::AlreadyShipped)
                } else {
                    let mut updated = self.orders[i].clone();
                    updated.shipped = true;
                    updated.tracking_number = Some(tracking);
                    let ghost tracking_g = tracking;
                    self.orders[i] = updated;
                    proof {
                        let mapped = old(self).models().map(
                            |_j: int, o: OrderModel|
                                if o.id == id {
                                    OrderModel {
                                        shipped: true,
                                        tracking_number: Some(tracking_g@),
                                        ..o
                                    }
                                } else {
                                    o
                                },
                        );
                        assert forall|j: int| 0 <= j < self.models().len() implies self.models()[j]
                            == mapped[j] by {
                            if j != i {
                                assert(self.orders@[j] == old(self).orders@[j]);
                                assert(old(self).models()[j].id != id);
                            }
                        }
                        assert(self.models() =~= mapped);
                    }
                    Ok(())
                }
            },
        }
    }

    /// Marks every order whose id appears in `ids` as shipped, keeping
    /// each order's tracking number; other orders are untouched.
    pub fn orders_fulfilled(&mut self, ids: &Vec<u32>)
        requires
            old(self).wf(),
        ensures
            final(self).wf(),
            final(self).next_id == old(self).next_id,
            final(self).models() =~= old(self).models().map(
                |_j: int, o: OrderModel|
                    if ids@.contains(o.id) {
                        OrderModel { shipped: true, ..o }
                    } else {
                        o
                    },
            ),
    {
        let n = self.orders.len();
        for i in 0..n
            invariant
                n == self.orders@.len(),
                self.next_id == old(self).next_id,
                self.models().len() == old(self).models().len(),
                forall|j: int|
                    #![trigger self.models()[j]]
                    i <= j < n ==> self.models()[j] == old(self).models()[j],
                forall|j: int|
                    #![trigger self.models()[j]]
                    0 <= j < i ==> self.models()[j] == (if ids@.contains(
                        old(self).models()[j].id,
                    ) {
                        OrderModel { shipped: true, ..old(self).models()[j] }
                    } else {
                        old(self).models()[j]
                    }),
        {
            let mut found = false;
            let m = ids.len();
            for k in 0..m
                invariant
                    m == ids@.len(),
                    i < self.orders@.len(),
                    found == exists|j: int| 0 <= j < k && ids@[j] == self.models()[i as int].id,
            {
                if ids[k] == self.orders[i].id {
                    found = true;
                }
            }
            proof {
                assert(found == ids@.contains(self.models()[i as int].id));
            }
            let ghost pre = *self;
            if found {
                self.orders[i].shipped = true;
                proof {
                    assert(self.orders@ =~= pre.orders@.update(
                        i as int,
                        self.orders@[i as int],
                    ));
                    assert(self.models()[i as int] == OrderModel {
                        shipped: true,
                        ..pre.models()[i as int]
                    });
                    assert forall|j: int| 0 <= j < n && j != i implies #[trigger] self.models()[j]
                        == pre.models()[j] by {
                        assert(self.orders@[j] == pre.orders@[j]);
                    }
                }
            }
        }
        proof {
            assert forall|i: int, j: int|
                0 <= i < j < self.models().len() implies self.models()[i].id
                != self.models()[j].id by {
                assert(self.models()[i].id == old(self).models()[i].id);
                assert(self.models()[j].id == old(self).models()[j].id);
            }
        }
    }
}

/// Filtering orders keeps the store's invariants.
proof fn lemma_orders_filter_keeps_wf(s: Seq<OrderModel>, pred: spec_fn(OrderModel) -> bool, bound: u32)
    requires
        orders_wf_ids(s),
        forall|i: int| 0 <= i < s.len() ==> (#[trigger] s[i]).id < bound,
        forall|i: int| 0 <= i < s.len() ==> cart_wf((#[trigger] s[i]).cart),
        forall|i: int| 0 <= i < s.len() ==> (#[trigger] s[i]).address.order == s[i].id,
    ensures
        orders_wf_ids(s.filter(pred)),
        forall|i: int| 0 <= i < s.filter(pred).len() ==> (#[trigger] s.filter(pred)[i]).id < bound,
        forall|i: int|
            0 <= i < s.filter(pred).len() ==> cart_wf((#[trigger] s.filter(pred)[i]).cart),
        forall|i: int|
            0 <= i < s.filter(pred).len() ==> (#[trigger] s.filter(pred)[i]).address.order
                == s.filter(pred)[i].id,
    decreases s.len(),
{
    reveal(Seq::filter);
    if s.len() > 0 {
        let prefix = s.drop_last();
        assert(forall|i: int| 0 <= i < prefix.len() ==> prefix[i] == s[i]);
        lemma_orders_filter_keeps_wf(prefix, pred, bound);
        let f = s.filter(pred);
        let fp = prefix.filter(pred);
        if pred(s.last()) {
            assert(f == fp.push(s.last()));
            assert forall|i: int, j: int| 0 <= i < j < f.len() implies f[i].id != f[j].id by {
                if j < f.len() - 1 {
                    assert(f[i] == fp[i] && f[j] == fp[j]);
                } else {
                    assert(f[i] == fp[i] && f[j] == s.last());
                    crate::seqtools::lemma_filter_member_index(prefix, pred, i);
                    let k = choose|k: int| 0 <= k < prefix.len() && prefix[k] == fp[i];
                    assert(s[k].id != s[s.len() - 1].id);
                }
            }
            assert forall|i: int| 0 <= i < f.len() implies (#[trigger] f[i]).id < bound && cart_wf(
                f[i].cart,
            ) && f[i].address.order == f[i].id by {
                if i < f.len() - 1 {
                    assert(f[i] == fp[i]);
                }
            }
        } else {
            assert(f == fp);
        }
    }
}

} // verus!
