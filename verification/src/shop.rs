use vstd::prelude::*;

use crate::address::Address;
use crate::cart::{cart_wf, Cart};
use crate::item::Item;
use crate::orders::{OrderModel, OrderStore};
use crate::pricing::{price_cart, PricedCart, PricingError};
use crate::stock::{spec_stock_decremented, StockStore};
use crate::{ItemId, Quantity};

verus! {

/// A checkout the shop has begun but not yet seen paid: the provider's
/// session id and the cart it stands for. This durable record replaces
/// smuggling the cart through provider metadata, and its session id is
/// the key that makes duplicate webhooks harmless.
#[derive(Debug)]
pub struct PendingSession {
    pub session_id: String,
    pub cart: Cart,
}

/// The mathematical shape of a pending session: the session id and the
/// cart, as plain values.
pub type PendingModel = (Seq<char>, Seq<(ItemId, Quantity)>);

/// The cart of the first pending session keyed by `sid`, if any. On a
/// well-formed shop session ids are unique, so "first" is "the".
pub open spec fn spec_find_pending(p: Seq<PendingModel>, sid: Seq<char>) -> Option<
    Seq<(ItemId, Quantity)>,
>
    decreases p.len(),
{
    if p.len() == 0 {
        None
    } else if p[0].0 == sid {
        Some(p[0].1)
    } else {
        spec_find_pending(p.drop_first(), sid)
    }
}

/// A well-formed shop finds at a pending session exactly its cart.
pub proof fn lemma_find_pending_index(p: Seq<PendingModel>, sid: Seq<char>, i: int)
    requires
        pending_wf_ids(p),
        0 <= i < p.len(),
        p[i].0 == sid,
    ensures
        spec_find_pending(p, sid) == Some(p[i].1),
    decreases p.len(),
{
    if i > 0 {
        lemma_find_pending_index(p.drop_first(), sid, i - 1);
    }
}

/// If no pending session carries `sid`, nothing is found.
pub proof fn lemma_find_pending_absent(p: Seq<PendingModel>, sid: Seq<char>)
    requires
        forall|i: int| 0 <= i < p.len() ==> (#[trigger] p[i]).0 != sid,
    ensures
        spec_find_pending(p, sid) is None,
    decreases p.len(),
{
    if p.len() > 0 {
        lemma_find_pending_absent(p.drop_first(), sid);
    }
}

/// Session ids are unique across the pending sessions.
pub open spec fn pending_wf_ids(p: Seq<PendingModel>) -> bool {
    forall|i: int, j: int| 0 <= i < j < p.len() ==> p[i].0 != p[j].0
}

/// The mathematical shape of the whole shop.
pub ghost struct ShopModel {
    pub stock: Seq<Item>,
    pub stock_next: u32,
    pub orders: Seq<OrderModel>,
    pub orders_next: u32,
    pub pending: Seq<PendingModel>,
    pub fulfilled: Seq<Seq<char>>,
}

/// The shop's durable state: the inventory, the persisted orders, the
/// checkouts awaiting payment, and the session ids already fulfilled.
#[derive(Debug)]
pub struct Shop {
    pub stock: StockStore,
    pub orders: OrderStore,
    pub pending: Vec<PendingSession>,
    pub fulfilled: Vec<String>,
}

impl View for Shop {
    type V = ShopModel;

    open spec fn view(&self) -> ShopModel {
        ShopModel {
            stock: self.stock.items@,
            stock_next: self.stock.next_id,
            orders: self.orders.models(),
            orders_next: self.orders.next_id,
            pending: self.pending@.map(|_i: int, p: PendingSession| (p.session_id@, p.cart@)),
            fulfilled: self.fulfilled@.map(|_i: int, s: String| s@),
        }
    }
}

/// Why a verified completion event could not be fulfilled.
#[derive(Clone, Copy, Debug, PartialEq, Eq, Structural)]
pub enum FulfillmentError {
    /// This session was fulfilled before; fulfilling it again is refused
    /// and changes nothing, so a redelivered webhook is a no-op.
    DuplicateFulfillment,
    /// The shop has no pending checkout under this session id, so there
    /// is no cart to fulfil.
    MissingSession,
    /// The order table's id space is exhausted; nothing was persisted.
    PersistenceError,
}

/// How `fulfill` may move the shop from `pre` to `post` for session
/// `sid`: the single transition relation its contract promises.
///
/// On success the shop gains exactly one order — unshipped, carrying the
/// customer, the paid total, the pending cart and the address — the stock
/// is decremented once by that cart (clamped at zero), the pending
/// session goes away, and the session id is recorded as fulfilled. On any
/// refusal the shop does not change at all. Success happens exactly when
/// the session is not yet fulfilled, a pending checkout exists and an
/// order id is left.
pub open spec fn spec_fulfill_rel(
    pre: ShopModel,
    post: ShopModel,
    sid: Seq<char>,
    name: Seq<char>,
    email: Seq<char>,
    total: u64,
    address: Address,
    r: Result<u32, FulfillmentError>,
) -> bool {
    match r {
        Ok(order_id) => {
            &&& !pre.fulfilled.contains(sid)
            &&& spec_find_pending(pre.pending, sid) matches Some(cart)
            &&& pre.orders_next < u32::MAX
            &&& order_id == pre.orders_next
            &&& post.orders == pre.orders.push(
                OrderModel {
                    id: order_id,
                    name,
                    email,
                    total,
                    cart: spec_find_pending(pre.pending, sid).unwrap(),
                    address: Address { order: order_id, ..address },
                    shipped: false,
                    tracking_number: None,
                },
            )
            &&& post.orders_next == pre.orders_next + 1
            &&& spec_stock_decremented(
                pre.stock,
                post.stock,
                spec_find_pending(pre.pending, sid).unwrap(),
            )
            &&& post.stock_next == pre.stock_next
            &&& post.pending == spec_pending_without(pre.pending, sid)
            &&& post.fulfilled == pre.fulfilled.push(sid)
        },
        Err(FulfillmentError::DuplicateFulfillment) => {
            &&& pre.fulfilled.contains(sid)
            &&& post == pre
        },
        Err(FulfillmentError::MissingSession) => {
            &&& !pre.fulfilled.contains(sid)
            &&& spec_find_pending(pre.pending, sid) is None
            &&& post == pre
        },
        Err(FulfillmentError::PersistenceError) => {
            &&& !pre.fulfilled.contains(sid)
            &&& spec_find_pending(pre.pending, sid) is Some
            &&& pre.orders_next == u32::MAX
            &&& post == pre
        },
    }
}

/// `p` with every session keyed `sid` taken out; other sessions keep
/// their order.
pub open spec fn spec_pending_without(p: Seq<PendingModel>, sid: Seq<char>) -> Seq<PendingModel>
    decreases p.len(),
{
    if p.len() == 0 {
        p
    } else if p[0].0 == sid {
        spec_pending_without(p.drop_first(), sid)
    } else {
        seq![p[0]] + spec_pending_without(p.drop_first(), sid)
    }
}

/// Taking out a key nothing carries changes nothing.
proof fn lemma_pending_without_no_match(p: Seq<PendingModel>, sid: Seq<char>)
    requires
        forall|i: int| 0 <= i < p.len() ==> (#[trigger] p[i]).0 != sid,
    ensures
        spec_pending_without(p, sid) == p,
    decreases p.len(),
{
    if p.len() > 0 {
        assert(forall|i: int|
            0 <= i < p.drop_first().len() ==> p.drop_first()[i] == p[i + 1]);
        lemma_pending_without_no_match(p.drop_first(), sid);
        assert(seq![p[0]] + p.drop_first() =~= p);
    }
}

/// With unique keys, taking out `sid` is removing its one entry.
proof fn lemma_remove_is_without(s: Seq<PendingModel>, i: int, sid: Seq<char>)
    requires
        pending_wf_ids(s),
        0 <= i < s.len(),
        s[i].0 == sid,
    ensures
        s.remove(i) == spec_pending_without(s, sid),
    decreases i,
{
    let t = s.drop_first();
    assert(forall|j: int| 0 <= j < t.len() ==> t[j] == s[j + 1]);
    if i == 0 {
        lemma_pending_without_no_match(t, sid);
        assert(s.remove(0) =~= t);
    } else {
        lemma_remove_is_without(t, i - 1, sid);
        assert(t.remove(i - 1) == spec_pending_without(t, sid));
        assert(s[0].0 != sid);
        assert(spec_pending_without(s, sid) == seq![s[0]] + t.remove(i - 1));
        assert(s.remove(i) =~= seq![s[0]] + t.remove(i - 1));
    }
}

impl Shop {
    /// The stores are well-formed, pending session ids are unique, and
    /// every pending cart is well-formed.
    pub open spec fn wf(&self) -> bool {
        &&& self.stock.wf()
        &&& self.orders.wf()
        &&& pending_wf_ids(self@.pending)
        &&& forall|i: int| 0 <= i < self@.pending.len() ==> cart_wf((#[trigger] self@.pending[i]).1)
    }

    /// A shop with no stock, no orders, no pending checkouts and no
    /// fulfilled sessions.
    pub fn new() -> (r: Shop)
        ensures
            r.wf(),
            r@.stock =~= Seq::<Item>::empty(),
            r@.orders =~= Seq::<OrderModel>::empty(),
            r@.pending =~= Seq::<PendingModel>::empty(),
            r@.fulfilled =~= Seq::<Seq<char>>::empty(),
    {
        let r = Shop {
            stock: StockStore::new(),
            orders: OrderStore::new(),
            pending: Vec::new(),
            fulfilled: Vec::new(),
        };
        proof {
            assert(r@.pending =~= Seq::<PendingModel>::empty());
            assert(r@.fulfilled =~= Seq::<Seq<char>>::empty());
            assert(r@.orders =~= Seq::<OrderModel>::empty());
        }
        r
    }

    /// Prices a client cart against the shop's stock: the computation a
    /// checkout runs before it talks to the payment provider.
    pub fn checkout(&self, cart: &Cart) -> (r: Result<PricedCart, PricingError>)
        requires
            self.wf(),
        ensures
            r is Ok <==> crate::pricing::spec_all_known(cart@, self@.stock),
            match r {
                Ok(priced) => priced.total == crate::pricing::spec_cart_total(cart@, self@.stock),
                Err(e) => e == PricingError::UnknownItem(
                    crate::pricing::spec_first_unknown(cart@, self@.stock),
                ),
            },
    {
        price_cart(cart, &self.stock)
    }

    /// Was this session id already fulfilled?
    fn is_fulfilled(&self, sid: &String) -> (r: bool)
        ensures
            r == self@.fulfilled.contains(sid@),
    {
        let n = self.fulfilled.len();
        for i in 0..n
            invariant
                n == self.fulfilled@.len(),
                forall|j: int| 0 <= j < i ==> self@.fulfilled[j] != sid@,
        {
            if self.fulfilled[i].eq(sid) {
                assert(self@.fulfilled[i as int] == sid@);
                return true;
            }
        }
        assert(!self@.fulfilled.contains(sid@));
        false
    }

    /// Index of the pending session keyed `sid`, if any.
    fn find_pending_index(&self, sid: &String) -> (r: Option<usize>)
        ensures
            match r {
                Some(i) => i < self@.pending.len() && self@.pending[i as int].0 == sid@,
                None => forall|i: int|
                    0 <= i < self@.pending.len() ==> (#[trigger] self@.pending[i]).0 != sid@,
            },
    {
        let n = self.pending.len();
        for i in 0..n
            invariant
                n == self.pending@.len(),
                forall|j: int| 0 <= j < i ==> (#[trigger] self@.pending[j]).0 != sid@,
        {
            if self.pending[i].session_id.eq(sid) {
                return Some(i);
            }
        }
        None
    }

    /// Records the checkout the shop just opened with the payment
    /// provider, keyed by the provider's session id, so that the webhook
    /// can read the cart back and duplicates can be told apart. Refused
    /// when the id is already pending or already fulfilled; a refusal
    /// changes nothing.
    pub fn register_pending(&mut self, session_id: String, cart: Cart) -> (r: bool)
        requires
            old(self).wf(),
            cart.wf(),
        ensures
            final(self).wf(),
            r == (spec_find_pending(old(self)@.pending, session_id@) is None && !old(
                self,
            )@.fulfilled.contains(session_id@)),
            if r {
                &&& final(self)@.pending =~= old(self)@.pending.push((session_id@, cart@))
                &&& final(self)@.stock == old(self)@.stock
                &&& final(self)@.stock_next == old(self)@.stock_next
                &&& final(self)@.orders == old(self)@.orders
                &&& final(self)@.orders_next == old(self)@.orders_next
                &&& final(self)@.fulfilled == old(self)@.fulfilled
            } else {
                final(self)@ == old(self)@
            },
    {
        if self.is_fulfilled(&session_id) {
            return false;
        }
        match self.find_pending_index(&session_id) {
            Some(i) => {
                proof {
                    lemma_find_pending_index(self@.pending, session_id@, i as int);
                }
                false
            },
            None => {
                proof {
                    lemma_find_pending_absent(self@.pending, session_id@);
                }
                let ghost before = self@.pending;
                self.pending.push(PendingSession { session_id, cart });
                proof {
                    assert(self@.pending =~= before.push(
                        (self.pending@.last().session_id@, self.pending@.last().cart@),
                    ));
                }
                true
            },
        }
    }

    /// Fulfils a verified, completed checkout: persists the order with
    /// its lines and address as one unit, decrements the stock by the
    /// cart (clamped at zero), retires the pending session, and records
    /// the session id so a redelivered webhook changes nothing. The whole
    /// effect — and that a refusal has none — is stated by
    /// `spec_fulfill_rel`.
    pub fn fulfill(
        &mut self,
        session_id: &String,
        name: String,
        email: String,
        total: u64,
        address: Address,
    ) -> (r: Result<u32, FulfillmentError>)
        requires
            old(self).wf(),
        ensures
            final(self).wf(),
            spec_fulfill_rel(
                old(self)@,
                final(self)@,
                session_id@,
                name@,
                email@,
                total,
                address,
                r,
            ),
            r is Ok <==> (!old(self)@.fulfilled.contains(session_id@) && spec_find_pending(
                old(self)@.pending,
                session_id@,
            ) is Some && old(self)@.orders_next < u32::MAX),
    {
        if self.is_fulfilled(session_id) {
            return Err(FulfillmentError::DuplicateFulfillment);
        }
        let i = match self.find_pending_index(session_id) {
            None => {
                proof {
                    lemma_find_pending_absent(self@.pending, session_id@);
                }
                return Err(FulfillmentError::MissingSession);
            },
            Some(i) => i,
        };
        proof {
            lemma_find_pending_index(self@.pending, session_id@, i as int);
        }
        let cart = self.pending[i].cart.clone();
        let order_id = match self.orders.insert_order(name, email, total, cart.clone(), address) {
            None => {
                return Err(FulfillmentError::PersistenceError);
            },
            Some(id) => id,
        };
        self.stock.dec_items(&cart);
        self.pending.remove(i);
        self.fulfilled.push(session_id.clone());
        proof {
            let pre = old(self)@;
            assert(self@.pending =~= pre.pending.remove(i as int));
            lemma_remove_is_without(pre.pending, i as int, session_id@);
            assert(self@.fulfilled =~= pre.fulfilled.push(session_id@));
            let rem = pre.pending.remove(i as int);
            assert forall|k: int| 0 <= k < rem.len() implies rem[k] == (if k < i {
                pre.pending[k]
            } else {
                pre.pending[k + 1]
            }) by {}
            assert(pending_wf_ids(self@.pending));
            assert forall|k: int| 0 <= k < self@.pending.len() implies cart_wf(
                (#[trigger] self@.pending[k]).1,
            ) by {
                assert(rem[k] == (if k < i {
                    pre.pending[k]
                } else {
                    pre.pending[k + 1]
                }));
            }
        }
        Ok(order_id)
    }
}

/// Replaying a fulfilled session is a no-op: after one successful
/// fulfillment of `sid`, any later fulfillment of `sid` is refused as a
/// duplicate and leaves the shop exactly as it was — so one payment means
/// exactly one order record and exactly one stock decrement, however
/// often the provider redelivers the webhook.
pub proof fn lemma_replay_is_noop(
    pre: ShopModel,
    mid: ShopModel,
    post: ShopModel,
    sid: Seq<char>,
    name1: Seq<char>,
    email1: Seq<char>,
    total1: u64,
    address1: Address,
    r1: Result<u32, FulfillmentError>,
    name2: Seq<char>,
    email2: Seq<char>,
    total2: u64,
    address2: Address,
    r2: Result<u32, FulfillmentError>,
)
    requires
        spec_fulfill_rel(pre, mid, sid, name1, email1, total1, address1, r1),
        r1 is Ok,
        spec_fulfill_rel(mid, post, sid, name2, email2, total2, address2, r2),
    ensures
        r2 == Result::<u32, FulfillmentError>::Err(FulfillmentError::DuplicateFulfillment),
        post == mid,
        mid.orders.len() == pre.orders.len() + 1,
        spec_stock_decremented(pre.stock, mid.stock, spec_find_pending(pre.pending, sid).unwrap()),
{
    assert(mid.fulfilled.contains(sid)) by {
        assert(mid.fulfilled.last() == sid);
    }
    match r2 {
        Ok(_) => {
            assert(false);
        },
        Err(FulfillmentError::DuplicateFulfillment) => {
        },
        Err(FulfillmentError::MissingSession) => {
            assert(false);
        },
        Err(FulfillmentError::PersistenceError) => {
            assert(false);
        },
    }
}

} // verus!
