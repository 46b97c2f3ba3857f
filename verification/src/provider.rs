use vstd::prelude::*;

use crate::cart::Cart;
use crate::ItemId;

verus! {

/// The checkout's fixed shipping fee in minor units: one flat rate, one
/// zone.
pub const SHIPPING_FEE: u64 = 1000;

/// The provider-side records one item already has: the product and the
/// price registered for it. Kept so that a second checkout reuses them
/// instead of creating duplicate provider records.
#[derive(Debug)]
pub struct ProviderRecord {
    pub item: ItemId,
    pub product_id: String,
    pub price_id: String,
}

/// The mathematical shape of a provider record.
pub type ProviderModel = (ItemId, Seq<char>, Seq<char>);

/// The record cached for `id`: the first one, if any. On a well-formed
/// cache ids are unique, so "first" is "the".
pub open spec fn spec_find_provider(s: Seq<ProviderModel>, id: ItemId) -> Option<
    (Seq<char>, Seq<char>),
>
    decreases s.len(),
{
    if s.len() == 0 {
        None
    } else if s[0].0 == id {
        Some((s[0].1, s[0].2))
    } else {
        spec_find_provider(s.drop_first(), id)
    }
}

/// A well-formed cache finds at a record exactly that record.
pub proof fn lemma_find_provider_index(s: Seq<ProviderModel>, id: ItemId, i: int)
    requires
        provider_wf_ids(s),
        0 <= i < s.len(),
        s[i].0 == id,
    ensures
        spec_find_provider(s, id) == Some((s[i].1, s[i].2)),
    decreases s.len(),
{
    if i > 0 {
        lemma_find_provider_index(s.drop_first(), id, i - 1);
    }
}

/// If no record carries `id`, nothing is found.
pub proof fn lemma_find_provider_absent(s: Seq<ProviderModel>, id: ItemId)
    requires
        forall|i: int| 0 <= i < s.len() ==> (#[trigger] s[i]).0 != id,
    ensures
        spec_find_provider(s, id) is None,
    decreases s.len(),
{
    if s.len() > 0 {
        lemma_find_provider_absent(s.drop_first(), id);
    }
}

/// Item ids are unique across the records.
pub open spec fn provider_wf_ids(s: Seq<ProviderModel>) -> bool {
    forall|i: int, j: int| 0 <= i < j < s.len() ==> s[i].0 != s[j].0
}

/// The cache of provider-side product and price ids, one record per item.
#[derive(Debug)]
pub struct ProviderCache {
    pub records: Vec<ProviderRecord>,
}

impl ProviderCache {
    /// The mathematical shape of the cache.
    pub open spec fn models(&self) -> Seq<ProviderModel> {
        self.records@.map(|_i: int, r: ProviderRecord| (r.item, r.product_id@, r.price_id@))
    }

    /// Item ids are unique across the records.
    pub open spec fn wf(&self) -> bool {
        provider_wf_ids(self.models())
    }

    /// An empty cache.
    pub fn new() -> (r: ProviderCache)
        ensures
            r.wf(),
            r.models() =~= Seq::<ProviderModel>::empty(),
    {
        let r = ProviderCache { records: Vec::new() };
        proof {
            assert(r.models() =~= Seq::<ProviderModel>::empty());
        }
        r
    }

    /// Index of the record for `id`, if any.
    fn find_index(&self, id: ItemId) -> (r: Option<usize>)
        ensures
            match r {
                Some(i) => i < self.models().len() && self.models()[i as int].0 == id,
                None => forall|i: int|
                    0 <= i < self.models().len() ==> (#[trigger] self.models()[i]).0 != id,
            },
    {
        let n = self.records.len();
        for i in 0..n
            invariant
                n == self.records@.len(),
                forall|j: int| 0 <= j < i ==> (#[trigger] self.models()[j]).0 != id,
        {
            if self.records[i].item == id {
                return Some(i);
            }
        }
        None
    }

    /// The provider ids already registered for `id`, if any.
    pub fn get(&self, id: ItemId) -> (r: Option<&ProviderRecord>)
        requires
            self.wf(),
        ensures
            match r {
                Some(rec) => spec_find_provider(self.models(), id) == Some(
                    (rec.product_id@, rec.price_id@),
                ) && rec.item == id,
                None => spec_find_provider(self.models(), id) is None,
            },
    {
        match self.find_index(id) {
            Some(i) => {
                proof {
                    lemma_find_provider_index(self.models(), id, i as int);
                }
                Some(&self.records[i])
            },
            None => {
                proof {
                    lemma_find_provider_absent(self.models(), id);
                }
                None
            },
        }
    }

    /// Records the provider ids created for `id`. Refused when the item
    /// already has a record — creation calls are not idempotent on the
    /// provider's side, so a second registration would mean a duplicate
    /// was created; a refusal changes nothing.
    pub fn insert(&mut self, id: ItemId, product_id: String, price_id: String) -> (r: bool)
        requires
            old(self).wf(),
        ensures
            final(self).wf(),
            r == (spec_find_provider(old(self).models(), id) is None),
            if r {
                final(self).models() =~= old(self).models().push((id, product_id@, price_id@))
            } else {
                final(self).models() == old(self).models()
            },
    {
        match self.find_index(id) {
            Some(i) => {
                proof {
                    lemma_find_provider_index(self.models(), id, i as int);
                }
                false
            },
            None => {
                proof {
                    lemma_find_provider_absent(self.models(), id);
                }
                let ghost before = self.models();
                self.records.push(ProviderRecord { item: id, product_id, price_id });
                proof {
                    let last = self.records@.last();
                    assert(self.models() =~= before.push(
                        (last.item, last.product_id@, last.price_id@),
                    ));
                }
                true
            },
        }
    }

    /// The cart ids that have no provider record yet — the ones a
    /// checkout must register with the provider before it can build the
    /// payment link; all others are reused from the cache.
    pub fn missing_of(&self, cart: &Cart) -> (r: Vec<ItemId>)
        requires
            self.wf(),
        ensures
            r@ == cart@.map(|_i: int, e: (ItemId, crate::Quantity)| e.0).filter(
                |id: ItemId| spec_find_provider(self.models(), id) is None,
            ),
    {
        let ghost ids = cart@.map(|_i: int, e: (ItemId, crate::Quantity)| e.0);
        let mut r: Vec<ItemId> = Vec::new();
        let n = cart.entries.len();
        proof {
            let pred = |id: ItemId| spec_find_provider(self.models(), id) is None;
            assert(ids.take(0).filter(pred) =~= Seq::<ItemId>::empty());
        }
        for i in 0..n
            invariant
                self.wf(),
                n == cart@.len(),
                ids == cart@.map(|_i: int, e: (ItemId, crate::Quantity)| e.0),
                r@ == ids.take(i as int).filter(
                    |id: ItemId| spec_find_provider(self.models(), id) is None,
                ),
        {
            let id = cart.entries[i].item;
            let cached = self.get(id);
            proof {
                let pred = |id: ItemId| spec_find_provider(self.models(), id) is None;
                crate::seqtools::lemma_filter_step(ids, pred, i as int);
                assert(ids[i as int] == id);
            }
            if cached.is_none() {
                r.push(id);
            }
        }
        proof {
            assert(ids.take(n as int) =~= ids);
        }
        r
    }

    /// The payment link's line items for `cart`: each entry's cached
    /// provider price id paired with the quantity, in cart order.
    /// `None` when some entry has no cached record yet — `missing_of`
    /// names those, and the checkout must register them first.
    pub fn payment_link_line_items(&self, cart: &Cart) -> (r: Option<Vec<(String, u64)>>)
        requires
            self.wf(),
        ensures
            match r {
                Some(v) => {
                    &&& v@.len() == cart@.len()
                    &&& forall|i: int|
                        0 <= i < cart@.len() ==> {
                            &&& spec_find_provider(self.models(), (#[trigger] cart@[i]).0) is Some
                            &&& v@[i].0@ == spec_find_provider(self.models(), cart@[i].0).unwrap().1
                            &&& v@[i].1 == cart@[i].1 as u64
                        }
                },
                None => exists|i: int|
                    0 <= i < cart@.len() && spec_find_provider(
                        self.models(),
                        (#[trigger] cart@[i]).0,
                    ) is None,
            },
    {
        let mut r: Vec<(String, u64)> = Vec::new();
        let n = cart.entries.len();
        for i in 0..n
            invariant
                self.wf(),
                n == cart@.len(),
                r@.len() == i,
                forall|j: int|
                    0 <= j < i ==> {
                        &&& spec_find_provider(self.models(), (#[trigger] cart@[j]).0) is Some
                        &&& r@[j].0@ == spec_find_provider(self.models(), cart@[j].0).unwrap().1
                        &&& r@[j].1 == cart@[j].1 as u64
                    },
        {
            let id = cart.entries[i].item;
            let qty = cart.entries[i].qty;
            match self.get(id) {
                None => {
                    assert(spec_find_provider(self.models(), cart@[i as int].0) is None);
                    return None;
                },
                Some(rec) => {
                    r.push((rec.price_id.clone(), qty as u64));
                },
            }
        }
        Some(r)
    }
}

} // verus!
