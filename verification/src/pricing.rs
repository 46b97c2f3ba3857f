use vstd::prelude::*;

use crate::cart::{cart_wf, Cart};
use crate::item::{spec_kind_price, Item};
use crate::stock::{
    lemma_find_item_absent, lemma_find_item_index, spec_find_item, stock_wf_ids, StockStore,
};
use crate::{ItemId, Quantity};

verus! {

/// Why a cart cannot be priced: it names an item the stock table does
/// not know.
#[derive(Debug, PartialEq, Eq, Structural)]
pub enum PricingError {
    UnknownItem(ItemId),
}

/// One priced line: a cart entry joined with its stock row and costed.
#[derive(Debug)]
pub struct PricedLine {
    pub item: ItemId,
    pub title: String,
    /// Unit price in minor units, a function of the item's kind.
    pub unit_price: u32,
    pub quantity: Quantity,
    /// `unit_price * quantity`, in minor units.
    pub line_total: u64,
}

/// A cart annotated with per-line and aggregate totals computed from
/// authoritative stock data.
#[derive(Debug)]
pub struct PricedCart {
    pub lines: Vec<PricedLine>,
    /// Sum of all line totals, in minor units. Wide enough that the sum
    /// of any cart's lines fits.
    pub total: u128,
}

/// Does the stock know every id the cart names?
pub open spec fn spec_all_known(cart: Seq<(ItemId, Quantity)>, stock: Seq<Item>) -> bool {
    forall|i: int| 0 <= i < cart.len() ==> spec_find_item(stock, #[trigger] cart[i].0) is Some
}

/// The unit price the stock gives to `id` (meaningful only when known).
pub open spec fn spec_unit_price(stock: Seq<Item>, id: ItemId) -> u32 {
    spec_kind_price(spec_find_item(stock, id).unwrap().kind)
}

/// What one cart entry costs: its kind-derived unit price times its
/// quantity.
pub open spec fn spec_line_total(stock: Seq<Item>, entry: (ItemId, Quantity)) -> int {
    spec_unit_price(stock, entry.0) * entry.1
}

/// What a cart costs: the sum of what its entries cost.
pub open spec fn spec_cart_total(cart: Seq<(ItemId, Quantity)>, stock: Seq<Item>) -> int
    decreases cart.len(),
{
    if cart.len() == 0 {
        0
    } else {
        spec_cart_total(cart.drop_last(), stock) + spec_line_total(stock, cart.last())
    }
}

/// The first cart entry whose id the stock does not know (meaningful only
/// when one exists).
pub open spec fn spec_first_unknown(cart: Seq<(ItemId, Quantity)>, stock: Seq<Item>) -> ItemId
    decreases cart.len(),
{
    if cart.len() == 0 {
        0
    } else if spec_find_item(stock, cart[0].0) is None {
        cart[0].0
    } else {
        spec_first_unknown(cart.drop_first(), stock)
    }
}

/// A line of a known cart costs at least nothing and at most the largest
/// unit price times the largest quantity.
proof fn lemma_line_total_bounds(stock: Seq<Item>, entry: (ItemId, Quantity))
    ensures
        0 <= spec_unit_price(stock, entry.0) * entry.1 <= 2000 * (u32::MAX as int),
{
    let p = spec_unit_price(stock, entry.0) as int;
    let q = entry.1 as int;
    assert(p <= 2000);
    assert(0 <= p * q <= 2000 * (u32::MAX as int)) by (nonlinear_arith)
        requires
            0 <= p <= 2000,
            0 <= q <= u32::MAX as int,
    ;
}

/// A cart's total is at least nothing and grows at most linearly with its
/// length.
pub proof fn lemma_cart_total_bounds(cart: Seq<(ItemId, Quantity)>, stock: Seq<Item>)
    ensures
        0 <= spec_cart_total(cart, stock) <= cart.len() * 2000 * (u32::MAX as int),
    decreases cart.len(),
{
    if cart.len() == 0 {
    } else {
        lemma_cart_total_bounds(cart.drop_last(), stock);
        lemma_line_total_bounds(stock, cart.last());
        assert((cart.len() - 1) * 2000 * (u32::MAX as int) + 2000 * (u32::MAX as int) == cart.len()
            * 2000 * (u32::MAX as int)) by (nonlinear_arith);
    }
}

/// Prices a client-submitted cart against the stock table. Succeeds
/// exactly when the stock knows every id the cart names; then each line
/// costs its kind-derived unit price times its quantity, and the total is
/// the sum over all lines. Fails with the first unknown id otherwise, and
/// produces no partial result.
pub fn price_cart(cart: &Cart, stock: &StockStore) -> (r: Result<PricedCart, PricingError>)
    requires
        stock.wf(),
    ensures
        r is Ok <==> spec_all_known(cart@, stock.items@),
        match r {
            Ok(priced) => {
                &&& priced.total == spec_cart_total(cart@, stock.items@)
                &&& priced.lines@.len() == cart@.len()
                &&& forall|i: int|
                    0 <= i < cart@.len() ==> {
                        let line = #[trigger] priced.lines@[i];
                        &&& line.item == cart@[i].0
                        &&& line.quantity == cart@[i].1
                        &&& line.title == spec_find_item(stock.items@, cart@[i].0).unwrap().title
                        &&& line.unit_price == spec_unit_price(stock.items@, cart@[i].0)
                        &&& line.line_total == spec_line_total(stock.items@, cart@[i])
                    }
            },
            Err(e) => e == PricingError::UnknownItem(spec_first_unknown(cart@, stock.items@)),
        },
{
    let n = cart.entries.len();
    let mut lines: Vec<PricedLine> = Vec::new();
    let mut total: u128 = 0;
    for i in 0..n
        invariant
            stock.wf(),
            n == cart@.len(),
            lines@.len() == i,
            total == spec_cart_total(cart@.take(i as int), stock.items@),
            forall|j: int| 0 <= j < i ==> spec_find_item(stock.items@, #[trigger] cart@[j].0) is Some,
            forall|j: int|
                0 <= j < i ==> {
                    let line = #[trigger] lines@[j];
                    &&& line.item == cart@[j].0
                    &&& line.quantity == cart@[j].1
                    &&& line.title == spec_find_item(stock.items@, cart@[j].0).unwrap().title
                    &&& line.unit_price == spec_unit_price(stock.items@, cart@[j].0)
                    &&& line.line_total == spec_line_total(stock.items@, cart@[j])
                },
    {
        let id = cart.entries[i].item;
        let qty = cart.entries[i].qty;
        match stock.get(id) {
            None => {
                proof {
                    lemma_first_unknown_here(cart@, stock.items@, i as int);
                }
                return Err(PricingError::UnknownItem(id));
            },
            Some(item) => {
                let unit_price = item.price();
                proof {
                    assert((unit_price as int) * (qty as int) <= 2000 * (u32::MAX as int))
                        by (nonlinear_arith)
                        requires
                            0 <= unit_price <= 2000,
                            0 <= qty <= u32::MAX,
                    ;
                }
                let line_total = (unit_price as u64) * (qty as u64);
                proof {
                    lemma_line_total_bounds(stock.items@, (id, qty));
                    lemma_cart_total_bounds(cart@.take(i as int), stock.items@);
                    assert((i as int) * 2000 * (u32::MAX as int) <= (u64::MAX as int) * 2000 * (
                    u32::MAX as int)) by (nonlinear_arith)
                        requires
                            0 <= i as int <= u64::MAX as int,
                    ;
                    assert(cart@.take(i + 1).drop_last() =~= cart@.take(i as int));
                    assert(cart@.take(i + 1).last() == cart@[i as int]);
                }
                total = total + (line_total as u128);
                lines.push(
                    PricedLine {
                        item: id,
                        title: item.title.clone(),
                        unit_price,
                        quantity: qty,
                        line_total,
                    },
                );
            },
        }
    }
    proof {
        assert(cart@.take(n as int) =~= cart@);
    }
    Ok(PricedCart { lines, total })
}

/// When a scan finds the first unknown id at position `i`, that id is the
/// one the whole-cart spec names.
proof fn lemma_first_unknown_here(cart: Seq<(ItemId, Quantity)>, stock: Seq<Item>, i: int)
    requires
        0 <= i < cart.len(),
        spec_find_item(stock, cart[i].0) is None,
        forall|j: int| 0 <= j < i ==> spec_find_item(stock, #[trigger] cart[j].0) is Some,
    ensures
        !spec_all_known(cart, stock),
        spec_first_unknown(cart, stock) == cart[i].0,
    decreases i,
{
    if i > 0 {
        assert(spec_find_item(stock, cart[0].0) is Some);
        assert forall|j: int| 0 <= j < i - 1 implies spec_find_item(
            stock,
            #[trigger] cart.drop_first()[j].0,
        ) is Some by {
            assert(cart.drop_first()[j] == cart[j + 1]);
        }
        assert(cart.drop_first()[i - 1] == cart[i]);
        lemma_first_unknown_here(cart.drop_first(), stock, i - 1);
    }
}

/// The total a checkout charges for a cart, in minor units: what
/// `price_cart` computes, as one number. Fails exactly as `price_cart`
/// does.
pub fn get_total(cart: &Cart, stock: &StockStore) -> (r: Result<u128, PricingError>)
    requires
        stock.wf(),
    ensures
        r is Ok <==> spec_all_known(cart@, stock.items@),
        match r {
            Ok(total) => total == spec_cart_total(cart@, stock.items@),
            Err(e) => e == PricingError::UnknownItem(spec_first_unknown(cart@, stock.items@)),
        },
{
    match price_cart(cart, stock) {
        Ok(priced) => Ok(priced.total),
        Err(e) => Err(e),
    }
}

} // verus!
