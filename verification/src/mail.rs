use vstd::prelude::*;
use vstd::string::*;

use crate::cart::Cart;
use crate::item::spec_kind_price;
use crate::orders::Order;
use crate::seqtools::lemma_filter_step;
use crate::stock::{spec_find_item, StockStore};
use crate::text::{money_string, spec_money, spec_u64_dec, u64_to_string};
use crate::{ItemId, Quantity};

verus! {

/// The plain-text body of a shipping notice.
pub open spec fn spec_shipped_text(
    name: Seq<char>,
    id: u32,
    tracking: Seq<char>,
) -> Seq<char> {
    "Hi, "@ + name + "! Your order has shipped!\\nOrder #: "@ + spec_u64_dec(id as int)
        + "\\nUSPS tracking #: "@ + tracking
}

/// A shipping notice: who gets it, for which order, under which tracking
/// number.
#[derive(Debug)]
pub struct Shipped {
    pub id: u32,
    pub name: String,
    pub email: String,
    pub tracking: String,
}

impl Shipped {
    /// A notice from its parts.
    pub fn new(id: u32, email: String, name: String, tracking: String) -> (r: Shipped)
        ensures
            r.id == id,
            r.email == email,
            r.name == name,
            r.tracking == tracking,
    {
        Shipped { id, name, email, tracking }
    }

    /// The notice for `order`, which must already carry a tracking
    /// number; an order without one is refused with a message naming it.
    pub fn from_order(order: &Order) -> (r: Result<Shipped, String>)
        ensures
            match r {
                Ok(s) => {
                    &&& order.tracking_number is Some
                    &&& s.id == order.id
                    &&& s.name@ == order.name@
                    &&& s.email@ == order.email@
                    &&& s.tracking@ == order.tracking_number.unwrap()@
                },
                Err(m) => {
                    &&& order.tracking_number is None
                    &&& m@ == "No tracking # on order "@ + spec_u64_dec(order.id as int)
                },
            },
    {
        match &order.tracking_number {
            Some(tracking) => Ok(
                Shipped {
                    id: order.id,
                    name: order.name.clone(),
                    email: order.email.clone(),
                    tracking: tracking.clone(),
                },
            ),
            None => Err(
                String::from_str("No tracking # on order ").concat(
                    u64_to_string(order.id as u64).as_str(),
                ),
            ),
        }
    }

    /// The plain-text body of this notice.
    pub fn render_plaintext(&self) -> (r: String)
        ensures
            r@ == spec_shipped_text(self.name@, self.id, self.tracking@),
    {
        String::from_str("Hi, ").concat(self.name.as_str()).concat(
            "! Your order has shipped!\\nOrder #: ",
        ).concat(u64_to_string(self.id as u64).as_str()).concat("\\nUSPS tracking #: ").concat(
            self.tracking.as_str(),
        )
    }
}

/// One priced line of a confirmation: title, unit price and line total in
/// minor units.
#[derive(Debug)]
pub struct ConfirmationLine {
    pub title: String,
    pub price: u32,
    pub quantity: u32,
    pub total: u64,
}

/// The mathematical shape of a confirmation line.
pub ghost struct ConfLineModel {
    pub title: Seq<char>,
    pub price: u32,
    pub quantity: u32,
    pub total: u64,
}

impl View for ConfirmationLine {
    type V = ConfLineModel;

    open spec fn view(&self) -> ConfLineModel {
        ConfLineModel {
            title: self.title@,
            price: self.price,
            quantity: self.quantity,
            total: self.total,
        }
    }
}

/// One rendered confirmation line: the title, the quantity, the unit
/// price and the line total, prices in major units with two decimals.
pub open spec fn spec_conf_line_text(line: ConfLineModel) -> Seq<char> {
    line.title + " x"@ + spec_u64_dec(line.quantity as int) + " @ "@ + spec_money(
        line.price as int,
    ) + " = "@ + spec_money(line.total as int) + "\n"@
}

/// The rendered lines of a confirmation, in order.
pub open spec fn spec_conf_lines_text(lines: Seq<ConfLineModel>) -> Seq<char>
    decreases lines.len(),
{
    if lines.len() == 0 {
        Seq::empty()
    } else {
        spec_conf_lines_text(lines.drop_last()) + spec_conf_line_text(lines.last())
    }
}

/// The whole plain-text body of a confirmation.
pub open spec fn spec_confirmation_text(
    name: Seq<char>,
    total: u64,
    lines: Seq<ConfLineModel>,
) -> Seq<char> {
    "Thank you "@ + name
        + "!\n\nWe appreciate your support! Your order is currently being processed, a shipping confirmation will be sent shortly.\n\n"@
        + spec_conf_lines_text(lines) + "Total: "@ + spec_money(total as int)
}

/// A confirmation email's content: the customer, the shipping address as
/// one line, the charged total in minor units, and the priced lines
/// (only the lines whose item still has a stock row; see `build`).
#[derive(Debug)]
pub struct Confirmation {
    pub name: String,
    pub address: String,
    pub total: u64,
    pub cart: Vec<ConfirmationLine>,
}

/// The line a cart entry contributes to a confirmation, priced from the
/// stock row it names.
pub open spec fn spec_conf_line_of(
    stock: Seq<crate::item::Item>,
    entry: (ItemId, Quantity),
) -> ConfLineModel {
    let item = spec_find_item(stock, entry.0).unwrap();
    ConfLineModel {
        title: item.title@,
        price: spec_kind_price(item.kind),
        quantity: entry.1,
        total: (spec_kind_price(item.kind) * entry.1) as u64,
    }
}

impl Confirmation {
    /// Builds the confirmation for a fulfilled cart. A purchased line
    /// whose item has no stock row anymore is left out of the listing —
    /// that is this function's contract, not an accident: the store knows
    /// neither a title nor a price for it, and inventing either on a
    /// receipt would be worse than omitting the line. The charged total
    /// is printed unconditionally, so the money is always accounted for.
    /// Every line whose item still has a row is listed under its title
    /// with its kind-derived unit price.
    pub fn build(
        name: String,
        address: String,
        total: u64,
        stock: &StockStore,
        cart: &Cart,
    ) -> (r: Confirmation)
        requires
            stock.wf(),
        ensures
            r.name == name,
            r.address == address,
            r.total == total,
            r.cart@.map(|_i: int, l: ConfirmationLine| l@) == cart@.filter(
                |e: (ItemId, Quantity)| spec_find_item(stock.items@, e.0) is Some,
            ).map(|_i: int, e: (ItemId, Quantity)| spec_conf_line_of(stock.items@, e)),
    {
        let mut lines: Vec<ConfirmationLine> = Vec::new();
        let n = cart.entries.len();
        proof {
            let pred = |e: (ItemId, Quantity)| spec_find_item(stock.items@, e.0) is Some;
            let f = |_i: int, e: (ItemId, Quantity)| spec_conf_line_of(stock.items@, e);
            assert(cart@.take(0).filter(pred) =~= Seq::<(ItemId, Quantity)>::empty());
            assert(lines@.map(|_i: int, l: ConfirmationLine| l@) =~= cart@.take(0).filter(
                pred,
            ).map(f));
        }
        for i in 0..n
            invariant
                stock.wf(),
                n == cart@.len(),
                lines@.map(|_i: int, l: ConfirmationLine| l@) == cart@.take(i as int).filter(
                    |e: (ItemId, Quantity)| spec_find_item(stock.items@, e.0) is Some,
                ).map(|_i: int, e: (ItemId, Quantity)| spec_conf_line_of(stock.items@, e)),
        {
            let id = cart.entries[i].item;
            let qty = cart.entries[i].qty;
            proof {
                let pred = |e: (ItemId, Quantity)| spec_find_item(stock.items@, e.0) is Some;
                lemma_filter_step(cart@, pred, i as int);
            }
            match stock.get(id) {
                None => {
                    proof {
                        let pred = |e: (ItemId, Quantity)| spec_find_item(
                            stock.items@,
                            e.0,
                        ) is Some;
                        let f = |_i: int, e: (ItemId, Quantity)| spec_conf_line_of(
                            stock.items@,
                            e,
                        );
                        assert(cart@.take(i + 1).filter(pred).map(f) == cart@.take(
                            i as int,
                        ).filter(pred).map(f));
                    }
                },
                Some(item) => {
                    let price = item.price();
                    proof {
                        assert((price as int) * (qty as int) <= 2000 * (u32::MAX as int))
                            by (nonlinear_arith)
                            requires
                                0 <= price <= 2000,
                                0 <= qty <= u32::MAX,
                        ;
                    }
                    let line_total = (price as u64) * (qty as u64);
                    let ghost before = lines@.map(|_i: int, l: ConfirmationLine| l@);
                    lines.push(
                        ConfirmationLine {
                            title: item.title.clone(),
                            price,
                            quantity: qty,
                            total: line_total,
                        },
                    );
                    proof {
                        let pred = |e: (ItemId, Quantity)| spec_find_item(
                            stock.items@,
                            e.0,
                        ) is Some;
                        let f = |_i: int, e: (ItemId, Quantity)| spec_conf_line_of(
                            stock.items@,
                            e,
                        );
                        assert(lines@.map(|_i: int, l: ConfirmationLine| l@) =~= before.push(
                            spec_conf_line_of(stock.items@, cart@[i as int]),
                        ));
                        assert(cart@.take(i + 1).filter(pred).map(f) =~= cart@.take(
                            i as int,
                        ).filter(pred).map(f).push(spec_conf_line_of(stock.items@, cart@[i as int])));
                    }
                },
            }
        }
        proof {
            assert(cart@.take(n as int) =~= cart@);
        }
        Confirmation { name, address, total, cart: lines }
    }

    /// The plain-text body of this confirmation.
    pub fn render_plaintext(&self) -> (r: String)
        ensures
            r@ == spec_confirmation_text(
                self.name@,
                self.total,
                self.cart@.map(|_i: int, l: ConfirmationLine| l@),
            ),
    {
        let ghost models = self.cart@.map(|_i: int, l: ConfirmationLine| l@);
        let mut body = String::from_str("Thank you ").concat(self.name.as_str()).concat(
            "!\n\nWe appreciate your support! Your order is currently being processed, a shipping confirmation will be sent shortly.\n\n",
        );
        let ghost header = body@;
        let n = self.cart.len();
        proof {
            assert(spec_conf_lines_text(models.take(0)) =~= Seq::<char>::empty());
            assert(body@ =~= header + spec_conf_lines_text(models.take(0)));
        }
        for i in 0..n
            invariant
                n == self.cart@.len(),
                models == self.cart@.map(|_i: int, l: ConfirmationLine| l@),
                header == ("Thank you "@ + self.name@
                    + "!\n\nWe appreciate your support! Your order is currently being processed, a shipping confirmation will be sent shortly.\n\n"@),
                body@ == header + spec_conf_lines_text(models.take(i as int)),
        {
            let line = &self.cart[i];
            let rendered = line.title.clone().concat(" x").concat(
                u64_to_string(line.quantity as u64).as_str(),
            ).concat(" @ ").concat(money_string(line.price as u64).as_str()).concat(" = ").concat(
                money_string(line.total).as_str(),
            ).concat("\n");
            proof {
                assert(rendered@ =~= spec_conf_line_text(models[i as int]));
                assert(models.take(i + 1).drop_last() =~= models.take(i as int));
                assert(models.take(i + 1).last() == models[i as int]);
            }
            body.append(rendered.as_str());
            proof {
                assert(body@ =~= header + spec_conf_lines_text(models.take(i + 1)));
            }
        }
        let r = body.concat("Total: ").concat(money_string(self.total).as_str());
        proof {
            assert(models.take(n as int) =~= models);
            assert(r@ =~= spec_confirmation_text(self.name@, self.total, models));
        }
        r
    }
}

} // verus!
