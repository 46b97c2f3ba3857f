use vstd::prelude::*;

verus! {

/// The closed set of product kinds the shop sells. The unit price of an
/// item is a total function of its kind.
#[derive(Clone, Copy, Debug, PartialEq, Eq, Structural)]
pub enum Kind {
    BigPrint,
    SmallPrint,
    Button,
}

/// Unit price of a kind, in the currency's minor unit (cents).
pub open spec fn spec_kind_price(kind: Kind) -> u32 {
    match kind {
        Kind::BigPrint => 2000,
        Kind::SmallPrint => 700,
        Kind::Button => 300,
    }
}

/// Unit price of a kind, in the currency's minor unit (cents).
#[verifier::when_used_as_spec(spec_kind_price)]
pub fn kind_price(kind: Kind) -> (price: u32)
    ensures
        price == spec_kind_price(kind),
{
    match kind {
        Kind::BigPrint => 2000,
        Kind::SmallPrint => 700,
        Kind::Button => 300,
    }
}

/// A stock row: one product and the quantity of it left in stock.
#[derive(Debug)]
pub struct Item {
    pub id: u32,
    pub title: String,
    pub kind: Kind,
    pub description: String,
    /// Number of this item left in stock; a decrement never drives it
    /// below zero.
    pub quantity: u32,
}

impl Clone for Item {
    fn clone(&self) -> (r: Item)
        ensures
            r == *self,
    {
        Item {
            id: self.id,
            title: self.title.clone(),
            kind: self.kind,
            description: self.description.clone(),
            quantity: self.quantity,
        }
    }
}

impl Item {
    /// Unit price of this item in minor units, derived from its kind alone.
    pub fn price(&self) -> (price: u32)
        ensures
            price == spec_kind_price(self.kind),
    {
        kind_price(self.kind)
    }
}

} // verus!
