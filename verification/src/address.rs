use vstd::prelude::*;

verus! {

/// Is `s` one of the fifty US state codes the shop ships to?
pub open spec fn spec_valid_state(s: Seq<char>) -> bool {
    ||| s == "AL"@
    ||| s == "AK"@
    ||| s == "AZ"@
    ||| s == "AR"@
    ||| s == "CA"@
    ||| s == "CO"@
    ||| s == "CT"@
    ||| s == "DE"@
    ||| s == "FL"@
    ||| s == "GA"@
    ||| s == "HI"@
    ||| s == "ID"@
    ||| s == "IL"@
    ||| s == "IN"@
    ||| s == "IA"@
    ||| s == "KS"@
    ||| s == "KY"@
    ||| s == "LA"@
    ||| s == "ME"@
    ||| s == "MD"@
    ||| s == "MA"@
    ||| s == "MI"@
    ||| s == "MN"@
    ||| s == "MS"@
    ||| s == "MO"@
    ||| s == "MT"@
    ||| s == "NE"@
    ||| s == "NV"@
    ||| s == "NH"@
    ||| s == "NJ"@
    ||| s == "NM"@
    ||| s == "NY"@
    ||| s == "NC"@
    ||| s == "ND"@
    ||| s == "OH"@
    ||| s == "OK"@
    ||| s == "OR"@
    ||| s == "PA"@
    ||| s == "RI"@
    ||| s == "SC"@
    ||| s == "SD"@
    ||| s == "TN"@
    ||| s == "TX"@
    ||| s == "UT"@
    ||| s == "VT"@
    ||| s == "VA"@
    ||| s == "WA"@
    ||| s == "WV"@
    ||| s == "WI"@
    ||| s == "WY"@
}

/// String equality by contents.
fn state_eq(state: &String, code: &str) -> (r: bool)
    ensures
        r == (state@ == code@),
{
    let owned: String = code.to_owned();
    *state == owned
}

/// A US shipping address, owned by exactly one order.
#[derive(Debug)]
pub struct Address {
    pub name: String,
    /// Id of the order this address belongs to.
    pub order: u32,
    pub number: u32,
    pub street: String,
    pub city: String,
    pub state: String,
    pub zipcode: u32,
}

impl Clone for Address {
    fn clone(&self) -> (r: Address)
        ensures
            r == *self,
    {
        Address {
            name: self.name.clone(),
            order: self.order,
            number: self.number,
            street: self.street.clone(),
            city: self.city.clone(),
            state: self.state.clone(),
            zipcode: self.zipcode,
        }
    }
}

/// Does an address pass the shop's shipping rules: a known US state code
/// and a five-digit zipcode?
pub open spec fn spec_address_valid(a: Address) -> bool {
    spec_valid_state(a.state@) && 10000 <= a.zipcode <= 99999
}

impl Address {
    /// Checks the address against the fixed US state-code set and the
    /// five-digit zipcode range.
    pub fn validate(&self) -> (r: bool)
        ensures
            r == spec_address_valid(*self),
    {
        let state_ok = false
    || state_eq(&self.state, "AL")
    || state_eq(&self.state, "AK")
    || state_eq(&self.state, "AZ")
    || state_eq(&self.state, "AR")
    || state_eq(&self.state, "CA")
    || state_eq(&self.state, "CO")
    || state_eq(&self.state, "CT")
    || state_eq(&self.state, "DE")
    || state_eq(&self.state, "FL")
    || state_eq(&self.state, "GA")
    || state_eq(&self.state, "HI")
    || state_eq(&self.state, "ID")
    || state_eq(&self.state, "IL")
    || state_eq(&self.state, "IN")
    || state_eq(&self.state, "IA")
    || state_eq(&self.state, "KS")
    || state_eq(&self.state, "KY")
    || state_eq(&self.state, "LA")
    || state_eq(&self.state, "ME")
    || state_eq(&self.state, "MD")
    || state_eq(&self.state, "MA")
    || state_eq(&self.state, "MI")
    || state_eq(&self.state, "MN")
    || state_eq(&self.state, "MS")
    || state_eq(&self.state, "MO")
    || state_eq(&self.state, "MT")
    || state_eq(&self.state, "NE")
    || state_eq(&self.state, "NV")
    || state_eq(&self.state, "NH")
    || state_eq(&self.state, "NJ")
    || state_eq(&self.state, "NM")
    || state_eq(&self.state, "NY")
    || state_eq(&self.state, "NC")
    || state_eq(&self.state, "ND")
    || state_eq(&self.state, "OH")
    || state_eq(&self.state, "OK")
    || state_eq(&self.state, "OR")
    || state_eq(&self.state, "PA")
    || state_eq(&self.state, "RI")
    || state_eq(&self.state, "SC")
    || state_eq(&self.state, "SD")
    || state_eq(&self.state, "TN")
    || state_eq(&self.state, "TX")
    || state_eq(&self.state, "UT")
    || state_eq(&self.state, "VT")
    || state_eq(&self.state, "VA")
    || state_eq(&self.state, "WA")
    || state_eq(&self.state, "WV")
    || state_eq(&self.state, "WI")
    || state_eq(&self.state, "WY");
        state_ok && self.zipcode >= 10000 && self.zipcode <= 99999
    }
}

/// An address as the database table stores it, with SQL-friendly signed
/// columns.
#[derive(Debug)]
pub struct TableAddress {
    pub name: String,
    pub order_id: i32,
    pub number: i32,
    pub street: String,
    pub city: String,
    pub state: String,
    pub zipcode: i32,
}

impl TableAddress {
    /// The business-logic view of this row. Usable whenever the columns
    /// hold what the store writes: non-negative numbers.
    pub fn to_address(self) -> (r: Address)
        requires
            self.order_id >= 0,
            self.number >= 0,
            self.zipcode >= 0,
        ensures
            r.name == self.name,
            r.order == self.order_id as u32,
            r.number == self.number as u32,
            r.street == self.street,
            r.city == self.city,
            r.state == self.state,
            r.zipcode == self.zipcode as u32,
    {
        Address {
            name: self.name,
            order: self.order_id as u32,
            number: self.number as u32,
            street: self.street,
            city: self.city,
            state: self.state,
            zipcode: self.zipcode as u32,
        }
    }
}

/// The row shape an address insert carries, keyed by the owning order.
#[derive(Debug)]
pub struct NewAddress {
    pub name: String,
    pub order_id: i32,
    pub number: i32,
    pub street: String,
    pub city: String,
    pub state: String,
    pub zipcode: i32,
}

impl NewAddress {
    /// The insertable row for `address`, owned by order `order_id`.
    pub fn new(address: &Address, order_id: i32) -> (r: NewAddress)
        requires
            address.number <= i32::MAX,
            address.zipcode <= i32::MAX,
        ensures
            r.name == address.name,
            r.order_id == order_id,
            r.number == address.number as i32,
            r.street == address.street,
            r.city == address.city,
            r.state == address.state,
            r.zipcode == address.zipcode as i32,
    {
        NewAddress {
            name: address.name.clone(),
            order_id,
            number: address.number as i32,
            street: address.street.clone(),
            city: address.city.clone(),
            state: address.state.clone(),
            zipcode: address.zipcode as i32,
        }
    }
}


/// The one-line rendering of an address: number, street, city, state and
/// zipcode, in the shop's fixed US format.
pub open spec fn spec_address_line(a: Address) -> Seq<char> {
    crate::text::spec_u64_dec(a.number as int) + " "@ + a.street@ + " "@ + a.city@ + ", "@
        + a.state@ + ", US "@ + crate::text::spec_u64_dec(a.zipcode as int)
}

impl Address {
    /// Renders the address as its one-line US form.
    pub fn to_line(&self) -> (r: String)
        ensures
            r@ == spec_address_line(*self),
    {
        crate::text::u64_to_string(self.number as u64).concat(" ").concat(
            self.street.as_str(),
        ).concat(" ").concat(self.city.as_str()).concat(", ").concat(self.state.as_str()).concat(
            ", US ",
        ).concat(crate::text::u64_to_string(self.zipcode as u64).as_str())
    }
}

} // verus!
