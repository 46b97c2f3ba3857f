//! A verified storefront core: a stock table, a cart priced from
//! authoritative stock data, a payment-webhook verifier that fails
//! closed, an idempotent fulfillment step that persists an order and
//! decrements stock together, and the admin's order maintenance.

use vstd::prelude::*;

pub mod address;
pub mod cart;
pub mod crypto;
pub mod env;
pub mod error;
pub mod item;
pub mod mail;
pub mod orders;
pub mod palette;
pub mod pricing;
pub mod provider;
pub mod seqtools;
pub mod shop;
pub mod stock;
pub mod text;
pub mod webhook;

verus! {

/// Identifier of a stock item.
pub type ItemId = u32;

/// Quantity of an item, either in stock or in a shopper's cart.
pub type Quantity = u32;

} // verus!
