use kiggyshop::cart::{Cart, CartEntry};
use kiggyshop::item::{kind_price, Kind};
use kiggyshop::pricing::{get_total, price_cart, PricingError};
use kiggyshop::stock::StockStore;

fn stock_with_seven_items() -> StockStore {
    let mut stock = StockStore::new();
    let kinds = [
        Kind::BigPrint,
        Kind::BigPrint,
        Kind::Button,
        Kind::Button,
        Kind::SmallPrint,
        Kind::BigPrint,
        Kind::SmallPrint,
    ];
    for (i, kind) in kinds.iter().enumerate() {
        let title = format!("item {}", i + 1);
        stock
            .put_item(title, *kind, "art".to_string(), 10)
            .unwrap();
    }
    stock
}

#[test]
fn kind_prices_in_minor_units() {
    assert_eq!(kind_price(Kind::BigPrint), 20_00);
    assert_eq!(kind_price(Kind::SmallPrint), 7_00);
    assert_eq!(kind_price(Kind::Button), 3_00);
}

#[test]
fn small_print_pair_prices_to_1400() {
    let stock = stock_with_seven_items();
    let cart = Cart {
        entries: vec![CartEntry { item: 7, qty: 2 }],
    };
    let priced = price_cart(&cart, &stock).unwrap();
    assert_eq!(priced.total, 1400);
    assert_eq!(priced.lines.len(), 1);
    assert_eq!(priced.lines[0].item, 7);
    assert_eq!(priced.lines[0].quantity, 2);
    assert_eq!(priced.lines[0].unit_price, 700);
    assert_eq!(priced.lines[0].line_total, 1400);
    assert_eq!(priced.lines[0].title, "item 7");
}

#[test]
fn total_sums_each_line() {
    let stock = stock_with_seven_items();
    let cart = Cart {
        entries: vec![
            CartEntry { item: 1, qty: 3 },
            CartEntry { item: 3, qty: 2 },
            CartEntry { item: 5, qty: 1 },
        ],
    };
    // 3 * 2000 + 2 * 300 + 1 * 700
    let priced = price_cart(&cart, &stock).unwrap();
    assert_eq!(priced.total, 7300);
    assert_eq!(get_total(&cart, &stock), Ok(7300));
}

#[test]
fn empty_cart_prices_to_zero() {
    let stock = stock_with_seven_items();
    let cart = Cart { entries: vec![] };
    let priced = price_cart(&cart, &stock).unwrap();
    assert_eq!(priced.total, 0);
    assert_eq!(priced.lines.len(), 0);
}

#[test]
fn unknown_item_rejects_whole_cart() {
    let stock = stock_with_seven_items();
    let cart = Cart {
        entries: vec![CartEntry { item: 1, qty: 1 }, CartEntry { item: 99, qty: 1 }],
    };
    assert_eq!(
        price_cart(&cart, &stock).err(),
        Some(PricingError::UnknownItem(99))
    );
    assert_eq!(get_total(&cart, &stock), Err(PricingError::UnknownItem(99)));
}

#[test]
fn largest_quantity_still_prices() {
    let stock = stock_with_seven_items();
    let cart = Cart {
        entries: vec![CartEntry { item: 1, qty: u32::MAX }],
    };
    let priced = price_cart(&cart, &stock).unwrap();
    assert_eq!(priced.total, 2000u128 * (u32::MAX as u128));
}
