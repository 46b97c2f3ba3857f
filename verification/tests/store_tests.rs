use kiggyshop::address::Address;
use kiggyshop::cart::{Cart, CartEntry};
use kiggyshop::item::Kind;
use kiggyshop::orders::{OrderError, OrderFilter, OrderStore};
use kiggyshop::shop::Shop;
use kiggyshop::stock::StockStore;

fn mock_address() -> Address {
    Address {
        name: "Ursilly".to_string(),
        order: 0,
        number: 34,
        street: "Gnarled Knuckle Rd".to_string(),
        city: "Waverly".to_string(),
        state: "NY".to_string(),
        zipcode: 14892,
    }
}

fn mock_cart() -> Cart {
    Cart {
        entries: vec![
            CartEntry { item: 0, qty: 1 },
            CartEntry { item: 1, qty: 2 },
            CartEntry { item: 2, qty: 1 },
        ],
    }
}

#[test]
fn create_db() {
    let _ = Shop::new();
}

#[test]
fn connect_db() {
    let shop = Shop::new();
    assert_eq!(shop.stock.list_all().len(), 0);
}

#[test]
fn insert_order() {
    let mut orders = OrderStore::new();
    let cart = mock_cart();
    let cart_len = cart.entries.len();

    let inserted_id = orders.insert_order(
        "Ursilly".to_string(),
        "".to_string(),
        30_00,
        cart,
        mock_address(),
    );

    assert!(inserted_id.is_some());
    assert_eq!(inserted_id, Some(1));
    assert_eq!(orders.get_orders(OrderFilter::All).len(), 1);

    let stored = &orders.get_orders(OrderFilter::All)[0];
    assert!(stored.cart.entries.len() == cart_len);
    assert_eq!(stored.total, 30_00);
    assert!(!stored.shipped);
}

#[test]
fn test_update_order() {
    let mut orders = OrderStore::new();

    let inserted_id = orders.insert_order(
        "Ursilly".to_string(),
        "".to_string(),
        30_00,
        mock_cart(),
        mock_address(),
    );

    assert!(inserted_id.is_some());
    assert_eq!(inserted_id, Some(1));
    assert_eq!(orders.get_orders(OrderFilter::All).len(), 1);

    orders.orders_fulfilled(&vec![1]);

    assert_eq!(orders.get_orders(OrderFilter::Shipped).len(), 1);
}

#[test]
fn test_delete_order() {
    let mut orders = OrderStore::new();

    let inserted_id = orders.insert_order(
        "Ursilly".to_string(),
        "".to_string(),
        30_00,
        mock_cart(),
        mock_address(),
    );

    assert!(inserted_id.is_some());
    assert_eq!(inserted_id, Some(1));
    assert_eq!(orders.get_orders(OrderFilter::All).len(), 1);

    let deleted = orders.delete_order(1);
    assert!(deleted);

    assert_eq!(orders.get_orders(OrderFilter::All).len(), 0);
}

#[test]
fn stock_insert_and_get() {
    let mut stock = StockStore::new();
    let id = stock
        .put_item(
            "Ghosts".to_string(),
            Kind::BigPrint,
            "spooky".to_string(),
            12,
        )
        .unwrap();
    assert_eq!(id, 1);
    let item = stock.get(1).unwrap();
    assert_eq!(item.title, "Ghosts");
    assert_eq!(item.quantity, 12);
    assert!(stock.get(2).is_none());
}

#[test]
fn stock_update_item() {
    let mut stock = StockStore::new();
    stock
        .put_item("Ghosts".to_string(), Kind::BigPrint, "spooky".to_string(), 12)
        .unwrap();
    let updated = stock.update_item(
        1,
        "Ghouls".to_string(),
        Kind::Button,
        "spookier".to_string(),
        3,
    );
    assert!(updated);
    let item = stock.get(1).unwrap();
    assert_eq!(item.title, "Ghouls");
    assert_eq!(item.quantity, 3);

    let missing = stock.update_item(
        9,
        "Nothing".to_string(),
        Kind::Button,
        "".to_string(),
        0,
    );
    assert!(!missing);
}

#[test]
fn stock_delete_items() {
    let mut stock = StockStore::new();
    for title in ["a", "b", "c"] {
        stock
            .put_item(title.to_string(), Kind::Button, "".to_string(), 1)
            .unwrap();
    }
    let deleted = stock.delete_items(&vec![1, 3]);
    assert_eq!(deleted, 2);
    assert_eq!(stock.list_all().len(), 1);
    assert_eq!(stock.list_all()[0].title, "b");
}

#[test]
fn stock_get_matching_ids() {
    let mut stock = StockStore::new();
    for title in ["a", "b", "c"] {
        stock
            .put_item(title.to_string(), Kind::Button, "".to_string(), 1)
            .unwrap();
    }
    let found = stock.get_matching_ids(&vec![2, 3, 9]);
    assert_eq!(found.len(), 2);
    assert_eq!(found[0].title, "b");
    assert_eq!(found[1].title, "c");
}

#[test]
fn stock_get_title_map() {
    let mut stock = StockStore::new();
    for title in ["a", "b"] {
        stock
            .put_item(title.to_string(), Kind::Button, "".to_string(), 1)
            .unwrap();
    }
    let cart = Cart {
        entries: vec![CartEntry { item: 2, qty: 1 }],
    };
    let titles = stock.get_title_map(&cart);
    assert_eq!(titles.len(), 1);
    assert_eq!(titles[0].0, 2);
    assert_eq!(titles[0].1, "b");
}

#[test]
fn stock_decrement_clamps_at_zero() {
    let mut stock = StockStore::new();
    stock
        .put_item("a".to_string(), Kind::Button, "".to_string(), 1)
        .unwrap();
    stock
        .put_item("b".to_string(), Kind::Button, "".to_string(), 10)
        .unwrap();
    let cart = Cart {
        entries: vec![CartEntry { item: 1, qty: 5 }, CartEntry { item: 2, qty: 4 }],
    };
    stock.dec_items(&cart);
    assert_eq!(stock.get(1).unwrap().quantity, 0);
    assert_eq!(stock.get(2).unwrap().quantity, 6);
}

#[test]
fn mark_shipped_sets_tracking() {
    let mut orders = OrderStore::new();
    orders
        .insert_order(
            "Ursilly".to_string(),
            "u@example.com".to_string(),
            30_00,
            mock_cart(),
            mock_address(),
        )
        .unwrap();
    let r = orders.mark_shipped(1, "URSILLY8901".to_string());
    assert!(r.is_ok());
    let shipped = orders.get_orders(OrderFilter::Shipped);
    assert_eq!(shipped.len(), 1);
    assert_eq!(shipped[0].tracking_number, Some("URSILLY8901".to_string()));
    assert_eq!(orders.get_orders(OrderFilter::Unshipped).len(), 0);
}

#[test]
fn mark_shipped_twice_fails_and_keeps_tracking() {
    let mut orders = OrderStore::new();
    orders
        .insert_order(
            "Ursilly".to_string(),
            "u@example.com".to_string(),
            30_00,
            mock_cart(),
            mock_address(),
        )
        .unwrap();
    assert!(orders.mark_shipped(1, "FIRST0001".to_string()).is_ok());
    let again = orders.mark_shipped(1, "SECOND0002".to_string());
    assert_eq!(again, Err(OrderError::AlreadyShipped));
    let shipped = orders.get_orders(OrderFilter::Shipped);
    assert_eq!(shipped[0].tracking_number, Some("FIRST0001".to_string()));
}

#[test]
fn mark_shipped_unknown_order() {
    let mut orders = OrderStore::new();
    let r = orders.mark_shipped(7, "TRACK".to_string());
    assert_eq!(r, Err(OrderError::NotFound));
}
