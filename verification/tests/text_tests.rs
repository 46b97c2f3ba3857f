use kiggyshop::address::Address;
use kiggyshop::cart::{to_map, Cart, CartAction, CartEntry};
use kiggyshop::env::{is_valid_password, Env};
use kiggyshop::error::BackendError;
use kiggyshop::item::Kind;
use kiggyshop::mail::{Confirmation, Shipped};
use kiggyshop::orders::{Order, OrderStore};
use kiggyshop::palette::Palette;
use kiggyshop::stock::StockStore;
use kiggyshop::text::{
    hex_decode, money_string, parse_u32_str, parse_u64_str, substring, trim, u64_to_string,
};

#[test]
fn substring_cuts_between_markers() {
    let cookie = "cart={\"7\":2}, path=/, max-age=600";
    assert_eq!(substring(cookie, "cart=", "},"), Some("{\"7\":2}"));
    assert_eq!(substring(cookie, "stock=", "},"), None);
    assert_eq!(substring(cookie, "cart=", "]]"), None);
}

#[test]
fn decimal_parsing_is_exact() {
    assert_eq!(parse_u32_str("14892"), Some(14892));
    assert_eq!(parse_u32_str("0"), Some(0));
    assert_eq!(parse_u32_str(""), None);
    assert_eq!(parse_u32_str("12a"), None);
    assert_eq!(parse_u32_str("4294967295"), Some(u32::MAX));
    assert_eq!(parse_u32_str("4294967296"), None);
    assert_eq!(parse_u64_str("18446744073709551615"), Some(u64::MAX));
    assert_eq!(parse_u64_str("18446744073709551616"), None);
}

#[test]
fn decimal_rendering_is_exact() {
    assert_eq!(u64_to_string(0), "0");
    assert_eq!(u64_to_string(7), "7");
    assert_eq!(u64_to_string(2400), "2400");
    assert_eq!(u64_to_string(u64::MAX), "18446744073709551615");
}

#[test]
fn money_renders_minor_units() {
    assert_eq!(money_string(700), "7.00");
    assert_eq!(money_string(2000), "20.00");
    assert_eq!(money_string(1400), "14.00");
    assert_eq!(money_string(305), "3.05");
    assert_eq!(money_string(99), "0.99");
}

#[test]
fn hex_decoding_is_exact() {
    assert_eq!(hex_decode(b"00ff10Ab"), Some(vec![0x00, 0xff, 0x10, 0xab]));
    assert_eq!(hex_decode(b""), Some(vec![]));
    assert_eq!(hex_decode(b"0f0"), None);
    assert_eq!(hex_decode(b"zz"), None);
}

#[test]
fn validate_accepts_known_states_and_zipcodes() {
    let mut addr = Address {
        name: "Ursilly".to_string(),
        order: 0,
        number: 34,
        street: "Gnarled Knuckle Rd".to_string(),
        city: "Waverly".to_string(),
        state: "NY".to_string(),
        zipcode: 14892,
    };
    assert!(addr.validate());
    addr.state = "ZZ".to_string();
    assert!(!addr.validate());
    addr.state = "WY".to_string();
    addr.zipcode = 9999;
    assert!(!addr.validate());
    addr.zipcode = 10000;
    assert!(addr.validate());
    addr.zipcode = 99999;
    assert!(addr.validate());
    addr.zipcode = 100000;
    assert!(!addr.validate());
}

#[test]
fn address_renders_as_one_line() {
    let addr = Address {
        name: "Ursilly".to_string(),
        order: 1,
        number: 34,
        street: "Gnarled Knuckle Rd".to_string(),
        city: "Waverly".to_string(),
        state: "NY".to_string(),
        zipcode: 14892,
    };
    assert_eq!(addr.to_line(), "34 Gnarled Knuckle Rd Waverly, NY, US 14892");
}

#[test]
fn shipped_notice_renders_plaintext() {
    let shipped = Shipped::new(
        3000,
        "u@example.com".to_string(),
        "Ursilly".to_string(),
        "URSILLY8901".to_string(),
    );
    assert_eq!(
        shipped.render_plaintext(),
        "Hi, Ursilly! Your order has shipped!\\nOrder #: 3000\\nUSPS tracking #: URSILLY8901"
    );
}

#[test]
fn shipped_from_order_needs_tracking() {
    let order = Order {
        id: 3000,
        name: "Ursilly".to_string(),
        email: "u@example.com".to_string(),
        total: 2400,
        cart: Cart { entries: vec![] },
        address: Address {
            name: "Ursilly".to_string(),
            order: 3000,
            number: 34,
            street: "Gnarled Knuckle Rd".to_string(),
            city: "Waverly".to_string(),
            state: "NY".to_string(),
            zipcode: 14892,
        },
        shipped: false,
        tracking_number: None,
    };
    let refused = Shipped::from_order(&order);
    assert!(refused.is_err());
    assert_eq!(refused.err().unwrap(), "No tracking # on order 3000");
    let mut orders = OrderStore::new();
    orders
        .insert_order(
            "Ursilly".to_string(),
            "u@example.com".to_string(),
            2400,
            Cart { entries: vec![] },
            order.address,
        )
        .unwrap();
    orders.mark_shipped(1, "URSILLY8901".to_string()).unwrap();
    let shipped =
        Shipped::from_order(&orders.get_orders(kiggyshop::orders::OrderFilter::All)[0]).unwrap();
    assert_eq!(shipped.tracking, "URSILLY8901");
    assert_eq!(shipped.email, "u@example.com");
}

#[test]
fn confirmation_lists_priced_lines() {
    let mut stock = StockStore::new();
    for _ in 0..6 {
        stock
            .put_item("x".to_string(), Kind::Button, "".to_string(), 10)
            .unwrap();
    }
    stock
        .put_item("item 7".to_string(), Kind::SmallPrint, "".to_string(), 10)
        .unwrap();
    let cart = Cart {
        entries: vec![CartEntry { item: 7, qty: 2 }],
    };
    let confirmation = Confirmation::build(
        "Ursilly".to_string(),
        "34 Gnarled Knuckle Rd Waverly, NY, US 14892".to_string(),
        2400,
        &stock,
        &cart,
    );
    assert_eq!(confirmation.cart.len(), 1);
    assert_eq!(confirmation.cart[0].title, "item 7");
    assert_eq!(confirmation.cart[0].price, 700);
    assert_eq!(confirmation.cart[0].total, 1400);
    let body = confirmation.render_plaintext();
    assert_eq!(
        body,
        "Thank you Ursilly!\n\nWe appreciate your support! Your order is currently being processed, a shipping confirmation will be sent shortly.\n\nitem 7 x2 @ 7.00 = 14.00\nTotal: 24.00"
    );
}

#[test]
fn cart_actions_follow_the_reducer() {
    let cart = Cart { entries: vec![] };
    let cart = cart.update_cart(CartAction::AddItem(7));
    assert_eq!(cart.lookup(7), Some(1));
    let cart = cart.update_cart(CartAction::IncItem(7));
    assert_eq!(cart.lookup(7), Some(2));
    let cart = cart.update_cart(CartAction::DecItem(7));
    assert_eq!(cart.lookup(7), Some(1));
    let cart = cart.update_cart(CartAction::DecItem(9));
    assert_eq!(cart.lookup(9), Some(1));
    let cart = cart.update_cart(CartAction::RemoveItem(7));
    assert_eq!(cart.lookup(7), None);
    assert_eq!(cart.lookup(9), Some(1));
}

#[test]
fn cart_count_sums_quantities() {
    let cart = Cart {
        entries: vec![CartEntry { item: 1, qty: 2 }, CartEntry { item: 2, qty: 5 }],
    };
    assert_eq!(cart.count(), 7);
    let empty = Cart { entries: vec![] };
    assert_eq!(empty.count(), 0);
}

#[test]
fn to_map_keeps_the_last_pair() {
    let pairs = vec![
        CartEntry { item: 1, qty: 2 },
        CartEntry { item: 2, qty: 3 },
        CartEntry { item: 1, qty: 9 },
    ];
    let cart = to_map(&pairs);
    assert_eq!(cart.lookup(1), Some(9));
    assert_eq!(cart.lookup(2), Some(3));
    assert_eq!(cart.lookup(3), None);
}

#[test]
fn palette_colors_are_fixed() {
    assert_eq!(Palette::Pink.to_color(), [255, 142, 173]);
    assert_eq!(Palette::Red.to_color(), [228, 67, 66]);
    assert_eq!(Palette::Green.to_color(), [125, 122, 25]);
    assert_eq!(Palette::White.to_color(), [255, 255, 255]);
    assert_eq!(Palette::Black.to_color(), [0, 0, 0]);
    assert_eq!(Palette::Yellow.to_color(), [255, 241, 118]);
}

#[test]
fn backend_errors_have_messages() {
    assert_eq!(
        BackendError::DbError("no table".to_string()).message(),
        "Error in database: no table"
    );
    assert_eq!(
        BackendError::ContentNotFound("/shop".to_string()).message(),
        "Page call /shop not found"
    );
    assert_eq!(
        BackendError::Unauthorized.message(),
        "YOU are not authorized to access this content . . ."
    );
}

#[test]
fn password_check_compares_configured_secret() {
    let env = Env::new(
        "db.sqlite".to_string(),
        "payment secret".to_string(),
        "signing secret".to_string(),
        "https://example.com/done".to_string(),
        "mail@example.com".to_string(),
        "mail pass".to_string(),
        "opensesame".to_string(),
    );
    assert!(is_valid_password("opensesame", &env));
    assert!(!is_valid_password("wrong", &env));
}

#[test]
fn backend_errors_map_to_statuses() {
    assert_eq!(BackendError::ContentNotFound("x".to_string()).status_code(), 404);
    assert_eq!(BackendError::DbError("x".to_string()).status_code(), 500);
    assert_eq!(BackendError::FileReadError("x".to_string()).status_code(), 424);
    assert_eq!(BackendError::ResourceLocked("x".to_string()).status_code(), 423);
    assert_eq!(BackendError::Unauthorized.status_code(), 403);
    assert_eq!(BackendError::RateLimitError.status_code(), 200);
}

#[test]
fn palette_classes_are_fixed() {
    assert_eq!(Palette::Pink.tailwind_class(), "kiggypink");
    assert_eq!(Palette::Yellow.tailwind_class(), "yellow-300");
}

#[test]
fn trim_strips_surrounding_whitespace() {
    assert_eq!(trim("  34 Main St  "), "34 Main St");
    assert_eq!(trim("\t\n x \r"), "x");
    assert_eq!(trim("nothing to do"), "nothing to do");
    assert_eq!(trim("   "), "");
    assert_eq!(trim(""), "");
}
