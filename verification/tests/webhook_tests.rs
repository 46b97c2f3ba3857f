use hmac::{Hmac, Mac};
use sha2::Sha256;

use kiggyshop::cart::{Cart, CartEntry};
use kiggyshop::item::Kind;
use kiggyshop::orders::OrderFilter;
use kiggyshop::shop::{FulfillmentError, Shop};
use kiggyshop::provider::{ProviderCache, SHIPPING_FEE};
use kiggyshop::webhook::{
    make_address, parse_signature_header, response_status, verify_and_route, verify_signature,
    ParsedEvent, WebhookError,
};

const SECRET: &[u8] = b"whsec_shop_test_signing_secret";
const TOLERANCE: u64 = 300;

fn hex_of(bytes: &[u8]) -> String {
    let digits = b"0123456789abcdef";
    let mut out = String::new();
    for b in bytes {
        out.push(digits[(b >> 4) as usize] as char);
        out.push(digits[(b & 0x0f) as usize] as char);
    }
    out
}

fn sign_header(secret: &[u8], t: u64, body: &[u8]) -> Vec<u8> {
    let mut mac = Hmac::<Sha256>::new_from_slice(secret).unwrap();
    let mut signed = format!("{t}.").into_bytes();
    signed.extend_from_slice(body);
    mac.update(&signed);
    let tag = mac.finalize().into_bytes();
    format!("t={t},v1={}", hex_of(&tag)).into_bytes()
}

fn shop_with_item_seven() -> Shop {
    let mut shop = Shop::new();
    let kinds = [
        Kind::BigPrint,
        Kind::BigPrint,
        Kind::Button,
        Kind::Button,
        Kind::SmallPrint,
        Kind::BigPrint,
        Kind::SmallPrint,
    ];
    for (i, kind) in kinds.iter().enumerate() {
        let title = format!("item {}", i + 1);
        shop.stock
            .put_item(title, *kind, "art".to_string(), 10)
            .unwrap();
    }
    shop
}

fn completed_event() -> ParsedEvent {
    ParsedEvent {
        event_type: "checkout.session.completed".to_string(),
        session_id: "cs_test_123".to_string(),
        customer_name: Some("Ursilly".to_string()),
        customer_email: Some("ursilly@example.com".to_string()),
        line1: Some("34 Gnarled Knuckle Rd".to_string()),
        line2: None,
        city: Some("Waverly".to_string()),
        state: Some("NY".to_string()),
        postal_code: Some("14892".to_string()),
        amount_total: Some(2400),
    }
}

#[test]
fn signature_round_trip() {
    let body = b"{\"id\":\"evt_1\"}";
    let header = sign_header(SECRET, 1000, body);
    assert!(verify_signature(body, &header, SECRET, 1000, TOLERANCE));
    assert!(verify_signature(body, &header, SECRET, 1299, TOLERANCE));
}

#[test]
fn signature_rejects_tampered_body() {
    let body = b"{\"id\":\"evt_1\"}";
    let header = sign_header(SECRET, 1000, body);
    assert!(!verify_signature(b"{\"id\":\"evt_2\"}", &header, SECRET, 1000, TOLERANCE));
}

#[test]
fn signature_rejects_wrong_secret() {
    let body = b"{}";
    let header = sign_header(b"other secret", 1000, body);
    assert!(!verify_signature(body, &header, SECRET, 1000, TOLERANCE));
}

#[test]
fn signature_rejects_stale_timestamp() {
    let body = b"{}";
    let header = sign_header(SECRET, 1000, body);
    assert!(!verify_signature(body, &header, SECRET, 1301, TOLERANCE));
}

#[test]
fn header_parses_timestamp_and_hex() {
    let parsed = parse_signature_header(b"t=123,v1=00ff").unwrap();
    assert_eq!(parsed.timestamp, 123);
    assert_eq!(parsed.timestamp_raw, b"123".to_vec());
    assert_eq!(parsed.signatures, vec![vec![0x00, 0xff]]);
    let rotated = parse_signature_header(b"t=123,v1=00ff,v1=0a0b").unwrap();
    assert_eq!(rotated.signatures, vec![vec![0x00, 0xff], vec![0x0a, 0x0b]]);
}

#[test]
fn header_without_signature_is_refused() {
    assert!(parse_signature_header(b"t=123").is_none());
    assert!(parse_signature_header(b"v1=00ff").is_none());
    assert!(parse_signature_header(b"t=abc,v1=00ff").is_none());
    assert!(parse_signature_header(b"t=123,v1=0f0").is_none());
    assert!(parse_signature_header(b"t=123,v1=00ff,v1=zz").is_none());
}

#[test]
fn completed_checkout_fulfils_once() {
    let mut shop = shop_with_item_seven();
    let cart = Cart {
        entries: vec![CartEntry { item: 7, qty: 2 }],
    };
    assert!(shop.register_pending("cs_test_123".to_string(), cart));

    let body = b"{\"type\":\"checkout.session.completed\"}";
    let header = sign_header(SECRET, 5000, body);
    let event = completed_event();

    let r = verify_and_route(&mut shop, body, &header, SECRET, 5000, TOLERANCE, &event);
    assert_eq!(r, Ok(Some(1)));

    let orders = shop.orders.get_orders(OrderFilter::All);
    assert_eq!(orders.len(), 1);
    assert_eq!(orders[0].total, 2400);
    assert_eq!(orders[0].name, "Ursilly");
    assert_eq!(orders[0].email, "ursilly@example.com");
    assert_eq!(orders[0].cart.entries.len(), 1);
    assert_eq!(orders[0].cart.entries[0], CartEntry { item: 7, qty: 2 });
    assert_eq!(orders[0].address.number, 34);
    assert_eq!(orders[0].address.street, "Gnarled Knuckle Rd");
    assert_eq!(orders[0].address.zipcode, 14892);
    assert!(!orders[0].shipped);

    assert_eq!(shop.stock.get(7).unwrap().quantity, 8);
}

#[test]
fn replayed_webhook_is_a_no_op() {
    let mut shop = shop_with_item_seven();
    let cart = Cart {
        entries: vec![CartEntry { item: 7, qty: 2 }],
    };
    assert!(shop.register_pending("cs_test_123".to_string(), cart));

    let body = b"{\"type\":\"checkout.session.completed\"}";
    let header = sign_header(SECRET, 5000, body);
    let event = completed_event();

    let first = verify_and_route(&mut shop, body, &header, SECRET, 5000, TOLERANCE, &event);
    assert_eq!(first, Ok(Some(1)));

    let second = verify_and_route(&mut shop, body, &header, SECRET, 5000, TOLERANCE, &event);
    assert_eq!(second, Err(WebhookError::DuplicateFulfillment));

    assert_eq!(shop.orders.get_orders(OrderFilter::All).len(), 1);
    assert_eq!(shop.stock.get(7).unwrap().quantity, 8);
}

#[test]
fn unverifiable_webhook_changes_nothing() {
    let mut shop = shop_with_item_seven();
    let cart = Cart {
        entries: vec![CartEntry { item: 7, qty: 2 }],
    };
    assert!(shop.register_pending("cs_test_123".to_string(), cart));

    let body = b"{\"type\":\"checkout.session.completed\"}";
    let header = sign_header(b"attacker guess", 5000, body);
    let event = completed_event();

    let r = verify_and_route(&mut shop, body, &header, SECRET, 5000, TOLERANCE, &event);
    assert_eq!(r, Err(WebhookError::VerificationError));

    assert_eq!(shop.orders.get_orders(OrderFilter::All).len(), 0);
    assert_eq!(shop.stock.get(7).unwrap().quantity, 10);
    assert_eq!(shop.fulfilled.len(), 0);
}

#[test]
fn other_event_types_are_ignored() {
    let mut shop = shop_with_item_seven();
    let body = b"{\"type\":\"invoice.paid\"}";
    let header = sign_header(SECRET, 5000, body);
    let mut event = completed_event();
    event.event_type = "invoice.paid".to_string();

    let r = verify_and_route(&mut shop, body, &header, SECRET, 5000, TOLERANCE, &event);
    assert_eq!(r, Ok(None));
    assert_eq!(shop.orders.get_orders(OrderFilter::All).len(), 0);
}

#[test]
fn missing_email_is_malformed() {
    let mut shop = shop_with_item_seven();
    let cart = Cart {
        entries: vec![CartEntry { item: 7, qty: 2 }],
    };
    assert!(shop.register_pending("cs_test_123".to_string(), cart));

    let body = b"{}";
    let header = sign_header(SECRET, 5000, body);
    let mut event = completed_event();
    event.customer_email = None;

    let r = verify_and_route(&mut shop, body, &header, SECRET, 5000, TOLERANCE, &event);
    assert_eq!(r, Err(WebhookError::MalformedPayload));
    assert_eq!(shop.orders.get_orders(OrderFilter::All).len(), 0);
    assert_eq!(shop.stock.get(7).unwrap().quantity, 10);
}

#[test]
fn unknown_session_is_malformed() {
    let mut shop = shop_with_item_seven();
    let body = b"{}";
    let header = sign_header(SECRET, 5000, body);
    let event = completed_event();

    let r = verify_and_route(&mut shop, body, &header, SECRET, 5000, TOLERANCE, &event);
    assert_eq!(r, Err(WebhookError::MalformedPayload));
    assert_eq!(shop.orders.get_orders(OrderFilter::All).len(), 0);
}

#[test]
fn exhausted_order_ids_are_a_persistence_error() {
    let mut shop = shop_with_item_seven();
    shop.orders.next_id = u32::MAX;
    let cart = Cart {
        entries: vec![CartEntry { item: 7, qty: 2 }],
    };
    assert!(shop.register_pending("cs_test_123".to_string(), cart));

    let body = b"{}";
    let header = sign_header(SECRET, 5000, body);
    let event = completed_event();

    let r = verify_and_route(&mut shop, body, &header, SECRET, 5000, TOLERANCE, &event);
    assert_eq!(r, Err(WebhookError::PersistenceError));
    assert_eq!(shop.orders.get_orders(OrderFilter::All).len(), 0);
}

#[test]
fn fulfill_without_pending_session_is_refused() {
    let mut shop = shop_with_item_seven();
    let r = shop.fulfill(
        &"cs_never_seen".to_string(),
        "Ursilly".to_string(),
        "u@example.com".to_string(),
        2400,
        kiggyshop::address::Address {
            name: "Ursilly".to_string(),
            order: 0,
            number: 34,
            street: "Gnarled Knuckle Rd".to_string(),
            city: "Waverly".to_string(),
            state: "NY".to_string(),
            zipcode: 14892,
        },
    );
    assert_eq!(r, Err(FulfillmentError::MissingSession));
}

#[test]
fn register_pending_refuses_duplicates() {
    let mut shop = shop_with_item_seven();
    let cart = Cart {
        entries: vec![CartEntry { item: 7, qty: 2 }],
    };
    assert!(shop.register_pending("cs_a".to_string(), cart));
    let cart2 = Cart {
        entries: vec![CartEntry { item: 1, qty: 1 }],
    };
    assert!(!shop.register_pending("cs_a".to_string(), cart2));
    assert_eq!(shop.pending.len(), 1);
}

#[test]
fn response_status_follows_retry_policy() {
    assert_eq!(response_status(&Ok(Some(1))), 200);
    assert_eq!(response_status(&Ok(None)), 200);
    assert_eq!(response_status(&Err(WebhookError::VerificationError)), 400);
    assert_eq!(response_status(&Err(WebhookError::MalformedPayload)), 400);
    assert_eq!(response_status(&Err(WebhookError::DuplicateFulfillment)), 200);
    assert_eq!(response_status(&Err(WebhookError::PersistenceError)), 500);
}

#[test]
fn provider_cache_registers_each_item_once() {
    let mut cache = ProviderCache::new();
    assert!(cache.insert(7, "prod_a".to_string(), "price_a".to_string()));
    assert!(!cache.insert(7, "prod_b".to_string(), "price_b".to_string()));
    let rec = cache.get(7).unwrap();
    assert_eq!(rec.product_id, "prod_a");
    assert_eq!(rec.price_id, "price_a");
    assert!(cache.get(9).is_none());

    let cart = Cart {
        entries: vec![CartEntry { item: 7, qty: 2 }, CartEntry { item: 9, qty: 1 }],
    };
    assert_eq!(cache.missing_of(&cart), vec![9]);
}

#[test]
fn any_rotated_signature_verifies() {
    let body = b"{\"id\":\"evt_1\"}";
    let good = sign_header(SECRET, 1000, body);
    let stale_secret = sign_header(b"retired secret", 1000, body);
    // During a secret rotation the provider sends one signature per
    // secret; the delivery is valid if any one of them matches.
    let mut both = stale_secret.clone();
    both.extend_from_slice(b",");
    both.extend_from_slice(&good[b"t=1000,".len()..]);
    assert!(verify_signature(body, &both, SECRET, 1000, TOLERANCE));
    assert!(!verify_signature(body, &stale_secret, SECRET, 1000, TOLERANCE));
}

#[test]
fn street_line_is_trimmed_before_the_split() {
    let addr = make_address(
        &"Ursilly".to_string(),
        &"  34 Gnarled Knuckle Rd  ".to_string(),
        &None,
        &"Waverly".to_string(),
        &"NY".to_string(),
        &"14892".to_string(),
    )
    .unwrap();
    assert_eq!(addr.number, 34);
    assert_eq!(addr.street, "Gnarled Knuckle Rd");
    assert!(make_address(
        &"Ursilly".to_string(),
        &"NoNumberStreet".to_string(),
        &None,
        &"Waverly".to_string(),
        &"NY".to_string(),
        &"14892".to_string(),
    )
    .is_none());
}

#[test]
fn payment_link_items_pair_prices_with_quantities() {
    let mut cache = ProviderCache::new();
    let cart = Cart {
        entries: vec![CartEntry { item: 7, qty: 2 }, CartEntry { item: 9, qty: 1 }],
    };
    assert!(cache.payment_link_line_items(&cart).is_none());
    assert!(cache.insert(7, "prod_7".to_string(), "price_7".to_string()));
    assert!(cache.insert(9, "prod_9".to_string(), "price_9".to_string()));
    let items = cache.payment_link_line_items(&cart).unwrap();
    assert_eq!(
        items,
        vec![("price_7".to_string(), 2), ("price_9".to_string(), 1)]
    );
    assert_eq!(SHIPPING_FEE, 1000);
}
