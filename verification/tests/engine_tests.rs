use exchange_engine::balances::{AssetBalances, UserBalances};
use exchange_engine::engine::{Engine, SnapShotData};
use exchange_engine::order_book::{Fill, Order, OrderBook};
use exchange_engine::types::{CreateOrderMessage, Side};

fn s(x: &str) -> String {
    x.to_string()
}

fn bal(e: &Engine, user: &str, asset: &str) -> Option<UserBalances> {
    e.balances().get_balance(&s(user), &s(asset))
}

fn msg(side: Side, user: &str, price: &str, qty: &str) -> CreateOrderMessage {
    CreateOrderMessage { market: s("TATA_INR"), price: s(price), quantity: s(qty), side, user_id: s(user) }
}

fn fill(user: &str, price: i64, quantity: i64) -> Fill {
    Fill { price, quantity, order_id: s("o1"), filled: quantity as i32, side: Side::Sell, user_id: s(user) }
}

#[test]
fn fresh_engine_has_default_book_and_demo_users() {
    let e = Engine::new(None);
    let books = e.order_books();
    assert_eq!(books.len(), 1);
    assert_eq!(books[0].ticker(), "TATA_INR");
    assert!(books[0].bids.is_empty() && books[0].asks.is_empty());
    for u in ["1", "2", "5"] {
        assert_eq!(bal(&e, u, "INR"), Some(UserBalances { available: 10_000_000, locked: 0 }));
        assert_eq!(bal(&e, u, "TATA"), Some(UserBalances { available: 10_000_000, locked: 0 }));
    }
    assert_eq!(bal(&e, "3", "INR"), None);
}

#[test]
fn lock_funds_for_buy_moves_price_times_quantity() {
    let mut e = Engine::new(None);
    let m = msg(Side::Buy, "1", "100", "3");
    assert!(e.can_lock_funds(&m, &s("TATA"), &s("INR")));
    e.check_and_lock_funds(m, s("TATA"), s("INR"));
    assert_eq!(bal(&e, "1", "INR"), Some(UserBalances { available: 10_000_000 - 300, locked: 300 }));
    assert_eq!(bal(&e, "1", "TATA"), Some(UserBalances { available: 10_000_000, locked: 0 }));
}

#[test]
fn lock_funds_for_sell_moves_quantity_of_base() {
    let mut e = Engine::new(None);
    let m = msg(Side::Sell, "2", "100", "7");
    assert!(e.can_lock_funds(&m, &s("TATA"), &s("INR")));
    e.check_and_lock_funds(m, s("TATA"), s("INR"));
    assert_eq!(bal(&e, "2", "TATA"), Some(UserBalances { available: 10_000_000 - 7, locked: 7 }));
    let total = bal(&e, "2", "TATA").unwrap();
    assert_eq!(total.available + total.locked, 10_000_000);
}

#[test]
fn lock_funds_refused_when_short_or_unparsable() {
    let e = Engine::new(None);
    assert!(!e.can_lock_funds(&msg(Side::Buy, "1", "100000", "101"), &s("TATA"), &s("INR")));
    assert!(!e.can_lock_funds(&msg(Side::Buy, "9", "1", "1"), &s("TATA"), &s("INR")));
    assert!(!e.can_lock_funds(&msg(Side::Buy, "1", "1.5", "1"), &s("TATA"), &s("INR")));
    assert!(!e.can_lock_funds(&msg(Side::Sell, "1", "1", "x"), &s("TATA"), &s("INR")));
    assert!(e.can_lock_funds(&msg(Side::Buy, "9", "1", "0"), &s("TATA"), &s("INR")));
}

#[test]
fn lock_zero_for_unknown_user_creates_entry() {
    let mut e = Engine::new(None);
    e.check_and_lock_funds(msg(Side::Buy, "9", "5", "0"), s("TATA"), s("INR"));
    assert_eq!(bal(&e, "9", "INR"), Some(UserBalances { available: 0, locked: 0 }));
}

#[test]
fn on_ramp_credits_inr() {
    let mut e = Engine::new(None);
    e.on_ramp(s("1"), 50);
    assert_eq!(bal(&e, "1", "INR"), Some(UserBalances { available: 10_000_050, locked: 0 }));
    e.on_ramp(s("7"), 20);
    assert_eq!(bal(&e, "7", "INR"), Some(UserBalances { available: 20, locked: 0 }));
    assert_eq!(bal(&e, "7", "TATA"), None);
}

#[test]
fn on_ramp_leaves_user_without_inr_entry_alone() {
    let mut assets = AssetBalances::new();
    assets.insert(s("TATA"), UserBalances { available: 1, locked: 0 });
    let snap = SnapShotData { orderbook: vec![], balances: vec![(s("8"), assets)] };
    let mut e = Engine::new(Some(snap));
    e.on_ramp(s("8"), 20);
    assert_eq!(bal(&e, "8", "INR"), None);
    assert_eq!(bal(&e, "8", "TATA"), Some(UserBalances { available: 1, locked: 0 }));
}

#[test]
fn update_balance_moves_between_available_and_locked() {
    let mut e = Engine::new(None);
    let r = e.update_balance(s("2"), s("TATA"), s("INR"), Side::Buy, vec![fill("1", 10, 3), fill("x", 10, 3)]);
    assert_eq!(r, Ok(s("Updated Balances")));
    assert_eq!(bal(&e, "1", "TATA"), Some(UserBalances { available: 10_000_030, locked: -30 }));
    assert_eq!(bal(&e, "1", "INR"), Some(UserBalances { available: 10_000_030, locked: -30 }));
    assert_eq!(bal(&e, "2", "INR"), Some(UserBalances { available: 10_000_000, locked: 0 }));
    let r = e.update_balance(s("2"), s("TATA"), s("INR"), Side::Sell, vec![fill("1", 10, 3)]);
    assert_eq!(r, Ok(s("Updated Balances")));
    assert_eq!(bal(&e, "1", "TATA"), Some(UserBalances { available: 10_000_000, locked: 0 }));
    assert_eq!(bal(&e, "1", "INR"), Some(UserBalances { available: 10_000_000, locked: 0 }));
}

#[test]
fn update_balance_same_base_and_quote_applies_twice() {
    let mut e = Engine::new(None);
    e.update_balance(s("1"), s("INR"), s("INR"), Side::Sell, vec![fill("5", 2, 4)]).unwrap();
    assert_eq!(bal(&e, "5", "INR"), Some(UserBalances { available: 10_000_000 - 16, locked: 16 }));
}

#[test]
fn snapshot_restores_books_and_balances() {
    let mut e = Engine::new(None);
    e.on_ramp(s("42"), 99);
    e.check_and_lock_funds(msg(Side::Buy, "1", "2", "3"), s("TATA"), s("INR"));
    let snap = e.snapshot();
    assert_eq!(snap.orderbook.len(), 1);
    let restored = Engine::new(Some(snap));
    assert_eq!(restored.order_books().len(), 1);
    assert_eq!(restored.order_books()[0].ticker(), "TATA_INR");
    assert_eq!(bal(&restored, "42", "INR"), Some(UserBalances { available: 99, locked: 0 }));
    // the demo users get their starting balances back on restore
    assert_eq!(bal(&restored, "1", "INR"), Some(UserBalances { available: 10_000_000, locked: 0 }));
}

#[test]
fn set_base_balances_resets_demo_users() {
    let mut e = Engine::new(None);
    e.on_ramp(s("1"), 5);
    e.set_base_balances();
    e.set_base_balances();
    assert_eq!(bal(&e, "1", "INR"), Some(UserBalances { available: 10_000_000, locked: 0 }));
}

#[test]
fn create_order_resolves_market() {
    let e = Engine::new(None);
    let (k, base, quote) = e.create_order(msg(Side::Buy, "1", "1", "1")).unwrap();
    assert_eq!((k, base.as_str(), quote.as_str()), (0, "TATA", "INR"));
    let mut m = msg(Side::Buy, "1", "1", "1");
    m.market = s("ABC_INR");
    assert!(e.create_order(m).is_none());
}

#[test]
fn depth_update_at_price() {
    let book = OrderBook::new(
        vec![
            Order { price: 100, quantity: 2, order_id: s("b1"), filled: 0, side: Side::Buy, user_id: s("1") },
            Order { price: 100, quantity: 3, order_id: s("b2"), filled: 0, side: Side::Buy, user_id: s("2") },
        ],
        vec![],
        s("TATA"),
        0,
        0,
    );
    let e = Engine::new(Some(SnapShotData { orderbook: vec![book], balances: vec![] }));
    let u = e.send_update_and_depth_at(s("100"), s("TATA_INR")).ok().unwrap();
    assert_eq!(u.channel, "depth@TATA_INR");
    assert_eq!(u.stream, "trade@TATA_INR");
    assert_eq!(u.bids, vec![(s("100"), s("5"))]);
    assert_eq!(u.asks, vec![(s("100"), s("0"))]);
    let u = e.send_update_and_depth_at(s("7"), s("TATA_INR")).ok().unwrap();
    assert_eq!(u.bids, vec![(s("7"), s("0"))]);
    assert_eq!(e.send_update_and_depth_at(s("100"), s("X_Y")).err().unwrap(), "Order book not found");
}

#[test]
fn sell_with_same_fills_undoes_buy() {
    let mut e = Engine::new(None);
    let fills = vec![fill("1", 7, 3), fill("5", 2, 9), fill("1", 4, 1)];
    let before: Vec<Option<UserBalances>> = ["1", "2", "5"]
        .iter()
        .flat_map(|u| ["INR", "TATA"].iter().map(move |a| (*u, *a)))
        .map(|(u, a)| bal(&e, u, a))
        .collect();
    e.update_balance(s("2"), s("TATA"), s("INR"), Side::Buy, fills.clone()).unwrap();
    assert_eq!(bal(&e, "1", "INR"), Some(UserBalances { available: 10_000_025, locked: -25 }));
    e.update_balance(s("5"), s("TATA"), s("INR"), Side::Sell, fills).unwrap();
    let after: Vec<Option<UserBalances>> = ["1", "2", "5"]
        .iter()
        .flat_map(|u| ["INR", "TATA"].iter().map(move |a| (*u, *a)))
        .map(|(u, a)| bal(&e, u, a))
        .collect();
    assert_eq!(before, after);
}
