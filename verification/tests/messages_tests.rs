use exchange_engine::markets::split_market;
use exchange_engine::messages::{
    get_random_client_id, order_update_messages, send_step, trade_messages, trade_messages_at, SendStep,
};
use exchange_engine::order_book::{Fill, Order};
use exchange_engine::types::{DbMessage, Side};

fn s(x: &str) -> String {
    x.to_string()
}

fn fill(id: &str, user: &str, price: i64, quantity: i64) -> Fill {
    Fill { price, quantity, order_id: s(id), filled: 0, side: Side::Sell, user_id: s(user) }
}

#[test]
fn order_updates_for_order_and_fills() {
    let order = Order { price: 105, quantity: 9, order_id: s("o9"), filled: 0, side: Side::Buy, user_id: s("1") };
    let fills = vec![fill("a1", "2", 100, 4), fill("a2", "3", 101, 1)];
    let msgs = order_update_messages(&order, 5, &fills, s("TATA_INR"));
    assert_eq!(msgs.len(), 3);
    match &msgs[0] {
        DbMessage::OrderUpdate(u) => {
            assert_eq!(u.order_id, "o9");
            assert_eq!(u.executed_qty, 5);
            assert_eq!(u.market.as_deref(), Some("TATA_INR"));
            assert_eq!(u.price.as_deref(), Some("105"));
            assert_eq!(u.quantity.as_deref(), Some("9"));
            assert_eq!(u.side, Some(Side::Buy));
        },
        _ => panic!("expected an order update"),
    }
    match &msgs[2] {
        DbMessage::OrderUpdate(u) => {
            assert_eq!(u.order_id, "a2");
            assert_eq!(u.executed_qty, 1);
            assert!(u.market.is_none() && u.price.is_none() && u.quantity.is_none() && u.side.is_none());
        },
        _ => panic!("expected an order update"),
    }
}

#[test]
fn trades_for_fills() {
    let fills = vec![fill("a1", "2", 100, 4), fill("a2", "7", 101, 1)];
    let msgs = trade_messages_at(&fills, &s("TATA_INR"), &s("7"), 1234);
    assert_eq!(msgs.len(), 2);
    match &msgs[0] {
        DbMessage::TradeAdded(t) => {
            assert_eq!(t.id, "a1");
            assert!(!t.is_buyer_maker);
            assert_eq!(t.price, "100");
            assert_eq!(t.quantity, "4");
            assert_eq!(t.quote_quantity, "400");
            assert_eq!(t.timestamp, 1234);
            assert_eq!(t.market, "TATA_INR");
        },
        _ => panic!("expected a trade"),
    }
    match &msgs[1] {
        DbMessage::TradeAdded(t) => assert!(t.is_buyer_maker),
        _ => panic!("expected a trade"),
    }
    let now = trade_messages(&fills, &s("TATA_INR"), &s("7"));
    assert_eq!(now.len(), 2);
    match &now[0] {
        DbMessage::TradeAdded(t) => assert!(t.timestamp > 0),
        _ => panic!("expected a trade"),
    }
}

#[test]
fn client_id_is_between_one_and_five() {
    for _ in 0..50 {
        let id: i64 = get_random_client_id().parse().unwrap();
        assert!((1..=5).contains(&id));
    }
}

#[test]
fn retry_decisions() {
    assert_eq!(send_step(None, true), (1, SendStep::Push));
    assert_eq!(send_step(None, false), (1, SendStep::Retry));
    assert_eq!(send_step(Some(3), false), (4, SendStep::Retry));
    assert_eq!(send_step(Some(4), false), (5, SendStep::GiveUp));
    assert_eq!(send_step(Some(4), true), (5, SendStep::Push));
}

#[test]
fn market_names_split_at_underscore() {
    assert_eq!(split_market(&s("TATA_INR")), (s("TATA"), s("INR")));
    assert_eq!(split_market(&s("A_B_C")), (s("A"), s("B")));
    assert_eq!(split_market(&s("_X")), (s(""), s("X")));
}
