use exchange_engine::order_book::{Order, OrderBook};
use exchange_engine::types::Side;

fn order(id: &str, user: &str, side: Side, price: i64, quantity: i64) -> Order {
    Order {
        price,
        quantity,
        order_id: id.to_string(),
        filled: 0,
        side,
        user_id: user.to_string(),
    }
}

fn book(bids: Vec<Order>, asks: Vec<Order>) -> OrderBook {
    OrderBook::new(bids, asks, "TATA".to_string(), 0, 0)
}

#[test]
fn new_book_is_quoted_in_inr() {
    let b = book(vec![], vec![]);
    assert_eq!(b.quote_asset, "INR");
    assert_eq!(b.base_asset, "TATA");
    assert_eq!(b.ticker(), "TATA_INR");
}

#[test]
fn match_bid_partial_fill() {
    let mut b = book(vec![], vec![order("a1", "u1", Side::Sell, 100, 5), order("a2", "u2", Side::Sell, 101, 3)]);
    let (fills, executed) = b.match_bid(order("b1", "u3", Side::Buy, 100, 2));
    assert_eq!(executed, 2);
    assert_eq!(fills.len(), 1);
    assert_eq!(fills[0].price, 100);
    assert_eq!(fills[0].quantity, 2);
    assert_eq!(fills[0].order_id, "a1");
    assert_eq!(fills[0].filled, 2);
    assert_eq!(fills[0].side, Side::Sell);
    assert_eq!(fills[0].user_id, "u1");
    assert_eq!(b.asks.len(), 2);
    assert_eq!(b.asks[0].filled, 2);
    assert_eq!(b.asks[1].filled, 0);
    assert!(b.bids.is_empty());
}

#[test]
fn match_bid_removes_complete_last_ask() {
    let mut b = book(vec![], vec![order("a1", "u1", Side::Sell, 101, 5), order("a2", "u2", Side::Sell, 100, 3)]);
    let (fills, executed) = b.match_bid(order("b1", "u3", Side::Buy, 100, 3));
    assert_eq!(executed, 3);
    assert_eq!(fills.len(), 1);
    assert_eq!(fills[0].order_id, "a2");
    // a2 is complete and stands last: the sweep takes it out
    assert_eq!(b.asks.len(), 1);
    assert_eq!(b.asks[0].order_id, "a1");
}

#[test]
fn match_skips_same_order_id_and_non_crossing() {
    let mut b = book(vec![], vec![order("x", "u1", Side::Sell, 100, 5), order("a2", "u2", Side::Sell, 120, 3)]);
    let (fills, executed) = b.match_bid(order("x", "u3", Side::Buy, 110, 4));
    assert_eq!(executed, 0);
    assert!(fills.is_empty());
    assert_eq!(b.asks.len(), 2);
}

#[test]
fn match_ask_against_bids() {
    let mut b = book(vec![order("b1", "u1", Side::Buy, 100, 4), order("b2", "u2", Side::Buy, 90, 4)], vec![]);
    let (fills, executed) = b.match_ask(order("s1", "u3", Side::Sell, 95, 3));
    assert_eq!(executed, 3);
    assert_eq!(fills.len(), 1);
    assert_eq!(fills[0].side, Side::Buy);
    assert_eq!(fills[0].order_id, "b1");
    assert_eq!(b.bids.len(), 2);
    assert_eq!(b.bids[0].filled, 3);
    assert!(b.asks.is_empty());
}

#[test]
fn add_order_keeps_unfilled_remainder_on_bids() {
    let mut b = book(vec![], vec![]);
    let (fills, executed) = b.add_order(order("b1", "u1", Side::Buy, 100, 3));
    assert!(fills.is_empty());
    assert_eq!(executed, 0);
    assert_eq!(b.bids.len(), 1);
    // a sell that does not fill is appended to the bids as well
    let (_, executed) = b.add_order(order("s1", "u2", Side::Sell, 200, 2));
    assert_eq!(executed, 0);
    assert_eq!(b.bids.len(), 2);
    assert_eq!(b.bids[1].order_id, "s1");
    assert!(b.asks.is_empty());
}

#[test]
fn add_order_fully_filled_is_not_kept() {
    let mut b = book(vec![], vec![order("a1", "u1", Side::Sell, 100, 5)]);
    let (fills, executed) = b.add_order(order("b1", "u2", Side::Buy, 100, 5));
    assert_eq!(executed, 5);
    assert_eq!(fills.len(), 1);
    assert!(b.bids.is_empty());
    assert!(b.asks.is_empty());
}

#[test]
fn cancel_bid_removes_first_match() {
    let mut b = book(vec![order("b1", "u1", Side::Buy, 100, 1), order("b2", "u1", Side::Buy, 101, 1)], vec![]);
    let removed = b.cancel_bid("b2".to_string()).unwrap();
    assert_eq!(removed.order_id, "b2");
    assert_eq!(b.bids.len(), 1);
    assert_eq!(b.cancel_bid("zz".to_string()).unwrap_err(), "Order not found");
    assert_eq!(b.bids.len(), 1);
}

#[test]
fn cancel_ask_removes_bid_at_ask_position() {
    let mut b = book(
        vec![order("b1", "u1", Side::Buy, 100, 1), order("b2", "u1", Side::Buy, 101, 1)],
        vec![order("a1", "u2", Side::Sell, 110, 1), order("a2", "u2", Side::Sell, 111, 1)],
    );
    let removed = b.cancel_ask("a2".to_string()).unwrap();
    assert_eq!(removed.order_id, "b2");
    assert_eq!(b.asks.len(), 2);
    assert_eq!(b.bids.len(), 1);
    assert_eq!(b.cancel_ask("nope".to_string()).unwrap_err(), "Order not found");
}

#[test]
fn open_orders_lists_asks_then_bids_of_user() {
    let mut b = book(
        vec![order("b1", "u1", Side::Buy, 100, 1), order("b2", "u2", Side::Buy, 101, 1)],
        vec![order("a1", "u1", Side::Sell, 110, 1), order("a2", "u2", Side::Sell, 111, 1)],
    );
    let open = b.get_open_orders("u1".to_string());
    let ids: Vec<&str> = open.iter().map(|o| o.order_id.as_str()).collect();
    assert_eq!(ids, vec!["a1", "b1"]);
    assert_eq!(b.bids.len(), 2);
    assert!(b.get_open_orders("u9".to_string()).is_empty());
}

#[test]
fn depth_aggregates_by_price() {
    let b = book(
        vec![order("b1", "u1", Side::Buy, 100, 1), order("b2", "u2", Side::Buy, 101, 2), order("b3", "u3", Side::Buy, 100, 4)],
        vec![order("a1", "u1", Side::Sell, 110, 7)],
    );
    let (bids, asks) = b.get_depth();
    let mut bids = bids;
    bids.sort();
    assert_eq!(bids, vec![("100".to_string(), "5".to_string()), ("101".to_string(), "2".to_string())]);
    assert_eq!(asks, vec![("110".to_string(), "7".to_string())]);
    let empty = book(vec![], vec![]);
    let (b2, a2) = empty.get_depth();
    assert!(b2.is_empty() && a2.is_empty());
}

#[test]
fn duplicate_copies_everything() {
    let b = book(vec![order("b1", "u1", Side::Buy, 100, 1)], vec![]);
    let c = b.duplicate();
    assert_eq!(c.bids.len(), 1);
    assert_eq!(c.bids[0].order_id, "b1");
    assert_eq!(c.ticker(), b.ticker());
}

#[test]
fn completeness_compares_with_quantity_clamped_to_i32() {
    let mut big = order("a1", "u1", Side::Sell, 100, 5_000_000_000);
    big.filled = i32::MAX;
    let mut b = book(vec![], vec![big]);
    let (fills, executed) = b.match_bid(order("b1", "u2", Side::Buy, 50, 1));
    assert!(fills.is_empty());
    assert_eq!(executed, 0);
    assert!(b.asks.is_empty());
}

#[test]
fn can_match_reports_the_sweep_overrun() {
    let b = book(vec![], vec![order("a1", "u1", Side::Sell, 99, 5), order("a2", "u2", Side::Sell, 100, 3)]);
    assert!(!b.can_match(&order("b1", "u3", Side::Buy, 100, 7), Side::Buy));
    assert!(b.can_match(&order("b1", "u3", Side::Buy, 100, 4), Side::Buy));
    assert!(b.can_add_order(&order("b1", "u3", Side::Buy, 98, 7)));
    assert!(!b.can_add_order(&order("b1", "u3", Side::Buy, 100, 7)));
}

#[test]
fn depth_checks_running_totals() {
    let b = book(vec![order("b1", "u1", Side::Buy, 1, i64::MAX), order("b2", "u1", Side::Buy, 1, 1)], vec![]);
    assert!(!b.depth_fits());
    let c = book(vec![order("b1", "u1", Side::Buy, 1, i64::MAX), order("b2", "u1", Side::Buy, 2, 1)], vec![]);
    assert!(c.depth_fits());
    let (bids, _) = c.get_depth();
    assert_eq!(bids.len(), 2);
}

#[test]
fn cancel_ask_guard() {
    let b = book(vec![], vec![order("a1", "u2", Side::Sell, 110, 1)]);
    assert!(!b.can_cancel_ask(&"a1".to_string()));
    assert!(b.can_cancel_ask(&"zz".to_string()));
}

#[test]
fn cancel_bid_undoes_resting_order() {
    let mut b = book(vec![order("b1", "u1", Side::Buy, 90, 1)], vec![]);
    let before: Vec<String> = b.bids.iter().map(|o| o.order_id.clone()).collect();
    let (_, executed) = b.add_order(order("b2", "u2", Side::Buy, 95, 4));
    assert_eq!(executed, 0);
    let removed = b.cancel_bid("b2".to_string()).unwrap();
    assert_eq!(removed.order_id, "b2");
    assert_eq!(removed.quantity, 4);
    let after: Vec<String> = b.bids.iter().map(|o| o.order_id.clone()).collect();
    assert_eq!(before, after);
}

#[test]
fn depth_ignores_order_of_resting_orders() {
    let a = book(
        vec![order("b1", "u1", Side::Buy, 100, 1), order("b2", "u2", Side::Buy, 101, 2), order("b3", "u3", Side::Buy, 100, 4)],
        vec![order("a1", "u1", Side::Sell, 110, 7), order("a2", "u2", Side::Sell, 111, 3)],
    );
    let b = book(
        vec![order("b3", "u3", Side::Buy, 100, 4), order("b1", "u1", Side::Buy, 100, 1), order("b2", "u2", Side::Buy, 101, 2)],
        vec![order("a2", "u2", Side::Sell, 111, 3), order("a1", "u1", Side::Sell, 110, 7)],
    );
    let (mut ab, mut aa) = a.get_depth();
    let (mut bb, mut ba) = b.get_depth();
    ab.sort();
    aa.sort();
    bb.sort();
    ba.sort();
    assert_eq!(ab, bb);
    assert_eq!(aa, ba);
    assert_eq!(ab, vec![("100".to_string(), "5".to_string()), ("101".to_string(), "2".to_string())]);
}
