//! The replies that the engine sends back to the API.

use vstd::prelude::*;
use crate::order_book::Order;

verus! {

/// The depth of a market: (price, total quantity) levels, in decimal.
#[derive(Clone, Debug)]
pub struct DepthPayload {
    pub bids: Vec<(String, String)>,
    pub asks: Vec<(String, String)>,
}

/// A trade as the API reports it.
#[derive(Clone, Debug)]
pub struct Fill {
    pub price: String,
    pub qty: i64,
    pub trade_id: u64,
}

/// The reply to a placed order.
#[derive(Clone, Debug)]
pub struct OrderPlacedPayload {
    pub order_id: String,
    pub executed_qty: i64,
    pub fills: Vec<Fill>,
}

/// The reply to a cancelled order.
#[derive(Clone, Debug)]
pub struct OrderCancelledPayload {
    pub order_id: String,
    pub executed_qty: i64,
    pub remaining_qty: i64,
}

/// Every reply that the engine sends to the API.
#[derive(Clone, Debug)]
pub enum MessageToApi {
    Depth { payload: DepthPayload },
    OrderPlaced { payload: OrderPlacedPayload },
    OrderCancelled { payload: OrderCancelledPayload },
    OpenOrders { payload: Vec<Order> },
}

} // verus!
