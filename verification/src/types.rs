//! The messages that travel between the API, the engine and the database
//! writer, as plain data.

use vstd::prelude::*;

verus! {

/// Which side of the book an order stands on.
#[derive(Clone, Copy, Debug, PartialEq, Eq, Structural)]
pub enum Side {
    Buy,
    Sell,
}

/// The side of an order as the API names it.
#[derive(Clone, Copy, Debug, PartialEq, Eq, Structural)]
pub enum OrderSide {
    Buy,
    Sell,
}

/// A request to place an order; price and quantity are decimal text.
#[derive(Clone, Debug)]
pub struct CreateOrderMessage {
    pub market: String,
    pub price: String,
    pub quantity: String,
    pub side: Side,
    pub user_id: String,
}

/// A request to cancel an order.
#[derive(Clone, Debug)]
pub struct CancelOrderMessage {
    pub order_id: String,
    pub market: String,
}

/// A request to credit a user's account.
#[derive(Clone, Debug)]
pub struct OnRampMessage {
    pub amount: String,
    pub user_id: String,
    pub txn_id: String,
}

/// A request for the depth of a market.
#[derive(Clone, Debug)]
pub struct GetDepthMessage {
    pub market: String,
}

/// A request for a user's open orders in a market.
#[derive(Clone, Debug)]
pub struct GetOpenOrdersMessage {
    pub user_id: String,
    pub market: String,
}

/// Every request that the engine accepts.
#[derive(Clone, Debug)]
pub enum MessageToEngine {
    CreateOrder(CreateOrderMessage),
    CancelOrder(CancelOrderMessage),
    OnRamp(OnRampMessage),
    GetDepth(GetDepthMessage),
    GetOpenOrders(GetOpenOrdersMessage),
}

/// A request to place an order, as the API sends it.
#[derive(Clone, Debug)]
pub struct CreateOrderData {
    pub market: String,
    pub price: String,
    pub quantity: String,
    pub side: OrderSide,
    pub user_id: String,
}

/// A request to cancel an order, as the API sends it.
#[derive(Clone, Debug)]
pub struct CancelOrderData {
    pub order_id: String,
    pub market: String,
}

/// A request to credit an account, as the API sends it.
#[derive(Clone, Debug)]
pub struct OnRampData {
    pub amount: String,
    pub user_id: String,
    pub txn_id: String,
}

/// A request for depth, as the API sends it.
#[derive(Clone, Debug)]
pub struct GetDepthData {
    pub market: String,
}

/// A request for open orders, as the API sends it.
#[derive(Clone, Debug)]
pub struct GetOpenOrdersData {
    pub user_id: String,
    pub market: String,
}

/// Every request as the API sends it.
#[derive(Clone, Debug)]
pub enum MessageFromApi {
    CreateOrder(CreateOrderData),
    CancelOrder(CancelOrderData),
    OnRamp(OnRampData),
    GetDepth(GetDepthData),
    GetOpenOrders(GetOpenOrdersData),
}

/// The query of the depth endpoint.
#[derive(Clone, Debug)]
pub struct DepthQuery {
    pub symbol: String,
}

/// A request for candles of a market between two times.
#[derive(Clone, Debug)]
pub struct KlineRequest {
    pub market: String,
    pub interval: String,
    pub start_time: i64,
    pub end_time: i64,
}

/// A reply from the order book; it carries nothing yet.
#[derive(Clone, Debug)]
pub struct MessageFromOrderbook {}

/// A reply of the HTTP API: a message and its data.
#[derive(Clone, Debug)]
pub struct ResponseMessage<T> {
    pub message: String,
    pub data: T,
}

/// A trade, as the database writer records it.
#[derive(Clone, Debug)]
pub struct TradeAdd {
    pub id: String,
    pub is_buyer_maker: bool,
    pub price: String,
    pub quantity: String,
    pub quote_quantity: String,
    pub timestamp: i64,
    pub market: String,
}

/// A change of an order's executed quantity, as the database writer records it.
#[derive(Clone, Debug)]
pub struct OrderUpdate {
    pub order_id: String,
    pub executed_qty: i64,
    pub market: Option<String>,
    pub price: Option<String>,
    pub quantity: Option<String>,
    pub side: Option<Side>,
}

/// A message for the database writer.
#[derive(Clone, Debug)]
pub enum DbMessage {
    TradeAdded(TradeAdd),
    OrderUpdate(OrderUpdate),
}

} // verus!
