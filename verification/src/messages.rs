//! The messages that the engine hands to the database writer, and the
//! decisions around sending a request to the engine.

use vstd::prelude::*;
use rand::Rng;
use crate::types::{DbMessage, OrderUpdate, TradeAdd, Side};
use crate::order_book::{Order, Fill};
use crate::decimal::{decimal, i64_to_decimal};
use crate::matching::fits_i64;

verus! {

/// Whether `m` records that the order `order_id` has `executed` units
/// executed, with the given market, price, quantity and side.
pub open spec fn is_order_update(
    m: DbMessage,
    order_id: Seq<char>,
    executed: i64,
    market: Option<Seq<char>>,
    price: Option<Seq<char>>,
    quantity: Option<Seq<char>>,
    side: Option<Side>,
) -> bool {
    match m {
        DbMessage::OrderUpdate(u) => {
            &&& u.order_id@ == order_id
            &&& u.executed_qty == executed
            &&& match (u.market, market) {
                (Some(a), Some(b)) => a@ == b,
                (None, None) => true,
                _ => false,
            }
            &&& match (u.price, price) {
                (Some(a), Some(b)) => a@ == b,
                (None, None) => true,
                _ => false,
            }
            &&& match (u.quantity, quantity) {
                (Some(a), Some(b)) => a@ == b,
                (None, None) => true,
                _ => false,
            }
            &&& u.side == side
        },
        DbMessage::TradeAdded(_) => false,
    }
}

/// The messages that record a placed order: one for the order, with its
/// market, price, quantity and side, then one per fill for the resting
/// order it traded against.
pub fn order_update_messages(order: &Order, executed_qty: i64, fills: &Vec<Fill>, market: String) -> (r: Vec<DbMessage>)
    ensures
        r@.len() == fills@.len() + 1,
        is_order_update(
            r@[0],
            order.order_id@,
            executed_qty,
            Some(market@),
            Some(decimal(order.price as int)),
            Some(decimal(order.quantity as int)),
            Some(order.side),
        ),
        forall|k: int| 0 <= k < fills@.len() ==> is_order_update(
            #[trigger] r@[k + 1],
            fills@[k].order_id@,
            fills@[k].quantity,
            None,
            None,
            None,
            None,
        ),
{
    let mut r: Vec<DbMessage> = Vec::new();
    r.push(DbMessage::OrderUpdate(OrderUpdate {
        order_id: order.order_id.clone(),
        executed_qty,
        market: Some(market),
        price: Some(i64_to_decimal(order.price)),
        quantity: Some(i64_to_decimal(order.quantity)),
        side: Some(order.side),
    }));
    let n = fills.len();
    let mut i: usize = 0;
    while i < n
        invariant
            n == fills@.len(),
            i <= n,
            r@.len() == i + 1,
            is_order_update(
                r@[0],
                order.order_id@,
                executed_qty,
                Some(market@),
                Some(decimal(order.price as int)),
                Some(decimal(order.quantity as int)),
                Some(order.side),
            ),
            forall|k: int| 0 <= k < i ==> is_order_update(
                #[trigger] r@[k + 1],
                fills@[k].order_id@,
                fills@[k].quantity,
                None,
                None,
                None,
                None,
            ),
        decreases n - i,
    {
        r.push(DbMessage::OrderUpdate(OrderUpdate {
            order_id: fills[i].order_id.clone(),
            executed_qty: fills[i].quantity,
            market: None,
            price: None,
            quantity: None,
            side: None,
        }));
        i = i + 1;
    }
    r
}

/// Whether `m` records the trade of fill `f` in `market` at `timestamp`, for
/// an incoming order of `user`: the resting order's id, whether `user` owns
/// the resting order, the price, the quantity and their product, in decimal.
pub open spec fn is_trade_added(m: DbMessage, f: Fill, market: Seq<char>, user: Seq<char>, timestamp: i64) -> bool {
    match m {
        DbMessage::TradeAdded(t) => {
            &&& t.market@ == market
            &&& t.id@ == f.order_id@
            &&& t.is_buyer_maker == (f.user_id@ == user)
            &&& t.price@ == decimal(f.price as int)
            &&& t.quantity@ == decimal(f.quantity as int)
            &&& t.quote_quantity@ == decimal(f.quantity * f.price)
            &&& t.timestamp == timestamp
        },
        DbMessage::OrderUpdate(_) => false,
    }
}

/// Whether `r` records the trades of `fills`, one message per fill, all
/// stamped `timestamp`.
pub open spec fn trades_recorded(r: Seq<DbMessage>, fills: Seq<Fill>, market: Seq<char>, user: Seq<char>, timestamp: i64) -> bool {
    &&& r.len() == fills.len()
    &&& forall|k: int| 0 <= k < r.len() ==> is_trade_added(#[trigger] r[k], fills[k], market, user, timestamp)
}

/// Whether every fill's quantity times price fits in an `i64`.
pub open spec fn quote_quantities_fit(fills: Seq<Fill>) -> bool {
    forall|k: int| 0 <= k < fills.len() ==> fits_i64((#[trigger] fills[k]).quantity * fills[k].price)
}

/// Whether `trade_messages` can record `fills`: every quantity times price
/// fits in an `i64`.
pub fn can_record_trades(fills: &Vec<Fill>) -> (r: bool)
    ensures
        r == quote_quantities_fit(fills@),
{
    let n = fills.len();
    let mut i: usize = 0;
    while i < n
        invariant
            n == fills@.len(),
            i <= n,
            forall|k: int| 0 <= k < i ==> fits_i64((#[trigger] fills@[k]).quantity * fills@[k].price),
        decreases n - i,
    {
        if fills[i].quantity.checked_mul(fills[i].price).is_none() {
            return false;
        }
        i = i + 1;
    }
    true
}

/// The messages that record the trades of `fills`, stamped `timestamp`.
pub fn trade_messages_at(fills: &Vec<Fill>, market: &String, user_id: &String, timestamp: i64) -> (r: Vec<DbMessage>)
    requires
        quote_quantities_fit(fills@),
    ensures
        trades_recorded(r@, fills@, market@, user_id@, timestamp),
{
    let mut r: Vec<DbMessage> = Vec::new();
    let n = fills.len();
    let mut i: usize = 0;
    while i < n
        invariant
            n == fills@.len(),
            i <= n,
            quote_quantities_fit(fills@),
            r@.len() == i,
            forall|k: int| 0 <= k < i ==> is_trade_added(#[trigger] r@[k], fills@[k], market@, user_id@, timestamp),
        decreases n - i,
    {
        let f = &fills[i];
        assert(fits_i64(fills@[i as int].quantity * fills@[i as int].price));
        let quote_quantity = f.quantity * f.price;
        r.push(DbMessage::TradeAdded(TradeAdd {
            id: f.order_id.clone(),
            is_buyer_maker: f.user_id == *user_id,
            price: i64_to_decimal(f.price),
            quantity: i64_to_decimal(f.quantity),
            quote_quantity: i64_to_decimal(quote_quantity),
            timestamp,
            market: market.clone(),
        }));
        i = i + 1;
    }
    r
}

/// `chrono::Utc::now().timestamp_millis()`: the milliseconds since the Unix
/// epoch by the system clock. Which value comes back the clock decides; it
/// is not negative, since `Utc::now` takes the time elapsed since the epoch
/// and panics when the clock reads before it, which no condition on the
/// arguments can rule out.
#[verifier::external_body]
fn now_millis() -> (t: i64)
    ensures
        t >= 0,
{
    chrono::Utc::now().timestamp_millis()
}

/// Whether `t` is a value that a reading of the system clock, in
/// milliseconds since the Unix epoch, can give back.
pub closed spec fn is_clock_reading(t: i64) -> bool {
    call_ensures(now_millis, (), t)
}

/// A clock reading is never before the Unix epoch.
pub proof fn lemma_clock_reading_not_negative(t: i64)
    requires
        is_clock_reading(t),
    ensures
        t >= 0,
{
}

/// Every trade that a recording stamped with a clock reading holds is
/// stamped with that reading: a time the clock gave, never before the
/// epoch, and the same for all of them.
pub proof fn law_trades_stamped_with_clock(r: Seq<DbMessage>, fills: Seq<Fill>, market: Seq<char>, user: Seq<char>, t: i64)
    requires
        is_clock_reading(t),
        trades_recorded(r, fills, market, user, t),
    ensures
        forall|k: int| 0 <= k < r.len() ==> ((#[trigger] r[k]) matches DbMessage::TradeAdded(ta) && ta.timestamp == t
            && is_clock_reading(ta.timestamp) && ta.timestamp >= 0),
{
    lemma_clock_reading_not_negative(t);
    assert forall|k: int| 0 <= k < r.len() implies ((#[trigger] r[k]) matches DbMessage::TradeAdded(ta) && ta.timestamp == t
        && is_clock_reading(ta.timestamp) && ta.timestamp >= 0) by {
        assert(is_trade_added(r[k], fills[k], market, user, t));
    }
}

/// The messages that record the trades of `fills`, stamped with the
/// current time.
pub fn trade_messages(fills: &Vec<Fill>, market: &String, user_id: &String) -> (r: Vec<DbMessage>)
    requires
        quote_quantities_fit(fills@),
    ensures
        exists|t: i64| t >= 0 && is_clock_reading(t) && #[trigger] trades_recorded(r@, fills@, market@, user_id@, t),
{
    let clock = now_millis;
    let t = clock();
    trade_messages_at(fills, market, user_id, t)
}

/// `rand::thread_rng().gen_range(low..=high)`: a random integer between
/// `low` and `high` inclusive, as `gen_range` on an inclusive range
/// documents. Which one is left to chance. `gen_range` panics on an empty
/// range, which `requires` rules out.
#[verifier::external_body]
fn random_in_range(low: i64, high: i64) -> (n: i64)
    requires
        low <= high,
    ensures
        low <= n <= high,
{
    rand::thread_rng().gen_range(low..=high)
}

/// A client id for a request: a random number between 1 and 5, in decimal.
pub fn get_random_client_id() -> (id: String)
    ensures
        exists|n: int| 1 <= n <= 5 && id@ == decimal(n),
{
    let n = random_in_range(1, 5);
    i64_to_decimal(n)
}

/// What to do with a request to the engine on one attempt.
#[derive(Clone, Copy, Debug, PartialEq, Eq, Structural)]
pub enum SendStep {
    /// The connection is open: push the request.
    Push,
    /// The connection is closed and five attempts have been made: give up.
    GiveUp,
    /// The connection is closed: try again.
    Retry,
}

/// The number of this attempt (one more than the last, the first being 1)
/// and what to do on it.
pub fn send_step(retry: Option<i32>, connected: bool) -> (r: (i32, SendStep))
    requires
        retry != Some(i32::MAX),
    ensures
        r.0 == match retry {
            None => 1,
            Some(k) => k + 1,
        },
        r.1 == (if connected {
            SendStep::Push
        } else if r.0 >= 5 {
            SendStep::GiveUp
        } else {
            SendStep::Retry
        }),
{
    let attempt = match retry {
        None => 1,
        Some(k) => k + 1,
    };
    let step = if connected {
        SendStep::Push
    } else if attempt >= 5 {
        SendStep::GiveUp
    } else {
        SendStep::Retry
    };
    (attempt, step)
}

} // verus!
