//! Orders, fills and the order book of one market.

use vstd::prelude::*;
use crate::types::Side;

verus! {

/// A resting or incoming limit order. `price` is in ticks of the quote
/// asset and `quantity` in whole units of the base asset; `filled` counts
/// the units already traded against it.
#[derive(Clone, Debug)]
pub struct Order {
    pub price: i64,
    pub quantity: i64,
    pub order_id: String,
    pub filled: i32,
    pub side: Side,
    pub user_id: String,
}

/// One trade against a resting order: its price, the traded quantity, the
/// resting order's id, owner, side and its `filled` count after the trade.
#[derive(Clone, Debug)]
pub struct Fill {
    pub price: i64,
    pub quantity: i64,
    pub order_id: String,
    pub filled: i32,
    pub side: Side,
    pub user_id: String,
}

/// The bids and asks of one market, with the market's assets.
#[derive(Clone, Debug)]
pub struct OrderBook {
    pub bids: Vec<Order>,
    pub asks: Vec<Order>,
    pub base_asset: String,
    pub quote_asset: String,
    pub last_trade_id: i64,
    pub current_price: i32,
}

/// The name of the currency that every market is quoted in.
pub open spec fn base_currency_spec() -> Seq<char> {
    seq!['I', 'N', 'R']
}

/// The currency that every market is quoted in.
pub fn base_currency() -> (s: String)
    ensures
        s@ == base_currency_spec(),
{
    proof { reveal_strlit("INR"); }
    String::from_str("INR")
}

/// The name of a market: its base asset, `_`, its quote asset.
pub open spec fn ticker_spec(base: Seq<char>, quote: Seq<char>) -> Seq<char> {
    base + seq!['_'] + quote
}

impl Order {
    /// A copy of this order.
    pub fn duplicate(&self) -> (r: Order)
        ensures
            r == *self,
    {
        Order {
            price: self.price,
            quantity: self.quantity,
            order_id: self.order_id.clone(),
            filled: self.filled,
            side: self.side,
            user_id: self.user_id.clone(),
        }
    }
}

impl Fill {
    /// A copy of this fill.
    pub fn duplicate(&self) -> (r: Fill)
        ensures
            r == *self,
    {
        Fill {
            price: self.price,
            quantity: self.quantity,
            order_id: self.order_id.clone(),
            filled: self.filled,
            side: self.side,
            user_id: self.user_id.clone(),
        }
    }
}

impl OrderBook {
    /// A book with the given orders for the market `base_asset`/INR.
    pub fn new(
        bids: Vec<Order>,
        asks: Vec<Order>,
        base_asset: String,
        last_trade_id: i64,
        current_price: i32,
    ) -> (book: OrderBook)
        ensures
            book.bids == bids,
            book.asks == asks,
            book.base_asset == base_asset,
            book.quote_asset@ == base_currency_spec(),
            book.last_trade_id == last_trade_id,
            book.current_price == current_price,
    {
        OrderBook {
            bids,
            asks,
            base_asset,
            quote_asset: base_currency(),
            last_trade_id,
            current_price,
        }
    }

    /// The market's name, `<base>_<quote>`.
    pub fn ticker(&self) -> (t: String)
        ensures
            t@ == ticker_spec(self.base_asset@, self.quote_asset@),
    {
        proof { reveal_strlit("_"); }
        let t = self.base_asset.clone().concat("_");
        t.concat(self.quote_asset.as_str())
    }
}

/// Whether `i` is the first position of `orders` that holds the id `id`.
pub open spec fn first_with_id(orders: Seq<Order>, id: Seq<char>, i: int) -> bool {
    &&& 0 <= i < orders.len()
    &&& orders[i].order_id@ == id
    &&& forall|j: int| 0 <= j < i ==> orders[j].order_id@ != id
}

/// Whether some order of `orders` holds the id `id`.
pub open spec fn has_id(orders: Seq<Order>, id: Seq<char>) -> bool {
    exists|j: int| 0 <= j < orders.len() && orders[j].order_id@ == id
}

/// The text of the error for an id that the book does not hold.
pub open spec fn not_found_spec() -> Seq<char> {
    seq!['O', 'r', 'd', 'e', 'r', ' ', 'n', 'o', 't', ' ', 'f', 'o', 'u', 'n', 'd']
}

/// Whether an order belongs to `user`.
pub open spec fn owned_by(user: Seq<char>) -> spec_fn(Order) -> bool {
    |o: Order| o.user_id@ == user
}

/// The first position of `orders` that holds the id `id`, if any.
fn position_of(orders: &Vec<Order>, id: &String) -> (r: Option<usize>)
    ensures
        match r {
            Some(i) => first_with_id(orders@, id@, i as int),
            None => !has_id(orders@, id@),
        },
{
    let n = orders.len();
    let mut i: usize = 0;
    while i < n
        invariant
            n == orders@.len(),
            i <= n,
            forall|j: int| 0 <= j < i ==> orders@[j].order_id@ != id@,
        decreases n - i,
    {
        if orders[i].order_id == *id {
            return Some(i);
        }
        i = i + 1;
    }
    None
}

fn not_found() -> (s: String)
    ensures
        s@ == not_found_spec(),
{
    proof { reveal_strlit("Order not found"); }
    String::from_str("Order not found")
}

/// The orders of `orders` that belong to `user`, in order, each copied.
fn orders_of(orders: &Vec<Order>, user: &String) -> (r: Vec<Order>)
    ensures
        r@ == orders@.filter(owned_by(user@)),
{
    let n = orders.len();
    let mut r: Vec<Order> = Vec::new();
    let mut i: usize = 0;
    assert(orders@.take(0) =~= Seq::<Order>::empty());
    while i < n
        invariant
            n == orders@.len(),
            i <= n,
            r@ == orders@.take(i as int).filter(owned_by(user@)),
        decreases n - i,
    {
        proof {
            reveal_with_fuel(Seq::<_>::filter, 1);
            assert(orders@.take(i + 1).drop_last() =~= orders@.take(i as int));
        }
        if orders[i].user_id == *user {
            r.push(orders[i].duplicate());
        }
        i = i + 1;
    }
    assert(orders@.take(n as int) =~= orders@);
    r
}

impl OrderBook {
    /// The open orders of `user_id`: its asks, then its bids, each in book order.
    pub fn get_open_orders(&mut self, user_id: String) -> (r: Vec<Order>)
        ensures
            *final(self) == *old(self),
            r@ == old(self).asks@.filter(owned_by(user_id@)) + old(self).bids@.filter(
                owned_by(user_id@),
            ),
    {
        let mut asks = orders_of(&self.asks, &user_id);
        let mut bids = orders_of(&self.bids, &user_id);
        asks.append(&mut bids);
        asks
    }

    /// Cancels the first bid with id `order_id`, and hands it back.
    pub fn cancel_bid(&mut self, order_id: String) -> (r: Result<Order, String>)
        ensures
            final(self).asks == old(self).asks,
            final(self).base_asset == old(self).base_asset,
            final(self).quote_asset == old(self).quote_asset,
            final(self).last_trade_id == old(self).last_trade_id,
            final(self).current_price == old(self).current_price,
            r is Err <==> !has_id(old(self).bids@, order_id@),
            r matches Err(e) ==> e@ == not_found_spec() && final(self).bids == old(self).bids,
            r matches Ok(o) ==> exists|i: int|
                first_with_id(old(self).bids@, order_id@, i) && o == old(self).bids@[i]
                    && final(self).bids@ == old(self).bids@.remove(i),
    {
        match position_of(&self.bids, &order_id) {
            None => Err(not_found()),
            Some(index) => {
                let removed = self.bids.remove(index);
                Ok(removed)
            },
        }
    }

    /// Whether `cancel_ask` can run: where an ask has the id, a bid stands
    /// at that ask's position.
    pub fn can_cancel_ask(&self, order_id: &String) -> (r: bool)
        ensures
            r == forall|i: int| first_with_id(self.asks@, order_id@, i) ==> i < self.bids@.len(),
    {
        match position_of(&self.asks, order_id) {
            None => true,
            Some(index) => index < self.bids.len(),
        }
    }

    /// Looks up the first ask with id `order_id`, and removes the bid at that
    /// ask's position, handing that bid back.
    pub fn cancel_ask(&mut self, order_id: String) -> (r: Result<Order, String>)
        requires
            forall|i: int|
                first_with_id(old(self).asks@, order_id@, i) ==> i < old(self).bids@.len(),
        ensures
            final(self).asks == old(self).asks,
            final(self).base_asset == old(self).base_asset,
            final(self).quote_asset == old(self).quote_asset,
            final(self).last_trade_id == old(self).last_trade_id,
            final(self).current_price == old(self).current_price,
            r is Err <==> !has_id(old(self).asks@, order_id@),
            r matches Err(e) ==> e@ == not_found_spec() && final(self).bids == old(self).bids,
            r matches Ok(o) ==> exists|i: int|
                first_with_id(old(self).asks@, order_id@, i) && o == old(self).bids@[i]
                    && final(self).bids@ == old(self).bids@.remove(i),
    {
        match position_of(&self.asks, &order_id) {
            None => Err(not_found()),
            Some(index) => {
                let removed = self.bids.remove(index);
                Ok(removed)
            },
        }
    }
}

/// A copy of a list of orders.
pub(crate) fn duplicate_orders(orders: &Vec<Order>) -> (r: Vec<Order>)
    ensures
        r@ == orders@,
{
    let n = orders.len();
    let mut r: Vec<Order> = Vec::new();
    let mut i: usize = 0;
    while i < n
        invariant
            n == orders@.len(),
            i <= n,
            r@ == orders@.take(i as int),
        decreases n - i,
    {
        r.push(orders[i].duplicate());
        assert(r@ =~= orders@.take(i + 1));
        i = i + 1;
    }
    assert(orders@.take(n as int) =~= orders@);
    r
}

impl OrderBook {
    /// A copy of this book.
    pub fn duplicate(&self) -> (r: OrderBook)
        ensures
            r.bids@ == self.bids@,
            r.asks@ == self.asks@,
            r.base_asset == self.base_asset,
            r.quote_asset == self.quote_asset,
            r.last_trade_id == self.last_trade_id,
            r.current_price == self.current_price,
    {
        OrderBook {
            bids: duplicate_orders(&self.bids),
            asks: duplicate_orders(&self.asks),
            base_asset: self.base_asset.clone(),
            quote_asset: self.quote_asset.clone(),
            last_trade_id: self.last_trade_id,
            current_price: self.current_price,
        }
    }
}

/// Cancelling an order that rests at the end of the bids, under an id that
/// no other bid carries, hands it back and leaves the bids as they were
/// before it was placed: `cancel_bid` undoes the append of `add_order`.
pub proof fn law_cancel_bid_undoes_resting(bids: Seq<Order>, o: Order)
    requires
        !has_id(bids, o.order_id@),
    ensures
        has_id(bids.push(o), o.order_id@),
        first_with_id(bids.push(o), o.order_id@, bids.len() as int),
        forall|i: int| first_with_id(bids.push(o), o.order_id@, i) ==> i == bids.len(),
        bids.push(o)[bids.len() as int] == o,
        bids.push(o).remove(bids.len() as int) == bids,
{
    let t = bids.push(o);
    assert(t[bids.len() as int] == o);
    assert forall|j: int| 0 <= j < bids.len() implies t[j].order_id@ != o.order_id@ by {
        assert(t[j] == bids[j]);
    }
    assert(t.remove(bids.len() as int) =~= bids);
}

/// The open orders of a user are exactly that user's resting orders: every
/// entry of the list `get_open_orders` returns belongs to the user and rests
/// among the asks or the bids, and every ask or bid of the user, however
/// much of it is filled, is in the list.
pub proof fn law_open_orders_are_the_users(asks: Seq<Order>, bids: Seq<Order>, user: Seq<char>)
    ensures
        ({
            let r = asks.filter(owned_by(user)) + bids.filter(owned_by(user));
            &&& forall|k: int| 0 <= k < r.len() ==> (#[trigger] r[k]).user_id@ == user && (asks.contains(r[k]) || bids.contains(r[k]))
            &&& forall|i: int| 0 <= i < asks.len() && (#[trigger] asks[i]).user_id@ == user ==> r.contains(asks[i])
            &&& forall|i: int| 0 <= i < bids.len() && (#[trigger] bids[i]).user_id@ == user ==> r.contains(bids[i])
        }),
{
    broadcast use vstd::seq_lib::group_filter_ensures;
    let fa = asks.filter(owned_by(user));
    let fb = bids.filter(owned_by(user));
    let r = fa + fb;
    assert forall|k: int| 0 <= k < r.len() implies (#[trigger] r[k]).user_id@ == user && (asks.contains(r[k]) || bids.contains(r[k])) by {
        if k < fa.len() {
            assert(r[k] == fa[k]);
            assert(owned_by(user)(fa[k]));
            assert(fa.contains(fa[k]));
            asks.lemma_filter_contains_rev(owned_by(user), fa[k]);
        } else {
            let k2 = k - fa.len();
            assert(r[k] == fb[k2]);
            assert(owned_by(user)(fb[k2]));
            assert(fb.contains(fb[k2]));
            bids.lemma_filter_contains_rev(owned_by(user), fb[k2]);
        }
    }
    assert forall|i: int| 0 <= i < asks.len() && (#[trigger] asks[i]).user_id@ == user implies r.contains(asks[i]) by {
        assert(owned_by(user)(asks[i]));
        assert(fa.contains(asks[i]));
        let k = choose|k: int| 0 <= k < fa.len() && fa[k] == asks[i];
        assert(r[k] == asks[i]);
    }
    assert forall|i: int| 0 <= i < bids.len() && (#[trigger] bids[i]).user_id@ == user implies r.contains(bids[i]) by {
        assert(owned_by(user)(bids[i]));
        assert(fb.contains(bids[i]));
        let k = choose|k: int| 0 <= k < fb.len() && fb[k] == bids[i];
        assert(r[fa.len() + k] == bids[i]);
    }
}

} // verus!
