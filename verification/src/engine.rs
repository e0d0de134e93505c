//! The engine: the order books of all markets and every user's balances.

use vstd::prelude::*;
use crate::order_book::{OrderBook, base_currency_spec};
use crate::balances::{
    AssetBalances, AssetMap, BalanceMap, Balances, UserBalances, keys_unique, user_map_of,
    balance_of, set_balance_spec, has_key, key_index,
};
use crate::types::{CreateOrderMessage, Side};
use crate::decimal::{parse_i64, parse_i64_spec};
use crate::matching::fits_i64;
use crate::order_book::Fill;

verus! {

/// The engine's state.
pub struct Engine {
    order_book: Vec<OrderBook>,
    balances: Balances,
}

/// What a snapshot of the engine holds: its books and every user's balances.
pub struct SnapShotData {
    pub orderbook: Vec<OrderBook>,
    pub balances: Vec<(String, AssetBalances)>,
}

/// The amount of each asset that the demo users start with.
pub open spec fn base_amount() -> i64 {
    10_000_000
}

pub open spec fn tata_spec() -> Seq<char> {
    seq!['T', 'A', 'T', 'A']
}

/// The balances that each demo user starts with: `base_amount()` of INR and
/// of TATA, nothing locked.
pub open spec fn base_assets() -> AssetMap {
    AssetMap::empty().insert(
        base_currency_spec(),
        UserBalances { available: base_amount(), locked: 0 },
    ).insert(tata_spec(), UserBalances { available: base_amount(), locked: 0 })
}

/// `m` with the demo users "1", "2" and "5" set to the starting balances.
pub open spec fn with_base_balances(m: BalanceMap) -> BalanceMap {
    m.insert(seq!['1'], base_assets()).insert(seq!['2'], base_assets()).insert(
        seq!['5'],
        base_assets(),
    )
}

/// The balances that a list of (user, balances) pairs gives when inserted
/// in order, a later pair replacing an earlier one of the same user.
pub open spec fn balances_from_pairs(s: Seq<(String, AssetBalances)>) -> BalanceMap
    decreases s.len(),
{
    if s.len() == 0 {
        BalanceMap::empty()
    } else {
        balances_from_pairs(s.drop_last()).insert(s.last().0@, s.last().1@)
    }
}

/// Whether `b` is the book that a fresh engine starts with: TATA/INR, empty.
pub open spec fn is_default_book(b: OrderBook) -> bool {
    &&& b.bids@.len() == 0
    &&& b.asks@.len() == 0
    &&& b.base_asset@ == tata_spec()
    &&& b.quote_asset@ == base_currency_spec()
    &&& b.last_trade_id == 0
    &&& b.current_price == 0
}

fn tata() -> (s: String)
    ensures
        s@ == tata_spec(),
{
    proof { reveal_strlit("TATA"); }
    String::from_str("TATA")
}

fn base_assets_value() -> (r: AssetBalances)
    ensures
        r@ == base_assets(),
{
    let mut m = AssetBalances::new();
    m.insert(crate::order_book::base_currency(), UserBalances { available: 10_000_000, locked: 0 });
    m.insert(tata(), UserBalances { available: 10_000_000, locked: 0 });
    m
}

impl Engine {
    /// The engine's order books.
    pub closed spec fn books(&self) -> Seq<OrderBook> {
        self.order_book@
    }

    /// The engine's balances.
    pub closed spec fn balance_map(&self) -> BalanceMap {
        self.balances@
    }

    /// The engine's order books.
    pub fn order_books(&self) -> (r: &Vec<OrderBook>)
        ensures
            r@ == self.books(),
    {
        &self.order_book
    }

    /// The engine's balances.
    pub fn balances(&self) -> (r: &Balances)
        ensures
            r@ == self.balance_map(),
    {
        &self.balances
    }

    /// Gives the demo users "1", "2" and "5" their starting balances,
    /// replacing whatever they held.
    pub fn set_base_balances(&mut self)
        ensures
            final(self).books() == old(self).books(),
            final(self).balance_map() == with_base_balances(old(self).balance_map()),
    {
        proof {
            reveal_strlit("1");
            reveal_strlit("2");
            reveal_strlit("5");
            assert("1"@ =~= seq!['1']);
            assert("2"@ =~= seq!['2']);
            assert("5"@ =~= seq!['5']);
        }
        let user_balances = base_assets_value();
        self.balances.insert_user(String::from_str("1"), user_balances.duplicate());
        self.balances.insert_user(String::from_str("2"), user_balances.duplicate());
        self.balances.insert_user(String::from_str("5"), user_balances);
    }

    /// An engine restored from a snapshot, or, without one, an engine with
    /// the single empty TATA/INR book; then the demo users get their
    /// starting balances.
    pub fn new(snapshot: Option<SnapShotData>) -> (e: Engine)
        ensures
            match snapshot {
                Some(snap) => e.books() == snap.orderbook@ && e.balance_map() == with_base_balances(
                    balances_from_pairs(snap.balances@),
                ),
                None => e.books().len() == 1 && is_default_book(e.books()[0])
                    && e.balance_map() == with_base_balances(BalanceMap::empty()),
            },
    {
        let mut engine = match snapshot {
            Some(snap) => {
                let SnapShotData { orderbook, balances } = snap;
                let ghost pairs = balances@;
                let mut map = Balances::new();
                let n = balances.len();
                let mut rest = balances;
                let mut i: usize = 0;
                while i < n
                    invariant
                        n == pairs.len(),
                        i <= n,
                        rest@ == pairs.skip(i as int),
                        map@ == balances_from_pairs(pairs.take(i as int)),
                    decreases n - i,
                {
                    assert(pairs.take(i + 1).drop_last() =~= pairs.take(i as int));
                    assert(rest@[0] == pairs[i as int]);
                    let (user, assets) = rest.remove(0);
                    assert(rest@ =~= pairs.skip(i + 1));
                    map.insert_user(user, assets);
                    i = i + 1;
                }
                assert(pairs.take(n as int) =~= pairs);
                Engine { order_book: orderbook, balances: map }
            },
            None => {
                let mut books: Vec<OrderBook> = Vec::new();
                books.push(OrderBook::new(Vec::new(), Vec::new(), tata(), 0, 0));
                Engine { order_book: books, balances: Balances::new() }
            },
        };
        engine.set_base_balances();
        engine
    }

    /// A snapshot of the engine: a copy of its books and of every user's
    /// balances.
    pub fn snapshot(&self) -> (r: SnapShotData)
        ensures
            r.orderbook@.len() == self.books().len(),
            forall|i: int| 0 <= i < r.orderbook@.len() ==> {
                let b = #[trigger] r.orderbook@[i];
                let c = self.books()[i];
                &&& b.bids@ == c.bids@
                &&& b.asks@ == c.asks@
                &&& b.base_asset == c.base_asset
                &&& b.quote_asset == c.quote_asset
                &&& b.last_trade_id == c.last_trade_id
                &&& b.current_price == c.current_price
            },
            keys_unique(r.balances@),
            user_map_of(r.balances@) == self.balance_map(),
    {
        let n = self.order_book.len();
        let mut books: Vec<OrderBook> = Vec::new();
        let mut i: usize = 0;
        while i < n
            invariant
                n == self.order_book@.len(),
                i <= n,
                books@.len() == i,
                forall|j: int| 0 <= j < i ==> {
                    let b = #[trigger] books@[j];
                    let c = self.order_book@[j];
                    &&& b.bids@ == c.bids@
                    &&& b.asks@ == c.asks@
                    &&& b.base_asset == c.base_asset
                    &&& b.quote_asset == c.quote_asset
                    &&& b.last_trade_id == c.last_trade_id
                    &&& b.current_price == c.current_price
                },
            decreases n - i,
        {
            books.push(self.order_book[i].duplicate());
            i = i + 1;
        }
        SnapShotData { orderbook: books, balances: self.balances.entries() }
    }
}

/// The asset that an order locks: the quote asset for a buy, the base
/// asset for a sell.
pub open spec fn lock_asset(msg: CreateOrderMessage, base: Seq<char>, quote: Seq<char>) -> Seq<char> {
    match msg.side {
        Side::Buy => quote,
        Side::Sell => base,
    }
}

/// The amount that an order locks: quantity times price for a buy, the
/// quantity for a sell; `None` where the text does not parse.
pub open spec fn lock_amount(msg: CreateOrderMessage) -> Option<int> {
    match msg.side {
        Side::Buy => match (parse_i64_spec(msg.quantity@), parse_i64_spec(msg.price@)) {
            (Some(q), Some(p)) => Some(q * p),
            _ => None,
        },
        Side::Sell => match parse_i64_spec(msg.quantity@) {
            Some(q) => Some(q as int),
            None => None,
        },
    }
}

/// The balances of `asset` held by `user`, or nothing held where there is
/// no entry.
pub open spec fn balance_or_zero(m: BalanceMap, user: Seq<char>, asset: Seq<char>) -> UserBalances {
    match balance_of(m, user, asset) {
        Some(b) => b,
        None => UserBalances { available: 0, locked: 0 },
    }
}

/// Whether the order's funds can be locked: the text parses, the amount
/// and the new balances fit in an `i64`, and enough is available.
pub open spec fn can_lock(m: BalanceMap, msg: CreateOrderMessage, base: Seq<char>, quote: Seq<char>) -> bool {
    match lock_amount(msg) {
        Some(a) => {
            let b = balance_or_zero(m, msg.user_id@, lock_asset(msg, base, quote));
            &&& fits_i64(a)
            &&& b.available >= a
            &&& fits_i64(b.available - a)
            &&& fits_i64(b.locked + a)
        },
        None => false,
    }
}

/// The balances after locking the order's funds: the amount moves from
/// available to locked.
pub open spec fn lock_funds_spec(m: BalanceMap, msg: CreateOrderMessage, base: Seq<char>, quote: Seq<char>) -> BalanceMap {
    let asset = lock_asset(msg, base, quote);
    let b = balance_or_zero(m, msg.user_id@, asset);
    let a = lock_amount(msg).unwrap();
    set_balance_spec(
        m,
        msg.user_id@,
        asset,
        UserBalances { available: (b.available - a) as i64, locked: (b.locked + a) as i64 },
    )
}

/// The balances after crediting `amount` of INR to `user`: a new user gets
/// an INR entry with that amount; a known user with an INR entry gets it
/// added to what is available; a known user without one is left alone.
pub open spec fn on_ramp_spec(m: BalanceMap, user: Seq<char>, amount: i64) -> BalanceMap {
    if !m.contains_key(user) {
        m.insert(user, AssetMap::empty().insert(base_currency_spec(), UserBalances { available: amount, locked: 0 }))
    } else if m[user].contains_key(base_currency_spec()) {
        let b = m[user][base_currency_spec()];
        set_balance_spec(m, user, base_currency_spec(), UserBalances { available: (b.available + amount) as i64, locked: b.locked })
    } else {
        m
    }
}

/// Whether crediting `amount` keeps the INR balance of `user` in range.
pub open spec fn on_ramp_ok(m: BalanceMap, user: Seq<char>, amount: i64) -> bool {
    match balance_of(m, user, base_currency_spec()) {
        Some(b) => fits_i64(b.available + amount),
        None => true,
    }
}

/// One balance change of a fill: where `user` has an entry for `asset`,
/// `amount` (the fill's price times quantity) moves from locked to
/// available for a buy and from available to locked for a sell; `None`
/// where an integer would leave its type.
pub open spec fn adjust_spec(m: BalanceMap, user: Seq<char>, asset: Seq<char>, fill: Fill, side: Side) -> Option<BalanceMap> {
    match balance_of(m, user, asset) {
        Some(b) => {
            let amount = fill.price * fill.quantity;
            let available = match side {
                Side::Buy => b.available + amount,
                Side::Sell => b.available - amount,
            };
            let locked = match side {
                Side::Buy => b.locked - amount,
                Side::Sell => b.locked + amount,
            };
            if fits_i64(amount) && fits_i64(available) && fits_i64(locked) {
                Some(set_balance_spec(m, user, asset, UserBalances { available: available as i64, locked: locked as i64 }))
            } else {
                None
            }
        },
        None => Some(m),
    }
}

/// The balance changes of one fill: first on the base asset, then on the
/// quote asset, both of the fill's user.
pub open spec fn fill_step_spec(m: BalanceMap, fill: Fill, base: Seq<char>, quote: Seq<char>, side: Side) -> Option<BalanceMap> {
    match adjust_spec(m, fill.user_id@, base, fill, side) {
        Some(m1) => adjust_spec(m1, fill.user_id@, quote, fill, side),
        None => None,
    }
}

/// The balance changes of a list of fills, in order.
pub open spec fn apply_fills_spec(m: BalanceMap, fills: Seq<Fill>, base: Seq<char>, quote: Seq<char>, side: Side) -> Option<BalanceMap>
    decreases fills.len(),
{
    if fills.len() == 0 {
        Some(m)
    } else {
        match apply_fills_spec(m, fills.drop_last(), base, quote, side) {
            Some(m1) => fill_step_spec(m1, fills.last(), base, quote, side),
            None => None,
        }
    }
}

pub open spec fn updated_balances_spec() -> Seq<char> {
    seq!['U', 'p', 'd', 'a', 't', 'e', 'd', ' ', 'B', 'a', 'l', 'a', 'n', 'c', 'e', 's']
}

impl Engine {
    /// Whether `check_and_lock_funds` can lock the order's funds.
    pub fn can_lock_funds(&self, create_order: &CreateOrderMessage, base_asset: &String, quote_asset: &String) -> (r: bool)
        ensures
            r == can_lock(self.balance_map(), *create_order, base_asset@, quote_asset@),
    {
        let amount: i64 = match create_order.side {
            Side::Buy => {
                match (parse_i64(create_order.quantity.as_str()), parse_i64(create_order.price.as_str())) {
                    (Some(q), Some(p)) => match q.checked_mul(p) {
                        Some(a) => a,
                        None => return false,
                    },
                    _ => return false,
                }
            },
            Side::Sell => match parse_i64(create_order.quantity.as_str()) {
                Some(q) => q,
                None => return false,
            },
        };
        let asset = match create_order.side {
            Side::Buy => quote_asset,
            Side::Sell => base_asset,
        };
        let b = match self.balances.get_balance(&create_order.user_id, asset) {
            Some(b) => b,
            None => UserBalances { available: 0, locked: 0 },
        };
        b.available >= amount && b.available.checked_sub(amount).is_some() && b.locked.checked_add(amount).is_some()
    }

    /// Locks the funds that an order needs: for a buy, quantity times price
    /// of the quote asset; for a sell, the quantity of the base asset. The
    /// amount moves from available to locked; a missing user or asset
    /// starts from nothing.
    pub fn check_and_lock_funds(&mut self, create_order: CreateOrderMessage, base_asset: String, quote_asset: String)
        requires
            can_lock(old(self).balance_map(), create_order, base_asset@, quote_asset@),
        ensures
            final(self).books() == old(self).books(),
            final(self).balance_map() == lock_funds_spec(old(self).balance_map(), create_order, base_asset@, quote_asset@),
    {
        let required: i64 = match create_order.side {
            Side::Buy => {
                let q = parse_i64(create_order.quantity.as_str()).unwrap();
                let p = parse_i64(create_order.price.as_str()).unwrap();
                q * p
            },
            Side::Sell => parse_i64(create_order.quantity.as_str()).unwrap(),
        };
        let asset = match create_order.side {
            Side::Buy => quote_asset,
            Side::Sell => base_asset,
        };
        let b = match self.balances.get_balance(&create_order.user_id, &asset) {
            Some(b) => b,
            None => UserBalances { available: 0, locked: 0 },
        };
        let updated = UserBalances { available: b.available - required, locked: b.locked + required };
        self.balances.set_balance(&create_order.user_id, &asset, updated);
    }

    /// Credits `amount` of INR to `user_id` (see `on_ramp_spec`).
    pub fn on_ramp(&mut self, user_id: String, amount: i64)
        requires
            on_ramp_ok(old(self).balance_map(), user_id@, amount),
        ensures
            final(self).books() == old(self).books(),
            final(self).balance_map() == on_ramp_spec(old(self).balance_map(), user_id@, amount),
    {
        let inr = crate::order_book::base_currency();
        match self.balances.get_user(&user_id) {
            None => {
                let mut assets = AssetBalances::new();
                assets.insert(inr, UserBalances { available: amount, locked: 0 });
                self.balances.insert_user(user_id, assets);
            },
            Some(assets) => {
                match assets.get(&inr) {
                    Some(b) => {
                        let updated = UserBalances { available: b.available + amount, locked: b.locked };
                        self.balances.set_balance(&user_id, &inr, updated);
                    },
                    None => {},
                }
            },
        }
    }

    /// Applies the balance changes of `fills` (see `apply_fills_spec`).
    pub fn update_balance(
        &mut self,
        user_id: String,
        base_asset: String,
        quote_asset: String,
        side: Side,
        fills: Vec<Fill>,
    ) -> (r: Result<String, String>)
        requires
            apply_fills_spec(old(self).balance_map(), fills@, base_asset@, quote_asset@, side) is Some,
        ensures
            final(self).books() == old(self).books(),
            final(self).balance_map() == apply_fills_spec(old(self).balance_map(), fills@, base_asset@, quote_asset@, side).unwrap(),
            r matches Ok(s) && s@ == updated_balances_spec(),
    {
        let ghost m0 = self.balance_map();
        let n = fills.len();
        let mut i: usize = 0;
        proof {
            lemma_apply_fills_prefix(m0, fills@, base_asset@, quote_asset@, side, 0);
            assert(fills@.take(0) =~= Seq::<Fill>::empty());
        }
        while i < n
            invariant
                n == fills@.len(),
                i <= n,
                apply_fills_spec(m0, fills@, base_asset@, quote_asset@, side) is Some,
                self.books() == old(self).books(),
                Some(self.balance_map()) == apply_fills_spec(m0, fills@.take(i as int), base_asset@, quote_asset@, side),
            decreases n - i,
        {
            proof {
                lemma_apply_fills_prefix(m0, fills@, base_asset@, quote_asset@, side, i + 1);
                assert(fills@.take(i + 1).drop_last() =~= fills@.take(i as int));
            }
            let fill = &fills[i];
            try_adjust(&mut self.balances, &fill.user_id, &base_asset, fill, side);
            try_adjust(&mut self.balances, &fill.user_id, &quote_asset, fill, side);
            i = i + 1;
        }
        assert(fills@.take(n as int) =~= fills@);
        proof { reveal_strlit("Updated Balances"); }
        Ok(String::from_str("Updated Balances"))
    }
}

/// Applies one balance change of a fill (see `adjust_spec`); `false`, with
/// nothing changed, exactly where an integer would leave its type.
fn try_adjust(balances: &mut Balances, user: &String, asset: &String, fill: &Fill, side: Side) -> (r: bool)
    ensures
        r == adjust_spec(old(balances)@, user@, asset@, *fill, side) is Some,
        r ==> final(balances)@ == adjust_spec(old(balances)@, user@, asset@, *fill, side).unwrap(),
        !r ==> final(balances)@ == old(balances)@,
{
    match balances.get_balance(user, asset) {
        Some(b) => {
            let amount = match fill.price.checked_mul(fill.quantity) {
                Some(a) => a,
                None => return false,
            };
            let updated = match side {
                Side::Buy => match (b.available.checked_add(amount), b.locked.checked_sub(amount)) {
                    (Some(av), Some(lo)) => UserBalances { available: av, locked: lo },
                    _ => return false,
                },
                Side::Sell => match (b.available.checked_sub(amount), b.locked.checked_add(amount)) {
                    (Some(av), Some(lo)) => UserBalances { available: av, locked: lo },
                    _ => return false,
                },
            };
            balances.set_balance(user, asset, updated);
            true
        },
        None => true,
    }
}

impl Engine {
    /// Whether `update_balance` can apply the changes of `fills`: no amount
    /// or balance it computes leaves `i64`.
    pub fn can_update_balance(&self, base_asset: &String, quote_asset: &String, side: Side, fills: &Vec<Fill>) -> (r: bool)
        ensures
            r == apply_fills_spec(self.balance_map(), fills@, base_asset@, quote_asset@, side) is Some,
    {
        let ghost m0 = self.balance_map();
        let mut scratch = self.balances.duplicate();
        let n = fills.len();
        let mut i: usize = 0;
        assert(fills@.take(0) =~= Seq::<Fill>::empty());
        while i < n
            invariant
                n == fills@.len(),
                i <= n,
                m0 == self.balance_map(),
                Some(scratch@) == apply_fills_spec(m0, fills@.take(i as int), base_asset@, quote_asset@, side),
            decreases n - i,
        {
            assert(fills@.take(i + 1).drop_last() =~= fills@.take(i as int));
            let fill = &fills[i];
            if !try_adjust(&mut scratch, &fill.user_id, base_asset, fill, side) {
                proof { lemma_apply_fills_none(m0, fills@, base_asset@, quote_asset@, side, i + 1); }
                return false;
            }
            if !try_adjust(&mut scratch, &fill.user_id, quote_asset, fill, side) {
                proof { lemma_apply_fills_none(m0, fills@, base_asset@, quote_asset@, side, i + 1); }
                return false;
            }
            i = i + 1;
        }
        assert(fills@.take(n as int) =~= fills@);
        true
    }

    /// Whether `on_ramp` can credit `amount` to `user_id`.
    pub fn can_on_ramp(&self, user_id: &String, amount: i64) -> (r: bool)
        ensures
            r == on_ramp_ok(self.balance_map(), user_id@, amount),
    {
        let inr = crate::order_book::base_currency();
        match self.balances.get_balance(user_id, &inr) {
            Some(b) => b.available.checked_add(amount).is_some(),
            None => true,
        }
    }
}

proof fn lemma_apply_fills_none(m: BalanceMap, fills: Seq<Fill>, base: Seq<char>, quote: Seq<char>, side: Side, j: int)
    requires
        0 <= j <= fills.len(),
        apply_fills_spec(m, fills.take(j), base, quote, side) is None,
    ensures
        apply_fills_spec(m, fills, base, quote, side) is None,
{
    if apply_fills_spec(m, fills, base, quote, side) is Some {
        lemma_apply_fills_prefix(m, fills, base, quote, side, j);
    }
}

proof fn lemma_apply_fills_prefix(m: BalanceMap, fills: Seq<Fill>, base: Seq<char>, quote: Seq<char>, side: Side, j: int)
    requires
        0 <= j <= fills.len(),
        apply_fills_spec(m, fills, base, quote, side) is Some,
    ensures
        apply_fills_spec(m, fills.take(j), base, quote, side) is Some,
    decreases fills.len(),
{
    if j < fills.len() {
        lemma_apply_fills_prefix(m, fills.drop_last(), base, quote, side, j);
        assert(fills.drop_last().take(j) =~= fills.take(j));
    } else {
        assert(fills.take(j) =~= fills);
    }
}

/// What a user holds of an asset in all: available plus locked.
pub open spec fn total_of(b: UserBalances) -> int {
    b.available + b.locked
}

/// Locking an order's funds moves the amount from available to locked and
/// changes nothing else: the entry's total stays what it was (nothing where
/// there was no entry), and every other user and asset keeps its balances.
pub proof fn law_lock_conserves_funds(m: BalanceMap, msg: CreateOrderMessage, base: Seq<char>, quote: Seq<char>)
    requires
        can_lock(m, msg, base, quote),
    ensures
        ({
            let asset = lock_asset(msg, base, quote);
            let after = lock_funds_spec(m, msg, base, quote);
            let a = lock_amount(msg).unwrap();
            &&& balance_of(after, msg.user_id@, asset) is Some
            &&& total_of(balance_of(after, msg.user_id@, asset).unwrap()) == total_of(balance_or_zero(m, msg.user_id@, asset))
            &&& balance_of(after, msg.user_id@, asset).unwrap().available == balance_or_zero(m, msg.user_id@, asset).available - a
            &&& balance_of(after, msg.user_id@, asset).unwrap().locked == balance_or_zero(m, msg.user_id@, asset).locked + a
            &&& forall|u: Seq<char>, x: Seq<char>| !(u == msg.user_id@ && x == asset) ==> #[trigger] balance_of(after, u, x) == balance_of(m, u, x)
        }),
{
}

/// Whether two balance maps hold entries for the same users and assets,
/// each with the same total.
pub open spec fn same_totals(a: BalanceMap, b: BalanceMap) -> bool {
    forall|u: Seq<char>, x: Seq<char>| {
        &&& (#[trigger] balance_of(a, u, x) is Some) == (balance_of(b, u, x) is Some)
        &&& balance_of(b, u, x) is Some ==> total_of(balance_of(a, u, x).unwrap()) == total_of(balance_of(b, u, x).unwrap())
    }
}

proof fn lemma_adjust_conserves(m: BalanceMap, user: Seq<char>, asset: Seq<char>, fill: Fill, side: Side)
    requires
        adjust_spec(m, user, asset, fill, side) is Some,
    ensures
        same_totals(adjust_spec(m, user, asset, fill, side).unwrap(), m),
{
}

/// Settling fills moves amounts between available and locked only: every
/// user keeps the same assets, each with the same total.
pub proof fn law_update_balance_conserves_totals(m: BalanceMap, fills: Seq<Fill>, base: Seq<char>, quote: Seq<char>, side: Side)
    requires
        apply_fills_spec(m, fills, base, quote, side) is Some,
    ensures
        same_totals(apply_fills_spec(m, fills, base, quote, side).unwrap(), m),
    decreases fills.len(),
{
    if fills.len() > 0 {
        law_update_balance_conserves_totals(m, fills.drop_last(), base, quote, side);
        let m1 = apply_fills_spec(m, fills.drop_last(), base, quote, side).unwrap();
        let f = fills.last();
        lemma_adjust_conserves(m1, f.user_id@, base, f, side);
        let m2 = adjust_spec(m1, f.user_id@, base, f, side).unwrap();
        lemma_adjust_conserves(m2, f.user_id@, quote, f, side);
        let m3 = adjust_spec(m2, f.user_id@, quote, f, side).unwrap();
        assert forall|u: Seq<char>, x: Seq<char>| {
            &&& (#[trigger] balance_of(m3, u, x) is Some) == (balance_of(m, u, x) is Some)
            &&& balance_of(m, u, x) is Some ==> total_of(balance_of(m3, u, x).unwrap()) == total_of(balance_of(m, u, x).unwrap())
        } by {
            assert(balance_of(m1, u, x) is Some == balance_of(m, u, x) is Some);
            assert(balance_of(m2, u, x) is Some == balance_of(m1, u, x) is Some);
            assert(balance_of(m3, u, x) is Some == balance_of(m2, u, x) is Some);
        }
    }
}

/// The amount that one fill moves between available and locked.
pub open spec fn fill_amount(f: Fill) -> int {
    f.price * f.quantity
}

/// The amount that settling `fills` moves for `user`'s `asset`: each fill
/// of that user moves its amount once for the base asset and once for the
/// quote asset.
pub open spec fn moved_amount(fills: Seq<Fill>, user: Seq<char>, asset: Seq<char>, base: Seq<char>, quote: Seq<char>) -> int
    decreases fills.len(),
{
    if fills.len() == 0 {
        0
    } else {
        let f = fills.last();
        let here = if f.user_id@ == user {
            (if asset == base { fill_amount(f) } else { 0 }) + (if asset == quote { fill_amount(f) } else { 0 })
        } else {
            0
        };
        moved_amount(fills.drop_last(), user, asset, base, quote) + here
    }
}

/// `d` with the sign that `side` gives a move into available.
pub open spec fn signed(side: Side, d: int) -> int {
    match side {
        Side::Buy => d,
        Side::Sell => -d,
    }
}

/// `m2` holds entries for the same users and assets as `m`, each moved by
/// `signed(side, moved_amount(..))` into available and out of locked.
pub open spec fn moved_by(m: BalanceMap, m2: BalanceMap, fills: Seq<Fill>, base: Seq<char>, quote: Seq<char>, side: Side) -> bool {
    &&& m2.dom() == m.dom()
    &&& forall|u: Seq<char>| #[trigger] m.contains_key(u) ==> m2[u].dom() == m[u].dom()
    &&& forall|u: Seq<char>, x: Seq<char>| m.contains_key(u) && #[trigger] m[u].contains_key(x) ==> {
        &&& m2[u][x].available == m[u][x].available + signed(side, moved_amount(fills, u, x, base, quote))
        &&& m2[u][x].locked == m[u][x].locked - signed(side, moved_amount(fills, u, x, base, quote))
    }
}

proof fn lemma_adjust_moves(m: BalanceMap, user: Seq<char>, asset: Seq<char>, fill: Fill, side: Side)
    requires
        adjust_spec(m, user, asset, fill, side) is Some,
    ensures
        ({
            let m2 = adjust_spec(m, user, asset, fill, side).unwrap();
            &&& m2.dom() == m.dom()
            &&& forall|u: Seq<char>| #[trigger] m.contains_key(u) ==> m2[u].dom() == m[u].dom()
            &&& forall|u: Seq<char>, x: Seq<char>| m.contains_key(u) && #[trigger] m[u].contains_key(x) ==> {
                let d = if u == user && x == asset { fill_amount(fill) } else { 0 };
                &&& m2[u][x].available == m[u][x].available + signed(side, d)
                &&& m2[u][x].locked == m[u][x].locked - signed(side, d)
            }
        }),
{
    let m2 = adjust_spec(m, user, asset, fill, side).unwrap();
    if balance_of(m, user, asset) is Some {
        assert(m2.dom() =~= m.dom());
        assert forall|u: Seq<char>| #[trigger] m.contains_key(u) implies m2[u].dom() == m[u].dom() by {
            if u == user {
                assert(m2[u].dom() =~= m[u].dom());
            }
        }
    }
}

proof fn lemma_apply_fills_moves(m: BalanceMap, fills: Seq<Fill>, base: Seq<char>, quote: Seq<char>, side: Side)
    requires
        apply_fills_spec(m, fills, base, quote, side) is Some,
    ensures
        moved_by(m, apply_fills_spec(m, fills, base, quote, side).unwrap(), fills, base, quote, side),
    decreases fills.len(),
{
    let m3 = apply_fills_spec(m, fills, base, quote, side).unwrap();
    if fills.len() == 0 {
        assert forall|u: Seq<char>, x: Seq<char>| m.contains_key(u) && #[trigger] m[u].contains_key(x) implies {
            &&& m3[u][x].available == m[u][x].available + signed(side, moved_amount(fills, u, x, base, quote))
            &&& m3[u][x].locked == m[u][x].locked - signed(side, moved_amount(fills, u, x, base, quote))
        } by {
            assert(moved_amount(fills, u, x, base, quote) == 0);
        }
    } else {
        let init = fills.drop_last();
        lemma_apply_fills_moves(m, init, base, quote, side);
        let m1 = apply_fills_spec(m, init, base, quote, side).unwrap();
        let f = fills.last();
        lemma_adjust_moves(m1, f.user_id@, base, f, side);
        let m2 = adjust_spec(m1, f.user_id@, base, f, side).unwrap();
        lemma_adjust_moves(m2, f.user_id@, quote, f, side);
        assert(m3 == adjust_spec(m2, f.user_id@, quote, f, side).unwrap());
        assert forall|u: Seq<char>| #[trigger] m.contains_key(u) implies m3[u].dom() == m[u].dom() by {
            assert(m1.contains_key(u));
            assert(m2.contains_key(u));
        }
        assert forall|u: Seq<char>, x: Seq<char>| m.contains_key(u) && #[trigger] m[u].contains_key(x) implies {
            &&& m3[u][x].available == m[u][x].available + signed(side, moved_amount(fills, u, x, base, quote))
            &&& m3[u][x].locked == m[u][x].locked - signed(side, moved_amount(fills, u, x, base, quote))
        } by {
            assert(m1.contains_key(u) && m1[u].dom() == m[u].dom());
            assert(m1[u].contains_key(x));
            assert(m2.contains_key(u) && m2[u].contains_key(x));
            assert(moved_amount(fills, u, x, base, quote) == moved_amount(init, u, x, base, quote) + (if f.user_id@ == u {
                (if x == base { fill_amount(f) } else { 0 }) + (if x == quote { fill_amount(f) } else { 0 })
            } else {
                0
            }));
        }
    }
}

/// Settling the same fills as a sell after settling them as a buy gives
/// back the balances as they were: every amount that the buy moved from
/// locked to available, the sell moves back.
pub proof fn law_sell_undoes_buy(m: BalanceMap, fills: Seq<Fill>, base: Seq<char>, quote: Seq<char>)
    requires
        apply_fills_spec(m, fills, base, quote, Side::Buy) is Some,
        apply_fills_spec(apply_fills_spec(m, fills, base, quote, Side::Buy).unwrap(), fills, base, quote, Side::Sell) is Some,
    ensures
        apply_fills_spec(apply_fills_spec(m, fills, base, quote, Side::Buy).unwrap(), fills, base, quote, Side::Sell).unwrap() == m,
{
    let m1 = apply_fills_spec(m, fills, base, quote, Side::Buy).unwrap();
    let m2 = apply_fills_spec(m1, fills, base, quote, Side::Sell).unwrap();
    lemma_apply_fills_moves(m, fills, base, quote, Side::Buy);
    lemma_apply_fills_moves(m1, fills, base, quote, Side::Sell);
    assert forall|u: Seq<char>| #[trigger] m.contains_key(u) implies m2[u] == m[u] by {
        assert(m1.contains_key(u));
        assert forall|x: Seq<char>| #[trigger] m[u].contains_key(x) implies m2[u][x] == m[u][x] by {
            assert(m1[u].contains_key(x));
        }
        assert(m2[u] =~= m[u]);
    }
    assert(m2 =~= m);
}

/// Crediting INR raises only what the user has available in INR, by exactly
/// the amount: a user with an INR entry keeps its locked amount and gains
/// `amount` available; a user the engine does not know gets an INR entry
/// holding `amount`, none of it locked; every other user and asset keeps its
/// balances.
pub proof fn law_on_ramp_credits_available(m: BalanceMap, user: Seq<char>, amount: i64)
    requires
        on_ramp_ok(m, user, amount),
    ensures
        ({
            let after = on_ramp_spec(m, user, amount);
            let inr = base_currency_spec();
            &&& balance_of(m, user, inr) matches Some(b) ==> balance_of(after, user, inr) == Some(UserBalances {
                available: (b.available + amount) as i64,
                locked: b.locked,
            })
            &&& balance_of(m, user, inr) matches Some(b) ==> balance_of(after, user, inr).unwrap().available == b.available + amount
            &&& !m.contains_key(user) ==> balance_of(after, user, inr) == Some(UserBalances { available: amount, locked: 0 })
            &&& forall|u: Seq<char>, a: Seq<char>| !(u == user && a == inr) ==> #[trigger] balance_of(after, u, a) == balance_of(m, u, a)
        }),
{
}

/// When an order's funds can be locked. For a buy of quantity `q` at price
/// `p` the amount is `q * p` of the quote asset; for a sell it is `q` of the
/// base asset. The funds can be locked exactly when the amount fits in an
/// `i64`, does not exceed what the user has available of that asset
/// (nothing where there is no entry), whatever is already locked, and the
/// balances after the move fit in an `i64`.
pub proof fn law_lock_allowed_iff_available(m: BalanceMap, msg: CreateOrderMessage, base: Seq<char>, quote: Seq<char>, q: i64, p: i64)
    requires
        parse_i64_spec(msg.quantity@) == Some(q),
        msg.side == Side::Buy ==> parse_i64_spec(msg.price@) == Some(p),
    ensures
        ({
            let a: int = match msg.side {
                Side::Buy => q * p,
                Side::Sell => q as int,
            };
            let asset = match msg.side {
                Side::Buy => quote,
                Side::Sell => base,
            };
            let (available, locked): (int, int) = match balance_of(m, msg.user_id@, asset) {
                Some(b) => (b.available as int, b.locked as int),
                None => (0, 0),
            };
            can_lock(m, msg, base, quote) == (
                i64::MIN <= a <= i64::MAX
                && a <= available
                && i64::MIN <= available - a <= i64::MAX
                && i64::MIN <= locked + a <= i64::MAX
            )
        }),
{
}

/// An order whose quantity, or for a buy whose price, is not decimal text
/// never has its funds locked.
pub proof fn law_lock_refused_on_bad_text(m: BalanceMap, msg: CreateOrderMessage, base: Seq<char>, quote: Seq<char>)
    requires
        parse_i64_spec(msg.quantity@) is None || (msg.side == Side::Buy && parse_i64_spec(msg.price@) is None),
    ensures
        !can_lock(m, msg, base, quote),
{
}

/// Restoring the entries of a snapshot gives back the balances that the
/// snapshot was taken of: inserting distinct-keyed entries in order yields
/// exactly the map that they stand for.
pub proof fn law_snapshot_balances_restore(pairs: Seq<(String, AssetBalances)>)
    requires
        keys_unique(pairs),
    ensures
        balances_from_pairs(pairs) == user_map_of(pairs),
    decreases pairs.len(),
{
    if pairs.len() > 0 {
        let init = pairs.drop_last();
        let last = pairs.last();
        assert(keys_unique(init));
        law_snapshot_balances_restore(init);
        assert forall|k: Seq<char>| #[trigger] has_key(pairs, k) == (has_key(init, k) || k == last.0@) by {
            if has_key(init, k) {
                let j = choose|j: int| 0 <= j < init.len() && (#[trigger] init[j]).0@ == k;
                assert(pairs[j] == init[j]);
            }
            if k == last.0@ {
                assert(pairs[pairs.len() - 1].0@ == k);
            }
            if has_key(pairs, k) && k != last.0@ {
                let j = choose|j: int| 0 <= j < pairs.len() && (#[trigger] pairs[j]).0@ == k;
                assert(j < pairs.len() - 1);
                assert(init[j] == pairs[j]);
            }
        }
        assert forall|k: Seq<char>| has_key(pairs, k) implies pairs[key_index(pairs, k)].1@ == (if k == last.0@ {
            last.1@
        } else {
            init[key_index(init, k)].1@
        }) by {
            let j = key_index(pairs, k);
            assert(pairs[j].0@ == k);
            if k == last.0@ {
                assert(pairs[pairs.len() - 1].0@ == k);
                assert(j == pairs.len() - 1);
            } else {
                assert(j < pairs.len() - 1);
                assert(init[j] == pairs[j]);
                let ji = key_index(init, k);
                assert(has_key(init, k));
                assert(init[ji].0@ == k);
                assert(pairs[ji] == init[ji]);
                assert(ji == j);
            }
        }
        assert(user_map_of(pairs) =~= user_map_of(init).insert(last.0@, last.1@));
    }
}

/// Setting the demo users' starting balances twice is the same as once.
pub proof fn law_base_balances_idempotent(m: BalanceMap)
    ensures
        with_base_balances(with_base_balances(m)) == with_base_balances(m),
{
    assert(with_base_balances(with_base_balances(m)) =~= with_base_balances(m));
}

} // verus!
