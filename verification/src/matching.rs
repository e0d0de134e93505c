//! Matching an incoming order against one side of the book.
//!
//! A match is two passes over the resting orders, as they stood when the
//! match began. The first pass walks them in book order and trades against
//! every order that crosses the incoming limit price, does not carry the
//! incoming order's id, and while the incoming order still wants quantity.
//! The second pass walks the same number of positions and removes each order
//! found complete at the current position, without revisiting the position
//! that a removal shifts a new order into.

use vstd::prelude::*;
use crate::types::Side;
use crate::order_book::{Order, Fill, OrderBook, duplicate_orders};

verus! {

/// Whether a resting order at `resting_price` trades with an incoming order
/// of side `taker` limited at `limit`.
pub open spec fn crosses(taker: Side, resting_price: i64, limit: i64) -> bool {
    match taker {
        Side::Buy => resting_price <= limit,
        Side::Sell => resting_price >= limit,
    }
}

/// The side of the resting orders that an incoming order of side `taker` meets.
pub open spec fn maker_side(taker: Side) -> Side {
    match taker {
        Side::Buy => Side::Sell,
        Side::Sell => Side::Buy,
    }
}

pub open spec fn min_int(a: int, b: int) -> int {
    if a <= b { a } else { b }
}

pub open spec fn fits_i64(x: int) -> bool {
    i64::MIN <= x <= i64::MAX
}

pub open spec fn fits_i32(x: int) -> bool {
    i32::MIN <= x <= i32::MAX
}

/// The state of the first pass: the resting orders, the fills so far and
/// the quantity executed so far.
pub type PassState = (Seq<Order>, Seq<Fill>, int);

/// The quantity that the first pass trades against the resting order `r`
/// when `executed` has been traded so far.
pub open spec fn trade_quantity(order: Order, executed: int, r: Order) -> int {
    min_int(order.quantity - executed, r.quantity as int)
}

/// Whether the first pass trades against `r` when `executed` has been traded.
pub open spec fn trades_with(taker: Side, order: Order, executed: int, r: Order) -> bool {
    &&& crosses(taker, r.price, order.price)
    &&& executed < order.quantity
    &&& r.order_id@ != order.order_id@
}

/// One step of the first pass, at position `i`; `None` where an integer
/// would leave its type.
pub open spec fn pass_step(st: PassState, taker: Side, order: Order, i: int) -> Option<PassState> {
    let r = st.0[i];
    if trades_with(taker, order, st.2, r) {
        let remaining = order.quantity - st.2;
        let q = trade_quantity(order, st.2, r);
        let executed = st.2 + q;
        let filled = r.filled + (q as i32);
        if fits_i64(remaining) && fits_i64(executed) && fits_i32(filled) {
            let r2 = Order { filled: filled as i32, ..r };
            let fill = Fill {
                price: r.price,
                quantity: q as i64,
                order_id: r.order_id,
                filled: filled as i32,
                side: maker_side(taker),
                user_id: r.user_id,
            };
            Some((st.0.update(i, r2), st.1.push(fill), executed))
        } else {
            None
        }
    } else {
        Some(st)
    }
}

/// The first pass over the first `k` positions of `book`.
pub open spec fn match_pass(book: Seq<Order>, taker: Side, order: Order, k: nat) -> Option<PassState>
    decreases k,
{
    if k == 0 {
        Some((book, Seq::empty(), 0))
    } else {
        match match_pass(book, taker, order, (k - 1) as nat) {
            Some(st) => pass_step(st, taker, order, k - 1),
            None => None,
        }
    }
}

/// A quantity as an `i32`, clamped to the range of `i32` (as a
/// floating-point quantity converts).
pub open spec fn clamp_i32(x: i64) -> i32 {
    if x > i32::MAX {
        i32::MAX
    } else if x < i32::MIN {
        i32::MIN
    } else {
        x as i32
    }
}

/// Whether a resting order has traded its whole quantity, as the second
/// pass tests it: `filled` against the quantity clamped to an `i32`.
pub open spec fn is_complete(o: Order) -> bool {
    o.filled == clamp_i32(o.quantity)
}

fn clamp_to_i32(x: i64) -> (r: i32)
    ensures
        r == clamp_i32(x),
{
    if x > 2147483647i64 {
        i32::MAX
    } else if x < -2147483648i64 {
        i32::MIN
    } else {
        x as i32
    }
}

/// The second pass from position `i` up to position `n`; `None` where a
/// position lies past the end of the shortened book.
pub open spec fn sweep(s: Seq<Order>, i: int, n: int) -> Option<Seq<Order>>
    decreases n - i,
{
    if i >= n {
        Some(s)
    } else if i < 0 || i >= s.len() {
        None
    } else if is_complete(s[i]) {
        sweep(s.remove(i), i + 1, n)
    } else {
        sweep(s, i + 1, n)
    }
}

/// The outcome of matching `order` as side `taker` against `book`: the book
/// afterwards, the fills in book order, and the executed quantity. `None`
/// exactly on the inputs where the match would fail (an integer leaving its
/// type, or the second pass reading past the end of the book).
pub open spec fn match_outcome(book: Seq<Order>, taker: Side, order: Order) -> Option<PassState> {
    match match_pass(book, taker, order, book.len()) {
        Some(st) => match sweep(st.0, 0, book.len() as int) {
            Some(b) => Some((b, st.1, st.2)),
            None => None,
        },
        None => None,
    }
}

proof fn lemma_pass_len(book: Seq<Order>, taker: Side, order: Order, k: nat)
    requires
        k <= book.len(),
        match_pass(book, taker, order, k) is Some,
    ensures
        match_pass(book, taker, order, k).unwrap().0.len() == book.len(),
    decreases k,
{
    if k > 0 {
        lemma_pass_len(book, taker, order, (k - 1) as nat);
    }
}

proof fn lemma_pass_prefix(book: Seq<Order>, taker: Side, order: Order, j: nat, k: nat)
    requires
        j <= k,
        match_pass(book, taker, order, k) is Some,
    ensures
        match_pass(book, taker, order, j) is Some,
    decreases k,
{
    if j < k {
        lemma_pass_prefix(book, taker, order, j, (k - 1) as nat);
    }
}

proof fn lemma_pass_none(book: Seq<Order>, taker: Side, order: Order, j: nat, k: nat)
    requires
        j <= k,
        match_pass(book, taker, order, j) is None,
    ensures
        match_pass(book, taker, order, k) is None,
{
    if match_pass(book, taker, order, k) is Some {
        lemma_pass_prefix(book, taker, order, j, k);
    }
}

/// Matches `order` as side `taker` against the resting orders in `book`;
/// `None`, with `book` left in some intermediate state, exactly where the
/// match cannot be made.
fn try_match(book: &mut Vec<Order>, order: &Order, taker: Side) -> (res: Option<(Vec<Fill>, i64)>)
    ensures
        res is Some <==> match_outcome(old(book)@, taker, *order) is Some,
        res matches Some(r) ==> {
            &&& final(book)@ == match_outcome(old(book)@, taker, *order).unwrap().0
            &&& r.0@ == match_outcome(old(book)@, taker, *order).unwrap().1
            &&& r.1 as int == match_outcome(old(book)@, taker, *order).unwrap().2
        },
{
    let ghost book0 = book@;
    let n = book.len();
    let mut fills: Vec<Fill> = Vec::new();
    let mut executed: i64 = 0;
    let mut i: usize = 0;
    while i < n
        invariant
            book0 == old(book)@,
            n == book0.len(),
            i <= n,
            match_pass(book0, taker, *order, i as nat) == Some((book@, fills@, executed as int)),
        decreases n - i,
    {
        proof {
            lemma_pass_len(book0, taker, *order, i as nat);
        }
        let ghost st = (book@, fills@, executed as int);
        let r_price = book[i].price;
        let crossing = match taker {
            Side::Buy => r_price <= order.price,
            Side::Sell => r_price >= order.price,
        };
        if crossing && executed < order.quantity && !(book[i].order_id == order.order_id) {
            let remaining = match order.quantity.checked_sub(executed) {
                Some(v) => v,
                None => {
                    proof {
                        assert(match_pass(book0, taker, *order, (i + 1) as nat) is None);
                        lemma_pass_none(book0, taker, *order, (i + 1) as nat, n as nat);
                    }
                    return None;
                },
            };
            let r_quantity = book[i].quantity;
            let filled_qty = if remaining <= r_quantity { remaining } else { r_quantity };
            let new_executed = match executed.checked_add(filled_qty) {
                Some(v) => v,
                None => {
                    proof {
                        assert(match_pass(book0, taker, *order, (i + 1) as nat) is None);
                        lemma_pass_none(book0, taker, *order, (i + 1) as nat, n as nat);
                    }
                    return None;
                },
            };
            let new_filled = match book[i].filled.checked_add(filled_qty as i32) {
                Some(v) => v,
                None => {
                    proof {
                        assert(match_pass(book0, taker, *order, (i + 1) as nat) is None);
                        lemma_pass_none(book0, taker, *order, (i + 1) as nat, n as nat);
                    }
                    return None;
                },
            };
            executed = new_executed;
            book[i].filled = new_filled;
            let side = match taker {
                Side::Buy => Side::Sell,
                Side::Sell => Side::Buy,
            };
            let fill = Fill {
                price: book[i].price,
                quantity: filled_qty,
                order_id: book[i].order_id.clone(),
                filled: new_filled,
                side,
                user_id: book[i].user_id.clone(),
            };
            fills.push(fill);
            proof {
                let r = st.0[i as int];
                let r2 = Order { filled: new_filled, ..r };
                assert(book@ =~= st.0.update(i as int, r2));
            }
        }
        i = i + 1;
    }
    let ghost mid = book@;
    assert(match_pass(book0, taker, *order, n as nat) == Some((mid, fills@, executed as int)));
    let mut j: usize = 0;
    while j < n
        invariant
            book0 == old(book)@,
            n == book0.len(),
            j <= n,
            match_pass(book0, taker, *order, n as nat) == Some((mid, fills@, executed as int)),
            sweep(book@, j as int, n as int) == sweep(mid, 0, n as int),
        decreases n - j,
    {
        if j >= book.len() {
            return None;
        }
        if book[j].filled == clamp_to_i32(book[j].quantity) {
            book.remove(j);
        }
        j = j + 1;
    }
    Some((fills, executed))
}

/// Matches `order` as side `taker` against the resting orders in `book`.
fn match_against(book: &mut Vec<Order>, order: &Order, taker: Side) -> (res: (Vec<Fill>, i64))
    requires
        match_outcome(old(book)@, taker, *order) is Some,
    ensures
        final(book)@ == match_outcome(old(book)@, taker, *order).unwrap().0,
        res.0@ == match_outcome(old(book)@, taker, *order).unwrap().1,
        res.1 as int == match_outcome(old(book)@, taker, *order).unwrap().2,
{
    try_match(book, order, taker).unwrap()
}

impl OrderBook {
    /// Matches an incoming buy order against the asks.
    pub fn match_bid(&mut self, order: Order) -> (res: (Vec<Fill>, i64))
        requires
            match_outcome(old(self).asks@, Side::Buy, order) is Some,
        ensures
            final(self).asks@ == match_outcome(old(self).asks@, Side::Buy, order).unwrap().0,
            res.0@ == match_outcome(old(self).asks@, Side::Buy, order).unwrap().1,
            res.1 as int == match_outcome(old(self).asks@, Side::Buy, order).unwrap().2,
            final(self).bids == old(self).bids,
            final(self).base_asset == old(self).base_asset,
            final(self).quote_asset == old(self).quote_asset,
            final(self).last_trade_id == old(self).last_trade_id,
            final(self).current_price == old(self).current_price,
    {
        match_against(&mut self.asks, &order, Side::Buy)
    }

    /// Matches an incoming sell order against the bids.
    pub fn match_ask(&mut self, order: Order) -> (res: (Vec<Fill>, i64))
        requires
            match_outcome(old(self).bids@, Side::Sell, order) is Some,
        ensures
            final(self).bids@ == match_outcome(old(self).bids@, Side::Sell, order).unwrap().0,
            res.0@ == match_outcome(old(self).bids@, Side::Sell, order).unwrap().1,
            res.1 as int == match_outcome(old(self).bids@, Side::Sell, order).unwrap().2,
            final(self).asks == old(self).asks,
            final(self).base_asset == old(self).base_asset,
            final(self).quote_asset == old(self).quote_asset,
            final(self).last_trade_id == old(self).last_trade_id,
            final(self).current_price == old(self).current_price,
    {
        match_against(&mut self.bids, &order, Side::Sell)
    }
}

/// What `add_order` requires: the match on the order's side can be made.
pub open spec fn add_order_ok(book: OrderBook, order: Order) -> bool {
    match order.side {
        Side::Buy => match_outcome(book.asks@, Side::Buy, order) is Some,
        Side::Sell => match_outcome(book.bids@, Side::Sell, order) is Some,
    }
}

/// The side of the book that an incoming order of side `taker` meets.
pub open spec fn resting_side(book: OrderBook, taker: Side) -> Seq<Order> {
    match taker {
        Side::Buy => book.asks@,
        Side::Sell => book.bids@,
    }
}

impl OrderBook {
    /// Whether `order` can be matched as side `taker` (as `match_bid` does
    /// for a buy and `match_ask` for a sell) without an integer leaving its
    /// type or the book's end being overrun.
    pub fn can_match(&self, order: &Order, taker: Side) -> (r: bool)
        ensures
            r == match_outcome(resting_side(*self, taker), taker, *order) is Some,
    {
        let mut copy = match taker {
            Side::Buy => duplicate_orders(&self.asks),
            Side::Sell => duplicate_orders(&self.bids),
        };
        try_match(&mut copy, order, taker).is_some()
    }

    /// Whether `add_order` can place `order`.
    pub fn can_add_order(&self, order: &Order) -> (r: bool)
        ensures
            r == add_order_ok(*self, *order),
    {
        self.can_match(order, order.side)
    }
}

impl OrderBook {
    /// Places an order: matches it against the other side, and when it is
    /// not executed in full, appends it, as it came in, to the bids (the
    /// bids whichever side the order is on).
    pub fn add_order(&mut self, order: Order) -> (res: (Vec<Fill>, i64))
        requires
            add_order_ok(*old(self), order),
        ensures
            final(self).base_asset == old(self).base_asset,
            final(self).quote_asset == old(self).quote_asset,
            final(self).last_trade_id == old(self).last_trade_id,
            final(self).current_price == old(self).current_price,
            order.side == Side::Buy ==> {
                let out = match_outcome(old(self).asks@, Side::Buy, order).unwrap();
                &&& final(self).asks@ == out.0
                &&& res.0@ == out.1
                &&& res.1 as int == out.2
                &&& final(self).bids@ == (if out.2 == order.quantity {
                    old(self).bids@
                } else {
                    old(self).bids@.push(order)
                })
            },
            order.side == Side::Sell ==> {
                let out = match_outcome(old(self).bids@, Side::Sell, order).unwrap();
                &&& final(self).bids@ == (if out.2 == order.quantity {
                    out.0
                } else {
                    out.0.push(order)
                })
                &&& res.0@ == out.1
                &&& res.1 as int == out.2
                &&& final(self).asks == old(self).asks
            },
    {
        match order.side {
            Side::Buy => {
                let (fills, executed_qty) = self.match_bid(order.duplicate());
                if executed_qty == order.quantity {
                    return (fills, executed_qty);
                }
                self.bids.push(order);
                (fills, executed_qty)
            },
            Side::Sell => {
                let (fills, executed_qty) = self.match_ask(order.duplicate());
                if executed_qty == order.quantity {
                    return (fills, executed_qty);
                }
                self.bids.push(order);
                (fills, executed_qty)
            },
        }
    }
}

/// The total quantity of a list of fills.
pub open spec fn fill_total(fills: Seq<Fill>) -> int
    decreases fills.len(),
{
    if fills.len() == 0 {
        0
    } else {
        fill_total(fills.drop_last()) + fills.last().quantity
    }
}

/// Whether two orders agree in everything but `filled`.
pub open spec fn same_but_filled(a: Order, b: Order) -> bool {
    &&& a.price == b.price
    &&& a.quantity == b.quantity
    &&& a.order_id == b.order_id
    &&& a.side == b.side
    &&& a.user_id == b.user_id
}

/// Whether no order of `s` has a negative quantity.
pub open spec fn quantities_nonneg(s: Seq<Order>) -> bool {
    forall|i: int| 0 <= i < s.len() ==> (#[trigger] s[i]).quantity >= 0
}

/// Whether every fill was made against an order that crossed the limit, on
/// the resting side, under another id than the incoming order's.
pub open spec fn fills_respect_limit(fills: Seq<Fill>, taker: Side, order: Order) -> bool {
    forall|j: int| 0 <= j < fills.len() ==> {
        &&& crosses(taker, (#[trigger] fills[j]).price, order.price)
        &&& fills[j].side == maker_side(taker)
        &&& fills[j].order_id@ != order.order_id@
    }
}

/// Whether the fill `f` was made against an order resting in `book`: some
/// order of `book` carries the fill's id and owner, and the fill is at that
/// order's price.
pub open spec fn fill_from_book(book: Seq<Order>, f: Fill) -> bool {
    exists|i: int|
        0 <= i < book.len() && book[i].order_id == f.order_id && book[i].user_id == f.user_id && book[i].price == f.price
}

proof fn lemma_pass_facts(book: Seq<Order>, taker: Side, order: Order, k: nat)
    requires
        k <= book.len(),
        match_pass(book, taker, order, k) is Some,
    ensures
        ({
            let st = match_pass(book, taker, order, k).unwrap();
            &&& st.0.len() == book.len()
            &&& forall|i: int| 0 <= i < book.len() ==> same_but_filled(#[trigger] st.0[i], book[i])
            &&& st.2 == fill_total(st.1)
            &&& fills_respect_limit(st.1, taker, order)
            &&& forall|j: int| 0 <= j < st.1.len() ==> #[trigger] fill_from_book(book, st.1[j])
            &&& quantities_nonneg(book) ==> {
                &&& 0 <= st.2
                &&& (st.2 <= order.quantity || st.2 == 0)
                &&& forall|j: int| 0 <= j < st.1.len() ==> (#[trigger] st.1[j]).quantity >= 0
            }
        }),
    decreases k,
{
    if k > 0 {
        let k1 = (k - 1) as nat;
        lemma_pass_facts(book, taker, order, k1);
        let st = match_pass(book, taker, order, k1).unwrap();
        let i = k1 as int;
        let r = st.0[i];
        assert(same_but_filled(r, book[i]));
        if trades_with(taker, order, st.2, r) {
            let nst = match_pass(book, taker, order, k).unwrap();
            let q = trade_quantity(order, st.2, r);
            assert(nst.1.drop_last() =~= st.1);
            assert forall|ii: int| 0 <= ii < book.len() implies same_but_filled(#[trigger] nst.0[ii], book[ii]) by {
                if ii != i {
                    assert(nst.0[ii] == st.0[ii]);
                }
            }
            assert forall|j: int| 0 <= j < nst.1.len() implies #[trigger] fill_from_book(book, nst.1[j]) by {
                if j < st.1.len() {
                    assert(nst.1[j] == st.1[j]);
                } else {
                    assert(nst.1[j].price == book[i].price);
                    assert(nst.1[j].order_id == book[i].order_id);
                    assert(nst.1[j].user_id == book[i].user_id);
                }
            }
            assert forall|j: int| 0 <= j < nst.1.len() implies {
                &&& crosses(taker, (#[trigger] nst.1[j]).price, order.price)
                &&& nst.1[j].side == maker_side(taker)
                &&& nst.1[j].order_id@ != order.order_id@
            } by {
                if j < st.1.len() {
                    assert(nst.1[j] == st.1[j]);
                }
            }
            if quantities_nonneg(book) {
                assert(book[i].quantity >= 0);
                assert forall|j: int| 0 <= j < nst.1.len() implies (#[trigger] nst.1[j]).quantity >= 0 by {
                    if j < st.1.len() {
                        assert(nst.1[j] == st.1[j]);
                    }
                }
            }
        }
    }
}

proof fn lemma_outcome_facts(book: Seq<Order>, taker: Side, order: Order)
    requires
        match_outcome(book, taker, order) is Some,
    ensures
        ({
            let st = match_pass(book, taker, order, book.len()).unwrap();
            let out = match_outcome(book, taker, order).unwrap();
            &&& match_pass(book, taker, order, book.len()) is Some
            &&& out.1 == st.1
            &&& out.2 == st.2
        }),
{
}

/// The quantity that a match reports as executed is the sum of the
/// quantities of the fills it reports.
pub proof fn law_executed_is_fill_total(book: Seq<Order>, taker: Side, order: Order)
    requires
        match_outcome(book, taker, order) is Some,
    ensures
        match_outcome(book, taker, order).unwrap().2 == fill_total(match_outcome(book, taker, order).unwrap().1),
{
    lemma_outcome_facts(book, taker, order);
    lemma_pass_facts(book, taker, order, book.len());
}

/// A match only trades against resting orders that cross the incoming
/// order's limit price, are on the other side, and carry another id.
pub proof fn law_fills_respect_limit(book: Seq<Order>, taker: Side, order: Order)
    requires
        match_outcome(book, taker, order) is Some,
    ensures
        fills_respect_limit(match_outcome(book, taker, order).unwrap().1, taker, order),
{
    lemma_outcome_facts(book, taker, order);
    lemma_pass_facts(book, taker, order, book.len());
}

/// When no resting order has a negative quantity, a match never executes
/// more than the incoming order asks for, never a negative amount, and
/// every fill has a non-negative quantity.
pub proof fn law_executed_within_order(book: Seq<Order>, taker: Side, order: Order)
    requires
        match_outcome(book, taker, order) is Some,
        quantities_nonneg(book),
    ensures
        ({
            let out = match_outcome(book, taker, order).unwrap();
            &&& 0 <= out.2
            &&& (out.2 <= order.quantity || out.2 == 0)
            &&& forall|j: int| 0 <= j < out.1.len() ==> (#[trigger] out.1[j]).quantity >= 0
        }),
{
    lemma_outcome_facts(book, taker, order);
    lemma_pass_facts(book, taker, order, book.len());
}

/// The second pass of a match adds no order and takes out only complete
/// ones: every order it leaves was in the book before it, and every order
/// that was not complete is still there.
pub proof fn law_sweep_removes_only_complete(s: Seq<Order>, i: int, n: int)
    requires
        sweep(s, i, n) is Some,
    ensures
        forall|k: int| 0 <= k < sweep(s, i, n).unwrap().len() ==> s.contains(
            #[trigger] sweep(s, i, n).unwrap()[k],
        ),
        forall|j: int| 0 <= j < s.len() && !is_complete(#[trigger] s[j]) ==> sweep(s, i, n).unwrap().contains(s[j]),
    decreases n - i,
{
    if i >= n {
        let r = sweep(s, i, n).unwrap();
        assert forall|k: int| 0 <= k < r.len() implies s.contains(#[trigger] r[k]) by {
            assert(s[k] == r[k]);
        }
        assert forall|j: int| 0 <= j < s.len() && !is_complete(#[trigger] s[j]) implies r.contains(s[j]) by {
            assert(r[j] == s[j]);
        }
    } else if is_complete(s[i]) {
        let t = s.remove(i);
        law_sweep_removes_only_complete(t, i + 1, n);
        let r = sweep(s, i, n).unwrap();
        assert forall|k: int| 0 <= k < r.len() implies s.contains(#[trigger] r[k]) by {
            let m = choose|m: int| 0 <= m < t.len() && t[m] == r[k];
            if m < i {
                assert(s[m] == t[m]);
            } else {
                assert(s[m + 1] == t[m]);
            }
        }
        assert forall|j: int| 0 <= j < s.len() && !is_complete(#[trigger] s[j]) implies r.contains(s[j]) by {
            if j < i {
                assert(t[j] == s[j]);
                assert(!is_complete(t[j]));
            } else {
                assert(j != i);
                assert(t[j - 1] == s[j]);
                assert(!is_complete(t[j - 1]));
            }
        }
    } else {
        law_sweep_removes_only_complete(s, i + 1, n);
    }
}

/// A match changes nothing of the resting orders but their `filled`
/// counts: every order left on that side is one of the orders that stood
/// there, with the same price, quantity, id, side and owner.
pub proof fn law_match_keeps_resting_orders(book: Seq<Order>, taker: Side, order: Order)
    requires
        match_outcome(book, taker, order) is Some,
    ensures
        forall|k: int| 0 <= k < match_outcome(book, taker, order).unwrap().0.len() ==> exists|j: int|
            0 <= j < book.len() && same_but_filled(
                #[trigger] match_outcome(book, taker, order).unwrap().0[k],
                book[j],
            ),
{
    let st = match_pass(book, taker, order, book.len()).unwrap();
    lemma_pass_facts(book, taker, order, book.len());
    law_sweep_removes_only_complete(st.0, 0, book.len() as int);
    let out = match_outcome(book, taker, order).unwrap();
    assert forall|k: int| 0 <= k < out.0.len() implies exists|j: int|
        0 <= j < book.len() && same_but_filled(#[trigger] out.0[k], book[j]) by {
        assert(st.0.contains(out.0[k]));
        let j = choose|j: int| 0 <= j < st.0.len() && st.0[j] == out.0[k];
        assert(same_but_filled(st.0[j], book[j]));
    }
}

/// A match trades at the resting orders' prices: every fill it reports
/// carries the price, the id and the owner of an order that rested on the
/// matched side before the match, not the incoming order's limit.
pub proof fn law_fills_at_resting_price(book: Seq<Order>, taker: Side, order: Order)
    requires
        match_outcome(book, taker, order) is Some,
    ensures
        forall|j: int| 0 <= j < match_outcome(book, taker, order).unwrap().1.len() ==> exists|i: int|
            0 <= i < book.len() && book[i].order_id == (#[trigger] match_outcome(book, taker, order).unwrap().1[j]).order_id
                && book[i].user_id == match_outcome(book, taker, order).unwrap().1[j].user_id
                && book[i].price == match_outcome(book, taker, order).unwrap().1[j].price,
{
    lemma_outcome_facts(book, taker, order);
    lemma_pass_facts(book, taker, order, book.len());
    let fills = match_outcome(book, taker, order).unwrap().1;
    assert forall|j: int| 0 <= j < fills.len() implies exists|i: int|
        0 <= i < book.len() && book[i].order_id == (#[trigger] fills[j]).order_id && book[i].user_id == fills[j].user_id
            && book[i].price == fills[j].price by {
        assert(fill_from_book(book, fills[j]));
    }
}

} // verus!
