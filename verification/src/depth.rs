//! The depth of a book: the total quantity resting at each price.

use vstd::prelude::*;
use crate::order_book::{Order, OrderBook};
use crate::matching::fits_i64;
use crate::decimal::{decimal, i64_to_decimal};

verus! {

/// The total quantity of the orders of `s` at price `p`.
pub open spec fn level_total(s: Seq<Order>, p: i64) -> int
    decreases s.len(),
{
    if s.len() == 0 {
        0
    } else {
        level_total(s.drop_last(), p) + if s.last().price == p {
            s.last().quantity as int
        } else {
            0
        }
    }
}

/// The total quantity of all orders of `s`.
pub open spec fn quantity_sum(s: Seq<Order>) -> int
    decreases s.len(),
{
    if s.len() == 0 {
        0
    } else {
        quantity_sum(s.drop_last()) + s.last().quantity
    }
}

/// The sum of the totals of a list of levels.
pub open spec fn level_sum(levels: Seq<(i64, i64)>) -> int
    decreases levels.len(),
{
    if levels.len() == 0 {
        0
    } else {
        level_sum(levels.drop_last()) + levels.last().1
    }
}

/// Whether every running total that aggregation computes fits in an `i64`:
/// for each order, the total at its price over the orders up to and
/// including it.
pub open spec fn running_totals_fit(s: Seq<Order>) -> bool {
    forall|j: int| 0 <= j < s.len() ==> fits_i64(#[trigger] level_total(s.take(j + 1), s[j].price))
}

/// Whether `levels` is the depth of `s`: one level per price that occurs in
/// `s`, no other, each with the total quantity at that price.
pub open spec fn is_depth_of(levels: Seq<(i64, i64)>, s: Seq<Order>) -> bool {
    &&& forall|a: int, b: int|
        0 <= a < levels.len() && 0 <= b < levels.len() && a != b ==> #[trigger] levels[a].0
            != #[trigger] levels[b].0
    &&& forall|k: int| 0 <= k < levels.len() ==> #[trigger] levels[k].1 == level_total(s, levels[k].0)
    &&& forall|j: int| 0 <= j < s.len() ==> #[trigger] has_level(levels, s[j].price)
    &&& forall|k: int| 0 <= k < levels.len() ==> #[trigger] has_price(s, levels[k].0)
}

/// Whether some order of `s` rests at price `p`.
pub open spec fn has_price(s: Seq<Order>, p: i64) -> bool {
    exists|j: int| 0 <= j < s.len() && s[j].price == p
}

/// Whether `text` writes `levels` in decimal, level by level.
pub open spec fn depth_text_of(text: Seq<(String, String)>, levels: Seq<(i64, i64)>) -> bool {
    &&& text.len() == levels.len()
    &&& forall|k: int| 0 <= k < text.len() ==> (#[trigger] text[k]).0@ == decimal(levels[k].0 as int) && text[k].1@ == decimal(levels[k].1 as int)
}

/// Whether `text` is the depth of `s`, written in decimal.
pub open spec fn is_depth_text(text: Seq<(String, String)>, s: Seq<Order>) -> bool {
    exists|levels: Seq<(i64, i64)>| is_depth_of(levels, s) && depth_text_of(text, levels)
}

proof fn lemma_level_total_absent(s: Seq<Order>, p: i64)
    requires
        forall|j: int| 0 <= j < s.len() ==> s[j].price != p,
    ensures
        level_total(s, p) == 0,
    decreases s.len(),
{
    if s.len() > 0 {
        lemma_level_total_absent(s.drop_last(), p);
    }
}

proof fn lemma_level_sum_update(levels: Seq<(i64, i64)>, k: int, v: (i64, i64))
    requires
        0 <= k < levels.len(),
    ensures
        level_sum(levels.update(k, v)) == level_sum(levels) - levels[k].1 + v.1,
    decreases levels.len(),
{
    let u = levels.update(k, v);
    if k == levels.len() - 1 {
        assert(u.drop_last() =~= levels.drop_last());
    } else {
        assert(u.drop_last() =~= levels.drop_last().update(k, v));
        lemma_level_sum_update(levels.drop_last(), k, v);
    }
}

proof fn lemma_totals_push(pre: Seq<Order>, o: Order)
    ensures
        forall|p: i64| #[trigger] level_total(pre.push(o), p) == level_total(pre, p) + if o.price == p {
            o.quantity as int
        } else {
            0
        },
        quantity_sum(pre.push(o)) == quantity_sum(pre) + o.quantity,
{
    assert(pre.push(o).drop_last() =~= pre);
}

#[verifier::spinoff_prover]
proof fn lemma_depth_update(levels: Seq<(i64, i64)>, pre: Seq<Order>, o: Order, k: int)
    requires
        is_depth_of(levels, pre),
        0 <= k < levels.len(),
        levels[k].0 == o.price,
        fits_i64(levels[k].1 + o.quantity),
    ensures
        is_depth_of(levels.update(k, (o.price, (levels[k].1 + o.quantity) as i64)), pre.push(o)),
        level_sum(levels.update(k, (o.price, (levels[k].1 + o.quantity) as i64))) == level_sum(levels) + o.quantity,
{
    let post = pre.push(o);
    let nl = levels.update(k, (o.price, (levels[k].1 + o.quantity) as i64));
    lemma_totals_push(pre, o);
    lemma_level_sum_update(levels, k, (o.price, (levels[k].1 + o.quantity) as i64));
    assert forall|kk: int| 0 <= kk < nl.len() implies #[trigger] nl[kk].1 == level_total(post, nl[kk].0) by {
        if kk != k {
            assert(levels[kk].0 != levels[k].0);
        }
    }
    assert forall|j: int| 0 <= j < post.len() implies #[trigger] has_level(nl, post[j].price) by {
        if j < pre.len() {
            assert(pre[j] == post[j]);
            assert(has_level(levels, pre[j].price));
            let kk = choose|kk: int| 0 <= kk < levels.len() && levels[kk].0 == pre[j].price;
            assert(nl[kk].0 == post[j].price);
        } else {
            assert(nl[k].0 == post[j].price);
        }
    }
    assert forall|kk: int| 0 <= kk < nl.len() implies #[trigger] has_price(post, nl[kk].0) by {
        assert(has_price(pre, levels[kk].0));
        let j = choose|j: int| 0 <= j < pre.len() && pre[j].price == levels[kk].0;
        assert(post[j] == pre[j]);
        assert(post[j].price == nl[kk].0);
    }
}

#[verifier::spinoff_prover]
proof fn lemma_depth_push(levels: Seq<(i64, i64)>, pre: Seq<Order>, o: Order)
    requires
        is_depth_of(levels, pre),
        forall|t: int| 0 <= t < levels.len() ==> levels[t].0 != o.price,
    ensures
        is_depth_of(levels.push((o.price, o.quantity)), pre.push(o)),
        level_sum(levels.push((o.price, o.quantity))) == level_sum(levels) + o.quantity,
{
    let post = pre.push(o);
    let nl = levels.push((o.price, o.quantity));
    lemma_totals_push(pre, o);
    assert(nl.drop_last() =~= levels);
    assert forall|j: int| 0 <= j < pre.len() implies pre[j].price != o.price by {
        if pre[j].price == o.price {
            assert(has_level(levels, pre[j].price));
            let kk = choose|kk: int| 0 <= kk < levels.len() && levels[kk].0 == pre[j].price;
            assert(levels[kk].0 == o.price);
        }
    }
    lemma_level_total_absent(pre, o.price);
    assert forall|a: int, b: int|
        0 <= a < nl.len() && 0 <= b < nl.len() && a != b implies #[trigger] nl[a].0 != #[trigger] nl[b].0 by {
        if a < levels.len() && b < levels.len() {
            assert(nl[a] == levels[a] && nl[b] == levels[b]);
        }
    }
    assert forall|kk: int| 0 <= kk < nl.len() implies #[trigger] nl[kk].1 == level_total(post, nl[kk].0) by {
        if kk < levels.len() {
            assert(nl[kk] == levels[kk]);
        }
    }
    assert forall|j: int| 0 <= j < post.len() implies #[trigger] has_level(nl, post[j].price) by {
        if j < pre.len() {
            assert(pre[j] == post[j]);
            assert(has_level(levels, pre[j].price));
            let kk = choose|kk: int| 0 <= kk < levels.len() && levels[kk].0 == pre[j].price;
            assert(nl[kk].0 == post[j].price);
        } else {
            assert(nl[levels.len() as int].0 == post[j].price);
        }
    }
    assert forall|kk: int| 0 <= kk < nl.len() implies #[trigger] has_price(post, nl[kk].0) by {
        if kk < levels.len() {
            assert(nl[kk] == levels[kk]);
            assert(has_price(pre, levels[kk].0));
            let j = choose|j: int| 0 <= j < pre.len() && pre[j].price == levels[kk].0;
            assert(post[j] == pre[j]);
            assert(post[j].price == nl[kk].0);
        } else {
            assert(post[pre.len() as int].price == nl[kk].0);
        }
    }
}

/// The position of the level at `price`, if there is one.
fn find_level(levels: &Vec<(i64, i64)>, price: i64) -> (r: Option<usize>)
    ensures
        match r {
            Some(k) => k < levels@.len() && levels@[k as int].0 == price,
            None => forall|t: int| 0 <= t < levels@.len() ==> levels@[t].0 != price,
        },
{
    let m = levels.len();
    let mut k: usize = 0;
    while k < m
        invariant
            m == levels@.len(),
            k <= m,
            forall|t: int| 0 <= t < k ==> levels@[t].0 != price,
        decreases m - k,
    {
        if levels[k].0 == price {
            return Some(k);
        }
        k = k + 1;
    }
    None
}

/// Aggregates orders into price levels, in the order in which each price
/// first occurs; `None` exactly where a running total leaves `i64`.
fn try_aggregate_levels(orders: &Vec<Order>) -> (r: Option<Vec<(i64, i64)>>)
    ensures
        r is Some <==> running_totals_fit(orders@),
        r matches Some(levels) ==> is_depth_of(levels@, orders@) && level_sum(levels@) == quantity_sum(orders@),
{
    let n = orders.len();
    let mut levels: Vec<(i64, i64)> = Vec::new();
    let mut i: usize = 0;
    assert(orders@.take(0) =~= Seq::<Order>::empty());
    while i < n
        invariant
            n == orders@.len(),
            i <= n,
            forall|j: int| 0 <= j < i ==> fits_i64(#[trigger] level_total(orders@.take(j + 1), orders@[j].price)),
            is_depth_of(levels@, orders@.take(i as int)),
            level_sum(levels@) == quantity_sum(orders@.take(i as int)),
        decreases n - i,
    {
        let ghost pre = orders@.take(i as int);
        let ghost o = orders@[i as int];
        assert(orders@.take(i + 1) =~= pre.push(o));
        proof {
            lemma_totals_push(pre, o);
        }
        let price = orders[i].price;
        let q = orders[i].quantity;
        match find_level(&levels, price) {
            Some(k) => {
                let t = levels[k].1;
                match t.checked_add(q) {
                    Some(total) => {
                        proof {
                            lemma_depth_update(levels@, pre, o, k as int);
                        }
                        levels.set(k, (price, total));
                    },
                    None => {
                        assert(!fits_i64(level_total(orders@.take(i + 1), orders@[i as int].price)));
                        return None;
                    },
                }
            },
            None => {
                proof {
                    lemma_depth_push(levels@, pre, o);
                    assert forall|j: int| 0 <= j < pre.len() implies pre[j].price != price by {
                        assert(has_level(levels@, pre[j].price));
                    }
                    lemma_level_total_absent(pre, price);
                }
                levels.push((price, q));
            },
        }
        i = i + 1;
    }
    assert(orders@.take(n as int) =~= orders@);
    Some(levels)
}

/// Aggregates orders into price levels, in the order in which each price
/// first occurs.
fn aggregate_levels(orders: &Vec<Order>) -> (r: Vec<(i64, i64)>)
    requires
        running_totals_fit(orders@),
    ensures
        is_depth_of(r@, orders@),
        level_sum(r@) == quantity_sum(orders@),
{
    try_aggregate_levels(orders).unwrap()
}

/// Writes each level as (price, total) in decimal.
fn format_levels(levels: &Vec<(i64, i64)>) -> (r: Vec<(String, String)>)
    ensures
        depth_text_of(r@, levels@),
{
    let n = levels.len();
    let mut r: Vec<(String, String)> = Vec::new();
    let mut i: usize = 0;
    while i < n
        invariant
            n == levels@.len(),
            i <= n,
            r@.len() == i,
            forall|k: int| 0 <= k < i ==> (#[trigger] r@[k]).0@ == decimal(levels@[k].0 as int) && r@[k].1@ == decimal(levels@[k].1 as int),
        decreases n - i,
    {
        let (p, t) = levels[i];
        r.push((i64_to_decimal(p), i64_to_decimal(t)));
        i = i + 1;
    }
    r
}

impl OrderBook {
    /// The depth of the book, (bids, asks): for each price the total
    /// quantity resting there, both in decimal, one entry per price.
    pub fn get_depth(&self) -> (r: (Vec<(String, String)>, Vec<(String, String)>))
        requires
            running_totals_fit(self.bids@),
            running_totals_fit(self.asks@),
        ensures
            is_depth_text(r.0@, self.bids@),
            is_depth_text(r.1@, self.asks@),
    {
        let bid_levels = aggregate_levels(&self.bids);
        let ask_levels = aggregate_levels(&self.asks);
        let bids = format_levels(&bid_levels);
        let asks = format_levels(&ask_levels);
        (bids, asks)
    }
}

/// The sum, over the levels, of the total quantity of `s` at each level's price.
pub open spec fn totals_sum(levels: Seq<(i64, i64)>, s: Seq<Order>) -> int
    decreases levels.len(),
{
    if levels.len() == 0 {
        0
    } else {
        totals_sum(levels.drop_last(), s) + level_total(s, levels.last().0)
    }
}

/// The number of levels at price `p`.
pub open spec fn occurrences(levels: Seq<(i64, i64)>, p: i64) -> int
    decreases levels.len(),
{
    if levels.len() == 0 {
        0
    } else {
        occurrences(levels.drop_last(), p) + if levels.last().0 == p { 1int } else { 0int }
    }
}

proof fn lemma_level_sum_is_totals_sum(levels: Seq<(i64, i64)>, s: Seq<Order>)
    requires
        forall|k: int| 0 <= k < levels.len() ==> #[trigger] levels[k].1 == level_total(s, levels[k].0),
    ensures
        level_sum(levels) == totals_sum(levels, s),
    decreases levels.len(),
{
    if levels.len() > 0 {
        let init = levels.drop_last();
        assert forall|k: int| 0 <= k < init.len() implies #[trigger] init[k].1 == level_total(s, init[k].0) by {
            assert(init[k] == levels[k]);
        }
        lemma_level_sum_is_totals_sum(init, s);
        assert(levels[levels.len() - 1].1 == level_total(s, levels[levels.len() - 1].0));
    }
}

proof fn lemma_totals_sum_push(levels: Seq<(i64, i64)>, s: Seq<Order>, o: Order)
    ensures
        totals_sum(levels, s.push(o)) == totals_sum(levels, s) + occurrences(levels, o.price) * o.quantity,
    decreases levels.len(),
{
    lemma_totals_push(s, o);
    if levels.len() > 0 {
        lemma_totals_sum_push(levels.drop_last(), s, o);
        let a = occurrences(levels, o.price);
        let b = occurrences(levels.drop_last(), o.price);
        let c: int = if levels.last().0 == o.price { 1int } else { 0int };
        let q = o.quantity as int;
        assert(a == b + c);
        assert(a * q == b * q + c * q) by (nonlinear_arith)
            requires
                a == b + c,
        ;
    }
}

proof fn lemma_occurrences(levels: Seq<(i64, i64)>, p: i64)
    requires
        forall|a: int, b: int|
            0 <= a < levels.len() && 0 <= b < levels.len() && a != b ==> #[trigger] levels[a].0
                != #[trigger] levels[b].0,
    ensures
        occurrences(levels, p) == (if exists|k: int| 0 <= k < levels.len() && #[trigger] levels[k].0 == p { 1int } else { 0int }),
    decreases levels.len(),
{
    if levels.len() > 0 {
        let init = levels.drop_last();
        assert forall|a: int, b: int|
            0 <= a < init.len() && 0 <= b < init.len() && a != b implies #[trigger] init[a].0 != #[trigger] init[b].0 by {
            assert(init[a] == levels[a] && init[b] == levels[b]);
        }
        lemma_occurrences(init, p);
        let last = levels.len() - 1;
        if levels[last].0 == p {
            if exists|k: int| 0 <= k < init.len() && #[trigger] init[k].0 == p {
                let k = choose|k: int| 0 <= k < init.len() && #[trigger] init[k].0 == p;
                assert(levels[k].0 == levels[last].0);
            }
        } else {
            if exists|k: int| 0 <= k < levels.len() && #[trigger] levels[k].0 == p {
                let k = choose|k: int| 0 <= k < levels.len() && #[trigger] levels[k].0 == p;
                assert(init[k] == levels[k]);
            }
            if exists|k: int| 0 <= k < init.len() && #[trigger] init[k].0 == p {
                let k = choose|k: int| 0 <= k < init.len() && #[trigger] init[k].0 == p;
                assert(levels[k] == init[k]);
            }
        }
    }
}

/// Whether every price of `s` has a level in `levels`.
pub open spec fn prices_covered(levels: Seq<(i64, i64)>, s: Seq<Order>) -> bool {
    forall|j: int| 0 <= j < s.len() ==> #[trigger] has_level(levels, s[j].price)
}

/// Whether some level of `levels` is at price `p`.
pub open spec fn has_level(levels: Seq<(i64, i64)>, p: i64) -> bool {
    exists|k: int| 0 <= k < levels.len() && levels[k].0 == p
}

proof fn lemma_totals_sum_covers(levels: Seq<(i64, i64)>, s: Seq<Order>)
    requires
        forall|a: int, b: int|
            0 <= a < levels.len() && 0 <= b < levels.len() && a != b ==> #[trigger] levels[a].0
                != #[trigger] levels[b].0,
        prices_covered(levels, s),
    ensures
        totals_sum(levels, s) == quantity_sum(s),
    decreases s.len(),
{
    if s.len() == 0 {
        lemma_totals_sum_empty(levels, s);
    } else {
        let init = s.drop_last();
        let o = s.last();
        assert forall|j: int| 0 <= j < init.len() implies #[trigger] has_level(levels, init[j].price) by {
            assert(init[j] == s[j]);
            assert(has_level(levels, s[j].price));
        }
        lemma_totals_sum_covers(levels, init);
        assert(init.push(o) =~= s);
        lemma_totals_sum_push(levels, init, o);
        lemma_occurrences(levels, o.price);
        assert(has_level(levels, s[s.len() - 1].price));
        let k = choose|k: int| 0 <= k < levels.len() && levels[k].0 == o.price;
        assert(levels[k].0 == o.price);
        lemma_totals_push(init, o);
    }
}

proof fn lemma_totals_sum_empty(levels: Seq<(i64, i64)>, s: Seq<Order>)
    requires
        s.len() == 0,
    ensures
        totals_sum(levels, s) == 0,
    decreases levels.len(),
{
    if levels.len() > 0 {
        lemma_totals_sum_empty(levels.drop_last(), s);
    }
}

/// The depth accounts for every resting unit: the totals of the levels of
/// a book's side add up to the total quantity of its orders.
pub proof fn law_depth_conserves_quantity(levels: Seq<(i64, i64)>, s: Seq<Order>)
    requires
        is_depth_of(levels, s),
    ensures
        level_sum(levels) == quantity_sum(s),
{
    lemma_level_sum_is_totals_sum(levels, s);
    lemma_totals_sum_covers(levels, s);
}

proof fn lemma_level_total_remove(s: Seq<Order>, i: int, p: i64)
    requires
        0 <= i < s.len(),
    ensures
        level_total(s, p) == level_total(s.remove(i), p) + if s[i].price == p {
            s[i].quantity as int
        } else {
            0
        },
    decreases s.len(),
{
    if i == s.len() - 1 {
        assert(s.remove(i) =~= s.drop_last());
    } else {
        assert(s.remove(i).drop_last() =~= s.drop_last().remove(i));
        assert(s.remove(i).last() == s.last());
        lemma_level_total_remove(s.drop_last(), i, p);
        assert(s.drop_last()[i] == s[i]);
    }
}

proof fn lemma_level_total_perm(s: Seq<Order>, s2: Seq<Order>, p: i64)
    requires
        s.to_multiset() == s2.to_multiset(),
    ensures
        level_total(s, p) == level_total(s2, p),
    decreases s.len(),
{
    broadcast use vstd::seq_lib::group_to_multiset_ensures;
    if s.len() == 0 {
        assert(s2.len() == s2.to_multiset().len());
    } else {
        let init = s.drop_last();
        let o = s.last();
        assert(init.push(o) =~= s);
        assert(s.to_multiset() == init.to_multiset().insert(o));
        assert(s2.to_multiset().count(o) > 0);
        assert(s2.contains(o));
        let i = choose|i: int| 0 <= i < s2.len() && s2[i] == o;
        assert(s2.remove(i).to_multiset() == s2.to_multiset().remove(o));
        assert(s2.remove(i).to_multiset() =~= init.to_multiset());
        lemma_level_total_perm(init, s2.remove(i), p);
        lemma_level_total_remove(s2, i, p);
    }
}

proof fn lemma_prices_perm(s: Seq<Order>, s2: Seq<Order>, q: i64)
    requires
        s.to_multiset() == s2.to_multiset(),
        has_price(s, q),
    ensures
        has_price(s2, q),
{
    broadcast use vstd::seq_lib::group_to_multiset_ensures;
    let j = choose|j: int| 0 <= j < s.len() && s[j].price == q;
    let o = s[j];
    assert(s.contains(o));
    assert(s.to_multiset().count(o) > 0);
    assert(s2.contains(o));
    let j2 = choose|j2: int| 0 <= j2 < s2.len() && s2[j2] == o;
    assert(s2[j2].price == q);
}

proof fn lemma_depth_perm(levels: Seq<(i64, i64)>, s: Seq<Order>, s2: Seq<Order>)
    requires
        s.to_multiset() == s2.to_multiset(),
        is_depth_of(levels, s),
    ensures
        is_depth_of(levels, s2),
{
    assert forall|k: int| 0 <= k < levels.len() implies #[trigger] levels[k].1 == level_total(s2, levels[k].0) by {
        lemma_level_total_perm(s, s2, levels[k].0);
    }
    assert forall|j: int| 0 <= j < s2.len() implies #[trigger] has_level(levels, s2[j].price) by {
        let q = s2[j].price;
        assert(has_price(s2, q));
        lemma_prices_perm(s2, s, q);
        let j1 = choose|j1: int| 0 <= j1 < s.len() && s[j1].price == q;
        assert(has_level(levels, s[j1].price));
    }
    assert forall|k: int| 0 <= k < levels.len() implies #[trigger] has_price(s2, levels[k].0) by {
        assert(has_price(s, levels[k].0));
        lemma_prices_perm(s, s2, levels[k].0);
    }
}

/// The depth of a side does not depend on the order in which its orders
/// rest: where two sides hold the same orders, each in its own order, a
/// list of levels is the depth of one exactly when it is the depth of the
/// other, and so is any text that writes the depth of one.
pub proof fn law_depth_ignores_order(s: Seq<Order>, s2: Seq<Order>)
    requires
        s.to_multiset() == s2.to_multiset(),
    ensures
        forall|levels: Seq<(i64, i64)>| #[trigger] is_depth_of(levels, s) == is_depth_of(levels, s2),
        forall|text: Seq<(String, String)>| #[trigger] is_depth_text(text, s) == is_depth_text(text, s2),
{
    assert forall|levels: Seq<(i64, i64)>| #[trigger] is_depth_of(levels, s) == is_depth_of(levels, s2) by {
        if is_depth_of(levels, s) {
            lemma_depth_perm(levels, s, s2);
        }
        if is_depth_of(levels, s2) {
            lemma_depth_perm(levels, s2, s);
        }
    }
    assert forall|text: Seq<(String, String)>| #[trigger] is_depth_text(text, s) == is_depth_text(text, s2) by {
        if is_depth_text(text, s) {
            let levels = choose|levels: Seq<(i64, i64)>| is_depth_of(levels, s) && depth_text_of(text, levels);
            lemma_depth_perm(levels, s, s2);
        }
        if is_depth_text(text, s2) {
            let levels = choose|levels: Seq<(i64, i64)>| is_depth_of(levels, s2) && depth_text_of(text, levels);
            lemma_depth_perm(levels, s2, s);
        }
    }
}

/// Two depths of the same side hold the same levels, up to their order:
/// every level of one is a level of the other, and neither holds a price
/// twice.
pub proof fn law_depths_agree(l1: Seq<(i64, i64)>, l2: Seq<(i64, i64)>, s: Seq<Order>)
    requires
        is_depth_of(l1, s),
        is_depth_of(l2, s),
    ensures
        l1.to_set() == l2.to_set(),
        l1.no_duplicates(),
        l2.no_duplicates(),
{
    assert forall|x: (i64, i64)| l1.to_set().contains(x) implies l2.to_set().contains(x) by {
        assert(l1.contains(x));
        let k = choose|k: int| 0 <= k < l1.len() && l1[k] == x;
        assert(has_price(s, l1[k].0));
        let j = choose|j: int| 0 <= j < s.len() && s[j].price == l1[k].0;
        assert(has_level(l2, s[j].price));
        let k2 = choose|k2: int| 0 <= k2 < l2.len() && l2[k2].0 == s[j].price;
        assert(l2[k2] == x);
        assert(l2.contains(x));
    }
    assert forall|x: (i64, i64)| l2.to_set().contains(x) implies l1.to_set().contains(x) by {
        assert(l2.contains(x));
        let k = choose|k: int| 0 <= k < l2.len() && l2[k] == x;
        assert(has_price(s, l2[k].0));
        let j = choose|j: int| 0 <= j < s.len() && s[j].price == l2[k].0;
        assert(has_level(l1, s[j].price));
        let k1 = choose|k1: int| 0 <= k1 < l1.len() && l1[k1].0 == s[j].price;
        assert(l1[k1] == x);
        assert(l1.contains(x));
    }
    assert(l1.to_set() =~= l2.to_set());
    assert forall|a: int, b: int| 0 <= a < l1.len() && 0 <= b < l1.len() && a != b implies l1[a] != l1[b] by {
        assert(l1[a].0 != l1[b].0);
    }
    assert forall|a: int, b: int| 0 <= a < l2.len() && 0 <= b < l2.len() && a != b implies l2[a] != l2[b] by {
        assert(l2[a].0 != l2[b].0);
    }
}

impl OrderBook {
    /// Whether `get_depth` can aggregate this book: every running total it
    /// computes fits in an `i64`.
    pub fn depth_fits(&self) -> (r: bool)
        ensures
            r == (running_totals_fit(self.bids@) && running_totals_fit(self.asks@)),
    {
        try_aggregate_levels(&self.bids).is_some() && try_aggregate_levels(&self.asks).is_some()
    }
}

} // verus!
