//! Finding a market's book by name, splitting a market's name into its
//! assets, and the depth update published after a change at one price.

use vstd::prelude::*;
use crate::order_book::{Order, OrderBook, ticker_spec};
use crate::engine::Engine;
use crate::depth::{level_total, running_totals_fit, is_depth_text, is_depth_of, depth_text_of, has_level, has_price};
use crate::decimal::{decimal, parse_i64_spec, law_decimal_roundtrip};
use crate::types::CreateOrderMessage;

verus! {

/// The position of the first `_` in `s`, or its length where there is none.
pub open spec fn first_sep(s: Seq<char>) -> nat
    decreases s.len(),
{
    if s.len() == 0 {
        0
    } else if s[0] == '_' {
        0
    } else {
        1 + first_sep(s.skip(1))
    }
}

/// The first `_`-separated part of a market's name: its base asset.
pub open spec fn market_base(s: Seq<char>) -> Seq<char> {
    s.take(first_sep(s) as int)
}

/// The second `_`-separated part of a market's name: its quote asset.
pub open spec fn market_quote(s: Seq<char>) -> Seq<char> {
    let rest = s.skip(first_sep(s) as int + 1);
    rest.take(first_sep(rest) as int)
}

/// Whether `k` is the first book of `books` whose name is `market`.
pub open spec fn first_book(books: Seq<OrderBook>, market: Seq<char>, k: int) -> bool {
    &&& 0 <= k < books.len()
    &&& ticker_spec(books[k].base_asset@, books[k].quote_asset@) == market
    &&& forall|j: int| 0 <= j < k ==> ticker_spec(books[j].base_asset@, books[j].quote_asset@) != market
}

/// Whether some book of `books` is named `market`.
pub open spec fn has_book(books: Seq<OrderBook>, market: Seq<char>) -> bool {
    exists|j: int| 0 <= j < books.len() && ticker_spec(books[j].base_asset@, books[j].quote_asset@) == market
}

proof fn lemma_first_sep(s: Seq<char>, i: int)
    requires
        0 <= i <= s.len(),
        forall|j: int| 0 <= j < i ==> s[j] != '_',
        i == s.len() || s[i] == '_',
    ensures
        first_sep(s) == i,
    decreases i,
{
    if i > 0 {
        let t = s.skip(1);
        assert forall|j: int| 0 <= j < i - 1 implies t[j] != '_' by {
            assert(t[j] == s[j + 1]);
        }
        if i < s.len() {
            assert(t[i - 1] == s[i]);
        }
        lemma_first_sep(t, i - 1);
    }
}

proof fn lemma_first_sep_bound(s: Seq<char>, i: int)
    requires
        0 <= i < s.len(),
        s[i] == '_',
    ensures
        first_sep(s) <= i,
    decreases i,
{
    if s[0] != '_' {
        assert(s.skip(1)[i - 1] == s[i]);
        lemma_first_sep_bound(s.skip(1), i - 1);
    }
}

/// The position of the first `_` of `s` at or after `from`, or its length.
fn find_sep(s: &str, from: usize) -> (r: usize)
    requires
        from <= s@.len(),
    ensures
        from <= r <= s@.len(),
        first_sep(s@.skip(from as int)) == r - from,
{
    let n = s.unicode_len();
    let mut i = from;
    while i < n
        invariant
            n == s@.len(),
            from <= i <= n,
            forall|j: int| from <= j < i ==> s@[j] != '_',
        decreases n - i,
    {
        if s.get_char(i) == '_' {
            proof {
                lemma_sep_from(s@, from as int, i as int);
            }
            return i;
        }
        i = i + 1;
    }
    proof {
        lemma_sep_from(s@, from as int, i as int);
    }
    i
}

proof fn lemma_sep_from(s: Seq<char>, from: int, i: int)
    requires
        0 <= from <= i <= s.len(),
        forall|j: int| from <= j < i ==> s[j] != '_',
        i == s.len() || s[i] == '_',
    ensures
        first_sep(s.skip(from)) == i - from,
{
    let t = s.skip(from);
    assert forall|j: int| 0 <= j < i - from implies t[j] != '_' by {
        assert(t[j] == s[j + from]);
    }
    if i < s.len() {
        assert(t[i - from] == s[i]);
    }
    lemma_first_sep(t, i - from);
}

/// Splits a market's name at its first `_` into (base asset, quote asset);
/// the quote asset ends at the next `_`, if there is one.
pub fn split_market(market: &String) -> (r: (String, String))
    requires
        first_sep(market@) < market@.len(),
    ensures
        r.0@ == market_base(market@),
        r.1@ == market_quote(market@),
{
    let s = market.as_str();
    let n = s.unicode_len();
    let i = find_sep(s, 0);
    assert(market@.skip(0) =~= market@);
    let base = String::from_str(s.substring_char(0, i));
    let j = find_sep(s, i + 1);
    let quote = String::from_str(s.substring_char(i + 1, j));
    proof {
        let rest = market@.skip(i + 1);
        assert(rest.take(first_sep(rest) as int) =~= market@.subrange(i + 1, j as int));
        assert(market@.take(i as int) =~= market@.subrange(0, i as int));
    }
    (base, quote)
}

/// A market's name splits back into the assets it was made of, when the
/// base asset holds no `_`.
pub proof fn law_ticker_splits(base: Seq<char>, quote: Seq<char>)
    requires
        forall|i: int| 0 <= i < base.len() ==> base[i] != '_',
        forall|i: int| 0 <= i < quote.len() ==> quote[i] != '_',
    ensures
        market_base(ticker_spec(base, quote)) == base,
        market_quote(ticker_spec(base, quote)) == quote,
{
    let s = ticker_spec(base, quote);
    assert forall|j: int| 0 <= j < base.len() implies s[j] != '_' by {
        assert(s[j] == base[j]);
    }
    assert(s[base.len() as int] == '_');
    lemma_first_sep(s, base.len() as int);
    assert(s.take(base.len() as int) =~= base);
    let rest = s.skip(base.len() as int + 1);
    assert(rest =~= quote);
    lemma_first_sep(rest, quote.len() as int);
    assert(rest.take(quote.len() as int) =~= quote);
}

/// The position of the first book named `market`.
fn find_book(books: &Vec<OrderBook>, market: &String) -> (r: Option<usize>)
    ensures
        match r {
            Some(k) => first_book(books@, market@, k as int),
            None => !has_book(books@, market@),
        },
{
    let n = books.len();
    let mut k: usize = 0;
    while k < n
        invariant
            n == books@.len(),
            k <= n,
            forall|j: int| 0 <= j < k ==> ticker_spec(books@[j].base_asset@, books@[j].quote_asset@) != market@,
        decreases n - k,
    {
        let t = books[k].ticker();
        if t == *market {
            return Some(k);
        }
        k = k + 1;
    }
    None
}

impl Engine {
    /// Resolves an order's market: the position of its book, and its base
    /// and quote assets as the market's name gives them; `None` where the
    /// engine has no book of that name.
    pub fn create_order(&self, create_order: CreateOrderMessage) -> (r: Option<(usize, String, String)>)
        ensures
            match r {
                None => !has_book(self.books(), create_order.market@),
                Some((k, base, quote)) => {
                    &&& first_book(self.books(), create_order.market@, k as int)
                    &&& base@ == market_base(create_order.market@)
                    &&& quote@ == market_quote(create_order.market@)
                },
            },
    {
        let books = self.order_books();
        match find_book(books, &create_order.market) {
            None => None,
            Some(k) => {
                proof {
                    let b = books@[k as int];
                    let s = create_order.market@;
                    assert(s[b.base_asset@.len() as int] == '_');
                    lemma_first_sep_bound(s, b.base_asset@.len() as int);
                }
                let (base, quote) = split_market(&create_order.market);
                Some((k, base, quote))
            },
        }
    }
}

/// What is published after a change at one price of a market: the channel
/// and stream names, and the bid and ask levels at that price.
pub struct DepthUpdate {
    pub channel: String,
    pub stream: String,
    pub bids: Vec<(String, String)>,
    pub asks: Vec<(String, String)>,
}

/// The text of a list of pairs of strings.
pub open spec fn text_pairs(v: Seq<(String, String)>) -> Seq<(Seq<char>, Seq<char>)> {
    v.map_values(|x: (String, String)| (x.0@, x.1@))
}

/// Whether some order of `s` is priced at the price written `price`.
pub open spec fn has_price_text(s: Seq<Order>, price: Seq<char>) -> bool {
    exists|j: int| 0 <= j < s.len() && decimal(s[j].price as int) == price
}

/// The depth of `s` at the price written `price`: that price with the total
/// quantity there, or with "0" when no order rests there.
pub open spec fn depth_at_spec(s: Seq<Order>, price: Seq<char>) -> Seq<(Seq<char>, Seq<char>)> {
    if has_price_text(s, price) {
        let j = choose|j: int| 0 <= j < s.len() && decimal(s[j].price as int) == price;
        seq![(price, decimal(level_total(s, s[j].price)))]
    } else {
        seq![(price, seq!['0'])]
    }
}

pub open spec fn depth_channel_spec(market: Seq<char>) -> Seq<char> {
    seq!['d', 'e', 'p', 't', 'h', '@'] + market
}

pub open spec fn trade_stream_spec(market: Seq<char>) -> Seq<char> {
    seq!['t', 'r', 'a', 'd', 'e', '@'] + market
}

pub open spec fn book_not_found_spec() -> Seq<char> {
    seq!['O', 'r', 'd', 'e', 'r', ' ', 'b', 'o', 'o', 'k', ' ', 'n', 'o', 't', ' ', 'f', 'o', 'u', 'n', 'd']
}

proof fn lemma_decimal_injective(a: i64, b: i64)
    requires
        decimal(a as int) == decimal(b as int),
    ensures
        a == b,
{
    law_decimal_roundtrip(a);
    law_decimal_roundtrip(b);
}

proof fn lemma_entry_found(text: Seq<(String, String)>, levels: Seq<(i64, i64)>, s: Seq<Order>, price: Seq<char>, k: int)
    requires
        is_depth_of(levels, s),
        depth_text_of(text, levels),
        0 <= k < text.len(),
        text[k].0@ == price,
    ensures
        depth_at_spec(s, price) == seq![(text[k].0@, text[k].1@)],
{
    assert(text[k].0@ == decimal(levels[k].0 as int));
    assert(has_price(s, levels[k].0));
    let j0 = choose|j: int| 0 <= j < s.len() && s[j].price == levels[k].0;
    assert(s[j0].price == levels[k].0);
    assert(decimal(s[j0].price as int) == price);
    assert(has_price_text(s, price));
    let j = choose|j: int| 0 <= j < s.len() && decimal(s[j].price as int) == price;
    lemma_decimal_injective(s[j].price, levels[k].0);
    assert(levels[k].1 == level_total(s, levels[k].0));
}

proof fn lemma_entry_absent(text: Seq<(String, String)>, levels: Seq<(i64, i64)>, s: Seq<Order>, price: Seq<char>)
    requires
        is_depth_of(levels, s),
        depth_text_of(text, levels),
        forall|t: int| 0 <= t < text.len() ==> (#[trigger] text[t]).0@ != price,
    ensures
        !has_price_text(s, price),
{
    if has_price_text(s, price) {
        let j = choose|j: int| 0 <= j < s.len() && decimal(s[j].price as int) == price;
        assert(has_level(levels, s[j].price));
        let kk = choose|kk: int| 0 <= kk < levels.len() && levels[kk].0 == s[j].price;
        assert(levels[kk].0 == s[j].price);
        assert(text[kk].0@ == decimal(levels[kk].0 as int));
    }
}

/// The entries of a depth text at the price written `price`, or that price
/// with "0" when there are none.
fn entries_at(text: &Vec<(String, String)>, price: &String, Ghost(s): Ghost<Seq<Order>>) -> (r: Vec<(String, String)>)
    requires
        is_depth_text(text@, s),
    ensures
        text_pairs(r@) == depth_at_spec(s, price@),
{
    let ghost levels = choose|levels: Seq<(i64, i64)>| is_depth_of(levels, s) && depth_text_of(text@, levels);
    let n = text.len();
    let mut k: usize = 0;
    while k < n
        invariant
            n == text@.len(),
            k <= n,
            is_depth_of(levels, s),
            depth_text_of(text@, levels),
            forall|t: int| 0 <= t < k ==> (#[trigger] text@[t]).0@ != price@,
        decreases n - k,
    {
        if text[k].0 == *price {
            let mut r: Vec<(String, String)> = Vec::new();
            r.push((text[k].0.clone(), text[k].1.clone()));
            proof {
                lemma_entry_found(text@, levels, s, price@, k as int);
                assert(text_pairs(r@) =~= depth_at_spec(s, price@));
            }
            return r;
        }
        k = k + 1;
    }
    let mut r: Vec<(String, String)> = Vec::new();
    proof { reveal_strlit("0"); }
    r.push((price.clone(), String::from_str("0")));
    proof {
        lemma_entry_absent(text@, levels, s, price@);
        assert("0"@ =~= seq!['0']);
        assert(text_pairs(r@) =~= depth_at_spec(s, price@));
    }
    r
}

impl Engine {
    /// Whether `send_update_and_depth_at` can aggregate the book named
    /// `market`, if there is one.
    pub fn can_send_depth_update(&self, market: &String) -> (r: bool)
        ensures
            r == forall|k: int| first_book(self.books(), market@, k) ==> running_totals_fit(self.books()[k].bids@)
                && running_totals_fit(self.books()[k].asks@),
    {
        let books = self.order_books();
        match find_book(books, market) {
            None => true,
            Some(k) => {
                proof {
                    assert forall|j: int| first_book(self.books(), market@, j) implies j == k by {
                        if j < k {
                            assert(ticker_spec(books@[j].base_asset@, books@[j].quote_asset@) != market@);
                        } else if j > k {
                            assert(ticker_spec(books@[k as int].base_asset@, books@[k as int].quote_asset@) != market@);
                        }
                    }
                }
                books[k].depth_fits()
            },
        }
    }

    /// The depth update to publish after a change at `price` in `market`:
    /// the levels of that market's book at that price on each side.
    pub fn send_update_and_depth_at(&self, price: String, market: String) -> (r: Result<DepthUpdate, String>)
        requires
            forall|k: int| first_book(self.books(), market@, k) ==> running_totals_fit(self.books()[k].bids@)
                && running_totals_fit(self.books()[k].asks@),
        ensures
            r is Err <==> !has_book(self.books(), market@),
            r matches Err(e) ==> e@ == book_not_found_spec(),
            r matches Ok(u) ==> exists|k: int| {
                &&& first_book(self.books(), market@, k)
                &&& u.channel@ == depth_channel_spec(market@)
                &&& u.stream@ == trade_stream_spec(market@)
                &&& text_pairs(u.bids@) == depth_at_spec(self.books()[k].bids@, price@)
                &&& text_pairs(u.asks@) == depth_at_spec(self.books()[k].asks@, price@)
            },
    {
        let books = self.order_books();
        match find_book(books, &market) {
            None => {
                proof { reveal_strlit("Order book not found"); }
                Err(String::from_str("Order book not found"))
            },
            Some(k) => {
                let book = &books[k];
                let (bid_text, ask_text) = book.get_depth();
                let bids = entries_at(&bid_text, &price, Ghost(book.bids@));
                let asks = entries_at(&ask_text, &price, Ghost(book.asks@));
                proof {
                    reveal_strlit("depth@");
                    reveal_strlit("trade@");
                }
                let channel = String::from_str("depth@").concat(market.as_str());
                let stream = String::from_str("trade@").concat(market.as_str());
                proof {
                    assert(channel@ =~= depth_channel_spec(market@));
                    assert(stream@ =~= trade_stream_spec(market@));
                }
                Ok(DepthUpdate { channel, stream, bids, asks })
            },
        }
    }
}

} // verus!
