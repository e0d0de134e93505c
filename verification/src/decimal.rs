//! Decimal text for integers: the digits that prices, quantities and amounts
//! are written with, and the parser that reads them back.

use vstd::prelude::*;

verus! {

/// The character of a decimal digit `d` (`0 <= d < 10`).
pub open spec fn digit_char(d: int) -> char {
    if d == 0 { '0' }
    else if d == 1 { '1' }
    else if d == 2 { '2' }
    else if d == 3 { '3' }
    else if d == 4 { '4' }
    else if d == 5 { '5' }
    else if d == 6 { '6' }
    else if d == 7 { '7' }
    else if d == 8 { '8' }
    else { '9' }
}

/// The digits of a natural number, most significant first, without leading zeros.
pub open spec fn nat_digits(n: nat) -> Seq<char>
    decreases n,
{
    if n < 10 {
        seq![digit_char(n as int)]
    } else {
        nat_digits(n / 10) + seq![digit_char((n % 10) as int)]
    }
}

/// The decimal text of an integer, with a leading `-` when it is negative.
pub open spec fn decimal(n: int) -> Seq<char> {
    if n < 0 {
        seq!['-'] + nat_digits((-n) as nat)
    } else {
        nat_digits(n as nat)
    }
}

fn digit_str(d: u64) -> (s: &'static str)
    requires
        d < 10,
    ensures
        s@ == seq![digit_char(d as int)],
{
    if d == 0 {
        proof { reveal_strlit("0"); }
        "0"
    } else if d == 1 {
        proof { reveal_strlit("1"); }
        "1"
    } else if d == 2 {
        proof { reveal_strlit("2"); }
        "2"
    } else if d == 3 {
        proof { reveal_strlit("3"); }
        "3"
    } else if d == 4 {
        proof { reveal_strlit("4"); }
        "4"
    } else if d == 5 {
        proof { reveal_strlit("5"); }
        "5"
    } else if d == 6 {
        proof { reveal_strlit("6"); }
        "6"
    } else if d == 7 {
        proof { reveal_strlit("7"); }
        "7"
    } else if d == 8 {
        proof { reveal_strlit("8"); }
        "8"
    } else {
        proof { reveal_strlit("9"); }
        "9"
    }
}

/// Writes a natural number in decimal.
pub fn u64_to_decimal(n: u64) -> (s: String)
    ensures
        s@ == nat_digits(n as nat),
    decreases n,
{
    if n < 10 {
        String::from_str(digit_str(n))
    } else {
        let mut s = u64_to_decimal(n / 10);
        s.append(digit_str(n % 10));
        s
    }
}

/// Writes an integer in decimal, as `to_string` does.
pub fn i64_to_decimal(n: i64) -> (s: String)
    ensures
        s@ == decimal(n as int),
{
    if n < 0 {
        let magnitude: u64 = if n == i64::MIN {
            9223372036854775808u64
        } else {
            (-n) as u64
        };
        let digits = u64_to_decimal(magnitude);
        proof { reveal_strlit("-"); }
        let s = String::from_str("-");
        s.concat(digits.as_str())
    } else {
        u64_to_decimal(n as u64)
    }
}


/// Whether `c` is one of the ten decimal digits.
pub open spec fn is_digit(c: char) -> bool {
    '0' <= c && c <= '9'
}

/// The value of a decimal digit character.
pub open spec fn digit_value(c: char) -> int {
    (c as int) - ('0' as int)
}

/// Whether every character of `s` is a decimal digit.
pub open spec fn all_digits(s: Seq<char>) -> bool {
    forall|i: int| 0 <= i < s.len() ==> is_digit(#[trigger] s[i])
}

/// The value of a string of decimal digits, most significant first.
pub open spec fn digits_value(s: Seq<char>) -> int
    decreases s.len(),
{
    if s.len() == 0 {
        0
    } else {
        digits_value(s.drop_last()) * 10 + digit_value(s.last())
    }
}

/// The integer that a decimal text denotes: an optional `+` or `-`, then one
/// or more digits. `None` for any other text.
pub open spec fn parse_int(s: Seq<char>) -> Option<int> {
    if s.len() > 0 && (s[0] == '-' || s[0] == '+') {
        let body = s.skip(1);
        if body.len() > 0 && all_digits(body) {
            if s[0] == '-' {
                Some(-digits_value(body))
            } else {
                Some(digits_value(body))
            }
        } else {
            None
        }
    } else if s.len() > 0 && all_digits(s) {
        Some(digits_value(s))
    } else {
        None
    }
}

/// What `str::parse::<i64>` gives for `s`: the integer it denotes when that
/// fits in an `i64`, else `None`.
pub open spec fn parse_i64_spec(s: Seq<char>) -> Option<i64> {
    match parse_int(s) {
        Some(v) => if i64::MIN <= v <= i64::MAX { Some(v as i64) } else { None },
        None => None,
    }
}

proof fn lemma_digits_value_nonneg(s: Seq<char>)
    requires
        all_digits(s),
    ensures
        digits_value(s) >= 0,
    decreases s.len(),
{
    if s.len() > 0 {
        assert(all_digits(s.drop_last()));
        lemma_digits_value_nonneg(s.drop_last());
        assert(is_digit(s[s.len() - 1]));
    }
}

/// A longer run of digits is worth at least as much as any of its prefixes.
proof fn lemma_digits_value_prefix(s: Seq<char>, j: int)
    requires
        all_digits(s),
        0 <= j <= s.len(),
    ensures
        digits_value(s.take(j)) <= digits_value(s),
    decreases s.len(),
{
    if j == s.len() {
        assert(s.take(j) =~= s);
    } else {
        assert(all_digits(s.drop_last()));
        lemma_digits_value_prefix(s.drop_last(), j);
        assert(s.drop_last().take(j) =~= s.take(j));
        lemma_digits_value_nonneg(s.drop_last());
        assert(is_digit(s[s.len() - 1]));
    }
}

/// Reads the digits `s[from..]` as a magnitude; `None` when it exceeds `u64`.
fn read_magnitude(s: &str, from: usize) -> (r: Option<u64>)
    requires
        from <= s@.len(),
        all_digits(s@.skip(from as int)),
    ensures
        match r {
            Some(m) => m as int == digits_value(s@.skip(from as int)),
            None => digits_value(s@.skip(from as int)) > u64::MAX,
        },
{
    let n = s.unicode_len();
    let ghost body = s@.skip(from as int);
    let mut acc: u64 = 0;
    let mut i = from;
    assert(body.take(0) =~= Seq::<char>::empty());
    while i < n
        invariant
            n == s@.len(),
            from <= i <= n,
            body == s@.skip(from as int),
            all_digits(body),
            acc as int == digits_value(body.take(i - from)),
        decreases n - i,
    {
        let c = s.get_char(i);
        let ghost k = i - from;
        assert(body[k] == c);
        assert(is_digit(c));
        assert(body.take(k + 1).drop_last() =~= body.take(k));
        assert(body.take(k + 1).last() == c);
        let d: u64 = ((c as u32) - ('0' as u32)) as u64;
        let next = match acc.checked_mul(10) {
            Some(t) => t.checked_add(d),
            None => None,
        };
        match next {
            Some(v) => {
                acc = v;
            },
            None => {
                proof {
                    lemma_digits_value_prefix(body, k + 1);
                }
                return None;
            },
        }
        i = i + 1;
    }
    assert(body.take(n - from) =~= body);
    Some(acc)
}

/// Parses an `i64` written in decimal, as `str::parse::<i64>` does.
pub fn parse_i64(s: &str) -> (r: Option<i64>)
    ensures
        r == parse_i64_spec(s@),
{
    let n = s.unicode_len();
    if n == 0 {
        return None;
    }
    let first = s.get_char(0);
    let signed = first == '-' || first == '+';
    let from: usize = if signed { 1 } else { 0 };
    if signed && n == 1 {
        return None;
    }
    let mut i = from;
    while i < n
        invariant
            n == s@.len(),
            from <= i <= n,
            n > 0,
            first == s@[0],
            signed == (first == '-' || first == '+'),
            from == (if signed { 1usize } else { 0usize }),
            forall|j: int| from <= j < i ==> is_digit(#[trigger] s@[j]),
        decreases n - i,
    {
        let c = s.get_char(i);
        if !('0' <= c && c <= '9') {
            proof {
                if signed {
                    assert(s@.skip(1)[i - 1] == c);
                } else {
                    assert(s@[i as int] == c);
                }
            }
            return None;
        }
        i = i + 1;
    }
    assert(all_digits(s@.skip(from as int)));
    proof {
        if !signed {
            assert(s@.skip(0) =~= s@);
        }
        lemma_digits_value_nonneg(s@.skip(from as int));
    }
    match read_magnitude(s, from) {
        None => None,
        Some(m) => {
            if first == '-' {
                if m <= 9223372036854775807u64 {
                    Some(-(m as i64))
                } else if m == 9223372036854775808u64 {
                    Some(i64::MIN)
                } else {
                    None
                }
            } else if m <= 9223372036854775807u64 {
                Some(m as i64)
            } else {
                None
            }
        },
    }
}

proof fn lemma_nat_digits_value(n: nat)
    ensures
        all_digits(nat_digits(n)),
        digits_value(nat_digits(n)) == n,
        nat_digits(n).len() > 0,
    decreases n,
{
    if n < 10 {
        let s = nat_digits(n);
        assert(s.drop_last() =~= Seq::<char>::empty());
        assert(digit_value(digit_char(n as int)) == n);
        assert(digits_value(s.drop_last()) == 0);
        assert(is_digit(s[0]));
    } else {
        lemma_nat_digits_value(n / 10);
        let s = nat_digits(n);
        let d = (n % 10) as int;
        assert(s.drop_last() =~= nat_digits(n / 10));
        assert(s.last() == digit_char(d));
        assert(digit_value(digit_char(d)) == d);
        assert forall|i: int| 0 <= i < s.len() implies is_digit(#[trigger] s[i]) by {
            if i < s.len() - 1 {
                assert(s[i] == nat_digits(n / 10)[i]);
            }
        }
    }
}

/// Reading back the decimal text of an integer gives that integer:
/// `parse_i64(&i64_to_decimal(n)) == Some(n)` for every `i64` value `n`.
pub proof fn law_decimal_roundtrip(n: i64)
    ensures
        parse_i64_spec(decimal(n as int)) == Some(n),
{
    if n < 0 {
        let m = (-(n as int)) as nat;
        lemma_nat_digits_value(m);
        let s = decimal(n as int);
        assert(s.skip(1) =~= nat_digits(m));
        assert(s[0] == '-');
    } else {
        lemma_nat_digits_value(n as nat);
        let s = nat_digits(n as nat);
        assert(is_digit(s[0]));
    }
}

} // verus!
