//! Decimal numerals.

use crate::text::to_chars;
use vstd::prelude::*;

verus! {

/// The numeral of a digit.
pub open spec fn digit_char(d: nat) -> char {
    if d == 0 { '0' } else if d == 1 { '1' } else if d == 2 { '2' } else if d == 3 { '3' }
    else if d == 4 { '4' } else if d == 5 { '5' } else if d == 6 { '6' } else if d == 7 { '7' }
    else if d == 8 { '8' } else { '9' }
}

/// The decimal numeral of `n`, without leading zeros.
pub open spec fn decimal(n: nat) -> Seq<char>
    decreases n,
{
    if n < 10 {
        seq![digit_char(n)]
    } else {
        decimal(n / 10).push(digit_char(n % 10))
    }
}

/// The decimal numeral of `n`, with a zero before a single digit.
pub open spec fn two_digits(n: nat) -> Seq<char> {
    if n < 10 {
        seq!['0', digit_char(n)]
    } else {
        decimal(n)
    }
}

fn digit(d: u64) -> (c: char)
    requires
        d < 10,
    ensures
        c == digit_char(d as nat),
{
    match d {
        0 => '0',
        1 => '1',
        2 => '2',
        3 => '3',
        4 => '4',
        5 => '5',
        6 => '6',
        7 => '7',
        8 => '8',
        _ => '9',
    }
}

/// The decimal numeral of `n`.
pub fn to_decimal(n: u64) -> (r: String)
    ensures
        r@ == decimal(n as nat),
    decreases n,
{
    if n < 10 {
        let mut r = String::new();
        r.push(digit(n));
        assert(r@ =~= decimal(n as nat));
        r
    } else {
        let mut r = to_decimal(n / 10);
        r.push(digit(n % 10));
        r
    }
}

/// The decimal numeral of `n`, with a zero before a single digit.
pub fn to_two_digits(n: u64) -> (r: String)
    ensures
        r@ == two_digits(n as nat),
{
    if n < 10 {
        let mut r = String::new();
        r.push('0');
        r.push(digit(n));
        assert(r@ =~= two_digits(n as nat));
        r
    } else {
        to_decimal(n)
    }
}

/// The value of a decimal digit.
pub open spec fn digit_value(c: char) -> Option<nat> {
    if '0' <= c <= '9' {
        Some((c as nat - '0' as nat) as nat)
    } else {
        None
    }
}

/// The value of a sequence of decimal digits.
pub open spec fn digits_value(s: Seq<char>) -> Option<nat>
    decreases s.len(),
{
    if s.len() == 0 {
        Some(0)
    } else {
        match (digits_value(s.drop_last()), digit_value(s.last())) {
            (Some(v), Some(d)) => Some(v * 10 + d),
            _ => None,
        }
    }
}

/// The number that a numeral stands for: one or more decimal digits, after an optional plus sign.
pub open spec fn numeral_value(s: Seq<char>) -> Option<nat> {
    let digits = if s.len() > 0 && s[0] == '+' { s.skip(1) } else { s };
    if digits.len() == 0 {
        None
    } else {
        digits_value(digits)
    }
}

/// The number that a numeral stands for, where it is at most `max`.
pub open spec fn bounded_numeral(s: Seq<char>, max: nat) -> Option<nat> {
    match numeral_value(s) {
        Some(v) => if v <= max { Some(v) } else { None },
        None => None,
    }
}

proof fn lemma_digits_grow(s: Seq<char>, n: int)
    requires
        0 <= n <= s.len(),
    ensures
        digits_value(s.take(n)) is None ==> digits_value(s) is None,
        digits_value(s) matches Some(v) ==> digits_value(s.take(n)) is Some && digits_value(
            s.take(n),
        )->0 <= v,
    decreases s.len() - n,
{
    if n == s.len() {
        assert(s.take(n) =~= s);
    } else {
        lemma_digits_grow(s, n + 1);
        assert(s.take(n + 1).drop_last() =~= s.take(n));
    }
}

/// Reads a numeral of at most `max`.
pub fn parse_number(s: &str, max: u64) -> (r: Option<u64>)
    ensures
        r matches Some(v) ==> bounded_numeral(s@, max as nat) == Some(v as nat),
        r is None ==> bounded_numeral(s@, max as nat) is None,
{
    let chars = to_chars(s);
    let start: usize = if chars.len() > 0 && chars[0] == '+' { 1 } else { 0 };
    let ghost digits = if s@.len() > 0 && s@[0] == '+' { s@.skip(1) } else { s@ };
    assert(digits =~= chars@.skip(start as int));
    if chars.len() == start {
        return None;
    }
    let mut value: u64 = 0;
    let mut i: usize = start;
    assert(digits.take(0) =~= seq![]);
    while i < chars.len()
        invariant
            start <= i <= chars@.len(),
            digits == chars@.skip(start as int),
            digits.len() > 0,
            numeral_value(s@) == digits_value(digits),
            digits_value(digits.take(i - start)) == Some(value as nat),
            value <= max,
        decreases chars@.len() - i,
    {
        let c = chars[i];
        let ghost now = digits.take(i - start + 1);
        proof {
            assert(now.drop_last() =~= digits.take(i - start));
            assert(now.last() == c);
            lemma_digits_grow(digits, i - start + 1);
        }
        if c < '0' || c > '9' {
            return None;
        }
        let d: u64 = (c as u32 - '0' as u32) as u64;
        if d > max || value > (max - d) / 10 {
            return None;
        }
        value = value * 10 + d;
        i += 1;
    }
    assert(digits.take(chars@.len() - start) =~= digits);
    Some(value)
}

/// A numeral stands for the number that it was made of, with or without a plus sign; it has no zero in
/// front, but for that of zero.
pub proof fn law_numerals_are_read_back(n: nat)
    ensures
        decimal(n).len() > 0,
        digits_value(decimal(n)) == Some(n),
        numeral_value(decimal(n)) == Some(n),
        numeral_value(seq!['+'] + decimal(n)) == Some(n),
        n > 0 ==> decimal(n)[0] != '0',
        forall|i: int| 0 <= i < decimal(n).len() ==> '0' <= #[trigger] decimal(n)[i] <= '9',
{
    lemma_decimal(n);
    assert((seq!['+'] + decimal(n)).skip(1) =~= decimal(n));
}

proof fn lemma_decimal(n: nat)
    ensures
        decimal(n).len() > 0,
        digits_value(decimal(n)) == Some(n),
        n > 0 ==> decimal(n)[0] != '0',
        forall|i: int| 0 <= i < decimal(n).len() ==> '0' <= #[trigger] decimal(n)[i] <= '9',
    decreases n,
{
    let s = decimal(n);
    if n < 10 {
        assert(s.drop_last() =~= seq![]);
        assert(digits_value(s.drop_last()) == Some(0nat));
    } else {
        lemma_decimal(n / 10);
        assert(s.drop_last() =~= decimal(n / 10));
        assert(s[0] == decimal(n / 10)[0]);
        assert forall|i: int| 0 <= i < s.len() implies '0' <= #[trigger] s[i] <= '9' by {
            if i < s.len() - 1 {
                assert(s[i] == decimal(n / 10)[i]);
            }
        }
    }
}

/// Zeros in front of digits change nothing, and a text with anything but digits behind an optional
/// plus sign is no numeral; neither is one without digits.
pub proof fn law_only_digits_are_numerals(s: Seq<char>, i: int)
    ensures
        digits_value(seq!['0'] + s) == digits_value(s),
        0 <= i < s.len() && !('0' <= s[i] <= '9') ==> digits_value(s) is None,
        0 < i < s.len() && !('0' <= s[i] <= '9') ==> numeral_value(s) is None,
        s.len() == 0 ==> numeral_value(s) is None,
    decreases s.len(),
{
    let t = seq!['0'] + s;
    if s.len() > 0 {
        assert(t.drop_last() =~= seq!['0'] + s.drop_last());
        law_only_digits_are_numerals(s.drop_last(), i);
        if s[0] == '+' {
            lemma_no_digit(s.skip(1), i - 1);
        }
    } else {
        assert(t.drop_last() =~= seq![]);
        assert(digits_value(t.drop_last()) == Some(0nat));
    }
}

proof fn lemma_no_digit(s: Seq<char>, i: int)
    ensures
        0 <= i < s.len() && !('0' <= s[i] <= '9') ==> digits_value(s) is None,
    decreases s.len(),
{
    if s.len() > 0 {
        lemma_no_digit(s.drop_last(), i);
    }
}

/// A numeral counts exactly where the number is within the bound.
pub proof fn law_numerals_are_bounded(s: Seq<char>, max: nat)
    ensures
        bounded_numeral(s, max) is Some <==> numeral_value(s) is Some && numeral_value(s)->0 <= max,
        bounded_numeral(s, max) is Some ==> bounded_numeral(s, max) == numeral_value(s),
{
}

/// Two numbers below a hundred have two digits each, which stand for them.
pub proof fn law_two_digits_are_two(n: nat)
    ensures
        two_digits(n).len() >= 2,
        n < 100 ==> two_digits(n).len() == 2,
        digits_value(two_digits(n)) == Some(n),
        n >= 10 ==> two_digits(n) == decimal(n),
{
    lemma_decimal(n);
    if n < 10 {
        law_only_digits_are_numerals(decimal(n), 0);
        assert(two_digits(n) =~= seq!['0'] + decimal(n));
    } else {
        lemma_decimal(n / 10);
    }
}

} // verus!
