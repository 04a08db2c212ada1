//! Decimal numbers as text, in both directions.
use vstd::prelude::*;

use crate::text::{
    chars_of, lemma_text_before_by_head, lemma_text_before_by_tail, text_before,
};

verus! {

/// The character that stands for the digit `d`.
pub open spec fn digit_char(d: int) -> char {
    (48 + d) as char
}

/// Whether `c` is one of the ten decimal digits.
pub open spec fn is_digit(c: char) -> bool {
    '0' <= c <= '9'
}

/// The decimal digits of `n`, without leading zeros.
pub open spec fn digits(n: nat) -> Seq<char>
    decreases n,
{
    if n < 10 {
        seq![digit_char(n as int)]
    } else {
        digits(n / 10).push(digit_char((n % 10) as int))
    }
}

/// `n` in two decimal digits.
pub open spec fn two_digits(n: int) -> Seq<char> {
    seq![digit_char(n / 10), digit_char(n % 10)]
}

/// `n` in four decimal digits.
pub open spec fn four_digits(n: int) -> Seq<char> {
    two_digits(n / 100) + two_digits(n % 100)
}

/// `n` in decimal, with a minus sign where it is negative.
pub open spec fn decimal(n: int) -> Seq<char> {
    if n < 0 {
        seq!['-'] + digits((-n) as nat)
    } else {
        digits(n as nat)
    }
}

/// The number that a sequence of decimal digits stands for.
pub open spec fn digits_value(s: Seq<char>) -> nat
    decreases s.len(),
{
    if s.len() == 0 {
        0
    } else {
        digits_value(s.drop_last()) * 10 + (s.last() as nat - 48) as nat
    }
}

/// Whether `s` is made of decimal digits, one at least.
pub open spec fn all_digits(s: Seq<char>) -> bool {
    s.len() > 0 && forall|i: int| 0 <= i < s.len() ==> is_digit(#[trigger] s[i])
}

/// `s` without the sign that it begins with, if it does.
pub open spec fn without_sign(s: Seq<char>) -> Seq<char> {
    if s.len() > 0 && (s[0] == '-' || s[0] == '+') {
        s.skip(1)
    } else {
        s
    }
}

/// The number that `s` spells with its sign, whatever its size.
pub open spec fn signed_value(s: Seq<char>) -> int {
    let magnitude = digits_value(without_sign(s)) as int;
    if s.len() > 0 && s[0] == '-' {
        -magnitude
    } else {
        magnitude
    }
}

/// What `s` spells as a 64-bit integer: an optional sign, then digits and nothing
/// else, with a value that fits.
pub open spec fn spelled_i64(s: Seq<char>) -> Option<i64> {
    if all_digits(without_sign(s)) && i64::MIN <= signed_value(s) <= i64::MAX {
        Some(signed_value(s) as i64)
    } else {
        None
    }
}

proof fn lemma_digits(n: nat)
    ensures
        all_digits(digits(n)),
        digits_value(digits(n)) == n,
    decreases n,
{
    reveal_with_fuel(digits_value, 2);
    if n >= 10 {
        lemma_digits(n / 10);
        let shorter = digits(n / 10);
        let all = digits(n);
        assert(all.drop_last() =~= shorter);
        assert forall|i: int| 0 <= i < all.len() implies is_digit(#[trigger] all[i]) by {
            if i < shorter.len() {
                assert(all[i] == shorter[i]);
            }
        }
    } else {
        assert(digits(n).drop_last() =~= Seq::<char>::empty());
    }
}

/// Two digits are ordered as the numbers that they spell.
pub proof fn lemma_two_digits_are_ordered(a: int, b: int)
    requires
        0 <= a < b < 100,
    ensures
        text_before(two_digits(a), two_digits(b)),
{
    let s = two_digits(a);
    let t = two_digits(b);
    if a / 10 == b / 10 {
        assert(s.take(1) =~= t.take(1));
        assert(s[1] < t[1]);
    } else {
        assert(s.take(0) =~= t.take(0));
        assert(s[0] < t[0]);
    }
}

/// Four digits are ordered as the numbers that they spell.
pub proof fn lemma_four_digits_are_ordered(a: int, b: int)
    requires
        0 <= a < b < 10000,
    ensures
        text_before(four_digits(a), four_digits(b)),
{
    if a / 100 == b / 100 {
        lemma_two_digits_are_ordered(a % 100, b % 100);
        lemma_text_before_by_tail(two_digits(a / 100), two_digits(a % 100), two_digits(b % 100));
    } else {
        lemma_two_digits_are_ordered(a / 100, b / 100);
        lemma_text_before_by_head(
            two_digits(a / 100),
            two_digits(b / 100),
            two_digits(a % 100),
            two_digits(b % 100),
        );
    }
}

/// Every 64-bit integer is read back from its decimal text.
pub proof fn lemma_decimal_is_read_back(n: i64)
    ensures
        spelled_i64(decimal(n as int)) == Some(n),
{
    let s = decimal(n as int);
    if n < 0 {
        lemma_digits((-n) as nat);
        assert(s.skip(1) =~= digits((-n) as nat));
    } else {
        lemma_digits(n as nat);
        assert(is_digit(s[0]));
    }
}

/// A number of one digit is spelled by that digit, and writing a further digit behind a
/// number that is not zero makes it ten times as large and adds the digit.
pub proof fn lemma_digits_are_decimal(n: nat, d: nat)
    requires
        d < 10,
    ensures
        decimal(d as int) == seq![('0' as int + d) as char],
        n > 0 ==> decimal((10 * n + d) as int) == decimal(n as int).push(('0' as int + d) as char),
        n > 0 ==> decimal(-(n as int)) == seq!['-'] + decimal(n as int),
{
    if n > 0 {
        assert((10 * n + d) / 10 == n);
        assert((10 * n + d) % 10 == d);
    }
}

/// Only an optional sign followed by digits spells a number: any other character, or
/// no digit at all, spells none.
pub proof fn lemma_other_text_spells_nothing(s: Seq<char>)
    requires
        ({
            ||| s.len() == 0
            ||| s.len() == 1 && !('0' <= s[0] <= '9')
            ||| !('0' <= s[0] <= '9') && s[0] != '-' && s[0] != '+'
            ||| exists|i: int| 1 <= i < s.len() && !('0' <= #[trigger] s[i] <= '9')
        }),
    ensures
        spelled_i64(s) is None,
{
    let body = without_sign(s);
    if s.len() > 0 && all_digits(body) {
        if s[0] == '-' || s[0] == '+' {
            assert forall|i: int| 1 <= i < s.len() implies '0' <= #[trigger] s[i] <= '9' by {
                assert(body[i - 1] == s[i]);
                assert(is_digit(body[i - 1]));
            }
        } else {
            assert forall|i: int| 0 <= i < s.len() implies '0' <= #[trigger] s[i] <= '9' by {
                assert(is_digit(body[i]));
            }
        }
    }
}

/// A digit spells its value, with a minus sign before it the negated value, and a plus
/// sign changes nothing.
pub proof fn lemma_one_digit_spells_its_value(c: char)
    requires
        '0' <= c <= '9',
    ensures
        spelled_i64(seq![c]) == Some((c as int - '0' as int) as i64),
        spelled_i64(seq!['+', c]) == Some((c as int - '0' as int) as i64),
        spelled_i64(seq!['-', c]) == Some(('0' as int - c as int) as i64),
{
    reveal_with_fuel(digits_value, 2);
    assert(seq![c].drop_last() =~= Seq::<char>::empty());
    assert(seq!['+', c].skip(1) =~= seq![c]);
    assert(seq!['-', c].skip(1) =~= seq![c]);
    assert(is_digit(seq![c][0]));
}

/// One more digit at the end of a number makes it ten times as large and moves it away
/// from zero by the digit. A number that is out of range stays so.
pub proof fn lemma_next_digit_extends_the_number(s: Seq<char>, c: char)
    requires
        s.len() > 0,
        '0' <= s[0] <= '9' || s.len() > 1 && (s[0] == '-' || s[0] == '+'),
        forall|i: int| 1 <= i < s.len() ==> '0' <= #[trigger] s[i] <= '9',
        '0' <= c <= '9',
    ensures
        spelled_i64(s.push(c)) == (match spelled_i64(s) {
            Some(v) => {
                let d = c as int - '0' as int;
                let next = if s[0] == '-' {
                    10 * v - d
                } else {
                    10 * v + d
                };
                if i64::MIN <= next <= i64::MAX {
                    Some(next as i64)
                } else {
                    None
                }
            },
            None => None,
        }),
{
    let t = s.push(c);
    let body = without_sign(s);
    let next = without_sign(t);
    assert(next =~= body.push(c));
    assert(next.drop_last() =~= body);
    assert(all_digits(body)) by {
        assert forall|i: int| 0 <= i < body.len() implies is_digit(#[trigger] body[i]) by {
            if body.len() < s.len() {
                assert(body[i] == s[i + 1]);
            } else if i > 0 {
                assert('0' <= s[i] <= '9');
            }
        }
    }
    assert forall|i: int| 0 <= i < next.len() implies is_digit(#[trigger] next[i]) by {
        if i < body.len() {
            assert(next[i] == body[i]);
        }
    }
}

/// Two and four digits spell the number with leading zeros.
pub proof fn lemma_padded_digits_spell_the_number(n: int)
    ensures
        0 <= n < 10 ==> two_digits(n) == seq!['0'] + decimal(n),
        10 <= n < 100 ==> two_digits(n) == decimal(n),
        0 <= n < 100 ==> four_digits(n) == seq!['0', '0'] + two_digits(n),
        100 <= n < 1000 ==> four_digits(n) == seq!['0'] + decimal(n),
        1000 <= n < 10000 ==> four_digits(n) == decimal(n),
{
    reveal_with_fuel(digits, 4);
    if 0 <= n < 10 {
        assert(two_digits(n) =~= seq!['0'] + decimal(n));
    } else if 10 <= n < 100 {
        assert(two_digits(n) =~= decimal(n));
    }
    if 0 <= n < 100 {
        assert(four_digits(n) =~= seq!['0', '0'] + two_digits(n));
    } else if 100 <= n < 1000 {
        assert(n / 10 / 10 == n / 100);
        assert(n / 10 % 10 == n % 100 / 10);
        assert(n % 100 % 10 == n % 10);
        assert(four_digits(n) =~= seq!['0'] + decimal(n));
    } else if 1000 <= n < 10000 {
        assert(n / 10 / 10 == n / 100);
        assert(n / 10 / 10 / 10 == n / 100 / 10);
        assert(n / 10 % 10 == n % 100 / 10);
        assert(n % 100 % 10 == n % 10);
        assert(four_digits(n) =~= decimal(n));
    }
}

/// Two different integers never have the same decimal text.
pub proof fn lemma_decimal_is_injective(a: int, b: int)
    requires
        decimal(a) == decimal(b),
    ensures
        a == b,
{
    let s = decimal(a);
    lemma_digits(if a < 0 { (-a) as nat } else { a as nat });
    lemma_digits(if b < 0 { (-b) as nat } else { b as nat });
    if a < 0 && b < 0 {
        assert(s.skip(1) =~= digits((-a) as nat));
        assert(s.skip(1) =~= digits((-b) as nat));
    } else if a < 0 {
        assert(is_digit(digits(b as nat)[0]));
    } else if b < 0 {
        assert(is_digit(digits(a as nat)[0]));
    }
}

/// The text of a number, in decimal.
pub fn u64_text(n: u64) -> (s: String)
    ensures
        s@ == decimal(n as int),
    decreases n,
{
    let last: u8 = (n % 10) as u8;
    if n < 10 {
        let mut s = String::new();
        s.push((48 + last) as char);
        s
    } else {
        let mut s = u64_text(n / 10);
        s.push((48 + last) as char);
        s
    }
}

/// The text of a count, in decimal.
pub fn usize_text(n: usize) -> (s: String)
    ensures
        s@ == decimal(n as int),
{
    u64_text(n as u64)
}

/// The text of a signed number, in decimal.
pub fn i64_text(n: i64) -> (s: String)
    ensures
        s@ == decimal(n as int),
{
    if n >= 0 {
        return u64_text(n as u64);
    }
    let magnitude: u64 = (-(n as i128)) as u64;
    let rest = u64_text(magnitude);
    let mut s = String::new();
    s.push('-');
    s.append(rest.as_str());
    s
}

/// Reads a 64-bit integer: an optional sign, then decimal digits and nothing else.
pub fn parse_i64(s: &str) -> (n: Option<i64>)
    ensures
        n == spelled_i64(s@),
{
    let v = chars_of(s);
    if v.len() == 0 {
        return None;
    }
    let negative: bool = v[0] == '-';
    let from: usize = if v[0] == '-' || v[0] == '+' {
        1
    } else {
        0
    };
    let ghost body = without_sign(s@);
    assert(body =~= v@.skip(from as int));
    if from == v.len() {
        return None;
    }
    let limit: u64 = 0x8000_0000_0000_0000;
    let mut magnitude: u64 = 0;
    let mut too_large: bool = false;
    for i in from..v.len()
        invariant
            from < v.len(),
            limit == 0x8000_0000_0000_0000,
            body == v@.skip(from as int),
            forall|k: int| 0 <= k < i - from ==> is_digit(#[trigger] body[k]),
            !too_large ==> magnitude <= limit && magnitude == digits_value(body.take(i - from)),
            too_large ==> digits_value(body.take(i - from)) > limit,
            body == without_sign(s@),
    {
        let c = v[i];
        assert(c == body[i - from]);
        if c < '0' || '9' < c {
            return None;
        }
        let digit: u64 = (c as u32 - 48) as u64;
        assert(body.take(i + 1 - from).drop_last() =~= body.take(i - from));
        if !too_large {
            if magnitude > 922337203685477580 {
                too_large = true;
            } else {
                magnitude = magnitude * 10 + digit;
                if magnitude > limit {
                    too_large = true;
                }
            }
        }
    }
    assert(body.take(v.len() - from) =~= body);
    if too_large {
        return None;
    }
    if negative {
        if magnitude == limit {
            Some(i64::MIN)
        } else {
            Some(-(magnitude as i64))
        }
    } else if magnitude < limit {
        Some(magnitude as i64)
    } else {
        None
    }
}

} // verus!
