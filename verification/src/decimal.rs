//! Whole numbers written in decimal.
use vstd::prelude::*;

use crate::text;

verus! {

/// Whether the character is a decimal digit.
pub open spec fn is_digit(c: char) -> bool {
    '0' <= c <= '9'
}

/// Whether the text is a decimal digit or more of them.
pub open spec fn is_digits(s: Seq<char>) -> bool {
    s.len() > 0 && forall|i: int| 0 <= i < s.len() ==> is_digit(#[trigger] s[i])
}

/// The number that digits stand for.
pub open spec fn digits_value(s: Seq<char>) -> int
    decreases s.len(),
{
    if s.len() == 0 {
        0
    } else {
        10 * digits_value(s.drop_last()) + (s.last() as int - '0' as int)
    }
}

/// The number that digits stand for, if the text is made of them.
pub open spec fn plain_number(s: Seq<char>) -> Option<int> {
    if is_digits(s) {
        Some(digits_value(s))
    } else {
        None
    }
}

/// The number that a text stands for: digits, which a plus sign may stand before.
pub open spec fn unsigned_number(s: Seq<char>) -> Option<int> {
    if s.len() > 0 && s[0] == '+' {
        plain_number(s.skip(1))
    } else {
        plain_number(s)
    }
}

/// The number that a text stands for: digits, which a sign may stand before.
pub open spec fn signed_number(s: Seq<char>) -> Option<int> {
    if s.len() > 0 && s[0] == '-' {
        match plain_number(s.skip(1)) {
            Some(n) => Some(-n),
            None => None,
        }
    } else {
        unsigned_number(s)
    }
}

/// The number, if it lies between the bounds.
pub open spec fn between(n: Option<int>, low: int, high: int) -> Option<int> {
    match n {
        Some(n) => if low <= n <= high {
            Some(n)
        } else {
            None
        },
        None => None,
    }
}

/// More digits make no smaller number.
proof fn lemma_prefix_is_no_larger(s: Seq<char>, n: int)
    requires
        0 <= n <= s.len(),
        forall|i: int| 0 <= i < s.len() ==> is_digit(#[trigger] s[i]),
    ensures
        0 <= digits_value(s.take(n)) <= digits_value(s),
    decreases s.len(),
{
    if n == s.len() {
        assert(s.take(n) =~= s);
        if n > 0 {
            assert(s.drop_last().take(n - 1) =~= s.drop_last());
            lemma_prefix_is_no_larger(s.drop_last(), n - 1);
        }
    } else {
        assert(s.drop_last().take(n) =~= s.take(n));
        lemma_prefix_is_no_larger(s.drop_last(), n);
    }
}

/// The number that the digits from `start` up to `end` stand for, if it is at most `max`.
fn parse_digits(s: &[char], start: usize, end: usize, max: u64) -> (r: Option<u64>)
    requires
        start <= end <= s@.len(),
    ensures
        between(plain_number(s@.subrange(start as int, end as int)), 0, max as int) == (match r {
            Some(n) => Some(n as int),
            None => None,
        }),
{
    let ghost digits = s@.subrange(start as int, end as int);
    if start == end {
        return None;
    }
    let mut n: u64 = 0;
    let mut i: usize = start;
    assert(digits.take(0) =~= seq![]);
    while i < end
        invariant
            start <= i <= end <= s@.len(),
            digits == s@.subrange(start as int, end as int),
            forall|k: int| 0 <= k < i - start ==> is_digit(#[trigger] digits[k]),
            n == digits_value(digits.take(i - start)),
            n <= max,
        decreases end - i,
    {
        let c: char = s[i];
        assert(c == digits[i - start]);
        if !('0' <= c && c <= '9') {
            assert(!is_digits(digits));
            return None;
        }
        let d: u64 = (c as u32 - '0' as u32) as u64;
        let next: u128 = n as u128 * 10 + d as u128;
        assert(digits.take(i - start + 1).drop_last() =~= digits.take(i - start));
        assert(next == digits_value(digits.take(i - start + 1)));
        if next > max as u128 {
            proof {
                if is_digits(digits) {
                    lemma_prefix_is_no_larger(digits, i - start + 1);
                }
            }
            return None;
        }
        n = next as u64;
        i = i + 1;
    }
    proof {
        assert(digits.take(digits.len() as int) =~= digits);
        lemma_prefix_is_no_larger(digits, 0);
    }
    Some(n)
}

/// The number that the text from `start` up to `end` stands for, if it is at most `max`.
pub fn parse_unsigned(s: &[char], start: usize, end: usize, max: u64) -> (r: Option<u64>)
    requires
        start <= end <= s@.len(),
    ensures
        between(unsigned_number(s@.subrange(start as int, end as int)), 0, max as int) == (match r {
            Some(n) => Some(n as int),
            None => None,
        }),
{
    let ghost text = s@.subrange(start as int, end as int);
    if start < end && s[start] == '+' {
        assert(text[0] == '+');
        assert(text.skip(1) =~= s@.subrange(start + 1, end as int));
        parse_digits(s, start + 1, end, max)
    } else {
        assert(start < end ==> text[0] == s@[start as int]);
        parse_digits(s, start, end, max)
    }
}

/// The number from 0 to 255 that a text stands for.
pub fn parse_u8(s: &str) -> (r: Option<u8>)
    ensures
        between(unsigned_number(s@), 0, u8::MAX as int) == (match r {
            Some(n) => Some(n as int),
            None => None,
        }),
{
    let chars: Vec<char> = text::chars_of(s);
    assert(chars@.subrange(0, chars@.len() as int) =~= s@);
    match parse_unsigned(chars.as_slice(), 0, chars.len(), u8::MAX as u64) {
        Some(n) => Some(n as u8),
        None => None,
    }
}

/// The number from 0 to the largest index that a text stands for.
pub fn parse_usize(s: &str) -> (r: Option<usize>)
    ensures
        between(unsigned_number(s@), 0, usize::MAX as int) == (match r {
            Some(n) => Some(n as int),
            None => None,
        }),
{
    let chars: Vec<char> = text::chars_of(s);
    assert(chars@.subrange(0, chars@.len() as int) =~= s@);
    match parse_unsigned(chars.as_slice(), 0, chars.len(), usize::MAX as u64) {
        Some(n) => Some(n as usize),
        None => None,
    }
}

/// The number of 32 bits, one of them the sign, that a text stands for.
pub fn parse_i32(s: &str) -> (r: Option<i32>)
    ensures
        between(signed_number(s@), i32::MIN as int, i32::MAX as int) == (match r {
            Some(n) => Some(n as int),
            None => None,
        }),
{
    let chars: Vec<char> = text::chars_of(s);
    let n: usize = chars.len();
    assert(chars@.subrange(0, n as int) =~= s@);
    if n > 0 && chars[0] == '-' {
        assert(s@.skip(1) =~= chars@.subrange(1, n as int));
        proof {
            if is_digits(s@.skip(1)) {
                lemma_prefix_is_no_larger(s@.skip(1), 0);
            }
        }
        match parse_digits(chars.as_slice(), 1, n, 0x8000_0000) {
            Some(m) => Some((0 - m as i64) as i32),
            None => None,
        }
    } else {
        proof {
            let digits = if n > 0 && s@[0] == '+' {
                s@.skip(1)
            } else {
                s@
            };
            if is_digits(digits) {
                lemma_prefix_is_no_larger(digits, 0);
            }
        }
        match parse_unsigned(chars.as_slice(), 0, n, 0x7fff_ffff) {
            Some(m) => Some(m as i32),
            None => None,
        }
    }
}

/// The digits of a number, without leading zeros.
pub open spec fn digits_of(n: nat) -> Seq<char>
    decreases n,
{
    let last = (n % 10 + '0' as int) as char;
    if n < 10 {
        seq![last]
    } else {
        digits_of(n / 10).push(last)
    }
}

/// A number is read back from its digits, with or without a plus sign, and its negative from its
/// digits behind a minus sign.
pub proof fn law_digits_are_read_back(n: nat)
    ensures
        plain_number(digits_of(n)) == Some(n as int),
        unsigned_number(digits_of(n)) == Some(n as int),
        unsigned_number(seq!['+'] + digits_of(n)) == Some(n as int),
        signed_number(digits_of(n)) == Some(n as int),
        signed_number(seq!['+'] + digits_of(n)) == Some(n as int),
        signed_number(seq!['-'] + digits_of(n)) == Some(-(n as int)),
    decreases n,
{
    let s = digits_of(n);
    let last = (n % 10 + '0' as int) as char;
    assert(is_digit(last) && last as int - '0' as int == n % 10);
    if n < 10 {
        assert(s.drop_last() =~= seq![]);
        assert(digits_value(s.drop_last()) == 0);
    } else {
        law_digits_are_read_back(n / 10);
        assert(s.drop_last() =~= digits_of(n / 10));
        assert(is_digits(digits_of(n / 10)));
    }
    assert(is_digits(s));
    assert(is_digit(s[0]));
    assert((seq!['+'] + s).skip(1) =~= s);
    assert((seq!['-'] + s).skip(1) =~= s);
}

/// A single character is a number if and only if it is a digit, and then the one that it shows.
pub proof fn law_digit_is_its_number(c: char)
    ensures
        plain_number(seq![c]) == (if '0' <= c <= '9' {
            Some(c as int - 48)
        } else {
            None
        }),
{
    let s = seq![c];
    assert(s.drop_last() =~= seq![]);
    assert(digits_value(s.drop_last()) == 0);
    assert(s[0] == c);
}

/// A digit behind a number makes it ten times as large and adds what it shows. Anything else behind
/// it, or a digit behind no number, makes none.
pub proof fn law_digit_behind_a_number(s: Seq<char>, c: char)
    requires
        s.len() > 0,
    ensures
        plain_number(s.push(c)) == (match plain_number(s) {
            Some(n) => if '0' <= c <= '9' {
                Some(10 * n + (c as int - 48))
            } else {
                None
            },
            None => None,
        }),
{
    let t = s.push(c);
    assert(t.drop_last() =~= s);
    assert(t[s.len() as int] == c);
    if is_digits(s) && '0' <= c <= '9' {
        assert forall|i: int| 0 <= i < t.len() implies is_digit(#[trigger] t[i]) by {
            if i < s.len() {
                assert(is_digit(s[i]));
            }
        }
    }
    if is_digits(t) {
        assert forall|i: int| 0 <= i < s.len() implies is_digit(#[trigger] s[i]) by {
            assert(is_digit(t[i]));
        }
    }
}

/// No characters are no number.
pub proof fn law_nothing_is_no_number()
    ensures
        plain_number(seq![]) is None,
        unsigned_number(seq![]) is None,
        signed_number(seq![]) is None,
{
}

/// A plus sign may stand before a number that is signed or not, and a minus sign before one that is
/// signed. Without a sign before it a number is what its digits say.
pub proof fn law_signs(s: Seq<char>)
    ensures
        unsigned_number(seq!['+'] + s) == plain_number(s),
        signed_number(seq!['+'] + s) == plain_number(s),
        unsigned_number(seq!['-'] + s) is None,
        signed_number(seq!['-'] + s) == (match plain_number(s) {
            Some(n) => Some(0 - n),
            None => None,
        }),
        s.len() > 0 && s[0] != '+' ==> unsigned_number(s) == plain_number(s),
        s.len() > 0 && s[0] != '+' && s[0] != '-' ==> signed_number(s) == plain_number(s),
{
    assert((seq!['+'] + s).skip(1) =~= s);
    assert((seq!['-'] + s).skip(1) =~= s);
    assert((seq!['-'] + s)[0] == '-');
}

/// A number between bounds is that number, and one beyond them is none.
pub proof fn law_between_keeps_the_number(n: Option<int>, low: int, high: int, m: int)
    ensures
        between(n, low, high) == Some(m) <==> n == Some(m) && low <= m && m <= high,
{
}

} // verus!
