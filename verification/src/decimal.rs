//! Numbers in base ten: reading them from text and writing them as text.

use vstd::prelude::*;
use crate::text::to_chars;

verus! {

/// Whether `c` is one of the digits `0` to `9`.
pub open spec fn is_digit(c: char) -> bool {
    '0' <= c && c <= '9'
}

/// The value of the digit `c`.
pub open spec fn digit_value(c: char) -> nat {
    (c as u32 - '0' as u32) as nat
}

/// The digit that stands for `d`, which is below ten.
pub open spec fn digit_char(d: nat) -> char {
    ((d + 48) as u8) as char
}

/// Whether `s` holds digits only.
pub open spec fn all_digits(s: Seq<char>) -> bool {
    forall|i: int| 0 <= i < s.len() ==> is_digit(#[trigger] s[i])
}

/// The number that the digits of `s` denote in base ten.
pub open spec fn decimal_value(s: Seq<char>) -> nat
    decreases s.len(),
{
    if s.len() == 0 {
        0
    } else {
        decimal_value(s.drop_last()) * 10 + digit_value(s.last())
    }
}

/// The number that `s` denotes, if `s` is an optional `+` followed by one or
/// more digits whose value is at most `max`.
pub open spec fn parse_decimal(s: Seq<char>, max: nat) -> Option<nat> {
    let body = if s.len() > 0 && s[0] == '+' {
        s.skip(1)
    } else {
        s
    };
    if body.len() > 0 && all_digits(body) && decimal_value(body) <= max {
        Some(decimal_value(body))
    } else {
        None
    }
}

/// The digits of `n` in base ten, without leading zeros.
pub open spec fn decimal_text(n: nat) -> Seq<char>
    decreases n,
{
    if n < 10 {
        seq![digit_char(n)]
    } else {
        decimal_text(n / 10).push(digit_char(n % 10))
    }
}

/// A longer run of digits denotes no smaller number.
pub proof fn lemma_decimal_value_grows(s: Seq<char>, i: int)
    requires
        0 <= i <= s.len(),
    ensures
        decimal_value(s.take(i)) <= decimal_value(s),
    decreases s.len() - i,
{
    if i < s.len() {
        lemma_decimal_value_grows(s, i + 1);
        assert(s.take(i + 1).drop_last() == s.take(i));
    } else {
        assert(s.take(i) == s);
    }
}

/// Reads `s` as an unsigned number in base ten: an optional `+`, then one or
/// more digits. Anything else, and a value above `u64::MAX`, is refused.
pub fn parse_u64(s: &str) -> (parsed: Option<u64>)
    ensures
        match parsed {
            Some(v) => parse_decimal(s@, u64::MAX as nat) == Some(v as nat),
            None => parse_decimal(s@, u64::MAX as nat) is None,
        },
{
    let chars = to_chars(s);
    let start: usize = if chars.len() > 0 && chars[0] == '+' {
        1
    } else {
        0
    };
    let ghost body = chars@.skip(start as int);
    if start == chars.len() {
        return None;
    }
    let mut acc: u64 = 0;
    let mut i: usize = start;
    assert(body.take(0) =~= Seq::<char>::empty());
    while i < chars.len()
        invariant
            start <= i <= chars.len(),
            chars@ == s@,
            start == if chars@.len() > 0 && chars@[0] == '+' {
                1int
            } else {
                0int
            },
            start < chars.len(),
            body == chars@.skip(start as int),
            all_digits(body.take(i - start)),
            acc == decimal_value(body.take(i - start)),
        decreases chars.len() - i,
    {
        let c = chars[i];
        let ghost upto = body.take(i - start + 1);
        assert(upto.drop_last() == body.take(i - start));
        assert(upto.last() == c);
        if !(c >= '0' && c <= '9') {
            assert(!is_digit(body[i - start]));
            assert(chars@.skip(0) =~= chars@);
            return None;
        }
        let d: u64 = (c as u32 - '0' as u32) as u64;
        assert(d == digit_value(c));
        assert(decimal_value(upto) == acc * 10 + d);
        if acc > (u64::MAX - d) / 10 {
            proof {
                lemma_decimal_value_grows(body, i - start + 1);
                assert(chars@.skip(0) =~= chars@);
            }
            return None;
        }
        acc = acc * 10 + d;
        assert forall|j: int| 0 <= j < upto.len() implies is_digit(#[trigger] upto[j]) by {
            if j < i - start {
                assert(upto[j] == body.take(i - start)[j]);
            }
        }
        i += 1;
    }
    assert(body.take(i - start) == body);
    assert(chars@.skip(0) =~= chars@);
    Some(acc)
}

/// Reads `s` as a `usize` in base ten, as `parse_u64` does.
pub fn parse_usize(s: &str) -> (parsed: Option<usize>)
    ensures
        match parsed {
            Some(v) => parse_decimal(s@, usize::MAX as nat) == Some(v as nat),
            None => parse_decimal(s@, usize::MAX as nat) is None,
        },
{
    match parse_u64(s) {
        Some(v) => {
            if v <= usize::MAX as u64 {
                Some(v as usize)
            } else {
                None
            }
        },
        None => None,
    }
}

/// Appends `n` in base ten to `text`.
pub fn push_decimal(text: &mut String, n: usize)
    ensures
        final(text)@ == old(text)@ + decimal_text(n as nat),
    decreases n,
{
    if n >= 10 {
        push_decimal(text, n / 10);
    }
    text.push(((n % 10) as u8 + 48u8) as char);
    assert(text@ =~= old(text)@ + decimal_text(n as nat));
}

} // verus!
