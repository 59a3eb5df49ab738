//! The saved VPS nodes and the rules for their fields.
use vstd::prelude::*;
use crate::text::{chars_of, string_of, decimal, decimal_of, digit_char};

verus! {

/// A saved VPS node: how to reach it and how to log in.
#[derive(Debug, Clone)]
pub struct VpsEntry {
    pub name: String,
    pub host: String,
    pub port: u16,
    pub user: String,
    pub password: Option<String>,
    pub key_path: Option<String>,
    pub setup: Option<bool>,
}

/// Whether `c` is an ASCII decimal digit.
pub open spec fn is_digit(c: char) -> bool {
    '0' <= c && c <= '9'
}

/// The value of a digit character.
pub open spec fn digit_value(c: char) -> nat {
    ((c as u32) - 48) as nat
}

/// The value of a string of decimal digits.
pub open spec fn digits_value(s: Seq<char>) -> nat
    decreases s.len(),
{
    if s.len() == 0 {
        0
    } else {
        digits_value(s.drop_last()) * 10 + digit_value(s.last())
    }
}

/// Whether every character of `s` is a decimal digit.
pub open spec fn all_digits(s: Seq<char>) -> bool {
    forall|i: int| 0 <= i < s.len() ==> is_digit(#[trigger] s[i])
}

/// A port number as `str::parse::<u16>` reads it: an optional `+`, then one
/// or more decimal digits whose value is at most 65535.
pub open spec fn parse_u16_spec(s: Seq<char>) -> Option<u16> {
    let d = if s.len() > 0 && s[0] == '+' { s.drop_first() } else { s };
    if d.len() > 0 && all_digits(d) && digits_value(d) <= 65535 {
        Some(digits_value(d) as u16)
    } else {
        None
    }
}

/// Reads a port number (see `parse_u16_spec`).
pub fn parse_port(input: &str) -> (r: Option<u16>)
    ensures
        r == parse_u16_spec(input@),
{
    let s = chars_of(input);
    let start: usize = if s.len() > 0 && s[0] == '+' { 1 } else { 0 };
    let ghost d = if s@.len() > 0 && s@[0] == '+' { s@.drop_first() } else { s@ };
    assert(d =~= s@.subrange(start as int, s@.len() as int));
    if start >= s.len() {
        return None;
    }
    let mut value: u32 = 0;
    let mut i = start;
    while i < s.len()
        invariant
            start <= i <= s@.len(),
            s@ == input@,
            d == (if input@.len() > 0 && input@[0] == '+' { input@.drop_first() } else { input@ }),
            d == s@.subrange(start as int, s@.len() as int),
            all_digits(s@.subrange(start as int, i as int)),
            value == digits_value(s@.subrange(start as int, i as int)),
            value <= 65535,
        decreases s.len() - i,
    {
        let c = s[i];
        let ghost prefix = s@.subrange(start as int, i + 1);
        assert(prefix.drop_last() =~= s@.subrange(start as int, i as int));
        if !('0' <= c && c <= '9') {
            assert(d[i - start] == s@[i as int]);
            assert(!all_digits(d));
            return None;
        }
        let next = value * 10 + ((c as u32) - 48);
        if next > 65535 {
            proof {
                assert(all_digits(prefix)) by {
                    assert forall|k: int| 0 <= k < prefix.len() implies is_digit(#[trigger] prefix[k]) by {
                        if k < prefix.len() - 1 {
                            assert(prefix[k] == s@.subrange(start as int, i as int)[k]);
                        }
                    }
                }
                assert(digits_value(prefix) == next);
                if all_digits(d) {
                    lemma_prefix_value_grows(s@, start as int, i + 1, s@.len() as int);
                }
            }
            return None;
        }
        value = next;
        i = i + 1;
    }
    Some(value as u16)
}

proof fn lemma_prefix_value_grows(s: Seq<char>, start: int, a: int, b: int)
    requires
        0 <= start <= a <= b <= s.len(),
        all_digits(s.subrange(start, b)),
    ensures
        digits_value(s.subrange(start, a)) <= digits_value(s.subrange(start, b)),
    decreases b - a,
{
    if a < b {
        assert(s.subrange(start, b).drop_last() =~= s.subrange(start, b - 1));
        assert(all_digits(s.subrange(start, b - 1))) by {
            assert forall|i: int| 0 <= i < s.subrange(start, b - 1).len() implies is_digit(#[trigger] s.subrange(start, b - 1)[i]) by {
                assert(s.subrange(start, b - 1)[i] == s.subrange(start, b)[i]);
            }
        }
        lemma_prefix_value_grows(s, start, a, b - 1);
    }
}

/// The decimal text of a port number reads back as that port.
pub proof fn lemma_port_text_round_trip(n: u16)
    ensures
        parse_u16_spec(decimal(n as nat)) == Some(n),
{
    lemma_decimal_digits(n as nat);
    let s = decimal(n as nat);
    assert(s[0] != '+') by {
        assert(is_digit(s[0]));
    }
}

/// `decimal(n)` is a non-empty string of digits whose value is `n`.
pub proof fn lemma_decimal_digits(n: nat)
    ensures
        decimal(n).len() > 0,
        all_digits(decimal(n)),
        digits_value(decimal(n)) == n,
    decreases n,
{
    if n < 10 {
        assert(decimal(n) =~= seq![digit_char(n)]);
        assert(decimal(n).drop_last() =~= Seq::<char>::empty());
        let c = digit_char(n);
        assert(c as u32 == 48 + n);
        assert(digit_value(c) == n);
        assert(digits_value(Seq::<char>::empty()) == 0);
        assert(digits_value(decimal(n)) == digits_value(decimal(n).drop_last()) * 10 + digit_value(c));
    } else {
        lemma_decimal_digits(n / 10);
        let s = decimal(n);
        assert(s.drop_last() =~= decimal(n / 10));
        let c = digit_char(n % 10);
        assert(c as u32 == 48 + n % 10);
        assert(digit_value(c) == n % 10);
        assert((n / 10) * 10 + n % 10 == n) by (nonlinear_arith);
        assert(s.last() == c);
        assert(digits_value(s) == digits_value(s.drop_last()) * 10 + digit_value(c));
        assert(digits_value(s) == (n / 10) * 10 + n % 10);
        assert forall|i: int| 0 <= i < s.len() implies is_digit(#[trigger] s[i]) by {
            if i < s.len() - 1 {
                assert(s[i] == decimal(n / 10)[i]);
            }
        }
    }
}

/// The decimal text of a port, as `to_string` writes it.
pub fn port_text(port: u16) -> (s: String)
    ensures
        s@ == decimal(port as nat),
{
    let v = decimal_of(port as u64);
    string_of(v.as_slice())
}

} // verus!

verus! {

/// How a port is read: the decimal text of a number up to 65535 reads as
/// that number, also after a `+`; a larger number reads as no port; and a
/// text with any other character than digits (and a leading `+`) reads as
/// no port.
pub proof fn lemma_port_parse_law(n: nat, s: Seq<char>, i: int)
    ensures
        n <= 65535 ==> parse_u16_spec(decimal(n)) == Some(n as u16),
        n <= 65535 ==> parse_u16_spec(seq!['+'] + decimal(n)) == Some(n as u16),
        n > 65535 ==> parse_u16_spec(decimal(n)) is None,
        0 <= i < s.len() && !is_digit(s[i]) && !(i == 0 && s[i] == '+') ==> parse_u16_spec(s) is None,
{
    lemma_decimal_digits(n);
    let d = decimal(n);
    assert(d[0] != '+') by {
        assert(is_digit(d[0]));
    }
    assert((seq!['+'] + d).drop_first() =~= d);
    if 0 <= i < s.len() && !is_digit(s[i]) && !(i == 0 && s[i] == '+') {
        if s.len() > 0 && s[0] == '+' {
            assert(i > 0);
            assert(s.drop_first()[i - 1] == s[i]);
        }
    }
}

} // verus!
