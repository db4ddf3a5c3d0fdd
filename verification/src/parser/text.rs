//! Reading names and numbers: comparison of texts and decimal numbers.
use vstd::prelude::*;
use vstd::string::StrSliceExecFns;

use super::model::{all_digits, digits_value, is_digit, parse_u64};

verus! {

/// Whether two texts are equal.
pub fn text_equal(a: &str, b: &str) -> (r: bool)
    ensures
        r == (a@ == b@),
{
    let n = a.unicode_len();
    if n != b.unicode_len() {
        return false;
    }
    let mut i: usize = 0;
    while i < n
        invariant
            n == a@.len(),
            n == b@.len(),
            0 <= i <= n,
            forall|j: int| 0 <= j < i ==> a@[j] == b@[j],
        decreases n - i,
    {
        if a.get_char(i) != b.get_char(i) {
            return false;
        }
        i = i + 1;
    }
    proof {
        assert(a@ =~= b@);
    }
    true
}

/// Whether the text starts with `bv`.
pub fn starts_with_bv(s: &str) -> (r: bool)
    ensures
        r == (s@.len() >= 2 && s@[0] == 'b' && s@[1] == 'v'),
{
    let n = s.unicode_len();
    n >= 2 && s.get_char(0) == 'b' && s.get_char(1) == 'v'
}

/// Appending a digit multiplies the value by ten and adds the digit.
proof fn lemma_digits_push(s: Seq<char>, c: char)
    ensures
        digits_value(s.push(c)) == digits_value(s) * 10 + ((c as int) - ('0' as int)) as nat,
{
    assert(s.push(c).drop_last() =~= s);
}

/// A longer number of digits has at least the value of its prefix.
proof fn lemma_digits_prefix(s: Seq<char>, i: int)
    requires
        0 <= i <= s.len(),
    ensures
        digits_value(s.take(i)) <= digits_value(s),
    decreases s.len() - i,
{
    if i < s.len() {
        lemma_digits_prefix(s, i + 1);
        assert(s.take(i + 1) =~= s.take(i).push(s[i]));
        lemma_digits_push(s.take(i), s[i]);
    } else {
        assert(s.take(i) =~= s);
    }
}

/// The decimal number of the text from position `start` on, as
/// `u64::from_str` reads it.
pub fn parse_u64_from(s: &str, start: usize) -> (r: Option<u64>)
    requires
        start <= s@.len(),
    ensures
        r == parse_u64(s@.skip(start as int)),
{
    let ghost text = s@.skip(start as int);
    let n = s.unicode_len();
    let mut i = start;
    if i < n && s.get_char(i) == '+' {
        i = i + 1;
    }
    let ghost digits = s@.skip(i as int);
    proof {
        if text.len() > 0 && text[0] == '+' {
            assert(digits =~= text.skip(1));
        } else {
            assert(digits =~= text);
        }
    }
    if i == n {
        return None;
    }
    let first = i;
    let mut value: u64 = 0;
    while i < n
        invariant
            n == s@.len(),
            first <= i <= n,
            first < n,
            digits == s@.skip(first as int),
            text == s@.skip(start as int),
            if text.len() > 0 && text[0] == '+' {
                digits == text.skip(1)
            } else {
                digits == text
            },
            forall|j: int| first <= j < i ==> is_digit(#[trigger] s@[j]),
            value == digits_value(digits.take(i - first)),
        decreases n - i,
    {
        let c = s.get_char(i);
        if !('0' <= c && c <= '9') {
            proof {
                assert(digits[i - first] == s@[i as int]);
                assert(!is_digit(digits[i - first]));
                assert(!all_digits(digits));
            }
            return None;
        }
        let d = (c as u32 - '0' as u32) as u64;
        proof {
            assert(digits.take(i - first + 1) =~= digits.take(i - first).push(c));
            lemma_digits_push(digits.take(i - first), c);
        }
        let scaled = value.checked_mul(10);
        match scaled {
            None => {
                proof {
                    lemma_digits_prefix(digits, i - first + 1);
                }
                return None;
            },
            Some(scaled) => match scaled.checked_add(d) {
                None => {
                    proof {
                        lemma_digits_prefix(digits, i - first + 1);
                    }
                    return None;
                },
                Some(next) => {
                    value = next;
                },
            },
        }
        i = i + 1;
    }
    proof {
        assert(digits.take(n - first) =~= digits);
        assert forall|j: int| 0 <= j < digits.len() implies is_digit(#[trigger] digits[j]) by {
            assert(digits[j] == s@[first + j]);
        }
        assert(all_digits(digits));
    }
    Some(value)
}

} // verus!
