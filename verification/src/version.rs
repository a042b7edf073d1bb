//! Reading the major version out of a version text.

use vstd::prelude::*;
use crate::text::{chars_of, first_index_of};

verus! {

/// The decimal digits.
pub open spec fn is_digit(c: char) -> bool {
    '0' <= c && c <= '9'
}

/// The number a digit stands for; zero for any other character.
pub open spec fn digit_value(c: char) -> nat {
    if is_digit(c) {
        (c as nat - 48) as nat
    } else {
        0
    }
}

/// The number that a run of digits denotes in base ten.
pub open spec fn digits_value(s: Seq<char>) -> nat
    decreases s.len(),
{
    if s.len() == 0 {
        0
    } else {
        digits_value(s.drop_last()) * 10 + digit_value(s.last())
    }
}

/// Whether `s` holds digits only.
pub open spec fn all_digits(s: Seq<char>) -> bool {
    forall|i: int| 0 <= i < s.len() ==> is_digit(#[trigger] s[i])
}

/// The value of a run of digits: at least one digit, denoting a number that
/// fits in 32 bits.
pub open spec fn numeral_value(digits: Seq<char>) -> Option<u32> {
    if digits.len() > 0 && all_digits(digits) && digits_value(digits) <= u32::MAX {
        Some(digits_value(digits) as u32)
    } else {
        None
    }
}

/// The value of an unsigned numeral: an optional `+`, then a run of digits.
pub open spec fn unsigned_value(s: Seq<char>) -> Option<u32> {
    if s.len() > 0 && s[0] == '+' {
        numeral_value(s.drop_first())
    } else {
        numeral_value(s)
    }
}

/// The major version in a version text: the numeral before the first `.`.
pub open spec fn major_version(s: Seq<char>) -> Option<u32> {
    unsigned_value(s.take(first_index_of(s, '.')))
}

/// A longer run of digits never denotes a smaller number than its prefix.
pub proof fn lemma_digits_value_prefix(s: Seq<char>, k: int)
    requires
        0 <= k <= s.len(),
    ensures
        digits_value(s.take(k)) <= digits_value(s),
    decreases s.len() - k,
{
    if k == s.len() {
        assert(s.take(k) =~= s);
    } else {
        lemma_digits_value_prefix(s, k + 1);
        assert(s.take(k + 1).drop_last() =~= s.take(k));
    }
}

/// Reads the major version from a version text such as `4.0.0`: the part
/// before the first `.`, read as an unsigned 32-bit numeral.
pub fn parse_major_version(input: &str) -> (major: Option<u32>)
    ensures
        major == major_version(input@),
{
    let chars = chars_of(input);
    let mut end: usize = 0;
    assert(chars@.skip(0) =~= chars@);
    while end < chars.len() && chars[end] != '.'
        invariant
            end <= chars.len(),
            first_index_of(chars@, '.') == end + first_index_of(chars@.skip(end as int), '.'),
        decreases chars.len() - end,
    {
        assert(chars@.skip(end as int).drop_first() =~= chars@.skip(end + 1));
        end += 1;
    }
    let ghost head = chars@.take(end as int);
    assert(head == input@.take(first_index_of(input@, '.'))) by {
        if end < chars.len() {
            assert(chars@.skip(end as int)[0] == '.');
        }
    }
    let start: usize = if end > 0 && chars[0] == '+' {
        1
    } else {
        0
    };
    let ghost digits = chars@.subrange(start as int, end as int);
    assert(digits =~= if head.len() > 0 && head[0] == '+' {
        head.drop_first()
    } else {
        head
    });
    assert(major_version(input@) == numeral_value(digits));
    if start == end {
        return None;
    }
    let mut value: u64 = 0;
    let mut i: usize = start;
    assert(digits.take(0) =~= Seq::<char>::empty());
    while i < end
        invariant
            start <= i <= end <= chars.len(),
            digits == chars@.subrange(start as int, end as int),
            major_version(input@) == numeral_value(digits),
            all_digits(digits.take(i - start)),
            value == digits_value(digits.take(i - start)),
            value <= u32::MAX,
        decreases end - i,
    {
        let c = chars[i];
        assert(digits[i - start] == c);
        if !('0' <= c && c <= '9') {
            return None;
        }
        let d: u64 = (c as u32 - 48) as u64;
        value = value * 10 + d;
        assert(digits.take(i - start + 1).drop_last() =~= digits.take(i - start));
        assert(digits.take(i - start + 1).last() == c);
        if value > 0xffff_ffff {
            proof {
                lemma_digits_value_prefix(digits, i - start + 1);
            }
            return None;
        }
        assert forall|j: int| 0 <= j < i - start + 1 implies is_digit(
            #[trigger] digits.take(i - start + 1)[j],
        ) by {
            if j < i - start {
                assert(digits.take(i - start)[j] == digits[j]);
            }
        }
        i += 1;
    }
    assert(digits.take(i - start) =~= digits);
    Some(value as u32)
}

} // verus!
