//! The texts of a range message: the range and the length of a rule, and
//! the prefix of an agency or of a registration group.

use crate::digits::{char_digit, digit_of};
use crate::message::{IsbnRangeError, RangeFault};
use vstd::prelude::*;

verus! {

/// The value of a digit character; of any other character, zero.
pub open spec fn digit_value(c: char) -> int {
    match char_digit(c) {
        Some(d) => d as int,
        None => 0,
    }
}

/// Every character is a digit.
pub open spec fn all_digits(s: Seq<char>) -> bool {
    forall|i: int| 0 <= i < s.len() ==> char_digit(#[trigger] s[i]) is Some
}

/// The number that the first `n` characters spell in decimal.
pub open spec fn decimal_head(s: Seq<char>, n: int) -> int
    decreases n,
{
    if n <= 0 {
        0
    } else {
        10 * decimal_head(s, n - 1) + digit_value(s[n - 1])
    }
}

/// The number that a text spells: an optional `+`, then one digit or more
/// and nothing else, with a value that 32 bits hold.
pub open spec fn decimal_u32(s: Seq<char>) -> Option<u32> {
    let digits = if s.len() > 0 && s[0] == '+' {
        s.skip(1)
    } else {
        s
    };
    if digits.len() == 0 || !all_digits(digits) || decimal_head(digits, digits.len() as int)
        > u32::MAX {
        None
    } else {
        Some(decimal_head(digits, digits.len() as int) as u32)
    }
}

/// The place of the first hyphen at or after `from`.
pub open spec fn dash_from(text: Seq<char>, from: int) -> Option<int>
    decreases text.len() - from,
{
    if from < 0 || from >= text.len() {
        None
    } else if text[from] == '-' {
        Some(from)
    } else {
        dash_from(text, from + 1)
    }
}

/// The two numbers of a range, which stand before and after its first
/// hyphen.
pub open spec fn range_of(text: Seq<char>) -> Result<(u32, u32), RangeFault> {
    match dash_from(text, 0) {
        None => Err(RangeFault::NoDashInRange),
        Some(mid) => match decimal_u32(text.subrange(0, mid)) {
            None => Err(RangeFault::BadRange),
            Some(min) => match decimal_u32(text.subrange(mid + 1, text.len() as int)) {
                None => Err(RangeFault::BadRange),
                Some(max) => Ok((min, max)),
            },
        },
    }
}

/// The length that a rule gives: one digit, at most seven; zero marks a
/// range that is reserved.
pub open spec fn length_of(text: Seq<char>) -> Result<Option<usize>, RangeFault> {
    if text.len() != 1 {
        Err(RangeFault::BadLengthString)
    } else {
        match char_digit(text[0]) {
            None => Err(RangeFault::BadLengthString),
            Some(d) => if d > 7 {
                Err(RangeFault::LengthTooLarge)
            } else if d == 0 {
                Ok(None)
            } else {
                Ok(Some(d as usize))
            },
        }
    }
}

/// What reading one more digit makes of a packed 16-bit prefix.
pub open spec fn shift_in16(packed: u16, digit: u8) -> u16 {
    (packed << 4) | (digit as u16)
}

/// What reading one more digit makes of a packed 32-bit group element.
pub open spec fn shift_in32(packed: u32, digit: u8) -> u32 {
    (packed << 4) | (digit as u32)
}

/// The prefix of an agency from place `i` of its text on, with `packed`
/// read so far: up to three digits, packed four bits to a digit.
pub open spec fn agency_prefix_from(text: Seq<char>, i: int, packed: u16) -> Result<
    u16,
    RangeFault,
>
    decreases text.len() - i,
{
    if i < 0 || i >= text.len() {
        Ok(packed)
    } else if i == 3 {
        Err(RangeFault::PrefixTooLong)
    } else {
        match char_digit(text[i]) {
            None => Err(RangeFault::InvalidPrefixChar),
            Some(d) => agency_prefix_from(text, i + 1, shift_in16(packed, d)),
        }
    }
}

/// The prefix of an agency: up to three digits, packed.
pub open spec fn agency_prefix(text: Seq<char>) -> Result<u16, RangeFault> {
    agency_prefix_from(text, 0, 0)
}

/// The key of a registration group from place `i` of its text on: three
/// digits of prefix, a hyphen, and the digits of the group element, each
/// packed four bits to a digit.
pub open spec fn group_key_from(text: Seq<char>, i: int, prefix: u16, element: u32) -> Result<
    (u16, u32),
    RangeFault,
>
    decreases text.len() - i,
{
    if i < 0 || i >= text.len() {
        Ok((prefix, element))
    } else if i <= 2 {
        match char_digit(text[i]) {
            None => Err(RangeFault::InvalidPrefixChar),
            Some(d) => group_key_from(text, i + 1, shift_in16(prefix, d), element),
        }
    } else if i == 3 {
        if text[i] != '-' {
            Err(RangeFault::PrefixTooLong)
        } else {
            group_key_from(text, i + 1, prefix, element)
        }
    } else {
        match char_digit(text[i]) {
            None => Err(RangeFault::InvalidPrefixChar),
            Some(d) => group_key_from(text, i + 1, prefix, shift_in32(element, d)),
        }
    }
}

/// The key of a registration group: prefix and group element, packed.
pub open spec fn group_key(text: Seq<char>) -> Result<(u16, u32), RangeFault> {
    group_key_from(text, 0, 0, 0)
}

/// The characters of a string.
pub fn chars_of(s: &str) -> (chars: Vec<char>)
    ensures
        chars@ == s@,
{
    broadcast use vstd::string::axiom_spec_iter;

    let mut chars: Vec<char> = Vec::new();
    for c in it: s.chars()
        invariant
            it.seq() == s@,
            chars@ == s@.take(it.index()),
    {
        chars.push(c);
        assert(chars@ =~= s@.take(it.index() + 1));
    }
    assert(s@.take(s@.len() as int) =~= s@);
    chars
}

/// A number never gets smaller by one more digit.
proof fn lemma_decimal_head_grows(s: Seq<char>, m: int, n: int)
    requires
        0 <= m <= n,
    ensures
        0 <= decimal_head(s, m) <= decimal_head(s, n),
    decreases n,
{
    if m < n {
        lemma_decimal_head_grows(s, m, n - 1);
    } else if n > 0 {
        lemma_decimal_head_grows(s, m - 1, n - 1);
    }
}

/// Reads the number that the characters from `from` up to `to` spell.
pub fn parse_u32(chars: &Vec<char>, from: usize, to: usize) -> (value: Option<u32>)
    requires
        from <= to <= chars@.len(),
    ensures
        value == decimal_u32(chars@.subrange(from as int, to as int)),
{
    let ghost text = chars@.subrange(from as int, to as int);
    let start: usize = if from < to && chars[from] == '+' {
        from + 1
    } else {
        from
    };
    let ghost digits = chars@.subrange(start as int, to as int);
    assert(digits =~= if text.len() > 0 && text[0] == '+' {
        text.skip(1)
    } else {
        text
    });
    if start == to {
        return None;
    }
    let mut value: u32 = 0;
    let mut i: usize = start;
    while i < to
        invariant
            start <= i <= to <= chars@.len(),
            from <= start,
            text == chars@.subrange(from as int, to as int),
            digits == chars@.subrange(start as int, to as int),
            digits == if text.len() > 0 && text[0] == '+' {
                text.skip(1)
            } else {
                text
            },
            value == decimal_head(digits, i - start),
            forall|j: int| 0 <= j < i - start ==> char_digit(#[trigger] digits[j]) is Some,
        decreases to - i,
    {
        let c = chars[i];
        assert(c == digits[i - start]);
        match digit_of(c) {
            None => {
                return None;
            },
            Some(d) => {
                proof {
                    lemma_decimal_head_grows(digits, i - start + 1, digits.len() as int);
                }
                if value > (u32::MAX - d as u32) / 10 {
                    return None;
                }
                value = value * 10 + d as u32;
            },
        }
        i = i + 1;
    }
    Some(value)
}

/// Reads the two numbers of a range.
pub fn parse_range(text: &str) -> (result: Result<(u32, u32), IsbnRangeError>)
    ensures
        match result {
            Ok(range) => range_of(text@) == Ok::<(u32, u32), RangeFault>(range),
            Err(e) => range_of(text@) == Err::<(u32, u32), RangeFault>(e@),
        },
{
    let chars = chars_of(text);
    let mut mid: usize = 0;
    while mid < chars.len() && chars[mid] != '-'
        invariant
            mid <= chars@.len(),
            dash_from(chars@, 0) == dash_from(chars@, mid as int),
        decreases chars@.len() - mid,
    {
        mid = mid + 1;
    }
    if mid == chars.len() {
        return Err(IsbnRangeError::NoDashInRange);
    }
    let min = match parse_u32(&chars, 0, mid) {
        Some(min) => min,
        None => {
            return Err(IsbnRangeError::BadRange);
        },
    };
    let max = match parse_u32(&chars, mid + 1, chars.len()) {
        Some(max) => max,
        None => {
            return Err(IsbnRangeError::BadRange);
        },
    };
    Ok((min, max))
}

/// Reads the length that a rule gives.
pub fn parse_length(text: &str) -> (result: Result<Option<usize>, IsbnRangeError>)
    ensures
        match result {
            Ok(length) => length_of(text@) == Ok::<Option<usize>, RangeFault>(length),
            Err(e) => length_of(text@) == Err::<Option<usize>, RangeFault>(e@),
        },
        result matches Ok(Some(length)) ==> 1 <= length <= 7,
{
    let chars = chars_of(text);
    if chars.len() != 1 {
        return Err(IsbnRangeError::BadLengthString);
    }
    let length = match digit_of(chars[0]) {
        Some(d) => d,
        None => {
            return Err(IsbnRangeError::BadLengthString);
        },
    };
    if length > 7 {
        return Err(IsbnRangeError::LengthTooLarge);
    }
    if length == 0 {
        Ok(None)
    } else {
        Ok(Some(length as usize))
    }
}

/// Reads the prefix of an agency.
pub fn parse_agency_prefix(text: &str) -> (result: Result<u16, IsbnRangeError>)
    ensures
        match result {
            Ok(prefix) => agency_prefix(text@) == Ok::<u16, RangeFault>(prefix),
            Err(e) => agency_prefix(text@) == Err::<u16, RangeFault>(e@),
        },
{
    broadcast use vstd::string::axiom_spec_iter;

    let mut prefix_val: u16 = 0;
    let mut i: usize = 0;
    for c in it: text.chars()
        invariant
            it.seq() == text@,
            i == it.index(),
            i <= 3,
            agency_prefix(text@) == agency_prefix_from(text@, i as int, prefix_val),
    {
        if i == 3 {
            return Err(IsbnRangeError::PrefixTooLong);
        }
        match digit_of(c) {
            Some(d) => {
                prefix_val = (prefix_val << 4) | d as u16;
            },
            None => {
                return Err(IsbnRangeError::InvalidPrefixChar);
            },
        }
        i = i + 1;
    }
    Ok(prefix_val)
}

/// Reads the prefix and the group element of a registration group.
pub fn parse_group_key(text: &str) -> (result: Result<(u16, u32), IsbnRangeError>)
    ensures
        match result {
            Ok(key) => group_key(text@) == Ok::<(u16, u32), RangeFault>(key),
            Err(e) => group_key(text@) == Err::<(u16, u32), RangeFault>(e@),
        },
{
    broadcast use vstd::string::axiom_spec_iter;

    let mut prefix_val: u16 = 0;
    let mut registration_group_element: u32 = 0;
    let mut i: usize = 0;
    for c in it: text.chars()
        invariant
            it.seq() == text@,
            i == if it.index() < 4 {
                it.index()
            } else {
                4
            },
            group_key(text@) == group_key_from(
                text@,
                it.index(),
                prefix_val,
                registration_group_element,
            ),
    {
        if i <= 2 {
            match digit_of(c) {
                Some(d) => {
                    prefix_val = (prefix_val << 4) | d as u16;
                },
                None => {
                    return Err(IsbnRangeError::InvalidPrefixChar);
                },
            }
            i = i + 1;
        } else if i == 3 {
            if c != '-' {
                return Err(IsbnRangeError::PrefixTooLong);
            }
            i = i + 1;
        } else {
            match digit_of(c) {
                Some(d) => {
                    registration_group_element = (registration_group_element << 4) | d as u32;
                },
                None => {
                    return Err(IsbnRangeError::InvalidPrefixChar);
                },
            }
        }
    }
    Ok((prefix_val, registration_group_element))
}

} // verus!
