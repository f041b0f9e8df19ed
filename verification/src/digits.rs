//! Arithmetic on digit sequences: check digits, the two conversions, the
//! numeric windows and packed prefixes by which range rules are looked up,
//! and the characters that digits are written with.

use vstd::prelude::*;

verus! {

/// The character that a digit below ten is written with.
pub open spec fn digit_char(d: u8) -> char {
    if d == 0 {
        '0'
    } else if d == 1 {
        '1'
    } else if d == 2 {
        '2'
    } else if d == 3 {
        '3'
    } else if d == 4 {
        '4'
    } else if d == 5 {
        '5'
    } else if d == 6 {
        '6'
    } else if d == 7 {
        '7'
    } else if d == 8 {
        '8'
    } else {
        '9'
    }
}

/// The character that the check digit of a 10-digit numeral is written with:
/// ten is written `X`.
pub open spec fn check_char(d: u8) -> char {
    if d < 10 {
        digit_char(d)
    } else {
        'X'
    }
}

/// The digit that a character between `0` and `9` stands for.
pub open spec fn char_digit(c: char) -> Option<u8> {
    if c == '0' {
        Some(0u8)
    } else if c == '1' {
        Some(1u8)
    } else if c == '2' {
        Some(2u8)
    } else if c == '3' {
        Some(3u8)
    } else if c == '4' {
        Some(4u8)
    } else if c == '5' {
        Some(5u8)
    } else if c == '6' {
        Some(6u8)
    } else if c == '7' {
        Some(7u8)
    } else if c == '8' {
        Some(8u8)
    } else if c == '9' {
        Some(9u8)
    } else {
        None
    }
}

/// The characters of a run of digits, each below ten.
pub open spec fn digit_chars(d: Seq<u8>) -> Seq<char> {
    Seq::new(d.len(), |i: int| digit_char(d[i]))
}

/// The first nine digits of a 10-digit numeral, weighted ten down to two.
pub open spec fn weighted_sum10(d: Seq<u8>) -> int {
    10 * d[0] + 9 * d[1] + 8 * d[2] + 7 * d[3] + 6 * d[4] + 5 * d[5] + 4 * d[6] + 3 * d[7] + 2
        * d[8]
}

/// The check digit that belongs to the first nine digits of `d`; ten stands
/// for `X`.
pub open spec fn check_digit10(d: Seq<u8>) -> int {
    (11 - weighted_sum10(d) % 11) % 11
}

/// The first twelve digits of a 13-digit numeral, weighted one and three in
/// turn.
pub open spec fn weighted_sum13(d: Seq<u8>) -> int {
    d[0] + 3 * d[1] + d[2] + 3 * d[3] + d[4] + 3 * d[5] + d[6] + 3 * d[7] + d[8] + 3 * d[9]
        + d[10] + 3 * d[11]
}

/// The check digit that belongs to the first twelve digits of `d`.
pub open spec fn check_digit13(d: Seq<u8>) -> int {
    (10 - weighted_sum13(d) % 10) % 10
}

/// Ten digits form a 10-digit numeral: nine digits below ten, then the check
/// digit that belongs to them.
pub open spec fn valid_isbn10(d: Seq<u8>) -> bool {
    &&& d.len() == 10
    &&& forall|i: int| 0 <= i < 9 ==> d[i] <= 9
    &&& d[9] <= 10
    &&& d[9] == check_digit10(d)
}

/// Thirteen digits form a 13-digit numeral: all below ten, the last the check
/// digit that belongs to the first twelve.
pub open spec fn valid_isbn13(d: Seq<u8>) -> bool {
    &&& d.len() == 13
    &&& forall|i: int| 0 <= i < 13 ==> d[i] <= 9
    &&& d[12] == check_digit13(d)
}

/// The digits start with 9, 7, 8, the prefix under which every 10-digit
/// numeral has a 13-digit form.
pub open spec fn has_bookland_prefix(d: Seq<u8>) -> bool {
    d[0] == 9 && d[1] == 7 && d[2] == 8
}

/// The 13-digit form of a 10-digit numeral: 9, 7, 8, its first nine digits,
/// and the check digit that belongs to these twelve.
pub open spec fn isbn13_digits(d10: Seq<u8>) -> Seq<u8> {
    let body = seq![9u8, 7u8, 8u8] + d10.take(9);
    body.push(check_digit13(body) as u8)
}

/// The 10-digit form of a 13-digit numeral that starts with 9, 7, 8: the
/// nine digits after the prefix, and the check digit that belongs to them.
pub open spec fn isbn10_digits(d13: Seq<u8>) -> Seq<u8> {
    let body = d13.subrange(3, 12);
    body.push(check_digit10(body) as u8)
}

/// The digit at place `i`, or zero where the sequence has no such place.
pub open spec fn digit_at(d: Seq<u8>, i: int) -> int {
    if 0 <= i < d.len() {
        d[i] as int
    } else {
        0
    }
}

/// The number that the seven digits from place `start` on spell, with zeros
/// for the places past the end.
pub open spec fn window(d: Seq<u8>, start: int) -> int {
    1000000 * digit_at(d, start) + 100000 * digit_at(d, start + 1) + 10000 * digit_at(
        d,
        start + 2,
    ) + 1000 * digit_at(d, start + 3) + 100 * digit_at(d, start + 4) + 10 * digit_at(d, start + 5)
        + digit_at(d, start + 6)
}

/// The `len` digits from place `start` on, packed four bits to a digit, the
/// first digit highest.
pub open spec fn packed(d: Seq<u8>, start: int, len: int) -> int
    decreases len,
{
    if len <= 0 {
        0
    } else {
        16 * packed(d, start, len - 1) + d[start + len - 1]
    }
}

/// The digit that a character between `0` and `9` stands for.
pub fn digit_of(c: char) -> (digit: Option<u8>)
    ensures
        digit == char_digit(c),
{
    if '0' <= c && c <= '9' {
        Some((c as u32 - '0' as u32) as u8)
    } else {
        None
    }
}

/// Used to convert ISBN digits into chars, excluding the last digit of ISBN10.
pub fn convert_isbn_body(d: u8) -> (c: char)
    requires
        d <= 9,
    ensures
        c == digit_char(d),
{
    let table: [char; 10] = ['0', '1', '2', '3', '4', '5', '6', '7', '8', '9'];
    table[d as usize]
}

/// Used to convert ISBN digits into chars, including the last digit of ISBN10.
pub fn convert_isbn10_check(d: u8) -> (c: char)
    ensures
        c == check_char(d),
{
    if d < 11 {
        let table: [char; 11] = ['0', '1', '2', '3', '4', '5', '6', '7', '8', '9', 'X'];
        table[d as usize]
    } else {
        'X'
    }
}

/// The number that the first `n` digits of the window at `start` spell.
pub open spec fn window_head(d: Seq<u8>, start: int, n: int) -> int
    decreases n,
{
    if n <= 0 {
        0
    } else {
        10 * window_head(d, start, n - 1) + digit_at(d, start + n - 1)
    }
}

/// The window is its seven digits taken from the left, one at a time.
pub proof fn lemma_window_head(d: Seq<u8>, start: int)
    ensures
        window_head(d, start, 7) == window(d, start),
{
    reveal_with_fuel(window_head, 8);
}

/// Sixteen to the power `n`, for the sizes that packed prefixes have.
pub open spec fn sixteen_to(n: int) -> int {
    if n <= 0 {
        1
    } else if n == 1 {
        0x10
    } else if n == 2 {
        0x100
    } else if n == 3 {
        0x1000
    } else if n == 4 {
        0x1_0000
    } else if n == 5 {
        0x10_0000
    } else if n == 6 {
        0x100_0000
    } else {
        0x1000_0000
    }
}

/// Ten to the power `n`, for the sizes that windows have.
pub open spec fn ten_to(n: int) -> int {
    if n <= 0 {
        1
    } else if n == 1 {
        10
    } else if n == 2 {
        100
    } else if n == 3 {
        1000
    } else if n == 4 {
        10000
    } else if n == 5 {
        100000
    } else if n == 6 {
        1000000
    } else {
        10000000
    }
}

/// The 7-digit number that starts at place `start` of `digits`; places past
/// the end count as zero.
pub fn segment(digits: &[u8], start: usize) -> (value: u32)
    ensures
        value == window(digits@, start as int),
{
    let mut value: u32 = 0;
    let mut i: usize = 0;
    while i < 7
        invariant
            i <= 7,
            value == window_head(digits@, start as int, i as int),
            value <= 29 * (ten_to(i as int) - 1),
        decreases 7 - i,
    {
        let digit: u8 = if start < digits.len() && i < digits.len() - start {
            digits[start + i]
        } else {
            0
        };
        value = 10 * value + digit as u32;
        i = i + 1;
    }
    proof {
        lemma_window_head(digits@, start as int);
    }
    value
}

/// The `length` digits from place `start` on, packed four bits to a digit.
pub fn group_prefix(digits: &[u8], start: usize, length: usize) -> (value: u32)
    requires
        length <= 7,
        start + length <= digits@.len(),
        forall|j: int| start <= j < start + length ==> digits@[j] <= 9,
    ensures
        value == packed(digits@, start as int, length as int),
{
    let total: usize = digits.len();
    let mut value: u32 = 0;
    let mut i: usize = 0;
    while i < length
        invariant
            i <= length <= 7,
            start + length <= digits@.len() == total,
            forall|j: int| start <= j < start + length ==> digits@[j] <= 9,
            value == packed(digits@, start as int, i as int),
            value < sixteen_to(i as int),
        decreases length - i,
    {
        let digit: u8 = digits[start + i];
        assert((value << 4) | (digit as u32) == 16 * value + digit as u32) by (bit_vector)
            requires
                value < 0x100_0000u32,
                digit <= 9u8,
        ;
        value = (value << 4) | digit as u32;
        i = i + 1;
    }
    value
}

} // verus!
