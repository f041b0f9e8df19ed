//! What holds of every numeral, proved from the definitions that the
//! contracts of the library are written in.

use crate::digits::{
    char_digit, check_char, check_digit10, check_digit13, digit_char, has_bookland_prefix,
    isbn10_digits, isbn13_digits, valid_isbn10, valid_isbn13, weighted_sum10, weighted_sum13,
};
use crate::digits::{digit_chars, packed, sixteen_to};
use crate::error::IsbnError;
use crate::fields::{
    agency_prefix, agency_prefix_from, group_key, group_key_from, shift_in16, shift_in32,
};
use crate::hyphen::{grouped, hyphenated10, hyphenated13, separators};
use crate::isbn10::{isbn10_text, lemma_isbn10_is_its_digits, Isbn10};
use crate::isbn13::isbn13_text;
use crate::parser::{parse_digits, parse_isbn, parse_isbn10, parse_isbn13, scan_char, scan_from};
use crate::message::RangeFault;
use crate::range::{first_covering, RangeView, Rule, SegmentView};
use vstd::prelude::*;

verus! {

/// A digit below ten is read back from the character it is written with, and
/// that character is no separator and no `X`.
pub proof fn lemma_digit_char(d: u8)
    requires
        d <= 9,
    ensures
        char_digit(digit_char(d)) == Some(d),
        digit_char(d) != '-',
        digit_char(d) != ' ',
        digit_char(d) != 'X',
{
}

/// Reading text whose first `n` characters are the digits `digits` gets
/// as far as place `n` with just these digits read.
proof fn lemma_scan_digits(text: Seq<char>, digits: Seq<u8>, n: int)
    requires
        0 <= n <= 13,
        n <= text.len(),
        n <= digits.len(),
        forall|j: int|
            #![trigger digits[j]]
            0 <= j < n ==> digits[j] <= 9 && text[j] == digit_char(digits[j]),
    ensures
        parse_digits(text) == scan_from(text, n, digits.take(n), false),
    decreases n,
{
    if n == 0 {
        assert(digits.take(0) =~= Seq::<u8>::empty());
    } else {
        lemma_scan_digits(text, digits, n - 1);
        lemma_digit_char(digits[n - 1]);
        assert(digits.take(n - 1).push(digits[n - 1]) =~= digits.take(n));
        assert(scan_char(digits.take(n - 1), false, text[n - 1]) == Ok::<
            (Seq<u8>, bool),
            IsbnError,
        >((digits.take(n), false)));
    }
}

/// A 10-digit numeral written out and read again is the same numeral,
/// whether it is read as a 10-digit numeral or as one of either form.
pub proof fn lemma_isbn10_round_trip(digits: Seq<u8>)
    requires
        valid_isbn10(digits),
    ensures
        parse_isbn10(isbn10_text(digits)) == Ok::<Seq<u8>, IsbnError>(digits),
        parse_isbn(isbn10_text(digits)) == Ok::<Seq<u8>, IsbnError>(digits),
{
    let text = isbn10_text(digits);
    lemma_scan_digits(text, digits, 9);
    let last = text[9];
    assert(last == check_char(digits[9]));
    if digits[9] == 10 {
        assert(scan_char(digits.take(9), false, last) == Ok::<(Seq<u8>, bool), IsbnError>(
            (digits.take(9).push(10u8), true),
        ));
        assert(digits.take(9).push(10u8) =~= digits);
        assert(scan_from(text, 10, digits, true) == Ok::<Seq<u8>, IsbnError>(digits));
    } else {
        lemma_digit_char(digits[9]);
        assert(scan_char(digits.take(9), false, last) == Ok::<(Seq<u8>, bool), IsbnError>(
            (digits.take(9).push(digits[9]), false),
        ));
        assert(digits.take(9).push(digits[9]) =~= digits);
        assert(scan_from(text, 10, digits, false) == Ok::<Seq<u8>, IsbnError>(digits));
    }
    assert(parse_digits(text) == Ok::<Seq<u8>, IsbnError>(digits));
}

/// The numeral that is read from what a 10-digit numeral is written as is
/// that numeral: reading does not fail, and whatever numeral has the digits
/// that are read is the one that was written.
pub proof fn lemma_isbn10_read_back(isbn: Isbn10, read: Isbn10)
    requires
        valid_isbn10(isbn@),
        parse_isbn10(isbn10_text(isbn@)) == Ok::<Seq<u8>, IsbnError>(read@),
    ensures
        read == isbn,
{
    lemma_isbn10_round_trip(isbn@);
    lemma_isbn10_is_its_digits(read, isbn);
}

/// A 13-digit numeral written out and read again is the same numeral.
pub proof fn lemma_isbn13_round_trip(digits: Seq<u8>)
    requires
        valid_isbn13(digits),
    ensures
        parse_isbn13(isbn13_text(digits)) == Ok::<Seq<u8>, IsbnError>(digits),
        parse_isbn(isbn13_text(digits)) == Ok::<Seq<u8>, IsbnError>(digits),
{
    let text = isbn13_text(digits);
    lemma_scan_digits(text, digits, 13);
    assert(digits.take(13) =~= digits);
    assert(scan_from(text, 13, digits, false) == Ok::<Seq<u8>, IsbnError>(digits));
}

/// The last digit of a 10-digit numeral is the check digit that belongs to
/// the nine digits before it, and that check digit depends on these nine
/// alone.
pub proof fn lemma_isbn10_check_digit(digits: Seq<u8>)
    requires
        valid_isbn10(digits),
    ensures
        digits[9] == check_digit10(digits.take(9)),
        digits[9] == (11 - weighted_sum10(digits) % 11) % 11,
{
    assert(weighted_sum10(digits.take(9)) == weighted_sum10(digits));
}

/// The last digit of a 13-digit numeral is the check digit that belongs to
/// the twelve digits before it, and that check digit depends on these twelve
/// alone.
pub proof fn lemma_isbn13_check_digit(digits: Seq<u8>)
    requires
        valid_isbn13(digits),
    ensures
        digits[12] == check_digit13(digits.take(12)),
        digits[12] == (10 - weighted_sum13(digits) % 10) % 10,
{
    assert(weighted_sum13(digits.take(12)) == weighted_sum13(digits));
}

/// Every 10-digit numeral has a 13-digit form, which starts with 9, 7, 8;
/// the 10-digit form of that is the numeral itself.
pub proof fn lemma_convert_round_trip(digits: Seq<u8>)
    requires
        valid_isbn10(digits),
    ensures
        valid_isbn13(isbn13_digits(digits)),
        has_bookland_prefix(isbn13_digits(digits)),
        isbn10_digits(isbn13_digits(digits)) == digits,
{
    let body = seq![9u8, 7u8, 8u8] + digits.take(9);
    let longer = isbn13_digits(digits);
    assert(weighted_sum13(longer) == weighted_sum13(body));
    assert forall|i: int| 0 <= i < 13 implies longer[i] <= 9 by {
        if 3 <= i < 12 {
            assert(longer[i] == digits[i - 3]);
        }
    }
    let inner = longer.subrange(3, 12);
    assert(inner =~= digits.take(9));
    assert(weighted_sum10(inner) == weighted_sum10(digits));
    assert(isbn10_digits(longer) =~= digits);
}

/// The numeral that a 10-digit numeral converts back to from its 13-digit
/// form is that numeral.
pub proof fn lemma_isbn10_converted_back(isbn: Isbn10, back: Isbn10)
    requires
        valid_isbn10(isbn@),
        back@ == isbn10_digits(isbn13_digits(isbn@)),
    ensures
        back == isbn,
{
    lemma_convert_round_trip(isbn@);
    lemma_isbn10_is_its_digits(back, isbn);
}

/// The rule that a lookup finds is the first of the rules that covers the
/// number; where it finds none, none covers it.
pub proof fn lemma_first_covering(rules: Seq<Rule>, value: int, from: int)
    requires
        0 <= from,
    ensures
        match first_covering(rules, value, from) {
            Some(rule) => exists|i: int|
                {
                    &&& from <= i < rules.len()
                    &&& #[trigger] rules[i] == rule
                    &&& rule.covers(value)
                    &&& forall|j: int| from <= j < i ==> !(#[trigger] rules[j]).covers(value)
                },
            None => forall|i: int| from <= i < rules.len() ==> !(#[trigger] rules[i]).covers(value),
        },
    decreases rules.len() - from,
{
    if from < rules.len() {
        if rules[from].covers(value) {
            assert(rules[from] == rules[from]);
        } else {
            lemma_first_covering(rules, value, from + 1);
            match first_covering(rules, value, from + 1) {
                Some(rule) => {
                    let i = choose|i: int|
                        {
                            &&& from + 1 <= i < rules.len()
                            &&& #[trigger] rules[i] == rule
                            &&& rule.covers(value)
                            &&& forall|j: int|
                                from + 1 <= j < i ==> !(#[trigger] rules[j]).covers(value)
                        };
                    assert(rules[i] == rule);
                    assert forall|j: int| from <= j < i implies !(#[trigger] rules[j]).covers(
                        value,
                    ) by {
                        if j == from {
                        }
                    }
                },
                None => {},
            }
        }
    }
}

/// A length that a well-formed segment gives is between one and seven.
pub proof fn lemma_length_bounds(segment: SegmentView, value: int)
    requires
        segment.well_formed(),
    ensures
        segment.length_at(value) matches Ok(length) ==> 1 <= length <= 7,
{
    lemma_first_covering(segment.rules, value, 0);
    if let Some(rule) = first_covering(segment.rules, value, 0) {
        let i = choose|i: int| 0 <= i < segment.rules.len() && #[trigger] segment.rules[i] == rule;
        assert(segment.rules[i].well_formed());
    }
}

/// Where a well-formed table classifies a numeral, the registration group
/// and the registrant have between one and seven digits each. So the two
/// boundaries, the end of the group and the end of the registrant, counted
/// from the first digit after the prefix, are strictly increasing, and the
/// first lies before the check digit.
pub proof fn lemma_boundaries_increase(table: RangeView, digits: Seq<u8>)
    requires
        table.well_formed(),
    ensures
        table.classify(digits) matches Ok(found) ==> {
            &&& 1 <= found.group_length <= 7
            &&& 1 <= found.registrant_length <= 7
            &&& 0 < found.group_length < found.group_length + found.registrant_length
            &&& found.group_length < 9
        },
{
    let prefix: u16 = if digits.len() == 10 {
        0x978
    } else {
        crate::digits::packed(digits, 0, 3) as u16
    };
    let offset: int = if digits.len() == 10 {
        0
    } else {
        3
    };
    lemma_resolve_bounds(table, prefix, digits, offset);
}

/// Under any prefix and from any place, the lengths that a well-formed table
/// resolves are between one and seven.
pub proof fn lemma_resolve_bounds(table: RangeView, prefix: u16, digits: Seq<u8>, offset: int)
    requires
        table.well_formed(),
    ensures
        table.resolve(prefix, digits, offset) matches Ok(found) ==> {
            &&& 1 <= found.group_length <= 7
            &&& 1 <= found.registrant_length <= 7
        },
{
    if table.ean_ucc_group.contains_key(prefix) {
        let first = table.ean_ucc_group[prefix];
        let value = crate::digits::window(digits, offset);
        lemma_length_bounds(first, value);
        if let Ok(group_length) = first.length_at(value) {
            let key = (prefix, crate::digits::packed(digits, offset, group_length as int) as u32);
            if table.registration_group.contains_key(key) {
                let second = table.registration_group[key];
                lemma_length_bounds(second, crate::digits::window(digits, offset + group_length));
            }
        }
    }
}

/// Where a table leaves a digit for the publication whatever its rules give,
/// both boundaries of every numeral that it classifies lie before the check
/// digit: counted from the first digit after the prefix, they are below nine.
pub proof fn lemma_boundaries_before_check_digit(table: RangeView, digits: Seq<u8>)
    requires
        table.well_formed(),
        table.leaves_publication(),
    ensures
        table.classify(digits) matches Ok(found) ==> 0 < found.group_length < found.group_length
            + found.registrant_length < 9,
{
    lemma_boundaries_increase(table, digits);
    let prefix: u16 = if digits.len() == 10 {
        0x978
    } else {
        crate::digits::packed(digits, 0, 3) as u16
    };
    let offset: int = if digits.len() == 10 {
        0
    } else {
        3
    };
    if let Ok(found) = table.resolve(prefix, digits, offset) {
        let first = table.ean_ucc_group[prefix];
        let value = crate::digits::window(digits, offset);
        lemma_first_covering(first.rules, value, 0);
        let rule = first_covering(first.rules, value, 0)->0;
        let i = choose|i: int| 0 <= i < first.rules.len() && #[trigger] first.rules[i] == rule;
        let key = (prefix, crate::digits::packed(digits, offset, found.group_length as int) as u32);
        let second = table.registration_group[key];
        let after = crate::digits::window(digits, offset + found.group_length);
        lemma_first_covering(second.rules, after, 0);
        let other = first_covering(second.rules, after, 0)->0;
        let j = choose|j: int| 0 <= j < second.rules.len() && #[trigger] second.rules[j] == other;
        assert(table.ean_ucc_group[prefix].rules[i].length->0
            + table.registration_group[key].rules[j].length->0 <= 8);
    }
}

/// The hyphens that the hyphenator puts between groups stand at strictly
/// increasing places, each after the first digit and before the check digit,
/// whatever the two boundaries are, as long as the first is positive and the
/// second larger. There is one at least, and the nine digits are written in
/// the groups that these places cut them into.
pub proof fn lemma_separators(body: Seq<u8>, first: int, second: int)
    requires
        body.len() == 9,
        0 < first < second,
        first <= 7,
    ensures
        ({
            let marks = separators(first, second);
            &&& 1 <= marks.len() <= 2
            &&& forall|i: int| 0 <= i < marks.len() ==> 0 < #[trigger] marks[i] < 9
            &&& forall|i: int, j: int|
                0 <= i < j < marks.len() ==> #[trigger] marks[i] < #[trigger] marks[j]
            &&& marks.len() == 2 ==> grouped(body, first, second) == crate::digits::digit_chars(
                body.subrange(0, marks[0]),
            ) + seq!['-'] + crate::digits::digit_chars(body.subrange(marks[0], marks[1]))
                + seq!['-'] + crate::digits::digit_chars(body.subrange(marks[1], 9))
            &&& marks.len() == 1 ==> grouped(body, first, second) == crate::digits::digit_chars(
                body.subrange(0, marks[0]),
            ) + seq!['-'] + crate::digits::digit_chars(body.subrange(marks[0], 9))
        }),
{
}

/// A numeral with hyphens has at most seventeen characters: thirteen digits
/// and four hyphens. A 10-digit numeral has at most thirteen.
pub proof fn lemma_hyphenated_length(digits: Seq<u8>, first: int, second: int)
    requires
        digits.len() == 10 || digits.len() == 13,
        0 < first < second,
    ensures
        digits.len() == 10 ==> 11 <= hyphenated10(digits, first, second).len() <= 13,
        digits.len() == 13 ==> 15 <= hyphenated13(digits, first, second).len() <= 17,
        digits.len() == 13 && second < 9 ==> hyphenated13(digits, first, second).len() == 17,
{
}

/// Where a well-formed table classifies a numeral, the hyphens between its
/// groups stand at strictly increasing places, each before the check digit.
pub proof fn lemma_hyphens_in_order(table: RangeView, digits: Seq<u8>)
    requires
        table.well_formed(),
    ensures
        table.classify(digits) matches Ok(found) ==> ({
            let marks = separators(
                found.group_length as int,
                found.group_length + found.registrant_length,
            );
            &&& 1 <= marks.len() <= 2
            &&& marks[0] == found.group_length
            &&& forall|i: int| 0 <= i < marks.len() ==> 0 < #[trigger] marks[i] < 9
            &&& forall|i: int, j: int|
                0 <= i < j < marks.len() ==> #[trigger] marks[i] < #[trigger] marks[j]
        }),
{
    lemma_boundaries_increase(table, digits);
}

/// What a table says of a numeral depends on its two maps alone. Source,
/// serial number and date are carried along and decide nothing; so tables
/// that come from different places and hold the same segments answer alike.
pub proof fn lemma_tables_answer_by_their_segments(a: RangeView, b: RangeView, digits: Seq<u8>)
    requires
        a.ean_ucc_group == b.ean_ucc_group,
        a.registration_group == b.registration_group,
    ensures
        a.classify(digits) == b.classify(digits),
        a.hyphenate(digits) == b.hyphenate(digits),
        a.registration_group_name(digits) == b.registration_group_name(digits),
{
}

/// Digits below ten, packed, stay below the power of sixteen that their
/// number gives.
pub proof fn lemma_packed_bound(d: Seq<u8>, start: int, len: int)
    requires
        0 <= len <= 7,
        0 <= start,
        start + len <= d.len(),
        forall|j: int| start <= j < start + len ==> #[trigger] d[j] <= 9,
    ensures
        0 <= packed(d, start, len) < sixteen_to(len),
    decreases len,
{
    if len > 0 {
        lemma_packed_bound(d, start, len - 1);
    }
}

/// Shifting a digit into a packed number is sixteen times the number plus
/// the digit, as long as the number has room.
pub proof fn lemma_shift_in(packed16: u16, packed32: u32, digit: u8)
    requires
        digit <= 9,
    ensures
        packed16 < 0x1000 ==> shift_in16(packed16, digit) == 16 * packed16 + digit,
        packed32 < 0x1000_0000 ==> shift_in32(packed32, digit) == 16 * packed32 + digit,
{
    assert(packed16 < 0x1000u16 && digit <= 9u8 ==> ((packed16 << 4) | (digit as u16)) == 16
        * packed16 + digit) by (bit_vector);
    assert(packed32 < 0x1000_0000u32 && digit <= 9u8 ==> ((packed32 << 4) | (digit as u32)) == 16
        * packed32 + digit) by (bit_vector);
}

/// The prefix of an agency read from place `i` on, with the first `i`
/// digits packed, is all three digits packed.
proof fn lemma_agency_prefix_from(prefix: Seq<u8>, i: int)
    requires
        prefix.len() <= 3,
        0 <= i <= prefix.len(),
        forall|j: int| 0 <= j < prefix.len() ==> #[trigger] prefix[j] <= 9,
    ensures
        agency_prefix_from(digit_chars(prefix), i, packed(prefix, 0, i) as u16) == Ok::<
            u16,
            RangeFault,
        >(packed(prefix, 0, prefix.len() as int) as u16),
    decreases prefix.len() - i,
{
    if i < prefix.len() {
        lemma_packed_bound(prefix, 0, i);
        lemma_packed_bound(prefix, 0, i + 1);
        lemma_digit_char(prefix[i]);
        lemma_shift_in(packed(prefix, 0, i) as u16, 0, prefix[i]);
        lemma_agency_prefix_from(prefix, i + 1);
    }
}

/// The key of a registration group read from place `i` of its text on, with
/// the digits before that place packed, is the three digits of the prefix
/// and the digits of the group element, packed.
proof fn lemma_group_key_from(prefix: Seq<u8>, element: Seq<u8>, i: int)
    requires
        prefix.len() == 3,
        element.len() <= 7,
        0 <= i <= 4 + element.len(),
        forall|j: int| 0 <= j < prefix.len() ==> #[trigger] prefix[j] <= 9,
        forall|j: int| 0 <= j < element.len() ==> #[trigger] element[j] <= 9,
    ensures
        group_key_from(
            digit_chars(prefix) + seq!['-'] + digit_chars(element),
            i,
            packed(prefix, 0, if i < 3 {
                i
            } else {
                3
            }) as u16,
            packed(element, 0, if i < 4 {
                0
            } else {
                i - 4
            }) as u32,
        ) == Ok::<(u16, u32), RangeFault>(
            (packed(prefix, 0, 3) as u16, packed(element, 0, element.len() as int) as u32),
        ),
    decreases 4 + element.len() - i,
{
    let text = digit_chars(prefix) + seq!['-'] + digit_chars(element);
    assert(text.len() == 4 + element.len());
    if i < 4 + element.len() {
        if i < 3 {
            assert(text[i] == crate::digits::digit_char(prefix[i]));
            lemma_packed_bound(prefix, 0, i);
            lemma_packed_bound(prefix, 0, i + 1);
            lemma_digit_char(prefix[i]);
            lemma_shift_in(packed(prefix, 0, i) as u16, 0, prefix[i]);
        } else if i == 3 {
            assert(text[i] == '-');
        } else {
            assert(text[i] == crate::digits::digit_char(element[i - 4]));
            lemma_packed_bound(element, 0, i - 4);
            lemma_packed_bound(element, 0, i - 3);
            lemma_digit_char(element[i - 4]);
            lemma_shift_in(0, packed(element, 0, i - 4) as u32, element[i - 4]);
        }
        lemma_group_key_from(prefix, element, i + 1);
    }
}

/// A prefix in a message is stored under the key by which numerals are
/// looked up. The three digits of an agency prefix give the digits packed;
/// the prefix of a registration group, three digits, a hyphen and up to
/// seven digits of the group, gives the prefix packed and the group packed.
pub proof fn lemma_message_keys(prefix: Seq<u8>, element: Seq<u8>)
    requires
        prefix.len() == 3,
        element.len() <= 7,
        forall|j: int| 0 <= j < prefix.len() ==> #[trigger] prefix[j] <= 9,
        forall|j: int| 0 <= j < element.len() ==> #[trigger] element[j] <= 9,
    ensures
        agency_prefix(digit_chars(prefix)) == Ok::<u16, RangeFault>(packed(prefix, 0, 3) as u16),
        group_key(digit_chars(prefix) + seq!['-'] + digit_chars(element)) == Ok::<
            (u16, u32),
            RangeFault,
        >((packed(prefix, 0, 3) as u16, packed(element, 0, element.len() as int) as u32)),
{
    lemma_agency_prefix_from(prefix, 0);
    lemma_group_key_from(prefix, element, 0);
}

/// Packing depends on the digits packed alone, not on where they stand.
pub proof fn lemma_packed_of_part(d: Seq<u8>, start: int, len: int)
    requires
        0 <= start,
        0 <= len,
        start + len <= d.len(),
    ensures
        packed(d, start, len) == packed(d.subrange(start, start + len), 0, len),
    decreases len,
{
    if len > 0 {
        lemma_packed_of_part(d, start, len - 1);
        lemma_packed_same(d.subrange(start, start + len), d.subrange(start, start + len - 1), len - 1);
    }
}

/// Two runs of digits that agree in their first `len` places pack to the
/// same number there.
proof fn lemma_packed_same(a: Seq<u8>, b: Seq<u8>, len: int)
    requires
        0 <= len <= a.len(),
        len <= b.len(),
        forall|j: int| 0 <= j < len ==> a[j] == b[j],
    ensures
        packed(a, 0, len) == packed(b, 0, len),
    decreases len,
{
    if len > 0 {
        lemma_packed_same(a, b, len - 1);
    }
}

} // verus!
