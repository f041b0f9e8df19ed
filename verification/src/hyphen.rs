//! Writing a numeral with hyphens between its parts.

use crate::buffers::{single_bytes, text_push, written};
use crate::digits::{check_char, convert_isbn_body, digit_char, digit_chars};
use arrayvec::ArrayString;
use vstd::prelude::*;

verus! {

/// The first `n` of the nine digits `body`, with a hyphen before the digit at
/// place `first` and one before the digit at place `second`, as far as these
/// places lie among the `n`.
pub open spec fn grouped_head(body: Seq<u8>, first: int, second: int, n: int) -> Seq<char> {
    if n <= first {
        digit_chars(body.subrange(0, n))
    } else if n <= second {
        digit_chars(body.subrange(0, first)) + seq!['-'] + digit_chars(body.subrange(first, n))
    } else {
        digit_chars(body.subrange(0, first)) + seq!['-'] + digit_chars(
            body.subrange(first, second),
        ) + seq!['-'] + digit_chars(body.subrange(second, n))
    }
}

/// The nine digits between prefix and check digit in their groups:
/// registration group, registrant and publication, with hyphens between
/// them. `first` is where the registration group ends and `second` where the
/// registrant ends. A boundary at or past the ninth digit leaves no group
/// behind it and gets no hyphen.
pub open spec fn grouped(body: Seq<u8>, first: int, second: int) -> Seq<char> {
    grouped_head(body, first, second, 9)
}

/// A 10-digit numeral with hyphens: the three groups and the check digit.
pub open spec fn hyphenated10(digits: Seq<u8>, first: int, second: int) -> Seq<char> {
    grouped(digits.subrange(0, 9), first, second) + seq!['-', check_char(digits[9])]
}

/// A 13-digit numeral with hyphens: the prefix, the three groups and the
/// check digit.
pub open spec fn hyphenated13(digits: Seq<u8>, first: int, second: int) -> Seq<char> {
    digit_chars(digits.subrange(0, 3)) + seq!['-'] + grouped(
        digits.subrange(3, 12),
        first,
        second,
    ) + seq!['-', digit_char(digits[12])]
}

/// The places, counted from the first digit after the prefix, before which
/// the hyphenator puts a hyphen between two groups.
pub open spec fn separators(first: int, second: int) -> Seq<int> {
    if second < 9 {
        seq![first, second]
    } else if first < 9 {
        seq![first]
    } else {
        Seq::<int>::empty()
    }
}

/// Digits and hyphens take one byte each.
pub proof fn lemma_digit_char_single_byte(d: u8)
    ensures
        (digit_char(d) as u32) < 0x80,
        (check_char(d) as u32) < 0x80,
        ('-' as u32) < 0x80,
{
}

/// Appends the nine digits that start at place `offset` of `digits`, with a
/// hyphen before the digits at the two places of `hyphen_at`.
pub(crate) fn push_grouped(
    text: &mut ArrayString<17>,
    digits: &[u8],
    offset: usize,
    hyphen_at: [usize; 2],
)
    requires
        written(*old(text)).len() <= 4,
        single_bytes(written(*old(text))),
        offset + 9 <= digits@.len(),
        forall|j: int| offset <= j < offset + 9 ==> digits@[j] <= 9,
        0 < hyphen_at[0] < hyphen_at[1],
    ensures
        written(*final(text)) == written(*old(text)) + grouped(
            digits@.subrange(offset as int, offset + 9),
            hyphen_at[0] as int,
            hyphen_at[1] as int,
        ),
        single_bytes(written(*final(text))),
{
    let total: usize = digits.len();
    let ghost body = digits@.subrange(offset as int, offset + 9);
    let ghost first = hyphen_at[0] as int;
    let ghost second = hyphen_at[1] as int;
    let ghost before = written(*text);
    let mut i: usize = 0;
    assert(grouped_head(body, first, second, 0) =~= Seq::<char>::empty());
    assert(written(*text) =~= before + grouped_head(body, first, second, 0));
    while i < 9
        invariant
            i <= 9,
            before.len() <= 4,
            0 < first < second,
            first == hyphen_at[0],
            second == hyphen_at[1],
            offset + 9 <= digits@.len() == total,
            body == digits@.subrange(offset as int, offset + 9),
            forall|j: int| 0 <= j < 9 ==> #[trigger] body[j] <= 9,
            written(*text) == before + grouped_head(body, first, second, i as int),
            grouped_head(body, first, second, i as int).len() <= i + 2,
            single_bytes(written(*text)),
        decreases 9 - i,
    {
        let ghost done = written(*text);
        if i == hyphen_at[0] || i == hyphen_at[1] {
            text_push(text, '-');
        }
        let digit: u8 = digits[offset + i];
        assert(digit == body[i as int]);
        let c = convert_isbn_body(digit);
        proof {
            lemma_digit_char_single_byte(digit);
        }
        text_push(text, c);
        proof {
            let head = grouped_head(body, first, second, i as int);
            let next = grouped_head(body, first, second, i + 1);
            if i == first || i == second {
                assert(next =~= head + seq!['-'] + seq![digit_char(body[i as int])]);
            } else {
                assert(next =~= head + seq![digit_char(body[i as int])]);
            }
            assert(written(*text) =~= before + next);
        }
        i = i + 1;
    }
}

} // verus!
