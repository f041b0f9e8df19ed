//! The 13-digit form.

use crate::buffers::{single_bytes, string_push, text_buffer, text_push, written};
use crate::digits::{
    check_digit13, convert_isbn_body, digit_chars, isbn13_digits, packed, valid_isbn10,
    valid_isbn13, weighted_sum13,
};
use crate::error::{IsbnError, IsbnResult};
use crate::hyphen::{hyphenated13, lemma_digit_char_single_byte, push_grouped};
use crate::isbn10::Isbn10;
use crate::isbn::IsbnRef;
use crate::parser::{parse_isbn13, Parser};
use crate::range::IsbnRange;
use arrayvec::ArrayString;
use std::str::FromStr;
use vstd::prelude::*;

verus! {

/// 13-digit ISBN format.
#[derive(Debug, PartialEq, Eq, PartialOrd, Ord, Copy, Clone, Hash)]
pub struct Isbn13 {
    digits: [u8; 13],
}

impl View for Isbn13 {
    type V = Seq<u8>;

    /// The thirteen digits.
    closed spec fn view(&self) -> Seq<u8> {
        self.digits@
    }
}

/// All thirteen digits are below ten.
pub open spec fn in_bounds13(d: Seq<u8>) -> bool {
    &&& d.len() == 13
    &&& forall|i: int| 0 <= i < 13 ==> d[i] <= 9
}

/// What a 13-digit numeral is written as, without separators.
pub open spec fn isbn13_text(d: Seq<u8>) -> Seq<char> {
    digit_chars(d)
}

/// The weighted sum of the first `pairs` pairs of digits.
pub open spec fn weighted_head13(d: Seq<u8>, pairs: int) -> int
    decreases pairs,
{
    if pairs <= 0 {
        0
    } else {
        weighted_head13(d, pairs - 1) + d[2 * (pairs - 1)] + 3 * d[2 * (pairs - 1) + 1]
    }
}

impl Isbn13 {
    #[verifier::type_invariant]
    spec fn checked(self) -> bool {
        valid_isbn13(self.digits@)
    }

    /// Creates a new ISBN13 code from 13 digits. Verifies that the checksum is
    /// correct, and that no digits are out of bounds.
    ///
    /// # Errors
    /// If any of the digits exceed nine, an error will be returned. If the
    /// check digit is not correct for the ISBN, an error will also be
    /// returned.
    pub fn new(digits: [u8; 13]) -> (result: IsbnResult<Isbn13>)
        ensures
            match result {
                Ok(isbn) => valid_isbn13(digits@) && isbn@ == digits@,
                Err(e) => if in_bounds13(digits@) {
                    e == IsbnError::InvalidChecksum && digits[12] != check_digit13(digits@)
                } else {
                    e == IsbnError::DigitTooLarge
                },
            },
    {
        let mut i: usize = 0;
        while i < 13
            invariant
                i <= 13,
                forall|j: int| 0 <= j < i ==> digits[j] <= 9,
            decreases 13 - i,
        {
            if digits[i] > 9 {
                return Err(IsbnError::DigitTooLarge);
            }
            i = i + 1;
        }
        if Isbn13::calculate_check_digit(&digits) == digits[12] {
            Ok(Isbn13 { digits })
        } else {
            Err(IsbnError::InvalidChecksum)
        }
    }

    /// The check digit that belongs to the first twelve of `digits`; the
    /// thirteenth is not read.
    pub fn calculate_check_digit(digits: &[u8; 13]) -> (check: u8)
        ensures
            check == check_digit13(digits@),
            check <= 9,
    {
        let mut sum: u16 = 0;
        let mut i: usize = 0;
        while i < 6
            invariant
                i <= 6,
                sum == weighted_head13(digits@, i as int),
                sum <= 1020 * i,
            decreases 6 - i,
        {
            sum = sum + digits[i * 2] as u16 + 3 * (digits[i * 2 + 1] as u16);
            i = i + 1;
        }
        proof {
            reveal_with_fuel(weighted_head13, 7);
        }
        let sum_m: u8 = (sum % 10) as u8;
        if sum_m == 0 {
            0
        } else {
            10 - sum_m
        }
    }

    /// The thirteen digits. The last is the check digit of the twelve before
    /// it, as of every 13-digit numeral.
    pub fn digits(&self) -> (digits: &[u8; 13])
        ensures
            digits@ == self@,
            valid_isbn13(self@),
    {
        proof {
            use_type_invariant(self);
        }
        &self.digits
    }

    /// Hyphenate an ISBN-13 into its parts:
    ///
    /// * GS1 Prefix
    /// * Registration group
    /// * Registrant
    /// * Publication
    /// * Check digit
    ///
    /// # Errors
    /// If the ISBN is not valid, as determined by the range table, an error
    /// will be returned.
    pub fn hyphenate(&self, ranges: &IsbnRange) -> (result: Result<ArrayString<17>, IsbnError>)
        ensures
            ranges@.well_formed(),
            match result {
                Ok(text) => ranges@.hyphenate(self@) == Ok::<Seq<char>, IsbnError>(written(text)),
                Err(e) => ranges@.hyphenate(self@) == Err::<Seq<char>, IsbnError>(e),
            },
    {
        ranges.hyphenate_isbn(IsbnRef::_13(self))
    }

    /// Retrieve the name of the registration group.
    ///
    /// # Errors
    /// If the ISBN is not valid, as determined by the range table, an error
    /// will be returned.
    pub fn registration_group<'a>(&self, ranges: &'a IsbnRange) -> (result: Result<
        &'a str,
        IsbnError,
    >)
        ensures
            ranges@.well_formed(),
            match result {
                Ok(name) => ranges@.registration_group_name(self@) == Ok::<Seq<char>, IsbnError>(
                    name@,
                ),
                Err(e) => ranges@.registration_group_name(self@) == Err::<Seq<char>, IsbnError>(e),
            },
    {
        ranges.get_registration_group_isbn(IsbnRef::_13(self))
    }

    /// Applies a hyphen after the prefix, two in the middle, before the
    /// digits at the two places of `hyphen_at` counted from the end of the
    /// prefix, and one before the check digit.
    pub(crate) fn hyphenate_with(&self, hyphen_at: [usize; 2]) -> (hyphenated: ArrayString<17>)
        requires
            0 < hyphen_at[0] < hyphen_at[1],
        ensures
            written(hyphenated) == hyphenated13(self@, hyphen_at[0] as int, hyphen_at[1] as int),
    {
        proof {
            use_type_invariant(self);
        }
        let mut hyphenated = text_buffer();
        let mut i: usize = 0;
        while i < 3
            invariant
                i <= 3,
                valid_isbn13(self.digits@),
                written(hyphenated) == digit_chars(self.digits@.subrange(0, i as int)),
                single_bytes(written(hyphenated)),
            decreases 3 - i,
        {
            proof {
                lemma_digit_char_single_byte(self.digits[i as int]);
            }
            text_push(&mut hyphenated, convert_isbn_body(self.digits[i]));
            i = i + 1;
            assert(written(hyphenated) =~= digit_chars(self.digits@.subrange(0, i as int)));
        }
        text_push(&mut hyphenated, '-');
        push_grouped(&mut hyphenated, self.digits.as_slice(), 3, hyphen_at);
        proof {
            lemma_digit_char_single_byte(self.digits[12]);
        }
        text_push(&mut hyphenated, '-');
        text_push(&mut hyphenated, convert_isbn_body(self.digits[12]));
        assert(written(hyphenated) =~= hyphenated13(
            self@,
            hyphen_at[0] as int,
            hyphen_at[1] as int,
        ));
        hyphenated
    }

    /// The first three digits, packed four bits to a digit: the prefix under
    /// which the numeral is looked up.
    pub(crate) fn prefix_element(&self) -> (prefix: u16)
        ensures
            prefix == packed(self@, 0, 3),
    {
        proof {
            use_type_invariant(self);
            reveal_with_fuel(packed, 4);
        }
        let d0: u16 = self.digits[0] as u16;
        let d1: u16 = self.digits[1] as u16;
        let d2: u16 = self.digits[2] as u16;
        assert(((d0 << 8) | (d1 << 4) | d2) == 256 * d0 + 16 * d1 + d2) by (bit_vector)
            requires
                d0 <= 9,
                d1 <= 9,
                d2 <= 9,
        ;
        (d0 << 8) | (d1 << 4) | d2
    }

    /// The numeral without separators.
    pub fn to_string(&self) -> (text: String)
        ensures
            text@ == isbn13_text(self@),
    {
        proof {
            use_type_invariant(self);
        }
        let mut s = String::new();
        let mut i: usize = 0;
        while i < 13
            invariant
                i <= 13,
                valid_isbn13(self.digits@),
                s@ == digit_chars(self.digits@.take(i as int)),
            decreases 13 - i,
        {
            string_push(&mut s, convert_isbn_body(self.digits[i]));
            i = i + 1;
            assert(s@ =~= digit_chars(self.digits@.take(i as int)));
        }
        assert(self.digits@.take(13) =~= self.digits@);
        s
    }
}

impl From<Isbn10> for Isbn13 {
    /// The 13-digit form of a 10-digit numeral; every 10-digit numeral has
    /// one.
    fn from(isbn10: Isbn10) -> (isbn13: Isbn13)
        ensures
            isbn13@ == isbn13_digits(isbn10@),
            valid_isbn13(isbn13@),
    {
        let source = isbn10.digits();
        let mut digits: [u8; 13] = [0; 13];
        digits[0] = 9;
        digits[1] = 7;
        digits[2] = 8;
        let mut i: usize = 0;
        while i < 9
            invariant
                i <= 9,
                valid_isbn10(source@),
                digits[0] == 9,
                digits[1] == 7,
                digits[2] == 8,
                forall|j: int| 0 <= j < i ==> digits[j + 3] == source[j],
            decreases 9 - i,
        {
            digits[i + 3] = source[i];
            i = i + 1;
        }
        let check = Isbn13::calculate_check_digit(&digits);
        digits[12] = check;
        proof {
            let body = seq![9u8, 7u8, 8u8] + isbn10@.take(9);
            assert(weighted_sum13(body) == weighted_sum13(digits@));
            assert(digits@ =~= isbn13_digits(isbn10@));
        }
        let isbn13 = Isbn13 { digits };
        proof {
            let chosen = choose|other: Isbn13| other@ == isbn13_digits(isbn10@);
            assert(isbn13@ == isbn13_digits(isbn10@));
            assert(chosen.digits =~= isbn13.digits);
        }
        isbn13
    }
}

impl vstd::std_specs::convert::FromSpecImpl<Isbn10> for Isbn13 {
    open spec fn obeys_from_spec() -> bool {
        true
    }

    /// The numeral whose digits are `isbn13_digits` of the other's.
    open spec fn from_spec(isbn10: Isbn10) -> Isbn13 {
        choose|isbn13: Isbn13| isbn13@ == isbn13_digits(isbn10@)
    }
}

/// A 13-digit numeral is its digits: two with the same digits are the same.
pub proof fn lemma_isbn13_is_its_digits(a: Isbn13, b: Isbn13)
    requires
        a@ == b@,
    ensures
        a == b,
{
    assert(a.digits =~= b.digits);
}

impl FromStr for Isbn13 {
    type Err = IsbnError;

    /// Reads a 13-digit numeral from text. Hyphens and spaces are passed
    /// over.
    ///
    /// # Errors
    /// Those of reading the digits; `InvalidLength` where there are not
    /// thirteen; `InvalidDigit` where the last is not the check digit of the
    /// others.
    fn from_str(s: &str) -> (result: Result<Isbn13, IsbnError>)
        ensures
            match result {
                Ok(isbn) => parse_isbn13(s@) == Ok::<Seq<u8>, IsbnError>(isbn@),
                Err(e) => parse_isbn13(s@) == Err::<Seq<u8>, IsbnError>(e),
            },
    {
        match Parser::new(s) {
            Ok(mut p) => {
                if p.len() == 13 {
                    p.read_isbn13()
                } else {
                    Err(IsbnError::InvalidLength)
                }
            },
            Err(e) => Err(e),
        }
    }
}

} // verus!
