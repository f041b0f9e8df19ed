//! The 10-digit form.

use crate::buffers::{string_push, text_buffer, text_push, written};
use crate::digits::{
    check_char, check_digit10, convert_isbn10_check, convert_isbn_body, digit_chars,
    has_bookland_prefix, isbn10_digits, valid_isbn10, valid_isbn13, weighted_sum10,
};
use crate::error::{IsbnError, IsbnResult};
use crate::hyphen::{hyphenated10, lemma_digit_char_single_byte, push_grouped};
use crate::isbn13::Isbn13;
use crate::isbn::IsbnRef;
use crate::parser::{parse_isbn10, Parser};
use crate::range::IsbnRange;
use arrayvec::ArrayString;
use std::str::FromStr;
use vstd::prelude::*;

verus! {

/// 10-digit ISBN format.
#[derive(Debug, PartialEq, Eq, PartialOrd, Ord, Copy, Clone, Hash)]
pub struct Isbn10 {
    digits: [u8; 10],
}

impl View for Isbn10 {
    type V = Seq<u8>;

    /// The ten digits, ten standing for `X`.
    closed spec fn view(&self) -> Seq<u8> {
        self.digits@
    }
}

/// The first nine digits are below ten and the last is at most ten.
pub open spec fn in_bounds10(d: Seq<u8>) -> bool {
    &&& d.len() == 10
    &&& forall|i: int| 0 <= i < 9 ==> d[i] <= 9
    &&& d[9] <= 10
}

/// What a 10-digit numeral is written as, without separators.
pub open spec fn isbn10_text(d: Seq<u8>) -> Seq<char> {
    digit_chars(d.take(9)).push(check_char(d[9]))
}

impl Isbn10 {
    #[verifier::type_invariant]
    spec fn checked(self) -> bool {
        valid_isbn10(self.digits@)
    }

    /// Creates a new ISBN10 code from 10 digits. Verifies that the checksum is
    /// correct, and that no digits are out of bounds.
    ///
    /// # Errors
    /// If any of the first nine digits exceed nine, or the tenth digit exceeds
    /// 10, an error will be returned. If the check digit is not correct for
    /// the ISBN, an error will also be returned.
    pub fn new(digits: [u8; 10]) -> (result: IsbnResult<Isbn10>)
        ensures
            match result {
                Ok(isbn) => valid_isbn10(digits@) && isbn@ == digits@,
                Err(e) => if in_bounds10(digits@) {
                    e == IsbnError::InvalidChecksum && digits[9] != check_digit10(digits@)
                } else {
                    e == IsbnError::DigitTooLarge
                },
            },
    {
        let mut i: usize = 0;
        while i < 9
            invariant
                i <= 9,
                forall|j: int| 0 <= j < i ==> digits[j] <= 9,
            decreases 9 - i,
        {
            if digits[i] > 9 {
                return Err(IsbnError::DigitTooLarge);
            }
            i = i + 1;
        }
        if digits[9] > 10 {
            Err(IsbnError::DigitTooLarge)
        } else if Isbn10::calculate_check_digit(&digits) == digits[9] {
            Ok(Isbn10 { digits })
        } else {
            Err(IsbnError::InvalidChecksum)
        }
    }

    /// Convert ISBN-13 to ISBN-10, if applicable.
    ///
    /// # Errors
    /// If the ISBN13 does not have a 978 prefix, it can not be downcast to an
    /// ISBN10, and an error will be returned.
    pub fn try_from(isbn13: Isbn13) -> (result: IsbnResult<Isbn10>)
        ensures
            match result {
                Ok(isbn) => has_bookland_prefix(isbn13@) && isbn@ == isbn10_digits(isbn13@)
                    && valid_isbn10(isbn@),
                Err(e) => !has_bookland_prefix(isbn13@) && e == IsbnError::InvalidConversion,
            },
    {
        let source = isbn13.digits();
        if source[0] == 9 && source[1] == 7 && source[2] == 8 {
            let mut a: [u8; 10] = [0; 10];
            let mut i: usize = 0;
            while i < 9
                invariant
                    i <= 9,
                    valid_isbn13(source@),
                    forall|j: int| 0 <= j < i ==> a[j] == source[j + 3],
                decreases 9 - i,
            {
                a[i] = source[i + 3];
                i = i + 1;
            }
            let check = Isbn10::calculate_check_digit(&a);
            a[9] = check;
            proof {
                let body = isbn13@.subrange(3, 12);
                assert(weighted_sum10(body) == weighted_sum10(a@));
                assert(a@ =~= isbn10_digits(isbn13@));
            }
            Ok(Isbn10 { digits: a })
        } else {
            Err(IsbnError::InvalidConversion)
        }
    }

    /// The check digit that belongs to the first nine of `digits`; the tenth
    /// is not read. Ten stands for `X`.
    pub fn calculate_check_digit(digits: &[u8; 10]) -> (check: u8)
        ensures
            check == check_digit10(digits@),
            check <= 10,
    {
        let sum: usize = 10 * (digits[0] as usize) + 9 * (digits[1] as usize)
            + 8 * (digits[2] as usize) + 7 * (digits[3] as usize) + 6 * (digits[4] as usize)
            + 5 * (digits[5] as usize) + 4 * (digits[6] as usize) + 3 * (digits[7] as usize)
            + 2 * (digits[8] as usize);
        let sum_m: u8 = (sum % 11) as u8;
        if sum_m == 0 {
            0
        } else {
            11 - sum_m
        }
    }

    /// The ten digits, ten standing for `X`. The last is the check digit of
    /// the nine before it, as of every 10-digit numeral.
    pub fn digits(&self) -> (digits: &[u8; 10])
        ensures
            digits@ == self@,
            valid_isbn10(self@),
    {
        proof {
            use_type_invariant(self);
        }
        &self.digits
    }

    /// Hyphenate an ISBN-10 into its parts:
    ///
    /// * Registration group
    /// * Registrant
    /// * Publication
    /// * Check digit
    ///
    /// # Errors
    /// If the ISBN is not valid, as determined by the range table, an error
    /// will be returned.
    pub fn hyphenate(&self, ranges: &IsbnRange) -> (result: Result<ArrayString<17>, IsbnError>)
        ensures
            ranges@.well_formed(),
            match result {
                Ok(text) => ranges@.hyphenate(self@) == Ok::<Seq<char>, IsbnError>(written(text)),
                Err(e) => ranges@.hyphenate(self@) == Err::<Seq<char>, IsbnError>(e),
            },
    {
        ranges.hyphenate_isbn(IsbnRef::_10(self))
    }

    /// Retrieve the name of the registration group.
    ///
    /// # Errors
    /// If the ISBN is not valid, as determined by the range table, an error
    /// will be returned.
    pub fn registration_group<'a>(&self, ranges: &'a IsbnRange) -> (result: Result<
        &'a str,
        IsbnError,
    >)
        ensures
            ranges@.well_formed(),
            match result {
                Ok(name) => ranges@.registration_group_name(self@) == Ok::<Seq<char>, IsbnError>(
                    name@,
                ),
                Err(e) => ranges@.registration_group_name(self@) == Err::<Seq<char>, IsbnError>(e),
            },
    {
        ranges.get_registration_group_isbn(IsbnRef::_10(self))
    }

    /// Applies two hyphens in the middle, before the digits at the two places
    /// of `hyphen_at`, and one before the check digit.
    pub(crate) fn hyphenate_with(&self, hyphen_at: [usize; 2]) -> (hyphenated: ArrayString<17>)
        requires
            0 < hyphen_at[0] < hyphen_at[1],
        ensures
            written(hyphenated) == hyphenated10(self@, hyphen_at[0] as int, hyphen_at[1] as int),
    {
        proof {
            use_type_invariant(self);
        }
        let mut hyphenated = text_buffer();
        push_grouped(&mut hyphenated, self.digits.as_slice(), 0, hyphen_at);
        proof {
            lemma_digit_char_single_byte(self.digits[9]);
        }
        text_push(&mut hyphenated, '-');
        text_push(&mut hyphenated, convert_isbn10_check(self.digits[9]));
        assert(written(hyphenated) =~= hyphenated10(
            self@,
            hyphen_at[0] as int,
            hyphen_at[1] as int,
        ));
        hyphenated
    }

    /// The prefix under which a 10-digit numeral is looked up: always 978,
    /// packed four bits to a digit.
    pub(crate) fn prefix_element(&self) -> (prefix: u16)
        ensures
            prefix == 0x978,
    {
        0x978
    }

    /// The numeral without separators; a check digit of ten is written `X`.
    pub fn to_string(&self) -> (text: String)
        ensures
            text@ == isbn10_text(self@),
    {
        proof {
            use_type_invariant(self);
        }
        let mut s = String::new();
        let mut i: usize = 0;
        while i < 9
            invariant
                i <= 9,
                valid_isbn10(self.digits@),
                s@ == digit_chars(self.digits@.take(i as int)),
            decreases 9 - i,
        {
            string_push(&mut s, convert_isbn_body(self.digits[i]));
            i = i + 1;
            assert(s@ =~= digit_chars(self.digits@.take(i as int)));
        }
        string_push(&mut s, convert_isbn10_check(self.digits[9]));
        s
    }
}

/// A 10-digit numeral is its digits: two with the same digits are the same.
pub proof fn lemma_isbn10_is_its_digits(a: Isbn10, b: Isbn10)
    requires
        a@ == b@,
    ensures
        a == b,
{
    assert(a.digits =~= b.digits);
}

impl FromStr for Isbn10 {
    type Err = IsbnError;

    /// Reads a 10-digit numeral from text. Hyphens and spaces are passed
    /// over; `X` may stand as the tenth digit.
    ///
    /// # Errors
    /// Those of reading the digits; `InvalidLength` where there are not ten;
    /// `InvalidDigit` where the tenth is not the check digit of the others.
    fn from_str(s: &str) -> (result: Result<Isbn10, IsbnError>)
        ensures
            match result {
                Ok(isbn) => parse_isbn10(s@) == Ok::<Seq<u8>, IsbnError>(isbn@),
                Err(e) => parse_isbn10(s@) == Err::<Seq<u8>, IsbnError>(e),
            },
    {
        match Parser::new(s) {
            Ok(mut p) => {
                if p.len() == 10 {
                    p.read_isbn10()
                } else {
                    Err(IsbnError::InvalidLength)
                }
            },
            Err(e) => Err(e),
        }
    }
}

} // verus!
