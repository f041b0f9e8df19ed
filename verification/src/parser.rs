//! Reading a numeral from text.
//!
//! Hyphens and spaces are passed over. `X` stands for ten and can only be the
//! tenth digit; nothing may follow it but separators. At most thirteen digits
//! are kept.

use crate::buffers::{
    buffer_as_slice, buffer_len, buffer_push, buffer_try_push, buffered, digit_buffer,
};
use crate::digits::{char_digit, valid_isbn10, valid_isbn13};
use crate::error::IsbnError;
use crate::isbn::Isbn;
use crate::isbn10::Isbn10;
use crate::isbn13::Isbn13;
use arrayvec::ArrayVec;
use vstd::prelude::*;

verus! {

/// What reading one more character does to the digits read so far: the new
/// digits and whether an `X` has been read, or the error that ends the scan.
pub open spec fn scan_char(digits: Seq<u8>, has_x: bool, c: char) -> Result<
    (Seq<u8>, bool),
    IsbnError,
> {
    if c == '-' || c == ' ' {
        Ok((digits, has_x))
    } else if c == 'X' {
        if digits.len() == 9 {
            Ok((digits.push(10u8), true))
        } else {
            Err(IsbnError::InvalidDigit)
        }
    } else if char_digit(c) is Some {
        if has_x {
            Err(IsbnError::InvalidDigit)
        } else if digits.len() >= 13 {
            Err(IsbnError::InvalidLength)
        } else {
            Ok((digits.push(char_digit(c)->0), false))
        }
    } else {
        Err(IsbnError::InvalidDigit)
    }
}

/// The scan of `s` from place `i` on, with `digits` read before it.
pub open spec fn scan_from(s: Seq<char>, i: int, digits: Seq<u8>, has_x: bool) -> Result<
    Seq<u8>,
    IsbnError,
>
    decreases s.len() - i,
{
    if i < 0 || i >= s.len() {
        Ok(digits)
    } else {
        match scan_char(digits, has_x, s[i]) {
            Err(e) => Err(e),
            Ok((next, x)) => scan_from(s, i + 1, next, x),
        }
    }
}

/// The digits that `s` spells, or the first error on the way.
pub open spec fn parse_digits(s: Seq<char>) -> Result<Seq<u8>, IsbnError> {
    scan_from(s, 0, Seq::<u8>::empty(), false)
}

/// The digits of the 10-digit numeral that `s` spells.
pub open spec fn parse_isbn10(s: Seq<char>) -> Result<Seq<u8>, IsbnError> {
    match parse_digits(s) {
        Err(e) => Err(e),
        Ok(digits) => if digits.len() != 10 {
            Err(IsbnError::InvalidLength)
        } else if valid_isbn10(digits) {
            Ok(digits)
        } else {
            Err(IsbnError::InvalidDigit)
        },
    }
}

/// The digits of the 13-digit numeral that `s` spells.
pub open spec fn parse_isbn13(s: Seq<char>) -> Result<Seq<u8>, IsbnError> {
    match parse_digits(s) {
        Err(e) => Err(e),
        Ok(digits) => if digits.len() != 13 {
            Err(IsbnError::InvalidLength)
        } else if valid_isbn13(digits) {
            Ok(digits)
        } else {
            Err(IsbnError::InvalidDigit)
        },
    }
}

/// The digits of the numeral that `s` spells, of either form: ten digits make
/// a 10-digit numeral, thirteen a 13-digit one.
pub open spec fn parse_isbn(s: Seq<char>) -> Result<Seq<u8>, IsbnError> {
    match parse_digits(s) {
        Err(e) => Err(e),
        Ok(digits) => if digits.len() == 10 {
            parse_isbn10(s)
        } else if digits.len() == 13 {
            parse_isbn13(s)
        } else {
            Err(IsbnError::InvalidLength)
        },
    }
}

/// The digits read from a string, not yet checked.
pub struct Parser {
    digits: ArrayVec<u8, 13>,
}

impl View for Parser {
    type V = Seq<u8>;

    /// The digits read.
    closed spec fn view(&self) -> Seq<u8> {
        buffered(self.digits)
    }
}

impl Parser {
    #[verifier::type_invariant]
    spec fn bounded(self) -> bool {
        buffered(self.digits).len() <= 13
    }

    /// Reads the digits of `s`.
    ///
    /// # Errors
    /// `InvalidDigit` at a character that is no digit, hyphen or space, at an
    /// `X` that is not the tenth digit, and at a digit after `X`;
    /// `InvalidLength` at a fourteenth digit.
    pub fn new(s: &str) -> (result: Result<Parser, IsbnError>)
        ensures
            match result {
                Ok(parser) => parse_digits(s@) == Ok::<Seq<u8>, IsbnError>(parser@),
                Err(e) => parse_digits(s@) == Err::<Seq<u8>, IsbnError>(e),
            },
    {
        broadcast use vstd::string::axiom_spec_iter;

        let mut digits = digit_buffer();
        let mut has_x = false;

        for c in it: s.chars()
            invariant
                it.seq() == s@,
                buffered(digits).len() <= 13,
                parse_digits(s@) == scan_from(s@, it.index(), buffered(digits), has_x),
        {
            match c {
                '-' | ' ' => {},
                'X' => {
                    if buffer_len(&digits) == 9 {
                        has_x = true;
                        buffer_push(&mut digits, 10);
                    } else {
                        return Err(IsbnError::InvalidDigit);
                    }
                },
                '0'..='9' => {
                    if has_x {
                        return Err(IsbnError::InvalidDigit);
                    } else {
                        let digit: u8 = (c as u32 - '0' as u32) as u8;
                        assert(char_digit(c) == Some(digit));
                        match buffer_try_push(&mut digits, digit) {
                            Ok(()) => {},
                            Err(e) => {
                                return Err(IsbnError::from(e));
                            },
                        }
                    }
                },
                _ => {
                    assert(char_digit(c) is None);
                    return Err(IsbnError::InvalidDigit);
                },
            }
        }
        Ok(Parser { digits })
    }

    /// The number of digits read.
    pub fn len(&self) -> (len: usize)
        ensures
            len == self@.len(),
    {
        buffer_len(&self.digits)
    }

    /// The numeral that the digits form, of the form that their number
    /// calls for.
    pub fn read_isbn(&mut self) -> (result: Result<Isbn, IsbnError>)
        ensures
            *final(self) == *old(self),
            match result {
                Ok(isbn) => (old(self)@.len() == 10 || old(self)@.len() == 13) && isbn@ == old(
                    self,
                )@ && isbn.well_formed(),
                Err(e) => if old(self)@.len() == 10 {
                    e == IsbnError::InvalidDigit && !valid_isbn10(old(self)@)
                } else if old(self)@.len() == 13 {
                    e == IsbnError::InvalidDigit && !valid_isbn13(old(self)@)
                } else {
                    e == IsbnError::InvalidLength
                },
            },
    {
        let len = buffer_len(&self.digits);
        if len == 10 {
            match self.read_isbn10() {
                Ok(isbn) => Ok(Isbn::_10(isbn)),
                Err(e) => Err(e),
            }
        } else if len == 13 {
            match self.read_isbn13() {
                Ok(isbn) => Ok(Isbn::_13(isbn)),
                Err(e) => Err(e),
            }
        } else {
            Err(IsbnError::InvalidLength)
        }
    }

    /// Reads an ISBN13 from self. Requires that length is checked beforehand.
    pub fn read_isbn13(&mut self) -> (result: Result<Isbn13, IsbnError>)
        requires
            old(self)@.len() == 13,
        ensures
            *final(self) == *old(self),
            match result {
                Ok(isbn) => isbn@ == old(self)@ && valid_isbn13(isbn@),
                Err(e) => e == IsbnError::InvalidDigit && !valid_isbn13(old(self)@),
            },
    {
        let source = buffer_as_slice(&self.digits);
        let mut digits: [u8; 13] = [0; 13];
        let mut i: usize = 0;
        while i < 13
            invariant
                i <= 13,
                source@.len() == 13,
                forall|j: int| 0 <= j < i ==> digits[j] == source[j],
            decreases 13 - i,
        {
            digits[i] = source[i];
            i = i + 1;
        }
        assert(digits@ =~= source@);
        match Isbn13::new(digits) {
            Ok(isbn) => Ok(isbn),
            Err(_) => Err(IsbnError::InvalidDigit),
        }
    }

    /// Reads an ISBN10 from self. Requires that length is checked beforehand.
    pub fn read_isbn10(&mut self) -> (result: Result<Isbn10, IsbnError>)
        requires
            old(self)@.len() == 10,
        ensures
            *final(self) == *old(self),
            match result {
                Ok(isbn) => isbn@ == old(self)@ && valid_isbn10(isbn@),
                Err(e) => e == IsbnError::InvalidDigit && !valid_isbn10(old(self)@),
            },
    {
        let source = buffer_as_slice(&self.digits);
        let mut digits: [u8; 10] = [0; 10];
        let mut i: usize = 0;
        while i < 10
            invariant
                i <= 10,
                source@.len() == 10,
                forall|j: int| 0 <= j < i ==> digits[j] == source[j],
            decreases 10 - i,
        {
            digits[i] = source[i];
            i = i + 1;
        }
        assert(digits@ =~= source@);
        match Isbn10::new(digits) {
            Ok(isbn) => Ok(isbn),
            Err(_) => Err(IsbnError::InvalidDigit),
        }
    }
}

} // verus!
