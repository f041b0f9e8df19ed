//! A numeral of either form.

use crate::digits::{valid_isbn10, valid_isbn13};
use crate::error::IsbnError;
use crate::isbn10::{isbn10_text, Isbn10};
use crate::isbn13::{isbn13_text, Isbn13};
use crate::buffers::written;
use crate::parser::{parse_isbn, Parser};
use crate::range::IsbnRange;
use arrayvec::ArrayString;
use std::str::FromStr;
use vstd::prelude::*;

verus! {

/// An International Standard Book Number, either ISBN10 or ISBN13.
#[derive(Debug, PartialEq, Eq, PartialOrd, Ord, Copy, Clone, Hash)]
pub enum Isbn {
    _10(Isbn10),
    _13(Isbn13),
}

impl View for Isbn {
    type V = Seq<u8>;

    /// The digits, ten or thirteen of them.
    open spec fn view(&self) -> Seq<u8> {
        match self {
            Isbn::_10(c) => c@,
            Isbn::_13(c) => c@,
        }
    }
}

impl Isbn {
    /// The digits form a numeral of the form that the variant names.
    pub open spec fn well_formed(self) -> bool {
        match self {
            Isbn::_10(c) => valid_isbn10(c@),
            Isbn::_13(c) => valid_isbn13(c@),
        }
    }

    /// The numeral without separators; a check digit of ten is written `X`.
    pub fn to_string(&self) -> (text: String)
        ensures
            text@ == match self {
                Isbn::_10(c) => isbn10_text(c@),
                Isbn::_13(c) => isbn13_text(c@),
            },
    {
        match self {
            Isbn::_10(c) => c.to_string(),
            Isbn::_13(c) => c.to_string(),
        }
    }

    /// Hyphenate an ISBN into its parts:
    ///
    /// * GS1 Prefix (ISBN-13 only)
    /// * Registration group
    /// * Registrant
    /// * Publication
    /// * Check digit
    ///
    /// # Errors
    /// If the ISBN is not valid, as determined by the range table, an error
    /// will be returned.
    pub fn hyphenate(&self, ranges: &IsbnRange) -> (result: Result<ArrayString<17>, IsbnError>)
        ensures
            ranges@.well_formed(),
            match result {
                Ok(text) => ranges@.hyphenate(self@) == Ok::<Seq<char>, IsbnError>(written(text)),
                Err(e) => ranges@.hyphenate(self@) == Err::<Seq<char>, IsbnError>(e),
            },
    {
        match self {
            Isbn::_10(c) => c.hyphenate(ranges),
            Isbn::_13(c) => c.hyphenate(ranges),
        }
    }

    /// Retrieve the name of the registration group.
    ///
    /// # Errors
    /// If the ISBN is not valid, as determined by the range table, an error
    /// will be returned.
    pub fn registration_group<'a>(&self, ranges: &'a IsbnRange) -> (result: Result<
        &'a str,
        IsbnError,
    >)
        ensures
            ranges@.well_formed(),
            match result {
                Ok(name) => ranges@.registration_group_name(self@) == Ok::<Seq<char>, IsbnError>(
                    name@,
                ),
                Err(e) => ranges@.registration_group_name(self@) == Err::<Seq<char>, IsbnError>(e),
            },
    {
        match self {
            Isbn::_10(c) => c.registration_group(ranges),
            Isbn::_13(c) => c.registration_group(ranges),
        }
    }
}

impl FromStr for Isbn {
    type Err = IsbnError;

    /// Reads a numeral of either form from text. Hyphens and spaces are
    /// passed over; `X` may stand as the tenth digit of ten.
    ///
    /// # Errors
    /// Those of reading the digits; `InvalidLength` where the digits are
    /// neither ten nor thirteen; `InvalidDigit` where the last digit is not
    /// the check digit of the others.
    fn from_str(s: &str) -> (result: Result<Isbn, IsbnError>)
        ensures
            match result {
                Ok(isbn) => parse_isbn(s@) == Ok::<Seq<u8>, IsbnError>(isbn@) && isbn.well_formed(),
                Err(e) => parse_isbn(s@) == Err::<Seq<u8>, IsbnError>(e),
            },
    {
        match Parser::new(s) {
            Ok(mut parser) => parser.read_isbn(),
            Err(e) => Err(e),
        }
    }
}

/// A borrowed numeral of either form.
#[derive(Debug, PartialEq, Eq, Copy, Clone)]
pub enum IsbnRef<'a> {
    _10(&'a Isbn10),
    _13(&'a Isbn13),
}

impl<'a> View for IsbnRef<'a> {
    type V = Seq<u8>;

    /// The digits, ten or thirteen of them.
    open spec fn view(&self) -> Seq<u8> {
        match self {
            IsbnRef::_10(c) => c@,
            IsbnRef::_13(c) => c@,
        }
    }
}

impl<'a> From<&'a Isbn> for IsbnRef<'a> {
    fn from(isbn: &'a Isbn) -> (r: IsbnRef<'a>) {
        match isbn {
            Isbn::_10(isbn) => IsbnRef::_10(isbn),
            Isbn::_13(isbn) => IsbnRef::_13(isbn),
        }
    }
}

impl<'a> vstd::std_specs::convert::FromSpecImpl<&'a Isbn> for IsbnRef<'a> {
    open spec fn obeys_from_spec() -> bool {
        true
    }

    open spec fn from_spec(isbn: &'a Isbn) -> IsbnRef<'a> {
        match isbn {
            Isbn::_10(isbn) => IsbnRef::_10(isbn),
            Isbn::_13(isbn) => IsbnRef::_13(isbn),
        }
    }
}

impl<'a> From<&'a Isbn10> for IsbnRef<'a> {
    fn from(isbn: &'a Isbn10) -> (r: IsbnRef<'a>) {
        IsbnRef::_10(isbn)
    }
}

impl<'a> vstd::std_specs::convert::FromSpecImpl<&'a Isbn10> for IsbnRef<'a> {
    open spec fn obeys_from_spec() -> bool {
        true
    }

    open spec fn from_spec(isbn: &'a Isbn10) -> IsbnRef<'a> {
        IsbnRef::_10(isbn)
    }
}

impl<'a> From<&'a Isbn13> for IsbnRef<'a> {
    fn from(isbn: &'a Isbn13) -> (r: IsbnRef<'a>) {
        IsbnRef::_13(isbn)
    }
}

impl<'a> vstd::std_specs::convert::FromSpecImpl<&'a Isbn13> for IsbnRef<'a> {
    open spec fn obeys_from_spec() -> bool {
        true
    }

    open spec fn from_spec(isbn: &'a Isbn13) -> IsbnRef<'a> {
        IsbnRef::_13(isbn)
    }
}

impl From<Isbn10> for Isbn {
    fn from(isbn10: Isbn10) -> (isbn: Isbn) {
        Isbn::_10(isbn10)
    }
}

impl vstd::std_specs::convert::FromSpecImpl<Isbn10> for Isbn {
    open spec fn obeys_from_spec() -> bool {
        true
    }

    open spec fn from_spec(isbn10: Isbn10) -> Isbn {
        Isbn::_10(isbn10)
    }
}

impl From<Isbn13> for Isbn {
    fn from(isbn13: Isbn13) -> (isbn: Isbn) {
        Isbn::_13(isbn13)
    }
}

impl vstd::std_specs::convert::FromSpecImpl<Isbn13> for Isbn {
    open spec fn obeys_from_spec() -> bool {
        true
    }

    open spec fn from_spec(isbn13: Isbn13) -> Isbn {
        Isbn::_13(isbn13)
    }
}

} // verus!
