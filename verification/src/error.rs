//! The ways in which reading, converting or classifying a numeral can fail.

use arrayvec::CapacityError;
use vstd::prelude::*;

verus! {

/// An error which can be returned when parsing, converting or hyphenating an
/// ISBN.
#[derive(Debug, PartialEq, Eq, Clone, Copy, Structural)]
pub enum IsbnError {
    /// The given string is too short or too long to be an ISBN.
    InvalidLength,
    /// Encountered an invalid digit while parsing.
    InvalidDigit,
    /// Encountered an invalid ISBN registration group.
    InvalidGroup,
    /// Encountered a range not defined for use at this time.
    UndefinedRange,
    /// Failed to validate checksum.
    InvalidChecksum,
    /// Failed to convert to ISBN10.
    InvalidConversion,
    /// One or more supplied digits were too large.
    DigitTooLarge,
}

pub type IsbnResult<T> = Result<T, IsbnError>;

impl IsbnError {
    /// The sentence that describes the error.
    pub open spec fn message(self) -> Seq<char> {
        match self {
            IsbnError::InvalidLength => "The given string is too short or too long to be an ISBN."@,
            IsbnError::InvalidDigit => "Encountered an invalid digit while parsing."@,
            IsbnError::InvalidGroup => "Encountered an invalid ISBN registration group."@,
            IsbnError::UndefinedRange => "Encountered a range not defined for use at this time."@,
            IsbnError::InvalidChecksum => "Failed to validate checksum."@,
            IsbnError::InvalidConversion => "Failed to convert to ISBN10."@,
            IsbnError::DigitTooLarge =>
                "A supplied digit was larger than 9, or the ISBN10 check digit was larger than 10."@,
        }
    }

    /// Writes the error out as a sentence.
    pub fn to_string(&self) -> (text: String)
        ensures
            text@ == self.message(),
    {
        match self {
            IsbnError::InvalidLength => {
                "The given string is too short or too long to be an ISBN.".to_owned()
            },
            IsbnError::InvalidDigit => "Encountered an invalid digit while parsing.".to_owned(),
            IsbnError::InvalidGroup => "Encountered an invalid ISBN registration group.".to_owned(),
            IsbnError::UndefinedRange => {
                "Encountered a range not defined for use at this time.".to_owned()
            },
            IsbnError::InvalidChecksum => "Failed to validate checksum.".to_owned(),
            IsbnError::InvalidConversion => "Failed to convert to ISBN10.".to_owned(),
            IsbnError::DigitTooLarge => {
                "A supplied digit was larger than 9, or the ISBN10 check digit was larger than 10."
                    .to_owned()
            },
        }
    }
}

impl From<CapacityError<u8>> for IsbnError {
    /// A digit that no longer fits is one digit too many.
    fn from(_e: CapacityError<u8>) -> (e: IsbnError) {
        IsbnError::InvalidLength
    }
}

impl vstd::std_specs::convert::FromSpecImpl<CapacityError<u8>> for IsbnError {
    open spec fn obeys_from_spec() -> bool {
        true
    }

    open spec fn from_spec(_e: CapacityError<u8>) -> IsbnError {
        IsbnError::InvalidLength
    }
}

} // verus!
