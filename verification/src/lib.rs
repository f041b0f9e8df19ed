//! Validation, conversion and hyphenation of International Standard Book
//! Numbers in their 10-digit and 13-digit forms.
//!
//! A numeral is built from digits or parsed from text, and is always
//! checksum-valid. An [`IsbnRange`] holds the range rules of the numbering
//! agency; with it a numeral is split into registration group, registrant and
//! publication, and written with hyphens.
//!
//! A range table is read from the range message of the agency, an XML
//! document, or built from entries that a program holds as data. Once built
//! it is only read.
//!
//! The modules, from the digits up:
//!
//! * [`digits`]: check digits, conversions, and the numbers and packed
//!   prefixes by which rules are looked up;
//! * [`isbn10`], [`isbn13`], [`isbn`]: the numerals;
//! * [`parser`]: numerals from text;
//! * [`range`]: the range table and what it says of a numeral;
//! * [`hyphen`]: numerals with hyphens;
//! * [`entries`], [`message`], [`fields`]: range tables from entries and
//!   from range messages;
//! * [`laws`]: what holds of all numerals and tables;
//! * [`buffers`], [`table`], [`xml`]: what the library has from the crates
//!   `arrayvec`, `indexmap` and `quick_xml`, with the contracts it takes on
//!   trust.

pub mod buffers;
pub mod digits;
pub mod entries;
pub mod error;
pub mod fields;
pub mod hyphen;
pub mod isbn;
pub mod isbn10;
pub mod isbn13;
pub mod laws;
pub mod message;
pub mod parser;
pub mod range;
pub mod table;
pub mod xml;

pub use entries::GroupEntry;
pub use error::{IsbnError, IsbnResult};
pub use isbn::{Isbn, IsbnRef};
pub use isbn10::Isbn10;
pub use isbn13::Isbn13;
pub use range::IsbnRange;
