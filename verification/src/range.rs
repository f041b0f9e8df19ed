//! The range table of the numbering agency, and what it says of a numeral:
//! where its registration group and its registrant end, and what its
//! registration group is called.
//!
//! A table has two levels. The first maps a 3-digit agency prefix to a
//! segment, whose rules give the length of the registration group. The
//! second maps prefix and registration group to a segment, whose rules give
//! the length of the registrant. Both are looked up with the seven digits
//! that follow, read as a number.

use crate::buffers::written;
use crate::digits::{packed, window};
use crate::error::IsbnError;
use crate::hyphen::{hyphenated10, hyphenated13};
use crate::isbn::IsbnRef;
use crate::table::{agency_entries, agency_get, group_entries, group_get};
use arrayvec::ArrayString;
use indexmap::IndexMap;
use vstd::prelude::*;
use vstd::std_specs::convert::IntoSpec;

pub use crate::message::IsbnRangeError;

verus! {

/// One rule of a segment: the numbers from `min` up to, not including, `max`
/// have the given length, or with `None` are reserved.
#[derive(Debug, PartialEq, Eq, Copy, Clone)]
pub struct Rule {
    pub min: u32,
    pub max: u32,
    pub length: Option<usize>,
}

impl Rule {
    /// The rule speaks of `value`.
    pub open spec fn covers(self, value: int) -> bool {
        self.min <= value < self.max
    }

    /// A length is between one and seven.
    pub open spec fn well_formed(self) -> bool {
        self.length matches Some(length) ==> 1 <= length <= 7
    }
}

/// The first rule from place `from` on that covers `value`.
pub open spec fn first_covering(rules: Seq<Rule>, value: int, from: int) -> Option<Rule>
    decreases rules.len() - from,
{
    if from < 0 || from >= rules.len() {
        None
    } else if rules[from].covers(value) {
        Some(rules[from])
    } else {
        first_covering(rules, value, from + 1)
    }
}

/// What a segment holds: the name of the agency and its rules, in order.
pub struct SegmentView {
    pub name: Seq<char>,
    pub rules: Seq<Rule>,
}

impl SegmentView {
    /// Every rule is well formed.
    pub open spec fn well_formed(self) -> bool {
        forall|i: int| 0 <= i < self.rules.len() ==> #[trigger] self.rules[i].well_formed()
    }

    /// The length that the segment gives to `value`: that of the first rule
    /// that covers it. No rule covering it is `InvalidGroup`; a reserved one
    /// is `UndefinedRange`.
    pub open spec fn length_at(self, value: int) -> Result<usize, IsbnError> {
        match first_covering(self.rules, value, 0) {
            None => Err(IsbnError::InvalidGroup),
            Some(rule) => match rule.length {
                None => Err(IsbnError::UndefinedRange),
                Some(length) => Ok(length),
            },
        }
    }
}

/// A named allocation with the rules that give lengths within it.
pub struct Segment {
    name: String,
    ranges: Vec<Rule>,
}

impl View for Segment {
    type V = SegmentView;

    closed spec fn view(&self) -> SegmentView {
        SegmentView { name: self.name@, rules: self.ranges@ }
    }
}

/// What a segment says of one number: its name and the length it gives.
pub struct Group<'a> {
    pub name: &'a str,
    pub segment_length: usize,
}

impl Segment {
    #[verifier::type_invariant]
    spec fn ruled(self) -> bool {
        self@.well_formed()
    }

    /// A segment of the given name and rules.
    pub(crate) fn new(name: String, ranges: Vec<Rule>) -> (segment: Segment)
        requires
            forall|i: int| 0 <= i < ranges@.len() ==> #[trigger] ranges@[i].well_formed(),
        ensures
            segment@ == (SegmentView { name: name@, rules: ranges@ }),
    {
        Segment { name, ranges }
    }

    /// The name of the segment and the length that it gives to `segment`.
    ///
    /// # Errors
    /// `InvalidGroup` where no rule covers the number, `UndefinedRange` where
    /// the first rule that covers it is reserved.
    pub fn group(&self, segment: u32) -> (result: Result<Group<'_>, IsbnError>)
        ensures
            self@.well_formed(),
            match result {
                Ok(group) => self@.length_at(segment as int) == Ok::<usize, IsbnError>(
                    group.segment_length,
                ) && group.name@ == self@.name && 1 <= group.segment_length <= 7,
                Err(e) => self@.length_at(segment as int) == Err::<usize, IsbnError>(e),
            },
    {
        proof {
            use_type_invariant(self);
        }
        let mut i: usize = 0;
        while i < self.ranges.len()
            invariant
                i <= self.ranges@.len(),
                self@.well_formed(),
                first_covering(self.ranges@, segment as int, 0) == first_covering(
                    self.ranges@,
                    segment as int,
                    i as int,
                ),
            decreases self.ranges@.len() - i,
        {
            let rule = self.ranges[i];
            if segment >= rule.min && segment < rule.max {
                assert(self@.rules[i as int].well_formed());
                return match rule.length {
                    Some(segment_length) => Ok(Group { name: self.name.as_str(), segment_length }),
                    None => Err(IsbnError::UndefinedRange),
                };
            }
            i = i + 1;
        }
        Err(IsbnError::InvalidGroup)
    }
}

/// What a range table holds.
pub struct RangeView {
    pub source: Option<Seq<char>>,
    pub serial_number: Option<Seq<char>>,
    pub date: Seq<char>,
    pub ean_ucc_group: Map<u16, SegmentView>,
    pub registration_group: Map<(u16, u32), SegmentView>,
}

/// Where the groups of a numeral end, and what its registration group is
/// called.
pub struct Resolved {
    /// The number of digits of the registration group.
    pub group_length: usize,
    /// The number of digits of the registrant.
    pub registrant_length: usize,
    /// The name of the registration group.
    pub name: Seq<char>,
}

impl RangeView {
    /// Every rule of every segment is well formed.
    pub open spec fn well_formed(self) -> bool {
        &&& forall|prefix: u16| #[trigger]
            self.ean_ucc_group.contains_key(prefix)
                ==> self.ean_ucc_group[prefix].well_formed()
        &&& forall|key: (u16, u32)| #[trigger]
            self.registration_group.contains_key(key)
                ==> self.registration_group[key].well_formed()
    }

    /// Whatever length a rule under a prefix gives to the registration group
    /// and whatever length a rule of a group under that prefix gives to the
    /// registrant, the two add up to eight at most: of the nine digits one
    /// at least is left for the publication.
    pub open spec fn leaves_publication(self) -> bool {
        forall|prefix: u16, key: (u16, u32), i: int, j: int|
            #![trigger self.ean_ucc_group[prefix].rules[i], self.registration_group[key].rules[j]]
            {
                &&& self.ean_ucc_group.contains_key(prefix)
                &&& self.registration_group.contains_key(key)
                &&& key.0 == prefix
                &&& 0 <= i < self.ean_ucc_group[prefix].rules.len()
                &&& 0 <= j < self.registration_group[key].rules.len()
                &&& self.ean_ucc_group[prefix].rules[i].length is Some
                &&& self.registration_group[key].rules[j].length is Some
            } ==> self.ean_ucc_group[prefix].rules[i].length->0
                + self.registration_group[key].rules[j].length->0 <= 8
    }

    /// The classification of the digits that start at place `offset` of
    /// `digits`, under the agency prefix `prefix`.
    ///
    /// The seven digits from `offset` on, as a number, are looked up in the
    /// segment of the prefix: that gives the length of the registration
    /// group. The digits of the registration group, packed, select with the
    /// prefix the segment of the group; in it the seven digits after the
    /// group are looked up, which gives the length of the registrant.
    pub open spec fn resolve(self, prefix: u16, digits: Seq<u8>, offset: int) -> Result<
        Resolved,
        IsbnError,
    > {
        if !self.ean_ucc_group.contains_key(prefix) {
            Err(IsbnError::InvalidGroup)
        } else {
            match self.ean_ucc_group[prefix].length_at(window(digits, offset)) {
                Err(e) => Err(e),
                Ok(group_length) => {
                    let key = (prefix, packed(digits, offset, group_length as int) as u32);
                    if !self.registration_group.contains_key(key) {
                        Err(IsbnError::InvalidGroup)
                    } else {
                        let segment = self.registration_group[key];
                        match segment.length_at(window(digits, offset + group_length)) {
                            Err(e) => Err(e),
                            Ok(registrant_length) => Ok(
                                Resolved { group_length, registrant_length, name: segment.name },
                            ),
                        }
                    }
                },
            }
        }
    }

    /// The classification of a numeral of either form, given by its digits.
    /// A 10-digit numeral is looked up under 978 from its first digit on, a
    /// 13-digit numeral under its own first three digits from the fourth on.
    pub open spec fn classify(self, digits: Seq<u8>) -> Result<Resolved, IsbnError> {
        if digits.len() == 10 {
            self.resolve(0x978, digits, 0)
        } else {
            self.resolve(packed(digits, 0, 3) as u16, digits, 3)
        }
    }

    /// The numeral with hyphens between its parts, or why it has no parts.
    pub open spec fn hyphenate(self, digits: Seq<u8>) -> Result<Seq<char>, IsbnError> {
        match self.classify(digits) {
            Err(e) => Err(e),
            Ok(found) => {
                let first = found.group_length as int;
                let second = found.group_length + found.registrant_length;
                if digits.len() == 10 {
                    Ok(hyphenated10(digits, first, second))
                } else {
                    Ok(hyphenated13(digits, first, second))
                }
            },
        }
    }

    /// The name of the registration group of the numeral.
    pub open spec fn registration_group_name(self, digits: Seq<u8>) -> Result<
        Seq<char>,
        IsbnError,
    > {
        match self.classify(digits) {
            Err(e) => Err(e),
            Ok(found) => Ok(found.name),
        }
    }
}

/// The range table of the numbering agency.
pub struct IsbnRange {
    source: Option<String>,
    serial_number: Option<String>,
    date: String,
    ean_ucc_group: IndexMap<u16, Segment>,
    registration_group: IndexMap<(u16, u32), Segment>,
}

/// The text of an optional string.
pub open spec fn optional_text(s: Option<String>) -> Option<Seq<char>> {
    match s {
        Some(s) => Some(s@),
        None => None,
    }
}

/// What the segments of a map of agency prefixes hold, each under its
/// prefix.
pub open spec fn agency_view(map: IndexMap<u16, Segment>) -> Map<u16, SegmentView> {
    Map::new(
        |prefix: u16| agency_entries(map).contains_key(prefix),
        |prefix: u16| agency_entries(map)[prefix]@,
    )
}

/// What the segments of a map of registration groups hold, each under its
/// prefix and group element.
pub open spec fn group_view(map: IndexMap<(u16, u32), Segment>) -> Map<(u16, u32), SegmentView> {
    Map::new(
        |key: (u16, u32)| group_entries(map).contains_key(key),
        |key: (u16, u32)| group_entries(map)[key]@,
    )
}

impl View for IsbnRange {
    type V = RangeView;

    closed spec fn view(&self) -> RangeView {
        RangeView {
            source: optional_text(self.source),
            serial_number: optional_text(self.serial_number),
            date: self.date@,
            ean_ucc_group: agency_view(self.ean_ucc_group),
            registration_group: group_view(self.registration_group),
        }
    }
}

impl IsbnRange {
    #[verifier::type_invariant]
    spec fn ruled(self) -> bool {
        self@.well_formed()
    }

    /// A table of the given parts.
    pub(crate) fn new(
        source: Option<String>,
        serial_number: Option<String>,
        date: String,
        ean_ucc_group: IndexMap<u16, Segment>,
        registration_group: IndexMap<(u16, u32), Segment>,
    ) -> (table: IsbnRange)
        requires
            forall|prefix: u16| #[trigger]
                agency_view(ean_ucc_group).contains_key(prefix) ==> agency_view(
                    ean_ucc_group,
                )[prefix].well_formed(),
            forall|key: (u16, u32)| #[trigger]
                group_view(registration_group).contains_key(key) ==> group_view(
                    registration_group,
                )[key].well_formed(),
        ensures
            table@ == (RangeView {
                source: optional_text(source),
                serial_number: optional_text(serial_number),
                date: date@,
                ean_ucc_group: agency_view(ean_ucc_group),
                registration_group: group_view(registration_group),
            }),
    {
        IsbnRange { source, serial_number, date, ean_ucc_group, registration_group }
    }

    /// Hyphenate an ISBN into its parts:
    ///
    /// * GS1 Prefix (ISBN-13 only)
    /// * Registration group
    /// * Registrant
    /// * Publication
    /// * Check digit
    ///
    /// # Errors
    /// If the ISBN is not valid, as determined by `self`, an error will be
    /// returned.
    pub fn hyphenate<'a, I: Into<IsbnRef<'a>>>(&self, isbn: I) -> (result: Result<
        ArrayString<17>,
        IsbnError,
    >)
        ensures
            self@.well_formed(),
            I::obeys_into_spec() ==> match result {
                Ok(text) => self@.hyphenate(isbn.into_spec()@) == Ok::<Seq<char>, IsbnError>(
                    written(text),
                ),
                Err(e) => self@.hyphenate(isbn.into_spec()@) == Err::<Seq<char>, IsbnError>(e),
            },
    {
        self.hyphenate_isbn(isbn.into())
    }

    /// Hyphenates a borrowed numeral of either form.
    pub(crate) fn hyphenate_isbn(&self, isbn: IsbnRef<'_>) -> (result: Result<
        ArrayString<17>,
        IsbnError,
    >)
        ensures
            self@.well_formed(),
            match result {
                Ok(text) => self@.hyphenate(isbn@) == Ok::<Seq<char>, IsbnError>(written(text)),
                Err(e) => self@.hyphenate(isbn@) == Err::<Seq<char>, IsbnError>(e),
            },
    {
        proof {
            use_type_invariant(self);
        }
        match isbn {
            IsbnRef::_10(isbn) => {
                let digits = isbn.digits();
                match self.resolve(isbn.prefix_element(), digits.as_slice(), 0) {
                    Ok((group_length, group)) => {
                        let hyphen_at = [group_length, group_length + group.segment_length];
                        Ok(isbn.hyphenate_with(hyphen_at))
                    },
                    Err(e) => Err(e),
                }
            },
            IsbnRef::_13(isbn) => {
                let digits = isbn.digits();
                match self.resolve(isbn.prefix_element(), digits.as_slice(), 3) {
                    Ok((group_length, group)) => {
                        let hyphen_at = [group_length, group_length + group.segment_length];
                        Ok(isbn.hyphenate_with(hyphen_at))
                    },
                    Err(e) => Err(e),
                }
            },
        }
    }

    /// Retrieve the name of the registration group.
    ///
    /// # Errors
    /// If the ISBN is not valid, as determined by `self`, an error will be
    /// returned.
    pub fn get_registration_group<'a, 'b, I: Into<IsbnRef<'a>>>(&'b self, isbn: I) -> (result:
        Result<&'b str, IsbnError>)
        ensures
            self@.well_formed(),
            I::obeys_into_spec() ==> match result {
                Ok(name) => self@.registration_group_name(isbn.into_spec()@) == Ok::<
                    Seq<char>,
                    IsbnError,
                >(name@),
                Err(e) => self@.registration_group_name(isbn.into_spec()@) == Err::<
                    Seq<char>,
                    IsbnError,
                >(e),
            },
    {
        self.get_registration_group_isbn(isbn.into())
    }

    /// The name of the registration group of a borrowed numeral of either
    /// form.
    pub(crate) fn get_registration_group_isbn<'b>(&'b self, isbn: IsbnRef<'_>) -> (result: Result<
        &'b str,
        IsbnError,
    >)
        ensures
            self@.well_formed(),
            match result {
                Ok(name) => self@.registration_group_name(isbn@) == Ok::<Seq<char>, IsbnError>(
                    name@,
                ),
                Err(e) => self@.registration_group_name(isbn@) == Err::<Seq<char>, IsbnError>(e),
            },
    {
        proof {
            use_type_invariant(self);
        }
        let found = match isbn {
            IsbnRef::_10(isbn) => self.resolve(isbn.prefix_element(), isbn.digits().as_slice(), 0),
            IsbnRef::_13(isbn) => self.resolve(isbn.prefix_element(), isbn.digits().as_slice(), 3),
        };
        match found {
            Ok((_, group)) => Ok(group.name),
            Err(e) => Err(e),
        }
    }

    /// The date of the range message that the table was read from.
    pub fn date(&self) -> (date: &str)
        ensures
            date@ == self@.date,
    {
        self.date.as_str()
    }

    /// The serial number of the range message, where it had one.
    pub fn serial_number(&self) -> (serial_number: Option<&str>)
        ensures
            match serial_number {
                Some(s) => self@.serial_number == Some(s@),
                None => self@.serial_number is None,
            },
    {
        match &self.serial_number {
            Some(s) => Some(s.as_str()),
            None => None,
        }
    }

    /// The source of the range message, where it named one.
    pub fn source(&self) -> (source: Option<&str>)
        ensures
            match source {
                Some(s) => self@.source == Some(s@),
                None => self@.source is None,
            },
    {
        match &self.source {
            Some(s) => Some(s.as_str()),
            None => None,
        }
    }

    /// Looks the digits from place `offset` on up under `prefix`: the length
    /// of the registration group, and the name of the group with the length
    /// of the registrant.
    fn resolve<'a>(&'a self, prefix: u16, digits: &[u8], offset: usize) -> (result: Result<
        (usize, Group<'a>),
        IsbnError,
    >)
        requires
            offset <= 3,
            offset + 9 <= digits@.len(),
            forall|j: int| offset <= j < offset + 9 ==> digits@[j] <= 9,
        ensures
            match result {
                Ok((group_length, group)) => {
                    &&& self@.resolve(prefix, digits@, offset as int) == Ok::<Resolved, IsbnError>(
                        Resolved {
                            group_length,
                            registrant_length: group.segment_length,
                            name: group.name@,
                        },
                    )
                    &&& 1 <= group_length <= 7
                    &&& 1 <= group.segment_length <= 7
                },
                Err(e) => self@.resolve(prefix, digits@, offset as int) == Err::<
                    Resolved,
                    IsbnError,
                >(e),
            },
    {
        let segment = match agency_get(&self.ean_ucc_group, prefix) {
            Some(segment) => segment,
            None => {
                return Err(IsbnError::InvalidGroup);
            },
        };
        let group_length = match segment.group(crate::digits::segment(digits, offset)) {
            Ok(group) => group.segment_length,
            Err(e) => {
                return Err(e);
            },
        };
        let element = crate::digits::group_prefix(digits, offset, group_length);
        let segment = match group_get(&self.registration_group, (prefix, element)) {
            Some(segment) => segment,
            None => {
                return Err(IsbnError::InvalidGroup);
            },
        };
        match segment.group(crate::digits::segment(digits, offset + group_length)) {
            Ok(group) => Ok((group_length, group)),
            Err(e) => Err(e),
        }
    }
}

} // verus!
