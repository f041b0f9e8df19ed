//! Building a range table from its entries, given as plain data.
//!
//! An entry is what a range message holds of one agency prefix or of one
//! registration group: the prefix as text, the name of the agency, and the
//! rules. A table that is kept as data within a program is built from such
//! entries; it answers as a table read from a message with the same entries
//! does.

use crate::fields::{agency_prefix, group_key, parse_agency_prefix, parse_group_key};
use crate::message::{IsbnRangeError, RangeFault};
use crate::range::{
    agency_view, group_view, optional_text, IsbnRange, RangeView, Rule, Segment, SegmentView,
};
use crate::table::{agency_insert, agency_map, group_insert, group_map};
use vstd::prelude::*;

verus! {

/// One agency prefix or one registration group of a range table.
#[derive(Debug, PartialEq, Eq)]
pub struct GroupEntry {
    /// The prefix as a range message writes it: up to three digits for an
    /// agency prefix, as in `978`; three digits, a hyphen and the digits of
    /// the group for a registration group, as in `978-89`.
    pub prefix: String,
    /// The name of the agency.
    pub agency: String,
    /// The rules, each with the first number it covers, the first number
    /// after those it covers, and the length it gives. A length of zero
    /// marks a range that is reserved.
    pub rules: Vec<(u32, u32, usize)>,
}

/// What an entry holds.
pub struct EntryView {
    pub prefix: Seq<char>,
    pub agency: Seq<char>,
    pub rules: Seq<(u32, u32, usize)>,
}

impl View for GroupEntry {
    type V = EntryView;

    open spec fn view(&self) -> EntryView {
        EntryView { prefix: self.prefix@, agency: self.agency@, rules: self.rules@ }
    }
}

/// What a run of entries holds.
pub open spec fn entries_of(entries: Seq<GroupEntry>) -> Seq<EntryView> {
    Seq::new(entries.len(), |i: int| entries[i]@)
}

/// The rule that three numbers stand for. A length above seven is no
/// length.
pub open spec fn rule_of(raw: (u32, u32, usize)) -> Result<Rule, RangeFault> {
    if raw.2 > 7 {
        Err(RangeFault::LengthTooLarge)
    } else {
        Ok(
            Rule {
                min: raw.0,
                max: raw.1,
                length: if raw.2 == 0 {
                    None
                } else {
                    Some(raw.2)
                },
            },
        )
    }
}

/// The rules from place `i` of `raw` on, after the `rules` before them.
pub open spec fn rules_of(raw: Seq<(u32, u32, usize)>, i: int, rules: Seq<Rule>) -> Result<
    Seq<Rule>,
    RangeFault,
>
    decreases raw.len() - i,
{
    if i < 0 || i >= raw.len() {
        Ok(rules)
    } else {
        match rule_of(raw[i]) {
            Err(e) => Err(e),
            Ok(rule) => rules_of(raw, i + 1, rules.push(rule)),
        }
    }
}

/// The segment of an entry.
pub open spec fn segment_of(entry: EntryView) -> Result<SegmentView, RangeFault> {
    match rules_of(entry.rules, 0, Seq::<Rule>::empty()) {
        Err(e) => Err(e),
        Ok(rules) => Ok(SegmentView { name: entry.agency, rules }),
    }
}

/// The agency prefixes of the entries from place `i` on, after those
/// `found` before. A prefix that comes again replaces the earlier one.
pub open spec fn agencies_of(entries: Seq<EntryView>, i: int, found: Map<u16, SegmentView>) -> Result<
    Map<u16, SegmentView>,
    RangeFault,
>
    decreases entries.len() - i,
{
    if i < 0 || i >= entries.len() {
        Ok(found)
    } else {
        match agency_prefix(entries[i].prefix) {
            Err(e) => Err(e),
            Ok(prefix) => match segment_of(entries[i]) {
                Err(e) => Err(e),
                Ok(segment) => agencies_of(entries, i + 1, found.insert(prefix, segment)),
            },
        }
    }
}

/// The registration groups of the entries from place `i` on, after those
/// `found` before. A key that comes again replaces the earlier one.
pub open spec fn groups_of(
    entries: Seq<EntryView>,
    i: int,
    found: Map<(u16, u32), SegmentView>,
) -> Result<Map<(u16, u32), SegmentView>, RangeFault>
    decreases entries.len() - i,
{
    if i < 0 || i >= entries.len() {
        Ok(found)
    } else {
        match group_key(entries[i].prefix) {
            Err(e) => Err(e),
            Ok(key) => match segment_of(entries[i]) {
                Err(e) => Err(e),
                Ok(segment) => groups_of(entries, i + 1, found.insert(key, segment)),
            },
        }
    }
}

/// The table with the given source, serial number and date, the given
/// agency prefixes and the given registration groups. The prefixes are
/// looked at before the groups.
pub open spec fn table_of(
    source: Option<Seq<char>>,
    serial_number: Option<Seq<char>>,
    date: Seq<char>,
    prefixes: Seq<EntryView>,
    groups: Seq<EntryView>,
) -> Result<RangeView, RangeFault> {
    match agencies_of(prefixes, 0, Map::<u16, SegmentView>::empty()) {
        Err(e) => Err(e),
        Ok(ean_ucc_group) => match groups_of(groups, 0, Map::<(u16, u32), SegmentView>::empty()) {
            Err(e) => Err(e),
            Ok(registration_group) => Ok(
                RangeView { source, serial_number, date, ean_ucc_group, registration_group },
            ),
        },
    }
}

impl GroupEntry {
    /// The segment of the entry: its agency with its rules.
    ///
    /// # Errors
    /// `LengthTooLarge` where a rule gives a length above seven.
    pub fn segment(&self) -> (result: Result<Segment, IsbnRangeError>)
        ensures
            match result {
                Ok(segment) => segment_of(self@) == Ok::<SegmentView, RangeFault>(segment@)
                    && segment@.well_formed(),
                Err(e) => segment_of(self@) == Err::<SegmentView, RangeFault>(e@),
            },
    {
        let mut ranges: Vec<Rule> = Vec::new();
        let mut i: usize = 0;
        while i < self.rules.len()
            invariant
                i <= self.rules@.len(),
                rules_of(self.rules@, 0, Seq::<Rule>::empty()) == rules_of(
                    self.rules@,
                    i as int,
                    ranges@,
                ),
                forall|j: int| 0 <= j < ranges@.len() ==> (#[trigger] ranges@[j]).well_formed(),
            decreases self.rules@.len() - i,
        {
            let (min, max, length) = self.rules[i];
            if length > 7 {
                return Err(IsbnRangeError::LengthTooLarge);
            }
            let length = if length == 0 {
                None
            } else {
                Some(length)
            };
            ranges.push(Rule { min, max, length });
            i = i + 1;
        }
        Ok(Segment::new(self.agency.clone(), ranges))
    }
}

impl IsbnRange {
    /// Builds a range table from its entries.
    ///
    /// # Errors
    /// `PrefixTooLong` or `InvalidPrefixChar` where the prefix of an entry is
    /// not of its form, `LengthTooLarge` where a rule gives a length above
    /// seven; of several faults the first, with the prefixes before the
    /// groups, and within an entry the prefix before the rules.
    #[verifier::loop_isolation(false)]
    pub fn from_groups(
        source: Option<String>,
        serial_number: Option<String>,
        date: String,
        prefixes: &Vec<GroupEntry>,
        groups: &Vec<GroupEntry>,
    ) -> (result: Result<IsbnRange, IsbnRangeError>)
        ensures
            match result {
                Ok(table) => table_of(
                    optional_text(source),
                    optional_text(serial_number),
                    date@,
                    entries_of(prefixes@),
                    entries_of(groups@),
                ) == Ok::<RangeView, RangeFault>(table@) && table@.well_formed(),
                Err(e) => table_of(
                    optional_text(source),
                    optional_text(serial_number),
                    date@,
                    entries_of(prefixes@),
                    entries_of(groups@),
                ) == Err::<RangeView, RangeFault>(e@),
            },
    {
        let mut ean_ucc_group = agency_map();
        assert(agency_view(ean_ucc_group) =~= Map::<u16, SegmentView>::empty());
        let mut i: usize = 0;
        while i < prefixes.len()
            invariant
                i <= prefixes@.len(),
                agencies_of(entries_of(prefixes@), 0, Map::<u16, SegmentView>::empty())
                    == agencies_of(entries_of(prefixes@), i as int, agency_view(ean_ucc_group)),
                forall|prefix: u16| #[trigger]
                    agency_view(ean_ucc_group).contains_key(prefix) ==> agency_view(
                        ean_ucc_group,
                    )[prefix].well_formed(),
            decreases prefixes@.len() - i,
        {
            let ghost before = agency_view(ean_ucc_group);
            let entry = &prefixes[i];
            let prefix = parse_agency_prefix(entry.prefix.as_str())?;
            let segment = entry.segment()?;
            let ghost added = segment@;
            agency_insert(&mut ean_ucc_group, prefix, segment);
            assert(agency_view(ean_ucc_group) =~= before.insert(prefix, added));
            i = i + 1;
        }
        let mut registration_group = group_map();
        assert(group_view(registration_group) =~= Map::<(u16, u32), SegmentView>::empty());
        let mut i: usize = 0;
        while i < groups.len()
            invariant
                i <= groups@.len(),
                groups_of(entries_of(groups@), 0, Map::<(u16, u32), SegmentView>::empty())
                    == groups_of(entries_of(groups@), i as int, group_view(registration_group)),
                forall|key: (u16, u32)| #[trigger]
                    group_view(registration_group).contains_key(key) ==> group_view(
                        registration_group,
                    )[key].well_formed(),
            decreases groups@.len() - i,
        {
            let ghost before = group_view(registration_group);
            let entry = &groups[i];
            let key = parse_group_key(entry.prefix.as_str())?;
            let segment = entry.segment()?;
            let ghost added = segment@;
            group_insert(&mut registration_group, key, segment);
            assert(group_view(registration_group) =~= before.insert(key, added));
            i = i + 1;
        }
        Ok(IsbnRange::new(source, serial_number, date, ean_ucc_group, registration_group))
    }
}

} // verus!
