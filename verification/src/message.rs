//! Reading a range table from the range message of the numbering agency.
//!
//! The message is an XML document. After the opening tag `ISBNRangeMessage`
//! come up to three fields (source, serial number, date), then the agency
//! prefixes under `EAN.UCCPrefixes` and the registration groups under
//! `RegistrationGroups`. Each prefix and each group has a `Prefix`, an
//! `Agency` and, under `Rules`, any number of `Rule`s with a `Range` and a
//! `Length`.
//!
//! The grammar is written down twice: as functions on a sequence of tokens,
//! which say what a message means, and as the code that reads the events.
//! The contracts tie the two together.

use crate::fields::{
    agency_prefix, group_key, length_of, parse_agency_prefix, parse_group_key, parse_length,
    parse_range, range_of,
};
use crate::range::{
    agency_view, group_view, optional_text, IsbnRange, RangeView, Rule, Segment, SegmentView,
};
use crate::table::{agency_insert, agency_map, group_insert, group_map};
use crate::xml::{
    name_is, read_events, spells, tokens_of, unescape, unescaped, xml_events, XmlEvent, XmlToken,
};
use indexmap::IndexMap;
use vstd::prelude::*;

verus! {

#[verifier::external_type_specification]
#[verifier::external_body]
pub struct ExIoError(std::io::Error);

/// The ways in which reading a range message can fail.
#[derive(Debug)]
pub enum IsbnRangeError {
    NoIsbnRangeMessageTag,
    NoEanUccPrefixes,
    NoEanUccPrefix,
    NoRegistrationGroups,
    NoGroup,
    NoMessageDate,
    PrefixTooLong,
    InvalidPrefixChar,
    BadLengthString,
    LengthTooLarge,
    BadRange,
    NoDashInRange,
    Xml(quick_xml::Error),
    WrongXmlStart,
    MissingXmlStart,
    WrongXmlBody,
    WrongXmlEnd,
    MissingXmlEnd,
    FileError(std::io::Error),
}

/// What went wrong in reading a range message, without what the XML reader
/// or the file system said of it.
pub enum RangeFault {
    NoIsbnRangeMessageTag,
    NoEanUccPrefixes,
    NoEanUccPrefix,
    NoRegistrationGroups,
    NoGroup,
    NoMessageDate,
    PrefixTooLong,
    InvalidPrefixChar,
    BadLengthString,
    LengthTooLarge,
    BadRange,
    NoDashInRange,
    Xml,
    WrongXmlStart,
    MissingXmlStart,
    WrongXmlBody,
    WrongXmlEnd,
    MissingXmlEnd,
    FileError,
}

impl View for IsbnRangeError {
    type V = RangeFault;

    open spec fn view(&self) -> RangeFault {
        match self {
            IsbnRangeError::NoIsbnRangeMessageTag => RangeFault::NoIsbnRangeMessageTag,
            IsbnRangeError::NoEanUccPrefixes => RangeFault::NoEanUccPrefixes,
            IsbnRangeError::NoEanUccPrefix => RangeFault::NoEanUccPrefix,
            IsbnRangeError::NoRegistrationGroups => RangeFault::NoRegistrationGroups,
            IsbnRangeError::NoGroup => RangeFault::NoGroup,
            IsbnRangeError::NoMessageDate => RangeFault::NoMessageDate,
            IsbnRangeError::PrefixTooLong => RangeFault::PrefixTooLong,
            IsbnRangeError::InvalidPrefixChar => RangeFault::InvalidPrefixChar,
            IsbnRangeError::BadLengthString => RangeFault::BadLengthString,
            IsbnRangeError::LengthTooLarge => RangeFault::LengthTooLarge,
            IsbnRangeError::BadRange => RangeFault::BadRange,
            IsbnRangeError::NoDashInRange => RangeFault::NoDashInRange,
            IsbnRangeError::Xml(_) => RangeFault::Xml,
            IsbnRangeError::WrongXmlStart => RangeFault::WrongXmlStart,
            IsbnRangeError::MissingXmlStart => RangeFault::MissingXmlStart,
            IsbnRangeError::WrongXmlBody => RangeFault::WrongXmlBody,
            IsbnRangeError::WrongXmlEnd => RangeFault::WrongXmlEnd,
            IsbnRangeError::MissingXmlEnd => RangeFault::MissingXmlEnd,
            IsbnRangeError::FileError(_) => RangeFault::FileError,
        }
    }
}

impl From<quick_xml::Error> for IsbnRangeError {
    fn from(e: quick_xml::Error) -> (fault: IsbnRangeError) {
        IsbnRangeError::Xml(e)
    }
}

impl vstd::std_specs::convert::FromSpecImpl<quick_xml::Error> for IsbnRangeError {
    open spec fn obeys_from_spec() -> bool {
        true
    }

    open spec fn from_spec(e: quick_xml::Error) -> IsbnRangeError {
        IsbnRangeError::Xml(e)
    }
}

impl From<std::io::Error> for IsbnRangeError {
    fn from(e: std::io::Error) -> (fault: IsbnRangeError) {
        IsbnRangeError::FileError(e)
    }
}

impl vstd::std_specs::convert::FromSpecImpl<std::io::Error> for IsbnRangeError {
    open spec fn obeys_from_spec() -> bool {
        true
    }

    open spec fn from_spec(e: std::io::Error) -> IsbnRangeError {
        IsbnRangeError::FileError(e)
    }
}

/// The token at place `p`; past the last token the document is at its end.
pub open spec fn token_at(tokens: Seq<XmlToken>, p: int) -> XmlToken {
    if 0 <= p < tokens.len() {
        tokens[p]
    } else {
        XmlToken::Eof
    }
}

/// The text of the element `tag` whose start tag stands at place `p`: start
/// tag, text and end tag are three tokens.
pub open spec fn tag_at(tokens: Seq<XmlToken>, p: int, tag: Seq<char>) -> Result<
    Seq<char>,
    RangeFault,
> {
    match token_at(tokens, p) {
        XmlToken::Failure => Err(RangeFault::Xml),
        XmlToken::Start(name) => if !spells(name, tag) {
            Err(RangeFault::WrongXmlStart)
        } else {
            match token_at(tokens, p + 1) {
                XmlToken::Failure => Err(RangeFault::Xml),
                XmlToken::Text(raw) => match unescaped(raw) {
                    None => Err(RangeFault::Xml),
                    Some(text) => match token_at(tokens, p + 2) {
                        XmlToken::Failure => Err(RangeFault::Xml),
                        XmlToken::End(name) => if !spells(name, tag) {
                            Err(RangeFault::WrongXmlEnd)
                        } else {
                            Ok(text)
                        },
                        _ => Err(RangeFault::MissingXmlEnd),
                    },
                },
                _ => Err(RangeFault::WrongXmlBody),
            }
        },
        _ => Err(RangeFault::MissingXmlStart),
    }
}

/// Whether the token at place `p` is the start tag `tag`.
pub open spec fn start_at(tokens: Seq<XmlToken>, p: int, tag: Seq<char>) -> Result<
    bool,
    RangeFault,
> {
    match token_at(tokens, p) {
        XmlToken::Failure => Err(RangeFault::Xml),
        XmlToken::Start(name) => Ok(spells(name, tag)),
        _ => Ok(false),
    }
}

/// Whether a rule stands at place `p` of the rules of a segment. The start
/// tag of a rule opens one; the end tag `Rules` ends the rules. An end tag
/// of another name is taken for the start of a rule.
pub open spec fn rule_opens(tokens: Seq<XmlToken>, p: int) -> Result<bool, RangeFault> {
    match token_at(tokens, p) {
        XmlToken::Failure => Err(RangeFault::Xml),
        XmlToken::Start(name) => if spells(name, "Rule"@) {
            Ok(true)
        } else {
            Err(RangeFault::WrongXmlStart)
        },
        XmlToken::End(name) => Ok(!spells(name, "Rules"@)),
        _ => Err(RangeFault::MissingXmlStart),
    }
}

/// The rule that opens at place `p`: after the opening token come the
/// range, the length and the end tag of the rule, eight tokens in all.
pub open spec fn rule_at(tokens: Seq<XmlToken>, p: int) -> Result<Rule, RangeFault> {
    match tag_at(tokens, p + 1, "Range"@) {
        Err(e) => Err(e),
        Ok(range) => match tag_at(tokens, p + 4, "Length"@) {
            Err(e) => Err(e),
            Ok(length) => match range_of(range) {
                Err(e) => Err(e),
                Ok((min, max)) => match length_of(length) {
                    Err(e) => Err(e),
                    Ok(length) => match token_at(tokens, p + 7) {
                        XmlToken::Failure => Err(RangeFault::Xml),
                        XmlToken::End(name) => if spells(name, "Rule"@) {
                            Ok(Rule { min, max, length })
                        } else {
                            Err(RangeFault::WrongXmlEnd)
                        },
                        _ => Err(RangeFault::MissingXmlEnd),
                    },
                },
            },
        },
    }
}

/// The rules from place `p` on, after the `rules` read before, and the
/// place after the end tag that ends them.
pub open spec fn rules_from(tokens: Seq<XmlToken>, p: int, rules: Seq<Rule>) -> Result<
    (Seq<Rule>, int),
    RangeFault,
>
    decreases tokens.len() - p,
{
    match rule_opens(tokens, p) {
        Err(e) => Err(e),
        Ok(false) => Ok((rules, p + 1)),
        Ok(true) => match rule_at(tokens, p) {
            Err(e) => Err(e),
            Ok(rule) => rules_from(tokens, p + 8, rules.push(rule)),
        },
    }
}

/// The segment that stands at place `p`, and the place after it: the name
/// of the agency, the rules under `Rules`, and the end tag of the prefix or
/// group that the segment belongs to.
pub open spec fn segment_at(tokens: Seq<XmlToken>, p: int) -> Result<
    (SegmentView, int),
    RangeFault,
> {
    match tag_at(tokens, p, "Agency"@) {
        Err(e) => Err(e),
        Ok(name) => match token_at(tokens, p + 3) {
            XmlToken::Failure => Err(RangeFault::Xml),
            XmlToken::Start(tag) => if !spells(tag, "Rules"@) {
                Err(RangeFault::WrongXmlStart)
            } else {
                match rules_from(tokens, p + 4, Seq::<Rule>::empty()) {
                    Err(e) => Err(e),
                    Ok((rules, next)) => match token_at(tokens, next) {
                        XmlToken::Failure => Err(RangeFault::Xml),
                        XmlToken::End(tag) => if spells(tag, "EAN.UCC"@) || spells(
                            tag,
                            "Group"@,
                        ) {
                            Ok((SegmentView { name, rules }, next + 1))
                        } else {
                            Err(RangeFault::WrongXmlEnd)
                        },
                        _ => Err(RangeFault::MissingXmlEnd),
                    },
                }
            },
            _ => Err(RangeFault::MissingXmlStart),
        },
    }
}

/// Rules that are read end after the place they start at, within the
/// tokens, and they are well formed where those read before are.
pub proof fn lemma_rules_from(tokens: Seq<XmlToken>, p: int, rules: Seq<Rule>)
    requires
        forall|i: int| 0 <= i < rules.len() ==> (#[trigger] rules[i]).well_formed(),
    ensures
        rules_from(tokens, p, rules) matches Ok((all, next)) ==> {
            &&& p < next <= tokens.len()
            &&& forall|i: int| 0 <= i < all.len() ==> (#[trigger] all[i]).well_formed()
        },
    decreases tokens.len() - p,
{
    if let Ok(true) = rule_opens(tokens, p) {
        if let Ok(rule) = rule_at(tokens, p) {
            lemma_rules_from(tokens, p + 8, rules.push(rule));
        }
    }
}

/// A segment that is read ends after the place it starts at, within the
/// tokens, and is well formed.
pub proof fn lemma_segment_at(tokens: Seq<XmlToken>, p: int)
    ensures
        segment_at(tokens, p) matches Ok((segment, next)) ==> p < next <= tokens.len()
            && segment.well_formed(),
{
    lemma_rules_from(tokens, p + 4, Seq::<Rule>::empty());
}

/// The agency prefixes from place `p` on, after those `found` before, and
/// the place after the end tag `EAN.UCCPrefixes`. Each entry is the start
/// tag `EAN.UCC`, the prefix and the segment. A prefix that comes again
/// replaces the earlier one.
pub open spec fn agencies_from(
    tokens: Seq<XmlToken>,
    p: int,
    found: Map<u16, SegmentView>,
) -> Result<(Map<u16, SegmentView>, int), RangeFault>
    decreases tokens.len() - p,
    via agencies_from_ends
{
    match token_at(tokens, p) {
        XmlToken::Failure => Err(RangeFault::Xml),
        XmlToken::Start(name) => if !spells(name, "EAN.UCC"@) {
            Err(RangeFault::NoEanUccPrefix)
        } else {
            match tag_at(tokens, p + 1, "Prefix"@) {
                Err(e) => Err(e),
                Ok(text) => match agency_prefix(text) {
                    Err(e) => Err(e),
                    Ok(prefix) => match segment_at(tokens, p + 4) {
                        Err(e) => Err(e),
                        Ok((segment, next)) => agencies_from(
                            tokens,
                            next,
                            found.insert(prefix, segment),
                        ),
                    },
                },
            }
        },
        XmlToken::End(name) => if spells(name, "EAN.UCCPrefixes"@) {
            Ok((found, p + 1))
        } else {
            Err(RangeFault::WrongXmlEnd)
        },
        _ => Err(RangeFault::WrongXmlEnd),
    }
}

#[via_fn]
proof fn agencies_from_ends(tokens: Seq<XmlToken>, p: int, found: Map<u16, SegmentView>) {
    lemma_segment_at(tokens, p + 4);
}

/// The registration groups from place `p` on, after those `found` before,
/// and the place after the end tag `RegistrationGroups`. Each entry is the
/// start tag `Group`, the prefix with the group element, and the segment. A
/// key that comes again replaces the earlier one.
pub open spec fn groups_from(
    tokens: Seq<XmlToken>,
    p: int,
    found: Map<(u16, u32), SegmentView>,
) -> Result<(Map<(u16, u32), SegmentView>, int), RangeFault>
    decreases tokens.len() - p,
    via groups_from_ends
{
    match token_at(tokens, p) {
        XmlToken::Failure => Err(RangeFault::Xml),
        XmlToken::Start(name) => if !spells(name, "Group"@) {
            Err(RangeFault::NoGroup)
        } else {
            match tag_at(tokens, p + 1, "Prefix"@) {
                Err(e) => Err(e),
                Ok(text) => match group_key(text) {
                    Err(e) => Err(e),
                    Ok(key) => match segment_at(tokens, p + 4) {
                        Err(e) => Err(e),
                        Ok((segment, next)) => groups_from(tokens, next, found.insert(key, segment)),
                    },
                },
            }
        },
        XmlToken::End(name) => if spells(name, "RegistrationGroups"@) {
            Ok((found, p + 1))
        } else {
            Err(RangeFault::WrongXmlEnd)
        },
        _ => Err(RangeFault::WrongXmlEnd),
    }
}

#[via_fn]
proof fn groups_from_ends(tokens: Seq<XmlToken>, p: int, found: Map<(u16, u32), SegmentView>) {
    lemma_segment_at(tokens, p + 4);
}

/// The place after the start tag `ISBNRangeMessage`, looked for from place
/// `p` on. What stands before it is passed over.
pub open spec fn message_start(tokens: Seq<XmlToken>, p: int) -> Result<int, RangeFault>
    decreases tokens.len() - p,
{
    if p < 0 || p >= tokens.len() {
        Err(RangeFault::NoIsbnRangeMessageTag)
    } else {
        match start_at(tokens, p, "ISBNRangeMessage"@) {
            Err(e) => Err(e),
            Ok(true) => Ok(p + 1),
            Ok(false) => message_start(tokens, p + 1),
        }
    }
}

/// The names of the three fields of a message, counted down from three in
/// the order in which a message holds them.
pub open spec fn field_name(left: int) -> Seq<char> {
    if left == 3 {
        "MessageSource"@
    } else if left == 2 {
        "MessageSerialNumber"@
    } else {
        "MessageDate"@
    }
}

/// What the element with start tag `start`, text `text` and end tag `end`
/// adds to the `values` of the fields, where `left` fields are still looked
/// for, and how many are looked for after it. The field that the element
/// names gets its text; the fields before it, and all of them where it names
/// none, get nothing.
pub open spec fn take_field(
    start: Seq<u8>,
    text: Seq<u8>,
    end: Seq<u8>,
    left: int,
    values: Seq<Option<Seq<char>>>,
) -> Result<(Seq<Option<Seq<char>>>, int), RangeFault>
    decreases left,
{
    if left <= 0 {
        Ok((values, 0))
    } else if spells(start, field_name(left)) {
        match unescaped(text) {
            None => Err(RangeFault::Xml),
            Some(plain) => if !spells(end, field_name(left)) {
                Err(RangeFault::WrongXmlEnd)
            } else {
                Ok((values.push(Some(plain)), left - 1))
            },
        }
    } else {
        take_field(start, text, end, left - 1, values.push(None))
    }
}

/// Taking a field leaves fewer to look for, and adds a value for each that
/// is no longer looked for.
pub proof fn lemma_take_field(
    start: Seq<u8>,
    text: Seq<u8>,
    end: Seq<u8>,
    left: int,
    values: Seq<Option<Seq<char>>>,
)
    requires
        0 < left,
    ensures
        take_field(start, text, end, left, values) matches Ok((more, rest)) ==> 0 <= rest < left
            && more.len() + rest == values.len() + left,
    decreases left,
{
    if !spells(start, field_name(left)) {
        if left > 1 {
            lemma_take_field(start, text, end, left - 1, values.push(None));
        } else {
            assert(take_field(start, text, end, 0, values.push(None)) == Ok::<
                (Seq<Option<Seq<char>>>, int),
                RangeFault,
            >((values.push(None), 0)));
        }
    }
}

/// The values of the fields from place `p` on, where `left` fields are still
/// looked for and `values` holds those of the others, and the place after
/// the fields. Each field is an element of three tokens.
pub open spec fn fields_from(
    tokens: Seq<XmlToken>,
    p: int,
    left: int,
    values: Seq<Option<Seq<char>>>,
) -> Result<(Seq<Option<Seq<char>>>, int), RangeFault>
    decreases left,
    via fields_from_ends
{
    if left <= 0 {
        Ok((values, p))
    } else if token_at(tokens, p) is Failure || token_at(tokens, p + 1) is Failure || token_at(
        tokens,
        p + 2,
    ) is Failure {
        Err(RangeFault::Xml)
    } else {
        match (token_at(tokens, p), token_at(tokens, p + 1), token_at(tokens, p + 2)) {
            (XmlToken::Start(start), XmlToken::Text(text), XmlToken::End(end)) => match take_field(
                start,
                text,
                end,
                left,
                values,
            ) {
                Err(e) => Err(e),
                Ok((more, rest)) => fields_from(tokens, p + 3, rest, more),
            },
            _ => Err(RangeFault::MissingXmlStart),
        }
    }
}

#[via_fn]
proof fn fields_from_ends(
    tokens: Seq<XmlToken>,
    p: int,
    left: int,
    values: Seq<Option<Seq<char>>>,
) {
    if left > 0 {
        if let (XmlToken::Start(start), XmlToken::Text(text), XmlToken::End(end)) = (
            token_at(tokens, p),
            token_at(tokens, p + 1),
            token_at(tokens, p + 2),
        ) {
            lemma_take_field(start, text, end, left, values);
        }
    }
}

/// The range table that a message holds.
pub open spec fn message_of(tokens: Seq<XmlToken>) -> Result<RangeView, RangeFault> {
    match message_start(tokens, 0) {
        Err(e) => Err(e),
        Ok(p) => match fields_from(tokens, p, 3, Seq::<Option<Seq<char>>>::empty()) {
            Err(e) => Err(e),
            Ok((values, p)) => match values[2] {
                None => Err(RangeFault::NoMessageDate),
                Some(date) => match start_at(tokens, p, "EAN.UCCPrefixes"@) {
                    Err(e) => Err(e),
                    Ok(false) => Err(RangeFault::NoEanUccPrefixes),
                    Ok(true) => match agencies_from(
                        tokens,
                        p + 1,
                        Map::<u16, SegmentView>::empty(),
                    ) {
                        Err(e) => Err(e),
                        Ok((ean_ucc_group, p)) => match start_at(
                            tokens,
                            p,
                            "RegistrationGroups"@,
                        ) {
                            Err(e) => Err(e),
                            Ok(false) => Err(RangeFault::NoRegistrationGroups),
                            Ok(true) => match groups_from(
                                tokens,
                                p + 1,
                                Map::<(u16, u32), SegmentView>::empty(),
                            ) {
                                Err(e) => Err(e),
                                Ok((registration_group, _)) => Ok(
                                    RangeView {
                                        source: values[0],
                                        serial_number: values[1],
                                        date,
                                        ean_ucc_group,
                                        registration_group,
                                    },
                                ),
                            },
                        },
                    },
                },
            },
        },
    }
}

/// The events of a message that are yet to be read, the next one last.
pub struct Cursor {
    pending: Vec<XmlEvent>,
    tokens: Ghost<Seq<XmlToken>>,
}

impl Cursor {
    /// All tokens of the message.
    pub closed spec fn tokens(self) -> Seq<XmlToken> {
        self.tokens@
    }

    /// The place of the next token.
    pub closed spec fn position(self) -> int {
        self.tokens@.len() - self.pending@.len()
    }

    /// The events yet to be read are the tokens from the position on.
    pub closed spec fn well_formed(self) -> bool {
        &&& self.pending@.len() <= self.tokens@.len()
        &&& forall|i: int|
            0 <= i < self.pending@.len() ==> (#[trigger] self.pending@[i])@
                == self.tokens@[self.tokens@.len() - 1 - i]
    }

    /// A cursor at the start of the given events.
    pub fn new(events: Vec<XmlEvent>) -> (cursor: Cursor)
        ensures
            cursor.well_formed(),
            cursor.position() == 0,
            cursor.tokens() == crate::xml::tokens_of(events@),
    {
        let ghost all = crate::xml::tokens_of(events@);
        let mut events = events;
        let mut pending: Vec<XmlEvent> = Vec::new();
        while events.len() > 0
            invariant
                events@.len() + pending@.len() == all.len(),
                forall|i: int| 0 <= i < events@.len() ==> (#[trigger] events@[i])@ == all[i],
                forall|i: int|
                    0 <= i < pending@.len() ==> (#[trigger] pending@[i])@ == all[all.len() - 1 - i],
            decreases events@.len(),
        {
            let event = events.pop().unwrap();
            pending.push(event);
        }
        Cursor { pending, tokens: Ghost(all) }
    }

    /// Whether every event has been read.
    pub fn at_end(&self) -> (done: bool)
        requires
            self.well_formed(),
        ensures
            done == (self.position() >= self.tokens().len()),
    {
        self.pending.len() == 0
    }

    /// The next event; at the end of the message, `Eof`.
    pub fn next(&mut self) -> (event: XmlEvent)
        requires
            old(self).well_formed(),
        ensures
            final(self).well_formed(),
            final(self).tokens() == old(self).tokens(),
            event@ == token_at(old(self).tokens(), old(self).position()),
            final(self).position() == if old(self).position() < old(self).tokens().len() {
                old(self).position() + 1
            } else {
                old(self).position()
            },
            0 <= old(self).position() <= old(self).tokens().len(),
    {
        match self.pending.pop() {
            Some(event) => event,
            None => XmlEvent::Eof,
        }
    }
}

/// Reads the element `name` with the text in it, and gives the text.
pub fn read_xml_tag(cursor: &mut Cursor, name: &str) -> (result: Result<String, IsbnRangeError>)
    requires
        old(cursor).well_formed(),
    ensures
        final(cursor).well_formed(),
        final(cursor).tokens() == old(cursor).tokens(),
        match result {
            Ok(text) => {
                &&& tag_at(old(cursor).tokens(), old(cursor).position(), name@) == Ok::<
                    Seq<char>,
                    RangeFault,
                >(text@)
                &&& final(cursor).position() == old(cursor).position() + 3
            },
            Err(e) => tag_at(old(cursor).tokens(), old(cursor).position(), name@) == Err::<
                Seq<char>,
                RangeFault,
            >(e@),
        },
{
    match cursor.next() {
        XmlEvent::Start(e) => {
            if !name_is(&e, name) {
                return Err(IsbnRangeError::WrongXmlStart);
            }
        },
        XmlEvent::Failure(e) => {
            return Err(IsbnRangeError::Xml(e));
        },
        _ => {
            return Err(IsbnRangeError::MissingXmlStart);
        },
    };
    let res = match cursor.next() {
        XmlEvent::Text(e) => match unescape(e.as_slice()) {
            Ok(text) => text,
            Err(e) => {
                return Err(IsbnRangeError::Xml(e));
            },
        },
        XmlEvent::Failure(e) => {
            return Err(IsbnRangeError::Xml(e));
        },
        _ => {
            return Err(IsbnRangeError::WrongXmlBody);
        },
    };
    match cursor.next() {
        XmlEvent::End(e) => {
            if !name_is(&e, name) {
                return Err(IsbnRangeError::WrongXmlEnd);
            }
        },
        XmlEvent::Failure(e) => {
            return Err(IsbnRangeError::Xml(e));
        },
        _ => {
            return Err(IsbnRangeError::MissingXmlEnd);
        },
    };
    Ok(res)
}

/// Reads one event and says whether it is the start tag `name`.
pub fn read_xml_start(cursor: &mut Cursor, name: &str) -> (result: Result<bool, IsbnRangeError>)
    requires
        old(cursor).well_formed(),
    ensures
        final(cursor).well_formed(),
        final(cursor).tokens() == old(cursor).tokens(),
        match result {
            Ok(found) => {
                &&& start_at(old(cursor).tokens(), old(cursor).position(), name@) == Ok::<
                    bool,
                    RangeFault,
                >(found)
                &&& final(cursor).position() == if old(cursor).position() < old(
                    cursor,
                ).tokens().len() {
                    old(cursor).position() + 1
                } else {
                    old(cursor).position()
                }
            },
            Err(e) => start_at(old(cursor).tokens(), old(cursor).position(), name@) == Err::<
                bool,
                RangeFault,
            >(e@),
        },
{
    match cursor.next() {
        XmlEvent::Start(e) => Ok(name_is(&e, name)),
        XmlEvent::Failure(e) => Err(IsbnRangeError::Xml(e)),
        _ => Ok(false),
    }
}

impl Segment {
    /// Reads a segment: the name of the agency and the rules.
    #[verifier::loop_isolation(false)]
    pub fn from_reader(cursor: &mut Cursor) -> (result: Result<Segment, IsbnRangeError>)
        requires
            old(cursor).well_formed(),
        ensures
            final(cursor).well_formed(),
            final(cursor).tokens() == old(cursor).tokens(),
            match result {
                Ok(segment) => {
                    &&& segment_at(old(cursor).tokens(), old(cursor).position()) == Ok::<
                        (SegmentView, int),
                        RangeFault,
                    >((segment@, final(cursor).position()))
                },
                Err(e) => segment_at(old(cursor).tokens(), old(cursor).position()) == Err::<
                    (SegmentView, int),
                    RangeFault,
                >(e@),
            },
    {
        let ghost tokens = cursor.tokens();
        let ghost start = cursor.position();
        let name = read_xml_tag(cursor, "Agency")?;
        let mut ranges: Vec<Rule> = Vec::new();

        match cursor.next() {
            XmlEvent::Start(e) => {
                if !name_is(&e, "Rules") {
                    return Err(IsbnRangeError::WrongXmlStart);
                }
            },
            XmlEvent::Failure(e) => {
                return Err(IsbnRangeError::Xml(e));
            },
            _ => {
                return Err(IsbnRangeError::MissingXmlStart);
            },
        };

        let mut more = true;
        while more
            invariant
                cursor.well_formed(),
                cursor.tokens() == tokens,
                rules_from(tokens, start + 4, Seq::<Rule>::empty()) == if more {
                    rules_from(tokens, cursor.position(), ranges@)
                } else {
                    Ok::<(Seq<Rule>, int), RangeFault>((ranges@, cursor.position()))
                },
                forall|i: int| 0 <= i < ranges@.len() ==> (#[trigger] ranges@[i]).well_formed(),
            decreases tokens.len() - cursor.position() + if more { 1int } else { 0int },
        {
            let opens = match cursor.next() {
                XmlEvent::Start(e) => {
                    if !name_is(&e, "Rule") {
                        return Err(IsbnRangeError::WrongXmlStart);
                    }
                    true
                },
                XmlEvent::End(e) => !name_is(&e, "Rules"),
                XmlEvent::Failure(e) => {
                    return Err(IsbnRangeError::Xml(e));
                },
                _ => {
                    return Err(IsbnRangeError::MissingXmlStart);
                },
            };
            if opens {
                let range = read_xml_tag(cursor, "Range")?;
                let length = read_xml_tag(cursor, "Length")?;

                let (min, max) = parse_range(range.as_str())?;
                let length = parse_length(length.as_str())?;
                ranges.push(Rule { min, max, length });

                match cursor.next() {
                    XmlEvent::End(e) => {
                        if !name_is(&e, "Rule") {
                            return Err(IsbnRangeError::WrongXmlEnd);
                        }
                    },
                    XmlEvent::Failure(e) => {
                        return Err(IsbnRangeError::Xml(e));
                    },
                    _ => {
                        return Err(IsbnRangeError::MissingXmlEnd);
                    },
                };
            } else {
                more = false;
            }
        }

        match cursor.next() {
            XmlEvent::End(e) => {
                if !(name_is(&e, "EAN.UCC") || name_is(&e, "Group")) {
                    return Err(IsbnRangeError::WrongXmlEnd);
                }
            },
            XmlEvent::Failure(e) => {
                return Err(IsbnRangeError::Xml(e));
            },
            _ => {
                return Err(IsbnRangeError::MissingXmlEnd);
            },
        };

        Ok(Segment::new(name, ranges))
    }
}

/// The name of the field that is looked for when `left` fields are.
fn field(left: usize) -> (name: &'static str)
    ensures
        name@ == field_name(left as int),
{
    if left == 3 {
        "MessageSource"
    } else if left == 2 {
        "MessageSerialNumber"
    } else {
        "MessageDate"
    }
}

impl IsbnRange {
    /// Reads the agency prefixes, up to the end tag `EAN.UCCPrefixes`.
    #[verifier::loop_isolation(false)]
    pub fn read_ean_ucc_group(cursor: &mut Cursor) -> (result: Result<
        IndexMap<u16, Segment>,
        IsbnRangeError,
    >)
        requires
            old(cursor).well_formed(),
        ensures
            final(cursor).well_formed(),
            final(cursor).tokens() == old(cursor).tokens(),
            match result {
                Ok(found) => {
                    &&& agencies_from(
                        old(cursor).tokens(),
                        old(cursor).position(),
                        Map::<u16, SegmentView>::empty(),
                    ) == Ok::<(Map<u16, SegmentView>, int), RangeFault>(
                        (agency_view(found), final(cursor).position()),
                    )
                    &&& forall|prefix: u16| #[trigger]
                        agency_view(found).contains_key(prefix) ==> agency_view(
                            found,
                        )[prefix].well_formed()
                },
                Err(e) => agencies_from(
                    old(cursor).tokens(),
                    old(cursor).position(),
                    Map::<u16, SegmentView>::empty(),
                ) == Err::<(Map<u16, SegmentView>, int), RangeFault>(e@),
            },
    {
        let ghost tokens = cursor.tokens();
        let ghost start = cursor.position();
        let mut res = agency_map();
        assert(agency_view(res) =~= Map::<u16, SegmentView>::empty());
        loop
            invariant
                cursor.well_formed(),
                cursor.tokens() == tokens,
                agencies_from(tokens, start, Map::<u16, SegmentView>::empty()) == agencies_from(
                    tokens,
                    cursor.position(),
                    agency_view(res),
                ),
                forall|prefix: u16| #[trigger]
                    agency_view(res).contains_key(prefix) ==> agency_view(res)[prefix].well_formed(),
            decreases tokens.len() - cursor.position(),
        {
            let ghost here = cursor.position();
            let ghost before = agency_view(res);
            match cursor.next() {
                XmlEvent::Start(e) => {
                    if !name_is(&e, "EAN.UCC") {
                        return Err(IsbnRangeError::NoEanUccPrefix);
                    }
                },
                XmlEvent::End(e) => {
                    if name_is(&e, "EAN.UCCPrefixes") {
                        return Ok(res);
                    }
                    return Err(IsbnRangeError::WrongXmlEnd);
                },
                XmlEvent::Failure(e) => {
                    return Err(IsbnRangeError::Xml(e));
                },
                _ => {
                    return Err(IsbnRangeError::WrongXmlEnd);
                },
            };

            let prefix = read_xml_tag(cursor, "Prefix")?;
            let prefix_val = parse_agency_prefix(prefix.as_str())?;
            let segment = Segment::from_reader(cursor)?;
            proof {
                lemma_segment_at(tokens, here + 4);
            }
            let ghost added = segment@;
            agency_insert(&mut res, prefix_val, segment);
            assert(agency_view(res) =~= before.insert(prefix_val, added));
        }
    }

    /// Reads the registration groups, up to the end tag
    /// `RegistrationGroups`.
    #[verifier::loop_isolation(false)]
    pub fn read_registration_group(cursor: &mut Cursor) -> (result: Result<
        IndexMap<(u16, u32), Segment>,
        IsbnRangeError,
    >)
        requires
            old(cursor).well_formed(),
        ensures
            final(cursor).well_formed(),
            final(cursor).tokens() == old(cursor).tokens(),
            match result {
                Ok(found) => {
                    &&& groups_from(
                        old(cursor).tokens(),
                        old(cursor).position(),
                        Map::<(u16, u32), SegmentView>::empty(),
                    ) == Ok::<(Map<(u16, u32), SegmentView>, int), RangeFault>(
                        (group_view(found), final(cursor).position()),
                    )
                    &&& forall|key: (u16, u32)| #[trigger]
                        group_view(found).contains_key(key) ==> group_view(
                            found,
                        )[key].well_formed()
                },
                Err(e) => groups_from(
                    old(cursor).tokens(),
                    old(cursor).position(),
                    Map::<(u16, u32), SegmentView>::empty(),
                ) == Err::<(Map<(u16, u32), SegmentView>, int), RangeFault>(e@),
            },
    {
        let ghost tokens = cursor.tokens();
        let ghost start = cursor.position();
        let mut res = group_map();
        assert(group_view(res) =~= Map::<(u16, u32), SegmentView>::empty());
        loop
            invariant
                cursor.well_formed(),
                cursor.tokens() == tokens,
                groups_from(tokens, start, Map::<(u16, u32), SegmentView>::empty()) == groups_from(
                    tokens,
                    cursor.position(),
                    group_view(res),
                ),
                forall|key: (u16, u32)| #[trigger]
                    group_view(res).contains_key(key) ==> group_view(res)[key].well_formed(),
            decreases tokens.len() - cursor.position(),
        {
            let ghost here = cursor.position();
            let ghost before = group_view(res);
            match cursor.next() {
                XmlEvent::Start(e) => {
                    if !name_is(&e, "Group") {
                        return Err(IsbnRangeError::NoGroup);
                    }
                },
                XmlEvent::End(e) => {
                    if name_is(&e, "RegistrationGroups") {
                        return Ok(res);
                    }
                    return Err(IsbnRangeError::WrongXmlEnd);
                },
                XmlEvent::Failure(e) => {
                    return Err(IsbnRangeError::Xml(e));
                },
                _ => {
                    return Err(IsbnRangeError::WrongXmlEnd);
                },
            };

            let prefix = read_xml_tag(cursor, "Prefix")?;
            let key = parse_group_key(prefix.as_str())?;
            let segment = Segment::from_reader(cursor)?;
            proof {
                lemma_segment_at(tokens, here + 4);
            }
            let ghost added = segment@;
            group_insert(&mut res, key, segment);
            assert(group_view(res) =~= before.insert(key, added));
        }
    }

    /// Builds the range table that the events of a range message hold.
    ///
    /// # Errors
    /// If the message is not of the expected form, the error says what was
    /// missing or wrong at the first place where it is not.
    #[verifier::loop_isolation(false)]
    pub fn from_events(events: Vec<XmlEvent>) -> (result: Result<IsbnRange, IsbnRangeError>)
        ensures
            match result {
                Ok(table) => message_of(tokens_of(events@)) == Ok::<RangeView, RangeFault>(table@)
                    && table@.well_formed(),
                Err(e) => message_of(tokens_of(events@)) == Err::<RangeView, RangeFault>(e@),
            },
    {
        let ghost tokens = tokens_of(events@);
        let mut cursor = Cursor::new(events);
        loop
            invariant
                cursor.well_formed(),
                cursor.tokens() == tokens,
                0 <= cursor.position(),
                message_start(tokens, 0) == message_start(tokens, cursor.position()),
            decreases tokens.len() - cursor.position(),
        {
            if cursor.at_end() {
                return Err(IsbnRangeError::NoIsbnRangeMessageTag);
            }
            if read_xml_start(&mut cursor, "ISBNRangeMessage")? {
                break;
            }
        }

        let ghost first = cursor.position();
        let mut left: usize = 3;
        let mut vals: Vec<Option<String>> = Vec::new();
        assert(texts(vals@) =~= Seq::<Option<Seq<char>>>::empty());
        while left > 0
            invariant
                cursor.well_formed(),
                cursor.tokens() == tokens,
                left <= 3,
                vals@.len() + left == 3,
                fields_from(tokens, first, 3, Seq::<Option<Seq<char>>>::empty()) == fields_from(
                    tokens,
                    cursor.position(),
                    left as int,
                    texts(vals@),
                ),
            decreases left,
        {
            let ghost here = cursor.position();
            let ghost values = texts(vals@);
            let e1 = cursor.next();
            if let XmlEvent::Failure(e) = e1 {
                return Err(IsbnRangeError::Xml(e));
            }
            let e2 = cursor.next();
            if let XmlEvent::Failure(e) = e2 {
                return Err(IsbnRangeError::Xml(e));
            }
            let e3 = cursor.next();
            if let XmlEvent::Failure(e) = e3 {
                return Err(IsbnRangeError::Xml(e));
            }
            match (e1, e2, e3) {
                (XmlEvent::Start(es), XmlEvent::Text(et), XmlEvent::End(ee)) => {
                    let ghost goal = take_field(es@, et@, ee@, left as int, values);
                    let ghost sought = left;
                    let mut found = false;
                    while left > 0 && !found
                        invariant
                            left <= 3,
                            left < sought || (!found && left == sought),
                            vals@.len() + left == 3,
                            goal == if found {
                                Ok::<(Seq<Option<Seq<char>>>, int), RangeFault>(
                                    (texts(vals@), left as int),
                                )
                            } else {
                                take_field(es@, et@, ee@, left as int, texts(vals@))
                            },
                        decreases left + if found { 0int } else { 1int },
                    {
                        let name = field(left);
                        let ghost so_far = texts(vals@);
                        if name_is(&es, name) {
                            let text = match unescape(et.as_slice()) {
                                Ok(text) => text,
                                Err(e) => {
                                    return Err(IsbnRangeError::Xml(e));
                                },
                            };
                            let ghost plain = text@;
                            vals.push(Some(text));
                            assert(texts(vals@) =~= so_far.push(Some(plain)));
                            if !name_is(&ee, name) {
                                return Err(IsbnRangeError::WrongXmlEnd);
                            }
                            found = true;
                        } else {
                            vals.push(None);
                            assert(texts(vals@) =~= so_far.push(None));
                        }
                        left = left - 1;
                    }
                },
                _ => {
                    return Err(IsbnRangeError::MissingXmlStart);
                },
            }
        }

        let date = match vals.pop() {
            Some(Some(date)) => date,
            _ => {
                return Err(IsbnRangeError::NoMessageDate);
            },
        };
        let serial_number = vals.pop().unwrap();
        let source = vals.pop().unwrap();

        if !read_xml_start(&mut cursor, "EAN.UCCPrefixes")? {
            return Err(IsbnRangeError::NoEanUccPrefixes);
        }
        let ean_ucc_group = IsbnRange::read_ean_ucc_group(&mut cursor)?;

        if !read_xml_start(&mut cursor, "RegistrationGroups")? {
            return Err(IsbnRangeError::NoRegistrationGroups);
        }
        let registration_group = IsbnRange::read_registration_group(&mut cursor)?;

        Ok(IsbnRange::new(source, serial_number, date, ean_ucc_group, registration_group))
    }

    /// Reads the ISBN ranges from a range message, given as the bytes of
    /// the document.
    ///
    /// # Errors
    /// If the message is in an unexpected format, an error will be
    /// returned.
    pub fn from_reader(reader: &[u8]) -> (result: Result<IsbnRange, IsbnRangeError>)
        ensures
            match result {
                Ok(table) => message_of(xml_events(reader@)) == Ok::<RangeView, RangeFault>(table@)
                    && table@.well_formed(),
                Err(e) => message_of(xml_events(reader@)) == Err::<RangeView, RangeFault>(e@),
            },
    {
        IsbnRange::from_events(read_events(reader))
    }
}

/// The texts of optional strings.
pub open spec fn texts(values: Seq<Option<String>>) -> Seq<Option<Seq<char>>> {
    Seq::new(values.len(), |i: int| optional_text(values[i]))
}

} // verus!
