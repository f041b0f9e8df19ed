//! The events of an XML document, as the `quick_xml` crate reads them.
//!
//! A range message is read as a run of events: start tags, end tags and the
//! text between them. The reader of `quick_xml` yields them one at a time;
//! `read_events` collects them. What stands in a text is unescaped only where
//! the message is taken apart, by `unescape`.
//!
//! The reader, the three functions that call it and the three functions
//! without a body are not proved: their contracts restate what `quick_xml`
//! does. The loop that collects the events is.

use quick_xml::events::{BytesText, Event};
use quick_xml::Reader;
use vstd::prelude::*;

verus! {

#[verifier::external_type_specification]
#[verifier::external_body]
pub struct ExXmlError(quick_xml::Error);

/// One event of a document, as far as a range message is read by it.
#[derive(Debug)]
pub enum XmlEvent {
    /// A start tag, with its name.
    Start(Vec<u8>),
    /// An end tag, with its name.
    End(Vec<u8>),
    /// Character data, as it stands in the document: still escaped.
    Text(Vec<u8>),
    /// An empty element, a comment, a declaration or the like.
    Other,
    /// The end of the document.
    Eof,
    /// A piece of the document that the reader could not read.
    Failure(quick_xml::Error),
}

/// What an event holds, without what the reader said of a failure.
pub enum XmlToken {
    Start(Seq<u8>),
    End(Seq<u8>),
    Text(Seq<u8>),
    Other,
    Eof,
    Failure,
}

impl View for XmlEvent {
    type V = XmlToken;

    open spec fn view(&self) -> XmlToken {
        match self {
            XmlEvent::Start(name) => XmlToken::Start(name@),
            XmlEvent::End(name) => XmlToken::End(name@),
            XmlEvent::Text(text) => XmlToken::Text(text@),
            XmlEvent::Other => XmlToken::Other,
            XmlEvent::Eof => XmlToken::Eof,
            XmlEvent::Failure(_) => XmlToken::Failure,
        }
    }
}

/// The tokens of a run of events.
pub open spec fn tokens_of(events: Seq<XmlEvent>) -> Seq<XmlToken> {
    Seq::new(events.len(), |i: int| events[i]@)
}

/// A reader of `quick_xml` over a document in memory, set to trim the space
/// around texts.
#[verifier::external_body]
pub struct EventReader<'a> {
    inner: Reader<&'a [u8]>,
}

/// The events of a document, from its start to its end or to the first piece
/// that cannot be read, which then comes last as `Failure`. Texts are trimmed
/// and a text of nothing but space is no event. The end is no event here.
pub uninterp spec fn xml_events(document: Seq<u8>) -> Seq<XmlToken>;

/// The events that a reader has yet to yield before the end of its document.
pub uninterp spec fn pending(reader: EventReader<'_>) -> Seq<XmlToken>;

/// The text that escaped character data stands for, where it is valid UTF-8
/// and every `&` in it starts a known entity or character reference.
pub uninterp spec fn unescaped(text: Seq<u8>) -> Option<Seq<char>>;

/// `Reader::from_reader` on the bytes of the document, then
/// `Reader::trim_text(true)`: a reader that has all events of the document
/// yet to yield.
#[verifier::external_body]
pub(crate) fn open_reader<'a>(document: &'a [u8]) -> (reader: EventReader<'a>)
    ensures
        pending(reader) == xml_events(document@),
{
    let mut inner = Reader::from_reader(document);
    inner.trim_text(true);
    EventReader { inner }
}

/// What one reading does to the tokens that a reader has yet to yield: the
/// first of them is yielded and the others stay. After a failure none stay.
/// With none to yield, the reading yields the end of the document.
pub open spec fn yields(before: Seq<XmlToken>, token: XmlToken, after: Seq<XmlToken>) -> bool {
    if before.len() == 0 {
        token is Eof && after.len() == 0
    } else {
        &&& token !is Eof
        &&& token == before[0]
        &&& after == before.skip(1)
        &&& token is Failure ==> after.len() == 0
    }
}

/// The token that a reading of the reader stands for: that of the event, or
/// `Failure` for an error.
pub open spec fn token_read(result: Result<XmlEvent, quick_xml::Error>) -> XmlToken {
    match result {
        Ok(event) => event@,
        Err(_) => XmlToken::Failure,
    }
}

/// `Reader::read_event`: the next event, which the reader then no longer has
/// to yield. At the end of the document the call returns `Eof`, and does so
/// again however often it is made. The call fails where the reader cannot
/// read on, and after that has nothing left to yield. The names of tags and
/// the text are copied out of the buffer of the reader.
#[verifier::external_body]
pub(crate) fn next_event(reader: &mut EventReader<'_>) -> (result: Result<
    XmlEvent,
    quick_xml::Error,
>)
    ensures
        yields(pending(*old(reader)), token_read(result), pending(*final(reader))),
        result matches Ok(event) ==> event@ !is Failure,
{
    let mut buf = Vec::new();
    match reader.inner.read_event(&mut buf) {
        Ok(Event::Start(e)) => Ok(XmlEvent::Start(e.name().to_vec())),
        Ok(Event::End(e)) => Ok(XmlEvent::End(e.name().to_vec())),
        Ok(Event::Text(e)) => Ok(XmlEvent::Text(e.escaped().to_vec())),
        Ok(Event::Eof) => Ok(XmlEvent::Eof),
        Ok(
            Event::Empty(_) | Event::Comment(_) | Event::CData(_) | Event::Decl(_) | Event::PI(_)
            | Event::DocType(_),
        ) => Ok(XmlEvent::Other),
        Err(e) => Err(e),
    }
}

/// `BytesText::unescape_and_decode` on the character data: its text with
/// entities and character references replaced, or the error where it is not
/// UTF-8 or holds an `&` that starts neither. The reader that the call asks
/// for decides nothing; it is one over the same bytes.
#[verifier::external_body]
pub(crate) fn unescape(text: &[u8]) -> (result: Result<String, quick_xml::Error>)
    ensures
        match result {
            Ok(plain) => unescaped(text@) == Some(plain@),
            Err(_) => unescaped(text@) is None,
        },
{
    BytesText::from_escaped(text).unescape_and_decode(&Reader::from_reader(text))
}

/// The events of a document in order, up to its end. Where the reader
/// fails, the failure is the last event.
pub fn read_events(document: &[u8]) -> (events: Vec<XmlEvent>)
    ensures
        tokens_of(events@) == xml_events(document@),
{
    let mut reader = open_reader(document);
    let mut events: Vec<XmlEvent> = Vec::new();
    let ghost all = xml_events(document@);
    loop
        invariant
            all == xml_events(document@),
            events@.len() <= all.len(),
            pending(reader) == all.skip(events@.len() as int),
            tokens_of(events@) == all.take(events@.len() as int),
        ensures
            tokens_of(events@) == all,
        decreases pending(reader).len(),
    {
        let ghost before = events@;
        match next_event(&mut reader) {
            Ok(event) => {
                if let XmlEvent::Eof = event {
                    assert(all.take(events@.len() as int) =~= all);
                    break;
                }
                events.push(event);
                assert(pending(reader) =~= all.skip(events@.len() as int));
            },
            Err(e) => {
                events.push(XmlEvent::Failure(e));
                assert(tokens_of(events@) =~= all.take(before.len() as int + 1));
                assert(all.take(before.len() as int + 1) =~= all);
                break;
            },
        }
        assert(tokens_of(events@) =~= all.take(events@.len() as int)) by {
            assert(events@ =~= before.push(events@[before.len() as int]));
        }
    }
    events
}

/// The bytes of `name` spell `tag`, character by character.
pub open spec fn spells(name: Seq<u8>, tag: Seq<char>) -> bool {
    &&& name.len() == tag.len()
    &&& forall|i: int| 0 <= i < name.len() ==> name[i] as u32 == tag[i] as u32
}

/// Whether a tag name, as the document has it, is `tag`.
pub fn name_is(name: &Vec<u8>, tag: &str) -> (same: bool)
    ensures
        same == spells(name@, tag@),
{
    broadcast use vstd::string::axiom_spec_iter;

    let mut i: usize = 0;
    for c in it: tag.chars()
        invariant
            it.seq() == tag@,
            i == it.index(),
            i <= name@.len(),
            forall|j: int| 0 <= j < i ==> name@[j] as u32 == tag@[j] as u32,
    {
        if i >= name.len() {
            return false;
        }
        if name[i] as u32 != c as u32 {
            return false;
        }
        i = i + 1;
    }
    i == name.len()
}

} // verus!
