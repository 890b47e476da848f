//! Parse events in plain form, and the reader that hands them out.
//!
//! Tokenising is done by `quick_xml`. Each event is turned into plain bytes
//! as soon as it is read, so that everything built on top works on values
//! the verifier can see.

use vstd::prelude::*;
use quick_xml::events::Event;
use quick_xml::reader::Reader;
use quick_xml::writer::Writer;

verus! {

/// One parse event, in plain form.
///
/// `markup` is the event as it stands in a document: the bytes to write in
/// order to write the event back unchanged.
#[derive(Debug)]
pub enum XmlEvent {
    /// An opening tag. `name` is the tag's name as it stands in the input,
    /// not yet checked to be UTF-8.
    Start { name: Vec<u8>, markup: Vec<u8> },
    /// A closing tag.
    End { markup: Vec<u8> },
    /// Character data between tags. `content` is the text in escaped form.
    Text { content: Vec<u8>, markup: Vec<u8> },
    /// An empty-element tag.
    Empty { markup: Vec<u8> },
    /// A CDATA section.
    CData { markup: Vec<u8> },
    /// A comment.
    Comment { markup: Vec<u8> },
    /// An XML declaration.
    Decl { markup: Vec<u8> },
    /// A processing instruction.
    PI { markup: Vec<u8> },
    /// A document type definition.
    DocType { markup: Vec<u8> },
    /// The end of the input.
    Eof,
}

/// What an event is, as a mathematical value.
pub enum EventView {
    Start { name: Seq<u8>, markup: Seq<u8> },
    End { markup: Seq<u8> },
    Text { content: Seq<u8>, markup: Seq<u8> },
    Empty { markup: Seq<u8> },
    CData { markup: Seq<u8> },
    Comment { markup: Seq<u8> },
    Decl { markup: Seq<u8> },
    PI { markup: Seq<u8> },
    DocType { markup: Seq<u8> },
    Eof,
}

impl View for XmlEvent {
    type V = EventView;

    open spec fn view(&self) -> EventView {
        match self {
            XmlEvent::Start { name, markup } => EventView::Start { name: name@, markup: markup@ },
            XmlEvent::End { markup } => EventView::End { markup: markup@ },
            XmlEvent::Text { content, markup } => EventView::Text {
                content: content@,
                markup: markup@,
            },
            XmlEvent::Empty { markup } => EventView::Empty { markup: markup@ },
            XmlEvent::CData { markup } => EventView::CData { markup: markup@ },
            XmlEvent::Comment { markup } => EventView::Comment { markup: markup@ },
            XmlEvent::Decl { markup } => EventView::Decl { markup: markup@ },
            XmlEvent::PI { markup } => EventView::PI { markup: markup@ },
            XmlEvent::DocType { markup } => EventView::DocType { markup: markup@ },
            XmlEvent::Eof => EventView::Eof,
        }
    }
}

impl XmlEvent {
    /// The bytes that write this event back unchanged.
    pub fn markup(&self) -> (bytes: &[u8])
        ensures
            bytes@ == self@.markup(),
    {
        match self {
            XmlEvent::Start { markup, .. } => markup.as_slice(),
            XmlEvent::End { markup } => markup.as_slice(),
            XmlEvent::Text { markup, .. } => markup.as_slice(),
            XmlEvent::Empty { markup } => markup.as_slice(),
            XmlEvent::CData { markup } => markup.as_slice(),
            XmlEvent::Comment { markup } => markup.as_slice(),
            XmlEvent::Decl { markup } => markup.as_slice(),
            XmlEvent::PI { markup } => markup.as_slice(),
            XmlEvent::DocType { markup } => markup.as_slice(),
            XmlEvent::Eof => &[],
        }
    }
}

impl EventView {
    /// The bytes that write this event back unchanged.
    pub open spec fn markup(self) -> Seq<u8> {
        match self {
            EventView::Start { markup, .. } => markup,
            EventView::End { markup } => markup,
            EventView::Text { markup, .. } => markup,
            EventView::Empty { markup } => markup,
            EventView::CData { markup } => markup,
            EventView::Comment { markup } => markup,
            EventView::Decl { markup } => markup,
            EventView::PI { markup } => markup,
            EventView::DocType { markup } => markup,
            EventView::Eof => Seq::empty(),
        }
    }
}

/// One read from a document: an event, or `None` where the reader reported
/// malformed input.
pub type Reading = Option<EventView>;

/// Whether a reading ends a document: the end of input, or a failure.
pub open spec fn is_final(reading: Reading) -> bool {
    reading is None || reading == Some(EventView::Eof)
}

/// Whether `stream` is a complete run of readings: it is not empty, its last
/// reading is final, and no reading before the last is.
pub open spec fn is_complete(stream: Seq<Reading>) -> bool {
    &&& stream.len() > 0
    &&& is_final(stream.last())
    &&& forall|i: int| 0 <= i < stream.len() - 1 ==> !is_final(#[trigger] stream[i])
}

/// `quick_xml::reader::Reader`, carried through as it is.
#[verifier::external_type_specification]
#[verifier::external_body]
#[verifier::reject_recursive_types(R)]
pub struct ExReader<R>(Reader<R>);

/// `quick_xml::Error`, carried through as it is.
#[verifier::external_type_specification]
#[verifier::external_body]
pub struct ExError(quick_xml::Error);

/// The readings that a `quick_xml` reader over the bytes `input` gives, from
/// the first up to and including the first final one.
pub uninterp spec fn document_events(input: Seq<u8>) -> Seq<Reading>;

/// The readings that `reader` has yet to give, up to and including the first
/// final one.
pub uninterp spec fn pending_events(reader: Reader<&[u8]>) -> Seq<Reading>;

/// `Reader::from_reader` on a byte slice, with the reader's settings left as
/// they are made. What the new reader has yet to give is the whole document;
/// reading a slice comes to its end or to a failure after finitely many events.
#[verifier::external_body]
pub(crate) fn open_reader<'a>(input: &'a [u8]) -> (reader: Reader<&'a [u8]>)
    ensures
        pending_events(reader) == document_events(input@),
        is_complete(pending_events(reader)),
{
    Reader::from_reader(input)
}

/// `Reader::read_event`, with the event handed out in plain form: the name of
/// a `Start` tag as `BytesStart::name` gives it, the content of a `Text`
/// event, and the markup that `Writer::write_event` emits for the event into
/// a `Vec`. The result is the first of the pending readings; unless it is
/// final, the rest is what the reader has yet to give.
#[verifier::external_body]
pub(crate) fn read_event(reader: &mut Reader<&[u8]>) -> (outcome: Result<XmlEvent, quick_xml::Error>)
    requires
        pending_events(*old(reader)).len() > 0,
    ensures
        pending_events(*old(reader))[0] == match outcome {
            Ok(event) => Some(event@),
            Err(_) => None,
        },
        !is_final(pending_events(*old(reader))[0]) ==> pending_events(*final(reader))
            == pending_events(*old(reader)).skip(1),
{
    let event = reader.read_event()?;
    let mut markup = Vec::new();
    Writer::new(&mut markup).write_event(&event)?;
    Ok(match event {
        Event::Start(tag) => XmlEvent::Start { name: tag.name().0.to_vec(), markup },
        Event::End(_) => XmlEvent::End { markup },
        Event::Empty(_) => XmlEvent::Empty { markup },
        Event::Text(text) => XmlEvent::Text { content: text.to_vec(), markup },
        Event::CData(_) => XmlEvent::CData { markup },
        Event::Comment(_) => XmlEvent::Comment { markup },
        Event::Decl(_) => XmlEvent::Decl { markup },
        Event::PI(_) => XmlEvent::PI { markup },
        Event::DocType(_) => XmlEvent::DocType { markup },
        Event::Eof => XmlEvent::Eof,
    })
}

/// Once a reading that is not final has been taken from a complete run,
/// the rest is a complete run.
pub proof fn lemma_rest_is_complete(stream: Seq<Reading>)
    requires
        is_complete(stream),
        !is_final(stream[0]),
    ensures
        is_complete(stream.skip(1)),
{
    let rest = stream.skip(1);
    assert(stream.len() > 1);
    assert(rest.last() == stream.last());
    assert forall|i: int| 0 <= i < rest.len() - 1 implies !is_final(#[trigger] rest[i]) by {
        assert(rest[i] == stream[i + 1]);
    }
}

} // verus!
