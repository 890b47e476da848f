//! One step through a document: what an event does to the open elements,
//! and whether it holds a leaf value.

use vstd::prelude::*;
use vstd::utf8::{decode_utf8, encode_utf8_decode_utf8, valid_utf8};
use crate::events::{EventView, XmlEvent};
use crate::path::{leaf_in, PathStack};
use crate::text::{is_blank, lemma_blank_is_trimmed_away, resolved, trim, unescape, utf8_text};
use crate::values::{LeafValue, XmlValue};

verus! {

/// Why a document is refused.
#[derive(Debug, Clone, Copy, PartialEq, Eq, Structural)]
pub enum XmlError {
    /// The document is malformed: a tag is not closed or closes nothing, or
    /// an entity cannot be resolved.
    Parse,
    /// A tag name or a text is not valid UTF-8.
    Encoding,
}

/// What one event holds for the caller.
#[derive(Debug)]
pub enum Found {
    /// A text that is not blank, inside an element: a leaf value.
    Leaf(XmlValue),
    /// Markup, or text that holds no value.
    Nothing,
    /// The end of the document, with every element closed.
    Done,
}

/// What `Found` is, as a mathematical value.
pub enum FoundView {
    Leaf(LeafValue),
    Nothing,
    Done,
}

impl View for Found {
    type V = FoundView;

    open spec fn view(&self) -> FoundView {
        match self {
            Found::Leaf(leaf) => FoundView::Leaf(leaf@),
            Found::Nothing => FoundView::Nothing,
            Found::Done => FoundView::Done,
        }
    }
}

/// The state after one event: the elements that are open, and what the
/// event held.
pub struct Step {
    pub stack: Seq<Seq<char>>,
    pub found: FoundView,
}

/// The text that the content of a text node stands for: `None` where it is
/// blank. The content has to be valid UTF-8 and its entities have to resolve.
pub open spec fn text_value(content: Seq<u8>) -> Result<Option<Seq<char>>, XmlError> {
    if !valid_utf8(content) {
        Err(XmlError::Encoding)
    } else {
        match resolved(decode_utf8(content)) {
            None => Err(XmlError::Parse),
            Some(text) => if is_blank(text) {
                Ok(None)
            } else {
                Ok(Some(text))
            },
        }
    }
}

/// One step: what `event` does where the elements `stack` are open.
///
/// An opening tag opens its element, a closing tag closes the innermost one.
/// Text inside an element is a leaf value unless it is blank; text outside of
/// every element is passed over unread. Empty-element tags, CDATA sections,
/// comments, declarations, processing instructions and document types are
/// passed over. The end of the input is accepted only where every element
/// has been closed.
pub open spec fn step(stack: Seq<Seq<char>>, event: EventView) -> Result<Step, XmlError> {
    match event {
        EventView::Start { name, .. } => if valid_utf8(name) {
            Ok(Step { stack: stack.push(decode_utf8(name)), found: FoundView::Nothing })
        } else {
            Err(XmlError::Encoding)
        },
        EventView::End { .. } => if stack.len() > 0 {
            Ok(Step { stack: stack.drop_last(), found: FoundView::Nothing })
        } else {
            Err(XmlError::Parse)
        },
        EventView::Text { content, .. } => if stack.len() == 0 {
            Ok(Step { stack, found: FoundView::Nothing })
        } else {
            match text_value(content) {
                Err(e) => Err(e),
                Ok(None) => Ok(Step { stack, found: FoundView::Nothing }),
                Ok(Some(text)) => Ok(Step { stack, found: FoundView::Leaf(leaf_in(stack, text)) }),
            }
        },
        EventView::Empty { .. } => Ok(Step { stack, found: FoundView::Nothing }),
        EventView::CData { .. } => Ok(Step { stack, found: FoundView::Nothing }),
        EventView::Comment { .. } => Ok(Step { stack, found: FoundView::Nothing }),
        EventView::Decl { .. } => Ok(Step { stack, found: FoundView::Nothing }),
        EventView::PI { .. } => Ok(Step { stack, found: FoundView::Nothing }),
        EventView::DocType { .. } => Ok(Step { stack, found: FoundView::Nothing }),
        EventView::Eof => if stack.len() == 0 {
            Ok(Step { stack, found: FoundView::Done })
        } else {
            Err(XmlError::Parse)
        },
    }
}

/// Reads the content of a text node: `None` where it is blank.
pub fn read_text(content: &[u8]) -> (outcome: Result<Option<String>, XmlError>)
    ensures
        text_value(content@) == match outcome {
            Ok(Some(text)) => Ok(Some(text@)),
            Ok(None) => Ok(None),
            Err(e) => Err(e),
        },
{
    match utf8_text(content) {
        None => Err(XmlError::Encoding),
        Some(raw) => {
            proof {
                encode_utf8_decode_utf8(raw@);
            }
            match unescape(raw) {
                Err(_) => Err(XmlError::Parse),
                Ok(text) => {
                    proof {
                        lemma_blank_is_trimmed_away(text@);
                    }
                    if trim(text.as_str()).is_empty() {
                        Ok(None)
                    } else {
                        Ok(Some(text))
                    }
                },
            }
        },
    }
}

impl PathStack {
    /// Takes one step through a document. Where the event is refused, the
    /// open elements stay as they are.
    pub fn visit(&mut self, event: &XmlEvent) -> (outcome: Result<Found, XmlError>)
        ensures
            step(old(self)@, event@) == match outcome {
                Ok(found) => Ok(Step { stack: final(self)@, found: found@ }),
                Err(e) => Err(e),
            },
            outcome is Err ==> final(self)@ == old(self)@,
    {
        match event {
            XmlEvent::Start { name, .. } => match utf8_text(name.as_slice()) {
                None => Err(XmlError::Encoding),
                Some(name) => {
                    proof {
                        encode_utf8_decode_utf8(name@);
                    }
                    self.enter(name.to_owned());
                    Ok(Found::Nothing)
                },
            },
            XmlEvent::End { .. } => if self.leave() {
                Ok(Found::Nothing)
            } else {
                Err(XmlError::Parse)
            },
            XmlEvent::Text { content, .. } => if self.depth() == 0 {
                Ok(Found::Nothing)
            } else {
                match read_text(content.as_slice()) {
                    Err(e) => Err(e),
                    Ok(None) => Ok(Found::Nothing),
                    Ok(Some(text)) => Ok(Found::Leaf(self.leaf(text))),
                }
            },
            XmlEvent::Empty { .. } => Ok(Found::Nothing),
            XmlEvent::CData { .. } => Ok(Found::Nothing),
            XmlEvent::Comment { .. } => Ok(Found::Nothing),
            XmlEvent::Decl { .. } => Ok(Found::Nothing),
            XmlEvent::PI { .. } => Ok(Found::Nothing),
            XmlEvent::DocType { .. } => Ok(Found::Nothing),
            XmlEvent::Eof => if self.depth() == 0 {
                Ok(Found::Done)
            } else {
                Err(XmlError::Parse)
            },
        }
    }
}

} // verus!
