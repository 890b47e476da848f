//! Extraction of the leaf values of a document, and the rewriting of a
//! document with edited values.

use vstd::prelude::*;
use crate::document::{
    breaks_off, closes_tag, document_rewritten, document_values, extracted, extraction, opens_tag,
    rewriting, rewritten,
};
use crate::events::{
    document_events, is_complete, lemma_rest_is_complete, open_reader, pending_events, read_event,
};
use crate::path::PathStack;
use crate::text::write_text;
use crate::values::{find_entry, leaf_views, XmlValue};
use crate::walk::{Found, XmlError};

verus! {

/// Reads and rewrites documents. It keeps nothing between calls.
pub struct XmlHandler {}

impl XmlHandler {
    /// A handler. All of them are alike.
    pub fn new() -> Self {
        XmlHandler {  }
    }

    /// The leaf values of the document `content`, in document order: one for
    /// each text inside an element that is not blank. Fails, with no values,
    /// where the document is malformed, breaks off inside a tag, or a name
    /// or text is not UTF-8.
    pub fn load_file(&mut self, content: &[u8]) -> (outcome: Result<Vec<XmlValue>, XmlError>)
        ensures
            document_values(content@) == match outcome {
                Ok(values) => Ok(leaf_views(values@)),
                Err(e) => Err(e),
            },
    {
        let mut reader = open_reader(content);
        let mut stack = PathStack::new();
        let mut values: Vec<XmlValue> = Vec::new();
        assert(leaf_views(values@) =~= Seq::empty());
        loop
            invariant
                is_complete(pending_events(reader)),
                extraction(document_events(content@)) == extracted(
                    pending_events(reader),
                    stack@,
                    leaf_views(values@),
                ),
            decreases pending_events(reader).len(),
        {
            let ghost pending = pending_events(reader);
            let ghost seen = leaf_views(values@);
            let event = match read_event(&mut reader) {
                Ok(event) => event,
                Err(_) => {
                    return Err(XmlError::Parse);
                },
            };
            match stack.visit(&event) {
                Err(e) => {
                    return Err(e);
                },
                Ok(Found::Done) => {
                    if ends_inside_tag(content) {
                        return Err(XmlError::Parse);
                    }
                    return Ok(values);
                },
                Ok(Found::Leaf(leaf)) => {
                    values.push(leaf);
                    assert(leaf_views(values@) =~= seen.push(leaf@));
                },
                Ok(Found::Nothing) => {},
            }
            proof {
                lemma_rest_is_complete(pending);
            }
        }
    }

    /// The document `content` with each leaf value replaced whose path and
    /// name one of `values` has: by the value of the first such entry,
    /// escaped. Everything else is written back as it is. Fails, with no
    /// output, where extraction fails.
    pub fn save_changes(&self, content: &[u8], values: &[XmlValue]) -> (outcome: Result<
        Vec<u8>,
        XmlError,
    >)
        ensures
            document_rewritten(content@, leaf_views(values@)) == match outcome {
                Ok(bytes) => Ok(bytes@),
                Err(e) => Err(e),
            },
    {
        let ghost entries = leaf_views(values@);
        let mut reader = open_reader(content);
        let mut stack = PathStack::new();
        let mut out: Vec<u8> = Vec::new();
        loop
            invariant
                entries == leaf_views(values@),
                is_complete(pending_events(reader)),
                rewriting(document_events(content@), entries) == rewritten(
                    pending_events(reader),
                    entries,
                    stack@,
                    out@,
                ),
            decreases pending_events(reader).len(),
        {
            let ghost pending = pending_events(reader);
            let event = match read_event(&mut reader) {
                Ok(event) => event,
                Err(_) => {
                    return Err(XmlError::Parse);
                },
            };
            match stack.visit(&event) {
                Err(e) => {
                    return Err(e);
                },
                Ok(Found::Done) => {
                    if ends_inside_tag(content) {
                        return Err(XmlError::Parse);
                    }
                    return Ok(out);
                },
                Ok(Found::Leaf(leaf)) => {
                    match find_entry(values, &leaf.path, &leaf.name) {
                        Some(i) => {
                            write_text(&mut out, values[i].value.as_str());
                        },
                        None => {
                            append(&mut out, event.markup());
                        },
                    }
                },
                Ok(Found::Nothing) => {
                    append(&mut out, event.markup());
                },
            }
            proof {
                lemma_rest_is_complete(pending);
            }
        }
    }

    /// Takes note of an edit. Edits are held by the caller and written by
    /// `save_changes`; there is nothing to do here.
    pub fn modify_value(&mut self, path: &str, name: &str, new_value: &str) -> (outcome: Result<
        (),
        XmlError,
    >)
        ensures
            outcome is Ok,
    {
        Ok(())
    }
}

/// Whether the input breaks off inside a tag: its last `<` has no `>` behind
/// it.
pub fn ends_inside_tag(content: &[u8]) -> (yes: bool)
    ensures
        yes == breaks_off(content@),
{
    let mut i: usize = content.len();
    while i > 0
        invariant
            i <= content.len(),
            forall|j: int| i <= j ==> !opens_tag(content@, j) && !closes_tag(content@, j),
        decreases i,
    {
        i = i - 1;
        if content[i] == 0x3e {
            assert(closes_tag(content@, i as int));
            return false;
        }
        if content[i] == 0x3c {
            assert(opens_tag(content@, i as int));
            return true;
        }
    }
    false
}

/// Appends `bytes` to `out`.
fn append(out: &mut Vec<u8>, bytes: &[u8])
    ensures
        final(out)@ == old(out)@ + bytes@,
{
    out.extend_from_slice(bytes);
    assert(out@ =~= old(out)@ + bytes@);
}

} // verus!
