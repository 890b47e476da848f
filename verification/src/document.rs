//! What extraction and rewriting give for a whole document, stated over the
//! readings that the document's reader gives and over the document's bytes.

use vstd::prelude::*;
use vstd::utf8::encode_utf8;
use crate::events::{document_events, Reading};
use crate::text::escaped;
use crate::values::{first_match, LeafValue};
use crate::walk::{step, FoundView, XmlError};

verus! {

/// The leaf values of the rest of a document, behind those already `seen`,
/// where the elements `stack` are open. A failed reading, a refused event or
/// a run of readings that breaks off fails the whole.
pub open spec fn extracted(stream: Seq<Reading>, stack: Seq<Seq<char>>, seen: Seq<LeafValue>)
    -> Result<Seq<LeafValue>, XmlError>
    decreases stream.len(),
{
    if stream.len() == 0 {
        Err(XmlError::Parse)
    } else {
        match stream[0] {
            None => Err(XmlError::Parse),
            Some(event) => match step(stack, event) {
                Err(e) => Err(e),
                Ok(next) => match next.found {
                    FoundView::Done => Ok(seen),
                    FoundView::Leaf(leaf) => extracted(stream.skip(1), next.stack, seen.push(leaf)),
                    FoundView::Nothing => extracted(stream.skip(1), next.stack, seen),
                },
            },
        }
    }
}

/// The leaf values of a document, in document order.
pub open spec fn extraction(stream: Seq<Reading>) -> Result<Seq<LeafValue>, XmlError> {
    extracted(stream, Seq::empty(), Seq::empty())
}

/// The bytes that stand in the rewritten document for one event. A leaf
/// value whose path and name some entry has is replaced by the value of the
/// first such entry, escaped; everything else is written back as it is.
pub open spec fn written(entries: Seq<LeafValue>, found: FoundView, markup: Seq<u8>) -> Seq<u8> {
    match found {
        FoundView::Leaf(leaf) => match first_match(entries, leaf.path, leaf.name) {
            Some(i) => encode_utf8(escaped(entries[i].value)),
            None => markup,
        },
        _ => markup,
    }
}

/// The rewritten document: `out`, then what the rest of the document gives,
/// where the elements `stack` are open. It fails where extraction fails.
pub open spec fn rewritten(
    stream: Seq<Reading>,
    entries: Seq<LeafValue>,
    stack: Seq<Seq<char>>,
    out: Seq<u8>,
) -> Result<Seq<u8>, XmlError>
    decreases stream.len(),
{
    if stream.len() == 0 {
        Err(XmlError::Parse)
    } else {
        match stream[0] {
            None => Err(XmlError::Parse),
            Some(event) => match step(stack, event) {
                Err(e) => Err(e),
                Ok(next) => match next.found {
                    FoundView::Done => Ok(out),
                    found => rewritten(
                        stream.skip(1),
                        entries,
                        next.stack,
                        out + written(entries, found, event.markup()),
                    ),
                },
            },
        }
    }
}

/// The document with the values of `entries` written into it.
pub open spec fn rewriting(stream: Seq<Reading>, entries: Seq<LeafValue>) -> Result<
    Seq<u8>,
    XmlError,
> {
    rewritten(stream, entries, Seq::empty(), Seq::empty())
}

/// Whether a tag opens at `i`: `<` stands there.
pub open spec fn opens_tag(input: Seq<u8>, i: int) -> bool {
    0 <= i < input.len() && input[i] == 0x3c
}

/// Whether a tag closes at `j`: `>` stands there.
pub open spec fn closes_tag(input: Seq<u8>, j: int) -> bool {
    0 <= j < input.len() && input[j] == 0x3e
}

/// Whether the input breaks off inside a tag: a `<` stands in it with no `>`
/// anywhere behind it.
pub open spec fn breaks_off(input: Seq<u8>) -> bool {
    exists|i: int| #[trigger]
        opens_tag(input, i) && forall|j: int| i < j ==> !#[trigger] closes_tag(input, j)
}

/// The leaf values of the document `input`. A document that breaks off
/// inside a tag is refused, whatever its reader makes of the last tag.
pub open spec fn document_values(input: Seq<u8>) -> Result<Seq<LeafValue>, XmlError> {
    match extraction(document_events(input)) {
        Err(e) => Err(e),
        Ok(leaves) => if breaks_off(input) {
            Err(XmlError::Parse)
        } else {
            Ok(leaves)
        },
    }
}

/// The document `input` with the values of `entries` written into it. It
/// fails where `document_values` fails.
pub open spec fn document_rewritten(input: Seq<u8>, entries: Seq<LeafValue>) -> Result<
    Seq<u8>,
    XmlError,
> {
    match rewriting(document_events(input), entries) {
        Err(e) => Err(e),
        Ok(bytes) => if breaks_off(input) {
            Err(XmlError::Parse)
        } else {
            Ok(bytes)
        },
    }
}

} // verus!
