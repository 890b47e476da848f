//! What holds of extraction and rewriting together.

use vstd::prelude::*;
use vstd::utf8::encode_utf8;
use crate::document::{
    document_rewritten, document_values, extracted, extraction, rewriting, rewritten, written,
};
use crate::events::{document_events, EventView, Reading};
use crate::text::{escaped, is_blank};
use crate::values::{first_match, lemma_first_match, lemma_first_match_is, LeafValue};
use crate::walk::{step, FoundView, XmlError};

verus! {

/// The markup of the events of the rest of a document behind `out`, each as
/// it stands, up to the end of the input.
pub open spec fn copied(stream: Seq<Reading>, out: Seq<u8>) -> Seq<u8>
    decreases stream.len(),
{
    if stream.len() == 0 {
        out
    } else {
        match stream[0] {
            None => out,
            Some(EventView::Eof) => out,
            Some(event) => copied(stream.skip(1), out + event.markup()),
        }
    }
}

/// Whether rewriting with `entries` writes every leaf value of the rest of
/// the document as it stands there: the first entry with its path and name,
/// if there is one, holds a value whose escaped form is the text's markup.
pub open spec fn settled(stream: Seq<Reading>, entries: Seq<LeafValue>, stack: Seq<Seq<char>>)
    -> bool
    decreases stream.len(),
{
    if stream.len() == 0 {
        true
    } else {
        match stream[0] {
            None => true,
            Some(event) => match step(stack, event) {
                Err(_) => true,
                Ok(next) => match next.found {
                    FoundView::Done => true,
                    found => {
                        &&& written(entries, found, event.markup()) == event.markup()
                        &&& settled(stream.skip(1), entries, next.stack)
                    },
                },
            },
        }
    }
}

/// Whether every leaf value of the rest of the document stands there in the
/// form in which rewriting writes it.
pub open spec fn canonical(stream: Seq<Reading>, stack: Seq<Seq<char>>) -> bool
    decreases stream.len(),
{
    if stream.len() == 0 {
        true
    } else {
        match stream[0] {
            None => true,
            Some(event) => match step(stack, event) {
                Err(_) => true,
                Ok(next) => match next.found {
                    FoundView::Done => true,
                    FoundView::Leaf(leaf) => {
                        &&& event.markup() == encode_utf8(escaped(leaf.value))
                        &&& canonical(stream.skip(1), next.stack)
                    },
                    FoundView::Nothing => canonical(stream.skip(1), next.stack),
                },
            },
        }
    }
}

/// Whether no two of the values stand at the same path under the same name.
pub open spec fn distinct_keys(leaves: Seq<LeafValue>) -> bool {
    forall|i: int, j: int|
        0 <= i < j < leaves.len() ==> !(#[trigger] leaves[j]).has_key(
            (#[trigger] leaves[i]).path,
            leaves[i].name,
        )
}

/// Every value that extraction gives is a text that is not blank.
pub proof fn lemma_values_are_not_blank(stream: Seq<Reading>, leaves: Seq<LeafValue>)
    requires
        extraction(stream) == Ok::<Seq<LeafValue>, XmlError>(leaves),
    ensures
        forall|i: int| 0 <= i < leaves.len() ==> !is_blank((#[trigger] leaves[i]).value),
{
    lemma_values_are_not_blank_from(stream, Seq::empty(), Seq::empty(), leaves);
}

proof fn lemma_values_are_not_blank_from(
    stream: Seq<Reading>,
    stack: Seq<Seq<char>>,
    seen: Seq<LeafValue>,
    leaves: Seq<LeafValue>,
)
    requires
        extracted(stream, stack, seen) == Ok::<Seq<LeafValue>, XmlError>(leaves),
        forall|i: int| 0 <= i < seen.len() ==> !is_blank((#[trigger] seen[i]).value),
    ensures
        forall|i: int| 0 <= i < leaves.len() ==> !is_blank((#[trigger] leaves[i]).value),
    decreases stream.len(),
{
    if stream.len() > 0 {
        if let Some(event) = stream[0] {
            if let Ok(next) = step(stack, event) {
                match next.found {
                    FoundView::Done => {},
                    FoundView::Leaf(leaf) => {
                        lemma_values_are_not_blank_from(
                            stream.skip(1),
                            next.stack,
                            seen.push(leaf),
                            leaves,
                        );
                    },
                    FoundView::Nothing => {
                        lemma_values_are_not_blank_from(stream.skip(1), next.stack, seen, leaves);
                    },
                }
            }
        }
    }
}

/// Rewriting and extraction refuse the same documents, for the same reason,
/// whatever the entries are.
pub proof fn lemma_same_failure(stream: Seq<Reading>, entries: Seq<LeafValue>)
    ensures
        match extraction(stream) {
            Ok(_) => rewriting(stream, entries) is Ok,
            Err(e) => rewriting(stream, entries) == Err::<Seq<u8>, XmlError>(e),
        },
{
    lemma_same_failure_from(stream, entries, Seq::empty(), Seq::empty(), Seq::empty());
}

proof fn lemma_same_failure_from(
    stream: Seq<Reading>,
    entries: Seq<LeafValue>,
    stack: Seq<Seq<char>>,
    seen: Seq<LeafValue>,
    out: Seq<u8>,
)
    ensures
        match extracted(stream, stack, seen) {
            Ok(_) => rewritten(stream, entries, stack, out) is Ok,
            Err(e) => rewritten(stream, entries, stack, out) == Err::<Seq<u8>, XmlError>(e),
        },
    decreases stream.len(),
{
    if stream.len() > 0 {
        if let Some(event) = stream[0] {
            if let Ok(next) = step(stack, event) {
                match next.found {
                    FoundView::Done => {},
                    FoundView::Leaf(leaf) => {
                        lemma_same_failure_from(
                            stream.skip(1),
                            entries,
                            next.stack,
                            seen.push(leaf),
                            out + written(entries, next.found, event.markup()),
                        );
                    },
                    FoundView::Nothing => {
                        lemma_same_failure_from(
                            stream.skip(1),
                            entries,
                            next.stack,
                            seen,
                            out + written(entries, next.found, event.markup()),
                        );
                    },
                }
            }
        }
    }
}

/// Rewriting with no entries copies the document: where it is accepted, the
/// output is the markup of its events, each as it stands.
pub proof fn lemma_copy(stream: Seq<Reading>)
    ensures
        rewriting(stream, Seq::empty()) matches Ok(bytes) ==> bytes == copied(
            stream,
            Seq::empty(),
        ),
{
    lemma_copy_from(stream, Seq::empty(), Seq::empty());
}

proof fn lemma_copy_from(stream: Seq<Reading>, stack: Seq<Seq<char>>, out: Seq<u8>)
    ensures
        rewritten(stream, Seq::empty(), stack, out) matches Ok(bytes) ==> bytes == copied(
            stream,
            out,
        ),
    decreases stream.len(),
{
    if stream.len() > 0 {
        if let Some(event) = stream[0] {
            if let Ok(next) = step(stack, event) {
                if !(next.found is Done) {
                    lemma_copy_from(stream.skip(1), next.stack, out + event.markup());
                }
            }
        }
    }
}

/// Rewriting a document with entries that hold, for every leaf value, the
/// text as it stands gives the same bytes as rewriting it with no entries.
pub proof fn lemma_settled_is_copy(stream: Seq<Reading>, entries: Seq<LeafValue>)
    requires
        settled(stream, entries, Seq::empty()),
    ensures
        rewriting(stream, entries) == rewriting(stream, Seq::empty()),
{
    lemma_settled_is_copy_from(stream, entries, Seq::empty(), Seq::empty());
}

proof fn lemma_settled_is_copy_from(
    stream: Seq<Reading>,
    entries: Seq<LeafValue>,
    stack: Seq<Seq<char>>,
    out: Seq<u8>,
)
    requires
        settled(stream, entries, stack),
    ensures
        rewritten(stream, entries, stack, out) == rewritten(stream, Seq::empty(), stack, out),
    decreases stream.len(),
{
    if stream.len() > 0 {
        if let Some(event) = stream[0] {
            if let Ok(next) = step(stack, event) {
                if !(next.found is Done) {
                    lemma_settled_is_copy_from(
                        stream.skip(1),
                        entries,
                        next.stack,
                        out + event.markup(),
                    );
                }
            }
        }
    }
}

/// The values already seen stay at the front of what extraction gives.
proof fn lemma_seen_stay(
    stream: Seq<Reading>,
    stack: Seq<Seq<char>>,
    seen: Seq<LeafValue>,
    leaves: Seq<LeafValue>,
)
    requires
        extracted(stream, stack, seen) == Ok::<Seq<LeafValue>, XmlError>(leaves),
    ensures
        seen.len() <= leaves.len(),
        forall|i: int| 0 <= i < seen.len() ==> leaves[i] == seen[i],
    decreases stream.len(),
{
    if stream.len() > 0 {
        if let Some(event) = stream[0] {
            if let Ok(next) = step(stack, event) {
                match next.found {
                    FoundView::Done => {},
                    FoundView::Leaf(leaf) => {
                        lemma_seen_stay(stream.skip(1), next.stack, seen.push(leaf), leaves);
                        assert forall|i: int| 0 <= i < seen.len() implies leaves[i] == seen[i] by {
                            assert(seen.push(leaf)[i] == seen[i]);
                        }
                    },
                    FoundView::Nothing => {
                        lemma_seen_stay(stream.skip(1), next.stack, seen, leaves);
                    },
                }
            }
        }
    }
}

proof fn lemma_own_values_settle(
    stream: Seq<Reading>,
    stack: Seq<Seq<char>>,
    seen: Seq<LeafValue>,
    leaves: Seq<LeafValue>,
)
    requires
        extracted(stream, stack, seen) == Ok::<Seq<LeafValue>, XmlError>(leaves),
        distinct_keys(leaves),
        canonical(stream, stack),
    ensures
        settled(stream, leaves, stack),
    decreases stream.len(),
{
    if stream.len() > 0 {
        if let Some(event) = stream[0] {
            if let Ok(next) = step(stack, event) {
                match next.found {
                    FoundView::Done => {},
                    FoundView::Leaf(leaf) => {
                        let k: int = seen.len() as int;
                        lemma_seen_stay(stream.skip(1), next.stack, seen.push(leaf), leaves);
                        assert(leaves[k] == seen.push(leaf)[k]);
                        assert(leaves[k] == leaf);
                        assert forall|j: int| 0 <= j < k implies !(#[trigger] leaves[j]).has_key(
                            leaf.path,
                            leaf.name,
                        ) by {
                            assert(!leaves[k].has_key(leaves[j].path, leaves[j].name));
                        }
                        lemma_first_match_is(leaves, leaf.path, leaf.name, k);
                        lemma_own_values_settle(
                            stream.skip(1),
                            next.stack,
                            seen.push(leaf),
                            leaves,
                        );
                    },
                    FoundView::Nothing => {
                        lemma_own_values_settle(stream.skip(1), next.stack, seen, leaves);
                    },
                }
            }
        }
    }
}

/// Round trip: rewriting a document with the values that extraction gives
/// for it, none of them edited, gives the same bytes as rewriting it with no
/// entries, that is the markup of its events as it stands (`lemma_copy`).
/// This holds where no two values share path and name and every value
/// stands in the document in escaped form.
pub proof fn lemma_round_trip(stream: Seq<Reading>, leaves: Seq<LeafValue>)
    requires
        extraction(stream) == Ok::<Seq<LeafValue>, XmlError>(leaves),
        distinct_keys(leaves),
        canonical(stream, Seq::empty()),
    ensures
        rewriting(stream, leaves) == rewriting(stream, Seq::empty()),
        rewriting(stream, leaves) == Ok::<Seq<u8>, XmlError>(copied(stream, Seq::empty())),
{
    lemma_own_values_settle(stream, Seq::empty(), Seq::empty(), leaves);
    lemma_settled_is_copy(stream, leaves);
    lemma_same_failure(stream, leaves);
    lemma_copy(stream);
}

/// Extraction and rewriting refuse the same inputs, for the same reason,
/// whatever the entries are.
pub proof fn lemma_document_same_failure(input: Seq<u8>, entries: Seq<LeafValue>)
    ensures
        match document_values(input) {
            Ok(_) => document_rewritten(input, entries) is Ok,
            Err(e) => document_rewritten(input, entries) == Err::<Seq<u8>, XmlError>(e),
        },
{
    lemma_same_failure(document_events(input), entries);
}

/// Round trip, from bytes to bytes: rewriting an input with the values that
/// extraction gives for it, none of them edited, gives the markup of its
/// events as it stands. This holds where no two values share path and name
/// and every value stands in the input in escaped form.
pub proof fn lemma_document_round_trip(input: Seq<u8>, leaves: Seq<LeafValue>)
    requires
        document_values(input) == Ok::<Seq<LeafValue>, XmlError>(leaves),
        distinct_keys(leaves),
        canonical(document_events(input), Seq::empty()),
    ensures
        document_rewritten(input, leaves) == document_rewritten(input, Seq::empty()),
        document_rewritten(input, leaves) == Ok::<Seq<u8>, XmlError>(
            copied(document_events(input), Seq::empty()),
        ),
{
    lemma_round_trip(document_events(input), leaves);
}

/// Entries that stand at the path and name of no leaf value of the document
/// change nothing: rewriting with them gives the same bytes as rewriting
/// with no entries.
pub proof fn lemma_unmatched_entries_change_nothing(
    stream: Seq<Reading>,
    leaves: Seq<LeafValue>,
    entries: Seq<LeafValue>,
)
    requires
        extraction(stream) == Ok::<Seq<LeafValue>, XmlError>(leaves),
        forall|i: int, k: int|
            0 <= i < leaves.len() && 0 <= k < entries.len() ==> !(#[trigger] entries[k]).has_key(
                (#[trigger] leaves[i]).path,
                leaves[i].name,
            ),
    ensures
        rewriting(stream, entries) == rewriting(stream, Seq::empty()),
{
    lemma_unmatched_entries_settle(stream, Seq::empty(), Seq::empty(), leaves, entries);
    lemma_settled_is_copy(stream, entries);
}

proof fn lemma_unmatched_entries_settle(
    stream: Seq<Reading>,
    stack: Seq<Seq<char>>,
    seen: Seq<LeafValue>,
    leaves: Seq<LeafValue>,
    entries: Seq<LeafValue>,
)
    requires
        extracted(stream, stack, seen) == Ok::<Seq<LeafValue>, XmlError>(leaves),
        forall|i: int, k: int|
            0 <= i < leaves.len() && 0 <= k < entries.len() ==> !(#[trigger] entries[k]).has_key(
                (#[trigger] leaves[i]).path,
                leaves[i].name,
            ),
    ensures
        settled(stream, entries, stack),
    decreases stream.len(),
{
    if stream.len() > 0 {
        if let Some(event) = stream[0] {
            if let Ok(next) = step(stack, event) {
                match next.found {
                    FoundView::Done => {},
                    FoundView::Leaf(leaf) => {
                        let k: int = seen.len() as int;
                        lemma_seen_stay(stream.skip(1), next.stack, seen.push(leaf), leaves);
                        assert(leaves[k] == seen.push(leaf)[k]);
                        lemma_first_match(entries, leaf.path, leaf.name);
                        if let Some(m) = first_match(entries, leaf.path, leaf.name) {
                            assert(!entries[m].has_key(leaves[k].path, leaves[k].name));
                        }
                        lemma_unmatched_entries_settle(
                            stream.skip(1),
                            next.stack,
                            seen.push(leaf),
                            leaves,
                            entries,
                        );
                    },
                    FoundView::Nothing => {
                        lemma_unmatched_entries_settle(
                            stream.skip(1),
                            next.stack,
                            seen,
                            leaves,
                            entries,
                        );
                    },
                }
            }
        }
    }
}

/// Entries with the same paths and names, in the same order, have the same
/// first match for every path and name.
proof fn lemma_first_match_by_keys(
    a: Seq<LeafValue>,
    b: Seq<LeafValue>,
    path: Seq<char>,
    name: Seq<char>,
)
    requires
        a.len() == b.len(),
        forall|i: int|
            0 <= i < a.len() ==> (#[trigger] a[i]).path == b[i].path && a[i].name == b[i].name,
    ensures
        first_match(a, path, name) == first_match(b, path, name),
{
    lemma_first_match(a, path, name);
    lemma_first_match(b, path, name);
    match first_match(a, path, name) {
        Some(i) => {
            assert(b[i].has_key(path, name)) by {
                assert(a[i].path == b[i].path);
            }
            assert forall|j: int| 0 <= j < i implies !(#[trigger] b[j]).has_key(path, name) by {
                assert(a[j].path == b[j].path);
            }
            lemma_first_match_is(b, path, name, i);
        },
        None => {
            if let Some(k) = first_match(b, path, name) {
                assert(a[k].path == b[k].path);
                assert(a[k].has_key(path, name));
            }
        },
    }
}

/// First match wins: an entry whose path and name an earlier entry has is
/// never used. Whatever value it is given, the rewritten document is the same.
pub proof fn lemma_first_entry_wins(
    stream: Seq<Reading>,
    entries: Seq<LeafValue>,
    earlier: int,
    later: int,
    value: Seq<char>,
)
    requires
        0 <= earlier < later < entries.len(),
        entries[later].has_key(entries[earlier].path, entries[earlier].name),
    ensures
        rewriting(
            stream,
            entries.update(later, LeafValue { value, ..entries[later] }),
        ) == rewriting(stream, entries),
{
    lemma_first_entry_wins_from(
        stream,
        entries,
        earlier,
        later,
        value,
        Seq::empty(),
        Seq::empty(),
    );
}

proof fn lemma_first_entry_wins_from(
    stream: Seq<Reading>,
    entries: Seq<LeafValue>,
    earlier: int,
    later: int,
    value: Seq<char>,
    stack: Seq<Seq<char>>,
    out: Seq<u8>,
)
    requires
        0 <= earlier < later < entries.len(),
        entries[later].has_key(entries[earlier].path, entries[earlier].name),
    ensures
        rewritten(
            stream,
            entries.update(later, LeafValue { value, ..entries[later] }),
            stack,
            out,
        ) == rewritten(stream, entries, stack, out),
    decreases stream.len(),
{
    let edited = entries.update(later, LeafValue { value, ..entries[later] });
    if stream.len() > 0 {
        if let Some(event) = stream[0] {
            if let Ok(next) = step(stack, event) {
                if !(next.found is Done) {
                    if let FoundView::Leaf(leaf) = next.found {
                        lemma_first_match_by_keys(edited, entries, leaf.path, leaf.name);
                        lemma_first_match(entries, leaf.path, leaf.name);
                        if let Some(i) = first_match(entries, leaf.path, leaf.name) {
                            if i == later {
                                assert(entries[earlier].has_key(leaf.path, leaf.name));
                            }
                            assert(edited[i] == entries[i]);
                        }
                    }
                    assert(written(edited, next.found, event.markup()) == written(
                        entries,
                        next.found,
                        event.markup(),
                    ));
                    lemma_first_entry_wins_from(
                        stream.skip(1),
                        entries,
                        earlier,
                        later,
                        value,
                        next.stack,
                        out + written(entries, next.found, event.markup()),
                    );
                }
            }
        }
    }
}

} // verus!
