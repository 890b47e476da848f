//! Text of a document: decoding, entities and blankness.

use vstd::prelude::*;
use vstd::utf8::{encode_utf8, valid_utf8};
use quick_xml::escape::EscapeError;
use quick_xml::events::{BytesText, Event};
use quick_xml::writer::Writer;

verus! {

/// `quick_xml::escape::EscapeError`, carried through as it is.
#[verifier::external_type_specification]
#[verifier::external_body]
pub struct ExEscapeError(EscapeError);

/// `text` with its XML entities resolved by `quick_xml`, or `None` where it
/// holds an entity that cannot be resolved.
pub uninterp spec fn unescaped(text: Seq<char>) -> Option<Seq<char>>;

/// Whether `text` may hold an entity: `&` stands in it.
pub open spec fn has_ampersand(text: Seq<char>) -> bool {
    text.contains('&')
}

/// The text that `text` stands for in a document. A text without `&` holds
/// no entity and stands for itself; any other is resolved by `quick_xml`.
pub open spec fn resolved(text: Seq<char>) -> Option<Seq<char>> {
    if has_ampersand(text) {
        unescaped(text)
    } else {
        Some(text)
    }
}

/// Whether `c` is whitespace: a character with the Unicode property
/// White_Space.
pub open spec fn is_whitespace(c: char) -> bool {
    let code = c as u32;
    ||| 0x09 <= code <= 0x0d
    ||| code == 0x20
    ||| code == 0x85
    ||| code == 0xa0
    ||| code == 0x1680
    ||| 0x2000 <= code <= 0x200a
    ||| code == 0x2028
    ||| code == 0x2029
    ||| code == 0x202f
    ||| code == 0x205f
    ||| code == 0x3000
}

/// `text` without the whitespace at its start.
pub open spec fn trimmed_start(text: Seq<char>) -> Seq<char>
    decreases text.len(),
{
    if text.len() > 0 && is_whitespace(text[0]) {
        trimmed_start(text.skip(1))
    } else {
        text
    }
}

/// `text` without the whitespace at its end.
pub open spec fn trimmed_end(text: Seq<char>) -> Seq<char>
    decreases text.len(),
{
    if text.len() > 0 && is_whitespace(text.last()) {
        trimmed_end(text.drop_last())
    } else {
        text
    }
}

/// `text` without the whitespace at its two ends.
pub open spec fn trimmed(text: Seq<char>) -> Seq<char> {
    trimmed_end(trimmed_start(text))
}

/// Whether `text` holds nothing but whitespace.
pub open spec fn is_blank(text: Seq<char>) -> bool {
    forall|i: int| 0 <= i < text.len() ==> is_whitespace(#[trigger] text[i])
}

/// What is left of a text that is not blank, once the whitespace at its
/// start is gone, is not blank.
proof fn lemma_trimmed_start(text: Seq<char>)
    ensures
        is_blank(text) <==> is_blank(trimmed_start(text)),
        is_blank(text) ==> trimmed_start(text).len() == 0,
    decreases text.len(),
{
    if text.len() > 0 && is_whitespace(text[0]) {
        let rest = text.skip(1);
        lemma_trimmed_start(rest);
        if is_blank(rest) {
            assert forall|i: int| 0 <= i < text.len() implies is_whitespace(#[trigger] text[i]) by {
                if i > 0 {
                    assert(text[i] == rest[i - 1]);
                }
            }
        }
        if is_blank(text) {
            assert forall|i: int| 0 <= i < rest.len() implies is_whitespace(#[trigger] rest[i]) by {
                assert(rest[i] == text[i + 1]);
            }
        }
    }
}

/// Nothing is left of a blank text once the whitespace at its end is gone,
/// and something is left of any other.
proof fn lemma_trimmed_end(text: Seq<char>)
    ensures
        is_blank(text) <==> trimmed_end(text).len() == 0,
    decreases text.len(),
{
    if text.len() > 0 && is_whitespace(text.last()) {
        let front = text.drop_last();
        lemma_trimmed_end(front);
        if is_blank(front) {
            assert forall|i: int| 0 <= i < text.len() implies is_whitespace(#[trigger] text[i]) by {
                if i < front.len() {
                    assert(text[i] == front[i]);
                }
            }
        }
        if is_blank(text) {
            assert forall|i: int| 0 <= i < front.len() implies is_whitespace(
                #[trigger] front[i],
            ) by {
                assert(front[i] == text[i]);
            }
        }
    } else if text.len() > 0 {
        assert(!is_whitespace(text[text.len() - 1]));
    }
}

/// A text is blank just where trimming leaves nothing of it.
pub proof fn lemma_blank_is_trimmed_away(text: Seq<char>)
    ensures
        is_blank(text) <==> trimmed(text).len() == 0,
{
    lemma_trimmed_start(text);
    lemma_trimmed_end(trimmed_start(text));
}

/// What stands in a document for the character `c` of a text.
pub open spec fn escaped_char(c: char) -> Seq<char> {
    if c == '<' {
        seq!['&', 'l', 't', ';']
    } else if c == '>' {
        seq!['&', 'g', 't', ';']
    } else if c == '&' {
        seq!['&', 'a', 'm', 'p', ';']
    } else if c == '\'' {
        seq!['&', 'a', 'p', 'o', 's', ';']
    } else if c == '"' {
        seq!['&', 'q', 'u', 'o', 't', ';']
    } else {
        seq![c]
    }
}

/// `text` in escaped form: each of `<`, `>`, `&`, `'` and `"` replaced by its
/// entity, every other character kept.
pub open spec fn escaped(text: Seq<char>) -> Seq<char>
    decreases text.len(),
{
    if text.len() == 0 {
        Seq::empty()
    } else {
        escaped(text.drop_last()) + escaped_char(text.last())
    }
}

/// `std::str::from_utf8`: the bytes as a string slice where they are valid
/// UTF-8, `None` where they are not.
#[verifier::external_body]
pub(crate) fn utf8_text(bytes: &[u8]) -> (text: Option<&str>)
    ensures
        text is Some <==> valid_utf8(bytes@),
        text matches Some(s) ==> encode_utf8(s@) == bytes@,
{
    match std::str::from_utf8(bytes) {
        Ok(s) => Some(s),
        Err(_) => None,
    }
}

/// `str::trim`: the slice without the whitespace at its two ends, where
/// whitespace is every character with the Unicode property White_Space.
#[verifier::external_body]
pub(crate) fn trim(text: &str) -> (inner: &str)
    ensures
        inner@ == trimmed(text@),
{
    text.trim()
}

/// `quick_xml::escape::unescape`: resolves the five predefined entities and
/// numeric character references, and fails on any other use of `&`. The
/// outcome is the one that `unescaped` names; a text without `&` comes back
/// as it is.
#[verifier::external_body]
pub(crate) fn unescape(text: &str) -> (outcome: Result<String, EscapeError>)
    ensures
        unescaped(text@) == match outcome {
            Ok(plain) => Some(plain@),
            Err(_) => None,
        },
        !has_ampersand(text@) ==> match outcome {
            Ok(plain) => plain@ == text@,
            Err(_) => false,
        },
{
    match quick_xml::escape::unescape(text) {
        Ok(plain) => Ok(plain.into_owned()),
        Err(e) => Err(e),
    }
}

/// `Writer::write_event` on a `Text` event made by `BytesText::new`, which
/// escapes `text` with `quick_xml::escape::escape`; the writer emits the
/// escaped text as it is. The writer appends to a `Vec`, which does not fail.
#[verifier::external_body]
pub(crate) fn write_text(out: &mut Vec<u8>, text: &str)
    ensures
        final(out)@ == old(out)@ + encode_utf8(escaped(text@)),
{
    let _ = Writer::new(out).write_event(Event::Text(BytesText::new(text)));
}

} // verus!
