//! The unit of editable data: one leaf text node with its address.

use vstd::prelude::*;

verus! {

/// What a leaf value is, as a mathematical value.
pub struct LeafValue {
    /// Names of the ancestor elements, outermost first, joined by `/`.
    pub path: Seq<char>,
    /// Name of the element that holds the text.
    pub name: Seq<char>,
    /// The text, with XML entities resolved.
    pub value: Seq<char>,
}

/// One editable text node of a document.
#[derive(Debug)]
pub struct XmlValue {
    pub path: String,
    pub name: String,
    pub value: String,
}

impl View for XmlValue {
    type V = LeafValue;

    open spec fn view(&self) -> LeafValue {
        LeafValue { path: self.path@, name: self.name@, value: self.value@ }
    }
}

impl Clone for XmlValue {
    fn clone(&self) -> (copy: Self)
        ensures
            copy@ == self@,
    {
        XmlValue { path: self.path.clone(), name: self.name.clone(), value: self.value.clone() }
    }
}

impl LeafValue {
    /// Whether this value stands at `path` under `name`.
    pub open spec fn has_key(self, path: Seq<char>, name: Seq<char>) -> bool {
        self.path == path && self.name == name
    }
}

/// The views of the values, in order.
pub open spec fn leaf_views(values: Seq<XmlValue>) -> Seq<LeafValue> {
    values.map_values(|value: XmlValue| value@)
}

/// The index of the first of `entries` that stands at `path` under `name`.
pub open spec fn first_match(entries: Seq<LeafValue>, path: Seq<char>, name: Seq<char>) -> Option<
    int,
>
    decreases entries.len(),
{
    if entries.len() == 0 {
        None
    } else if entries[0].has_key(path, name) {
        Some(0)
    } else {
        match first_match(entries.skip(1), path, name) {
            Some(i) => Some(i + 1),
            None => None,
        }
    }
}

/// `first_match` gives an entry with the key that no earlier entry has, and
/// gives none only where no entry has the key.
pub proof fn lemma_first_match(entries: Seq<LeafValue>, path: Seq<char>, name: Seq<char>)
    ensures
        match first_match(entries, path, name) {
            Some(i) => {
                &&& 0 <= i < entries.len()
                &&& entries[i].has_key(path, name)
                &&& forall|j: int| 0 <= j < i ==> !(#[trigger] entries[j]).has_key(path, name)
            },
            None => forall|j: int|
                0 <= j < entries.len() ==> !(#[trigger] entries[j]).has_key(path, name),
        },
    decreases entries.len(),
{
    if entries.len() > 0 && !entries[0].has_key(path, name) {
        let rest = entries.skip(1);
        lemma_first_match(rest, path, name);
        match first_match(rest, path, name) {
            Some(i) => {
                assert forall|j: int| 0 <= j < i + 1 implies !(#[trigger] entries[j]).has_key(
                    path,
                    name,
                ) by {
                    if j > 0 {
                        assert(entries[j] == rest[j - 1]);
                    }
                }
            },
            None => {
                assert forall|j: int| 0 <= j < entries.len() implies !(#[trigger] entries[j]).has_key(
                    path,
                    name,
                ) by {
                    if j > 0 {
                        assert(entries[j] == rest[j - 1]);
                    }
                }
            },
        }
    }
}

/// An entry with the key that no earlier entry has is the first match.
pub proof fn lemma_first_match_is(
    entries: Seq<LeafValue>,
    path: Seq<char>,
    name: Seq<char>,
    i: int,
)
    requires
        0 <= i < entries.len(),
        entries[i].has_key(path, name),
        forall|j: int| 0 <= j < i ==> !(#[trigger] entries[j]).has_key(path, name),
    ensures
        first_match(entries, path, name) == Some(i),
{
    lemma_first_match(entries, path, name);
}

/// Finds the first of `values` that stands at `path` under `name`.
pub fn find_entry(values: &[XmlValue], path: &String, name: &String) -> (found: Option<usize>)
    ensures
        match found {
            Some(i) => {
                &&& i < values.len()
                &&& values[i as int]@.has_key(path@, name@)
                &&& forall|j: int| 0 <= j < i ==> !(#[trigger] values[j])@.has_key(path@, name@)
            },
            None => forall|j: int|
                0 <= j < values.len() ==> !(#[trigger] values[j])@.has_key(path@, name@),
        },
        first_match(leaf_views(values@), path@, name@) == match found {
            Some(i) => Some(i as int),
            None => None,
        },
{
    let ghost entries = leaf_views(values@);
    let mut i: usize = 0;
    while i < values.len()
        invariant
            i <= values.len(),
            entries == leaf_views(values@),
            forall|j: int| 0 <= j < i ==> !(#[trigger] entries[j]).has_key(path@, name@),
            forall|j: int| 0 <= j < i ==> !(#[trigger] values[j])@.has_key(path@, name@),
        decreases values.len() - i,
    {
        assert(entries[i as int] == values[i as int]@);
        if values[i].name == *name && values[i].path == *path {
            proof {
                lemma_first_match_is(entries, path@, name@, i as int);
            }
            return Some(i);
        }
        i = i + 1;
    }
    proof {
        lemma_first_match(entries, path@, name@);
    }
    None
}

} // verus!
