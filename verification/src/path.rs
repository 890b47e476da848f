//! The chain of elements that are open at a point of a document.

use vstd::prelude::*;
use vstd::string::StringExecFns;
use crate::values::{LeafValue, XmlValue};

verus! {

/// The names joined by `/`, first name first; empty for no names.
pub open spec fn joined(names: Seq<Seq<char>>) -> Seq<char>
    decreases names.len(),
{
    if names.len() == 0 {
        Seq::empty()
    } else if names.len() == 1 {
        names[0]
    } else {
        joined(names.drop_last()) + seq!['/'] + names.last()
    }
}

/// The leaf value that `text` makes inside the innermost of the open
/// elements `stack`: the path is made of the elements around that one.
pub open spec fn leaf_in(stack: Seq<Seq<char>>, text: Seq<char>) -> LeafValue
    recommends
        stack.len() > 0,
{
    LeafValue { path: joined(stack.drop_last()), name: stack.last(), value: text }
}

/// The names of the elements that are open, outermost first.
pub struct PathStack {
    names: Vec<String>,
}

impl View for PathStack {
    type V = Seq<Seq<char>>;

    closed spec fn view(&self) -> Seq<Seq<char>> {
        self.names@.map_values(|name: String| name@)
    }
}

impl PathStack {
    /// No element is open.
    pub fn new() -> (stack: Self)
        ensures
            stack@ == Seq::<Seq<char>>::empty(),
    {
        let stack = PathStack { names: Vec::new() };
        assert(stack@ =~= Seq::<Seq<char>>::empty());
        stack
    }

    /// How many elements are open.
    pub fn depth(&self) -> (n: usize)
        ensures
            n == self@.len(),
    {
        self.names.len()
    }

    /// Opens an element inside the innermost one.
    pub fn enter(&mut self, name: String)
        ensures
            final(self)@ == old(self)@.push(name@),
    {
        self.names.push(name);
        assert(self@ =~= old(self)@.push(name@));
    }

    /// Closes the innermost element. Says `false`, and changes nothing,
    /// where no element is open.
    pub fn leave(&mut self) -> (closed: bool)
        ensures
            closed == (old(self)@.len() > 0),
            final(self)@ == if closed {
                old(self)@.drop_last()
            } else {
                old(self)@
            },
    {
        let left = self.names.pop();
        assert(self@ =~= if left is Some {
            old(self)@.drop_last()
        } else {
            old(self)@
        });
        left.is_some()
    }

    /// The names of all open elements but the innermost, joined by `/`.
    pub fn path(&self) -> (path: String)
        requires
            self@.len() > 0,
        ensures
            path@ == joined(self@.drop_last()),
    {
        let around: usize = self.names.len() - 1;
        let ghost outer = self@.drop_last();
        let mut path = String::new();
        let mut i: usize = 0;
        while i < around
            invariant
                around == self.names.len() - 1,
                outer == self@.drop_last(),
                i <= around,
                path@ == joined(outer.take(i as int)),
            decreases around - i,
        {
            proof {
                reveal_strlit("/");
                let seen = outer.take(i as int);
                let next = outer.take(i + 1);
                assert(next.drop_last() =~= seen);
                assert(next.last() == self.names[i as int]@);
                assert("/"@ =~= seq!['/']);
            }
            if i > 0 {
                path.append("/");
            }
            path.append(self.names[i].as_str());
            i = i + 1;
        }
        assert(outer.take(around as int) =~= outer);
        path
    }

    /// The leaf value that `text` makes inside the innermost open element.
    pub fn leaf(&self, text: String) -> (leaf: XmlValue)
        requires
            self@.len() > 0,
        ensures
            leaf@ == leaf_in(self@, text@),
    {
        let path = self.path();
        let name = self.names[self.names.len() - 1].clone();
        XmlValue { path, name, value: text }
    }
}

} // verus!
