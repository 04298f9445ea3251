//! A list of strings that can be written out in brackets.

use vstd::prelude::*;
use vstd::string::*;
use crate::hosts::texts;
use crate::text::copy_texts;

verus! {

/// The items, with `separator` between each two of them.
pub open spec fn joined(items: Seq<Seq<char>>, separator: Seq<char>) -> Seq<char>
    decreases items.len(),
{
    if items.len() == 0 {
        Seq::empty()
    } else if items.len() == 1 {
        items[0]
    } else {
        joined(items.drop_last(), separator) + separator + items.last()
    }
}

/// The items between square brackets, a comma and a space between each two.
pub open spec fn listed(items: Seq<Seq<char>>) -> Seq<char> {
    "["@ + joined(items, ", "@) + "]"@
}

/// A list of strings.
#[derive(Debug)]
pub struct StringVec {
    inner: Vec<String>,
}

impl View for StringVec {
    type V = Seq<Seq<char>>;

    closed spec fn view(&self) -> Seq<Seq<char>> {
        texts(self.inner@)
    }
}

impl Clone for StringVec {
    fn clone(&self) -> (copy: StringVec)
        ensures
            copy@ == self@,
    {
        StringVec { inner: copy_texts(&self.inner) }
    }
}

impl StringVec {
    /// The list of `inner`.
    pub fn new(inner: Vec<String>) -> (list: StringVec)
        ensures
            list@ == texts(inner@),
    {
        StringVec { inner }
    }

    /// The list written out: `[first, second, third]`.
    pub fn to_string(&self) -> (line: String)
        ensures
            line@ == listed(self@),
    {
        let mut line = String::from_str("[");
        let ghost items = texts(self.inner@);
        let mut at: usize = 0;
        while at < self.inner.len()
            invariant
                at <= self.inner.len(),
                items == texts(self.inner@),
                line@ == "["@ + joined(items.take(at as int), ", "@),
            decreases self.inner.len() - at,
        {
            proof {
                assert(items.take(at + 1).drop_last() =~= items.take(at as int));
                assert(items.take(at + 1).last() == self.inner@[at as int]@);
            }
            if at > 0 {
                line.append(", ");
            }
            line.append(self.inner[at].as_str());
            at += 1;
        }
        assert(items.take(at as int) =~= items);
        line.append("]");
        line
    }
}

} // verus!
