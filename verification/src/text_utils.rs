//! Text collections: the elements of a text argument (string, string
//! array, character matrix rows or cell of character vectors) in storage
//! order, some of which may be missing strings.

use vstd::prelude::*;
use crate::text::{str_lowercase, unicode_str_lowercase};

verus! {

/// One element of a text collection: a missing string, or text.
pub enum TextElement {
    Missing,
    Text(String),
}

/// Text elements in storage order, with the shape of the array holding
/// them.
pub struct TextCollection {
    pub elements: Vec<TextElement>,
    pub shape: Vec<usize>,
}

/// The lower-cased texts of a sequence of elements, `None` for missing ones.
pub open spec fn lowered(es: Seq<TextElement>) -> Seq<Option<Seq<char>>> {
    Seq::new(es.len(), |i: int| match es[i] {
        TextElement::Missing => None,
        TextElement::Text(t) => Some(unicode_str_lowercase(t@)),
    })
}

impl TextCollection {
    /// The lower-cased text of each element; missing elements stay missing.
    pub fn lowercased(&self) -> (r: Vec<Option<String>>)
        ensures
            r@.len() == self.elements@.len(),
            forall|i: int| 0 <= i < r@.len() ==> match (#[trigger] r@[i], lowered(self.elements@)[i]) {
                (Some(a), Some(b)) => a@ == b,
                (None, None) => true,
                _ => false,
            },
    {
        let mut r: Vec<Option<String>> = Vec::new();
        let mut i: usize = 0;
        while i < self.elements.len()
            invariant
                i <= self.elements@.len(),
                r@.len() == i,
                forall|j: int| 0 <= j < i ==> match (#[trigger] r@[j], lowered(self.elements@)[j]) {
                    (Some(a), Some(b)) => a@ == b,
                    (None, None) => true,
                    _ => false,
                },
            decreases self.elements@.len() - i,
        {
            match &self.elements[i] {
                TextElement::Missing => r.push(None),
                TextElement::Text(t) => r.push(Some(str_lowercase(t.as_str()))),
            }
            i = i + 1;
        }
        r
    }
}

} // verus!
