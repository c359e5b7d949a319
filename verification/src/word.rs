//! Words: the text of identifiers, numbers and string literals.
use vstd::prelude::*;
use vstd::string::StringExecFns;

verus! {

/// A piece of source text that stands for itself.
#[derive(Debug, PartialEq, Eq, Hash)]
pub struct Word {
    pub string: String,
}

impl View for Word {
    type V = Seq<char>;

    open spec fn view(&self) -> Seq<char> {
        self.string@
    }
}

impl Clone for Word {
    fn clone(&self) -> (r: Self)
        ensures
            r@ == self@,
    {
        Word { string: self.string.clone() }
    }
}

impl Word {
    /// The word with the text of `string`.
    pub fn intern(string: &str) -> (r: Word)
        ensures
            r@ == string@,
    {
        Word { string: String::from_str(string) }
    }

    /// The text of the word.
    pub fn as_str(&self) -> (r: &str)
        ensures
            r@ == self@,
    {
        self.string.as_str()
    }
}

} // verus!
