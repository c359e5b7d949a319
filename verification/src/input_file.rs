//! Source files.
use crate::word::Word;
use vstd::prelude::*;

verus! {

/// A source file: its name and its text.
#[derive(Debug, PartialEq, Eq, Hash)]
pub struct InputFile {
    pub name: Word,
    /// The raw contents of the input file.
    pub source_text: String,
}

impl Clone for InputFile {
    fn clone(&self) -> (r: Self)
        ensures
            r == *self,
    {
        InputFile { name: Word { string: self.name.string.clone() }, source_text: self.source_text.clone() }
    }
}

impl InputFile {
    pub fn new(name: Word, source_text: String) -> (r: Self)
        ensures
            r.name == name,
            r.source_text == source_text,
    {
        Self { name, source_text }
    }

    pub fn name(&self) -> (r: &Word)
        ensures
            *r == self.name,
    {
        &self.name
    }

    pub fn source_text(&self) -> (r: &String)
        ensures
            *r == self.source_text,
    {
        &self.source_text
    }
}

} // verus!
