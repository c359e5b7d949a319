//! Positions in source text.
use crate::input_file::InputFile;
use vstd::prelude::*;
use vstd::string::StringSliceAdditionalSpecFns;
use vstd::utf8::{encode_utf8, is_char_boundary};

verus! {

/// 0-based byte offset within a file.
#[derive(Copy, Clone, Debug, PartialEq, Eq, Structural, PartialOrd, Ord, Hash)]
pub struct Offset(pub u32);

impl Offset {
    pub fn new(value: u32) -> (r: Offset)
        ensures
            r.0 == value,
    {
        Offset(value)
    }

    /// The offset `value`, which has to be below the largest `u32`.
    pub fn from_usize(value: usize) -> (r: Offset)
        requires
            value < u32::MAX,
        ensures
            r.0 == value,
    {
        Offset(value as u32)
    }

    pub fn value(self) -> (r: u32)
        ensures
            r == self.0,
    {
        self.0
    }

    pub fn to_usize(self) -> (r: usize)
        ensures
            r == self.0,
    {
        self.0 as usize
    }

    /// The offset `rhs` bytes further on.
    pub fn plus(self, rhs: u32) -> (r: Offset)
        requires
            self.0 + rhs <= u32::MAX,
        ensures
            r.0 == self.0 + rhs,
    {
        Offset(self.0 + rhs)
    }
}

/// A range of bytes: from `start`, up to but without `end`.
#[derive(Copy, Clone, Debug, PartialEq, Eq, Structural, Hash)]
pub struct Span {
    pub start: Offset,
    pub end: Offset,
}

impl Span {
    /// The span from `start` to `end`, which must not lie before `start`.
    pub fn from(start: Offset, end: Offset) -> (r: Self)
        requires
            start.0 <= end.0,
        ensures
            r == (Span { start, end }),
    {
        Self { start, end }
    }

    /// This span as a span of `anchored`.
    pub fn anchor_to(self, anchored: InputFile) -> (r: FileSpan)
        ensures
            r.input_file == anchored,
            r.start == self.start,
            r.end == self.end,
    {
        FileSpan { input_file: anchored, start: self.start, end: self.end }
    }

    /// The empty span at the start of this one.
    pub fn span_at_start(&self) -> (r: Self)
        ensures
            r == (Span { start: self.start, end: self.start }),
    {
        Self { start: self.start, end: self.start }
    }

    /// The number of bytes in the span.
    pub fn len(&self) -> (r: u32)
        requires
            self.start.0 <= self.end.0,
        ensures
            r == self.end.0 - self.start.0,
    {
        self.end.0 - self.start.0
    }

    pub fn is_empty(&self) -> (r: bool)
        ensures
            r == (self.start == self.end),
    {
        self.start.0 == self.end.0
    }

    /// The span from the start of this one to the end of `other`, which
    /// must neither start before this one nor end before it.
    pub fn to(self, other: Span) -> (r: Span)
        requires
            self.start.0 <= other.start.0,
            other.end.0 >= self.end.0,
        ensures
            r == (Span { start: self.start, end: other.end }),
    {
        Span { start: self.start, end: other.end }
    }
}

/// A span together with the file it lies in.
#[derive(Debug, PartialEq, Eq, Hash)]
pub struct FileSpan {
    pub input_file: InputFile,
    pub start: Offset,
    pub end: Offset,
}

/// Whether `start..end` can be cut out of a text with the bytes `bytes`:
/// the range is in order and both ends fall between two characters.
pub open spec fn can_cut(bytes: Seq<u8>, start: int, end: int) -> bool {
    &&& 0 <= start <= end <= bytes.len()
    &&& is_char_boundary(bytes, end)
    &&& is_char_boundary(bytes.subrange(0, end), start)
}

impl Clone for FileSpan {
    fn clone(&self) -> (r: Self)
        ensures
            r == *self,
    {
        FileSpan { input_file: self.input_file.clone(), start: self.start, end: self.end }
    }
}

impl FileSpan {
    /// The text of the span, if its two ends fall between characters of
    /// the file.
    pub fn snippet(&self) -> (r: Option<&str>)
        ensures
            match r {
                Some(text) => {
                    &&& can_cut(
                        encode_utf8(self.input_file.source_text@),
                        self.start.0 as int,
                        self.end.0 as int,
                    )
                    &&& text.spec_bytes() == encode_utf8(self.input_file.source_text@).subrange(
                        self.start.0 as int,
                        self.end.0 as int,
                    )
                },
                None => !can_cut(
                    encode_utf8(self.input_file.source_text@),
                    self.start.0 as int,
                    self.end.0 as int,
                ),
            },
    {
        let text = self.input_file.source_text.as_str();
        let start = self.start.0 as usize;
        let end = self.end.0 as usize;
        let len = text.as_bytes().len();
        if start <= end && end <= len && text.is_char_boundary(end) {
            let (head, _) = text.split_at(end);
            assert(head.spec_bytes() == text.spec_bytes().subrange(0, end as int));
            if head.is_char_boundary(start) {
                let (_, tail) = head.split_at(start);
                proof {
                    let bytes = encode_utf8(self.input_file.source_text@);
                    assert(text.spec_bytes() == bytes);
                    assert(head.spec_bytes() == bytes.subrange(0, end as int));
                    assert(tail.spec_bytes() =~= bytes.subrange(start as int, end as int));
                    assert(can_cut(bytes, start as int, end as int));
                }
                Some(tail)
            } else {
                None
            }
        } else {
            None
        }
    }

    /// True if the given offset falls within this span.
    pub fn contains(&self, offset: Offset) -> (r: bool)
        ensures
            r == (self.start.0 <= offset.0 < self.end.0),
    {
        self.start.0 <= offset.0 && offset.0 < self.end.0
    }
}

} // verus!
