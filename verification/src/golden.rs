//! Which source files the expectation tests pass over.
use crate::lex::is_whitespace;
use crate::text::chars_of;
use vstd::prelude::*;

verus! {

/// The mark that makes the tests pass over a file.
pub open spec fn ignore_mark() -> Seq<char> {
    seq!['#', ' ', 'i', 'g', 'n', 'o', 'r', 'e']
}

/// Whether a line starts at index `i` of `text`.
pub open spec fn line_start(text: Seq<char>, i: int) -> bool {
    0 <= i <= text.len() && (i == 0 || text[i - 1] == '\n')
}

/// Whether only white space within one line stands from `i` up to `j`.
pub open spec fn blank_between(text: Seq<char>, i: int, j: int) -> bool {
    forall|k: int| i <= k < j ==> is_whitespace(#[trigger] text[k]) && text[k] != '\n'
}

/// Whether index `j` is where the text of a line starts, behind white
/// space at most.
pub open spec fn text_starts(text: Seq<char>, j: int) -> bool {
    exists|i: int| #[trigger] line_start(text, i) && i <= j && blank_between(text, i, j)
}

/// Whether the ignore mark stands at index `j`.
pub open spec fn marked_at(text: Seq<char>, j: int) -> bool {
    0 <= j && j + 8 <= text.len() && text.subrange(j, j + 8) == ignore_mark()
}

/// Whether some line of `text` has `# ignore` as its first characters
/// that are not white space.
pub open spec fn has_ignore_line(text: Seq<char>) -> bool {
    exists|j: int| #[trigger] text_starts(text, j) && marked_at(text, j)
}

/// The text of a line starts behind a line feed, and behind white space
/// if it starts before that.
proof fn lemma_text_starts_next(text: Seq<char>, j: int)
    requires
        0 <= j < text.len(),
    ensures
        text_starts(text, j + 1) <==> text[j] == '\n' || (text_starts(text, j) && is_whitespace(
            text[j],
        )),
{
    if text[j] == '\n' {
        assert(line_start(text, j + 1));
        assert(blank_between(text, j + 1, j + 1));
    } else {
        if text_starts(text, j) && is_whitespace(text[j]) {
            let i = choose|i: int| #[trigger] line_start(text, i) && i <= j && blank_between(text, i, j);
            assert(blank_between(text, i, j + 1));
        }
        if text_starts(text, j + 1) {
            let i = choose|i: int|
                #[trigger] line_start(text, i) && i <= j + 1 && blank_between(text, i, j + 1);
            assert(i <= j);
            assert(is_whitespace(text[j]));
            assert(blank_between(text, i, j));
        }
    }
}

/// Whether the ignore mark stands at index `at` of `chars`.
fn is_marked(chars: &Vec<char>, at: usize) -> (r: bool)
    requires
        at <= chars@.len(),
    ensures
        r == marked_at(chars@, at as int),
{
    let len = chars.len();
    if len < 8 || at > len - 8 {
        return false;
    }
    let r = chars[at] == '#' && chars[at + 1] == ' ' && chars[at + 2] == 'i' && chars[at + 3] == 'g'
        && chars[at + 4] == 'n' && chars[at + 5] == 'o' && chars[at + 6] == 'r' && chars[at + 7]
        == 'e';
    proof {
        let part = chars@.subrange(at as int, at + 8);
        if r {
            assert(part =~= ignore_mark());
        } else {
            assert(part[0] == chars@[at as int]);
            assert(part[1] == chars@[at + 1]);
            assert(part[2] == chars@[at + 2]);
            assert(part[3] == chars@[at + 3]);
            assert(part[4] == chars@[at + 4]);
            assert(part[5] == chars@[at + 5]);
            assert(part[6] == chars@[at + 6]);
            assert(part[7] == chars@[at + 7]);
        }
    }
    r
}

/// Whether the tests pass over a source text: whether one of its lines has
/// `# ignore` as its first characters that are not white space.
pub fn is_ignored(source: &str) -> (r: bool)
    ensures
        r == has_ignore_line(source@),
{
    let chars = chars_of(source);
    let mut starts = true;
    let mut j: usize = 0;
    proof {
        assert(line_start(chars@, 0));
        assert(blank_between(chars@, 0, 0));
    }
    while j < chars.len()
        invariant
            j <= chars@.len(),
            chars@ == source@,
            starts == text_starts(chars@, j as int),
            forall|k: int|
                0 <= k < j ==> !(#[trigger] text_starts(chars@, k) && marked_at(chars@, k)),
        decreases chars@.len() - j,
    {
        if starts && is_marked(&chars, j) {
            return true;
        }
        proof {
            lemma_text_starts_next(chars@, j as int);
        }
        let c = chars[j];
        if c == '\n' {
            starts = true;
        } else if !crate::lex::char_is_whitespace(c) {
            starts = false;
        }
        j += 1;
    }
    proof {
        assert forall|k: int| !(#[trigger] text_starts(chars@, k) && marked_at(chars@, k)) by {
            if text_starts(chars@, k) && marked_at(chars@, k) {
                assert(k < j);
            }
        }
    }
    false
}

} // verus!
