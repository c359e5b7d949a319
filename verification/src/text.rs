//! Small helpers on strings and characters.
use vstd::prelude::*;
use vstd::std_specs::iter::IteratorSpec;

verus! {

/// `String::push`. Trusted: the character is appended to the text.
#[verifier::external_body]
pub(crate) fn push_char(s: &mut String, c: char)
    ensures
        final(s)@ == old(s)@.push(c),
{
    s.push(c)
}

/// The characters of `s`, in order.
pub fn chars_of(s: &str) -> (r: Vec<char>)
    ensures
        r@ == s@,
{
    broadcast use vstd::string::group_string_axioms;

    let mut out: Vec<char> = Vec::new();
    for c in it: s.chars()
        invariant
            it.seq() == s@,
            out@ == s@.subrange(0, it.index() as int),
    {
        out.push(c);
    }
    out
}

/// The number of bytes that a character takes in UTF-8.
pub open spec fn utf8_width(c: char) -> nat {
    if (c as u32) < 0x80 {
        1
    } else if (c as u32) < 0x800 {
        2
    } else if (c as u32) < 0x10000 {
        3
    } else {
        4
    }
}

/// The number of bytes that a text takes in UTF-8.
pub open spec fn text_width(text: Seq<char>) -> nat
    decreases text.len(),
{
    if text.len() == 0 {
        0
    } else {
        text_width(text.drop_last()) + utf8_width(text.last())
    }
}

/// A prefix of a text is no wider than the text.
pub proof fn lemma_width_of_prefix(text: Seq<char>, n: int)
    requires
        0 <= n <= text.len(),
    ensures
        text_width(text.take(n)) <= text_width(text),
    decreases text.len(),
{
    if n == text.len() {
        assert(text.take(n) =~= text);
    } else {
        lemma_width_of_prefix(text.drop_last(), n);
        assert(text.drop_last().take(n) =~= text.take(n));
    }
}

/// The number of bytes that `c` takes in UTF-8.
pub fn char_width(c: char) -> (r: u32)
    ensures
        r == utf8_width(c),
{
    let code = c as u32;
    if code < 0x80 {
        1
    } else if code < 0x800 {
        2
    } else if code < 0x10000 {
        3
    } else {
        4
    }
}

/// The number of bytes that `text` takes in UTF-8, if that is a `u32`.
pub fn text_width_of(text: &str) -> (r: Option<u32>)
    ensures
        match r {
            Some(n) => n == text_width(text@),
            None => text_width(text@) > u32::MAX,
        },
{
    let chars = chars_of(text);
    let mut total: u32 = 0;
    let mut i: usize = 0;
    assert(chars@.take(0) =~= Seq::<char>::empty());
    while i < chars.len()
        invariant
            i <= chars.len(),
            chars@ == text@,
            total == text_width(chars@.take(i as int)),
        decreases chars.len() - i,
    {
        let w = char_width(chars[i]);
        proof {
            assert(chars@.take(i + 1).drop_last() =~= chars@.take(i as int));
            assert(chars@.take(i + 1).last() == chars@[i as int]);
        }
        if total > u32::MAX - w {
            proof {
                lemma_width_of_prefix(chars@, i + 1);
            }
            return None;
        }
        total = total + w;
        i += 1;
    }
    assert(chars@.take(i as int) =~= chars@);
    Some(total)
}

} // verus!
