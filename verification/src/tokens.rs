//! A cursor over the tokens of one tree. It never rests on white space or
//! on a comment.
use crate::span::{Offset, Span};
use crate::token::{clamp, token_len, tokens_view, Token, TokenTree, TokenView};
use vstd::prelude::*;

verus! {

/// Whether the parser passes over a token.
pub open spec fn is_trivia(token: TokenView) -> bool {
    token is Whitespace || token is Comment
}

/// The offset just behind `token`, if `token` starts at `offset`. Offsets
/// stop at the largest `u32`.
pub open spec fn offset_behind(offset: u32, token: TokenView) -> u32 {
    clamp(offset + clamp(token_len(token)))
}

/// Where a cursor stands.
pub struct CursorView {
    /// The index of the next token.
    pub index: int,
    /// The byte offset of the next token.
    pub offset: u32,
    /// Whether white space or a comment stands just before the next token.
    pub skipped: bool,
    /// The span of the token that was consumed last.
    pub last: Span,
}

/// The cursor after the white space and the comments at which it stands.
pub open spec fn skip_trivia(tokens: Seq<TokenView>, cursor: CursorView) -> CursorView
    decreases tokens.len() - cursor.index,
{
    if 0 <= cursor.index < tokens.len() && is_trivia(tokens[cursor.index]) {
        skip_trivia(
            tokens,
            CursorView {
                index: cursor.index + 1,
                offset: offset_behind(cursor.offset, tokens[cursor.index]),
                skipped: true,
                ..cursor
            },
        )
    } else {
        cursor
    }
}

/// The cursor at the first token of a tree that starts at `base`.
pub open spec fn start_cursor(tokens: Seq<TokenView>, base: Offset) -> CursorView {
    skip_trivia(
        tokens,
        CursorView { index: 0, offset: base.0, skipped: false, last: Span { start: base, end: base } },
    )
}

/// The next token.
pub open spec fn peek(tokens: Seq<TokenView>, cursor: CursorView) -> Option<TokenView> {
    if 0 <= cursor.index < tokens.len() {
        Some(tokens[cursor.index])
    } else {
        None
    }
}

/// The span of the next token; at the end, the empty span there.
pub open spec fn peek_span(tokens: Seq<TokenView>, cursor: CursorView) -> Span {
    match peek(tokens, cursor) {
        Some(token) => Span {
            start: Offset(cursor.offset),
            end: Offset(offset_behind(cursor.offset, token)),
        },
        None => Span { start: Offset(cursor.offset), end: Offset(cursor.offset) },
    }
}

/// The cursor behind the next token, and behind the white space and the
/// comments that follow it.
pub open spec fn consume(tokens: Seq<TokenView>, cursor: CursorView) -> CursorView {
    match peek(tokens, cursor) {
        Some(token) => {
            let next = skip_trivia(
                tokens,
                CursorView {
                    index: cursor.index + 1,
                    offset: offset_behind(cursor.offset, token),
                    skipped: false,
                    last: peek_span(tokens, cursor),
                },
            );
            // Skipping never moves a cursor back or beyond the end.
            if cursor.index < next.index <= tokens.len() {
                next
            } else {
                CursorView { index: cursor.index + 1, ..next }
            }
        },
        None => cursor,
    }
}

/// Skipping moves a cursor forward, and not beyond the end.
pub proof fn lemma_skip_trivia_bounds(tokens: Seq<TokenView>, cursor: CursorView)
    requires
        0 <= cursor.index <= tokens.len(),
    ensures
        cursor.index <= skip_trivia(tokens, cursor).index <= tokens.len(),
        skip_trivia(tokens, cursor).last == cursor.last,
    decreases tokens.len() - cursor.index,
{
    if cursor.index < tokens.len() && is_trivia(tokens[cursor.index]) {
        lemma_skip_trivia_bounds(
            tokens,
            CursorView {
                index: cursor.index + 1,
                offset: offset_behind(cursor.offset, tokens[cursor.index]),
                skipped: true,
                ..cursor
            },
        );
    }
}

/// The offset just behind `token`, if `token` starts at `offset`.
fn behind(offset: u32, token: &Token) -> (r: u32)
    ensures
        r == offset_behind(offset, token@),
{
    let len = token.span_len();
    if offset <= u32::MAX - len {
        offset + len
    } else {
        u32::MAX
    }
}

/// A cursor over the tokens of one tree.
#[derive(Clone, Copy, Debug)]
pub struct Tokens<'a> {
    tokens: &'a Vec<Token>,
    index: usize,
    offset: u32,
    skipped: bool,
    last: Span,
}

impl<'a> View for Tokens<'a> {
    type V = CursorView;

    closed spec fn view(&self) -> CursorView {
        CursorView {
            index: self.index as int,
            offset: self.offset,
            skipped: self.skipped,
            last: self.last,
        }
    }
}

impl<'a> Tokens<'a> {
    /// The tokens that the cursor runs over.
    pub closed spec fn tokens(&self) -> Seq<TokenView> {
        tokens_view(self.tokens@)
    }

    /// The cursor stands within its tokens or at their end.
    pub closed spec fn well_formed(&self) -> bool {
        self.index <= self.tokens@.len()
    }

    /// A cursor stands within its tokens or at their end.
    pub proof fn lemma_in_bounds(&self)
        requires
            self.well_formed(),
        ensures
            0 <= self@.index <= self.tokens().len(),
    {
    }

    /// Passes over white space and comments.
    fn skip(&mut self)
        requires
            old(self).well_formed(),
        ensures
            final(self).well_formed(),
            final(self).tokens() == old(self).tokens(),
            final(self)@ == skip_trivia(old(self).tokens(), old(self)@),
    {
        while self.index < self.tokens.len() && is_skipped(&self.tokens[self.index])
            invariant
                self.well_formed(),
                self.tokens == old(self).tokens,
                skip_trivia(old(self).tokens(), old(self)@) == skip_trivia(self.tokens(), self@),
            decreases self.tokens@.len() - self.index,
        {
            self.offset = behind(self.offset, &self.tokens[self.index]);
            self.index = self.index + 1;
            self.skipped = true;
        }
    }

    /// A cursor at the first token of `tree`.
    pub fn new(tree: &'a TokenTree) -> (r: Self)
        ensures
            r.well_formed(),
            r.tokens() == tree@.tokens,
            r@ == start_cursor(tree@.tokens, tree.span.start),
    {
        let mut r = Tokens {
            tokens: &tree.tokens,
            index: 0,
            offset: tree.span.start.0,
            skipped: false,
            last: Span { start: tree.span.start, end: tree.span.start },
        };
        r.skip();
        r
    }

    /// The next token.
    pub fn peek(&self) -> (r: Option<&'a Token>)
        requires
            self.well_formed(),
        ensures
            match r {
                Some(token) => peek(self.tokens(), self@) == Some(token@),
                None => peek(self.tokens(), self@) is None,
            },
    {
        if self.index < self.tokens.len() {
            Some(&self.tokens[self.index])
        } else {
            None
        }
    }

    /// The span of the next token.
    pub fn peek_span(&self) -> (r: Span)
        requires
            self.well_formed(),
        ensures
            r == peek_span(self.tokens(), self@),
    {
        if self.index < self.tokens.len() {
            Span {
                start: Offset(self.offset),
                end: Offset(behind(self.offset, &self.tokens[self.index])),
            }
        } else {
            Span { start: Offset(self.offset), end: Offset(self.offset) }
        }
    }

    /// The index of the next token.
    pub fn position(&self) -> (r: usize)
        ensures
            r == self@.index,
    {
        self.index
    }

    /// The span of the token that was consumed last.
    pub fn last_span(&self) -> (r: Span)
        ensures
            r == self@.last,
    {
        self.last
    }

    /// Whether white space or a comment stands just before the next token.
    pub fn skipped_any(&self) -> (r: bool)
        ensures
            r == self@.skipped,
    {
        self.skipped
    }

    /// Moves behind the next token and returns it.
    pub fn consume(&mut self) -> (r: Option<&'a Token>)
        requires
            old(self).well_formed(),
        ensures
            final(self).well_formed(),
            final(self).tokens() == old(self).tokens(),
            final(self)@ == consume(old(self).tokens(), old(self)@),
            match r {
                Some(token) => peek(old(self).tokens(), old(self)@) == Some(token@),
                None => peek(old(self).tokens(), old(self)@) is None,
            },
    {
        if self.index < self.tokens.len() {
            let token = &self.tokens[self.index];
            self.last = self.peek_span();
            self.offset = behind(self.offset, token);
            self.index = self.index + 1;
            self.skipped = false;
            proof {
                lemma_skip_trivia_bounds(self.tokens(), self@);
            }
            self.skip();
            Some(token)
        } else {
            None
        }
    }
}

/// Whether the parser passes over `token`.
fn is_skipped(token: &Token) -> (r: bool)
    ensures
        r == is_trivia(token@),
{
    match token {
        Token::Whitespace(_) => true,
        Token::Comment(_) => true,
        _ => false,
    }
}

} // verus!
