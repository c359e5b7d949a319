//! Tokens and token trees: what the lexer makes of source text.
use crate::span::Span;
use crate::text::{char_width, text_width, text_width_of, utf8_width};
use crate::word::Word;
use vstd::prelude::*;

verus! {

#[derive(Debug, PartialEq, Eq)]
pub enum Token {
    /// "foo", could be keyword or identifier
    Alphabetic(Word),
    /// "22"
    Number(Word),
    /// A single character from an operator, like "+"
    Op(char),
    /// `(`, `)`, `[`, `]`, `{`, `}`
    Delimiter(char),
    /// Some whitespace (` `, `\n`, etc)
    Whitespace(char),
    /// `# ...`, argument is the length (including `#`).
    Comment(u32),
    /// After an opening delimiter, all the contents up to (but not
    /// including) the closing delimiter.
    Tree(TokenTree),
    /// A string literal, without its quotes.
    String(Word),
    Semicolon,
    Comma,
    /// A character that nothing else accounts for.
    Unknown(char),
}

/// The tokens between two delimiters, or of a whole file.
#[derive(Debug, PartialEq, Eq)]
pub struct TokenTree {
    pub span: Span,
    pub tokens: Vec<Token>,
}

pub enum TokenView {
    Alphabetic(Seq<char>),
    Number(Seq<char>),
    Op(char),
    Delimiter(char),
    Whitespace(char),
    Comment(u32),
    Tree(TokenTreeView),
    String(Seq<char>),
    Semicolon,
    Comma,
    Unknown(char),
}

pub struct TokenTreeView {
    pub span: Span,
    pub tokens: Seq<TokenView>,
}

/// The token that `token` stands for.
pub open spec fn token_view(token: Token) -> TokenView
    decreases token,
{
    match token {
        Token::Alphabetic(w) => TokenView::Alphabetic(w@),
        Token::Number(w) => TokenView::Number(w@),
        Token::Op(c) => TokenView::Op(c),
        Token::Delimiter(c) => TokenView::Delimiter(c),
        Token::Whitespace(c) => TokenView::Whitespace(c),
        Token::Comment(n) => TokenView::Comment(n),
        Token::Tree(tree) => TokenView::Tree(
            TokenTreeView {
                span: tree.span,
                tokens: Seq::new(
                    tree.tokens.len() as nat,
                    |i: int|
                        if 0 <= i < tree.tokens.len() {
                            token_view(tree.tokens[i])
                        } else {
                            TokenView::Semicolon
                        },
                ),
            },
        ),
        Token::String(w) => TokenView::String(w@),
        Token::Semicolon => TokenView::Semicolon,
        Token::Comma => TokenView::Comma,
        Token::Unknown(c) => TokenView::Unknown(c),
    }
}

/// The tokens that `tokens` stand for.
pub open spec fn tokens_view(tokens: Seq<Token>) -> Seq<TokenView> {
    Seq::new(tokens.len(), |i: int| token_view(tokens[i]))
}

impl View for Token {
    type V = TokenView;

    open spec fn view(&self) -> TokenView {
        token_view(*self)
    }
}

impl View for TokenTree {
    type V = TokenTreeView;

    open spec fn view(&self) -> TokenTreeView {
        TokenTreeView { span: self.span, tokens: tokens_view(self.tokens@) }
    }
}

/// The number in the range of `u32` that is nearest to `x`.
pub open spec fn clamp(x: int) -> u32 {
    if x < 0 {
        0
    } else if x > u32::MAX {
        u32::MAX
    } else {
        x as u32
    }
}

/// The number of bytes that a token takes in the source text.
pub open spec fn token_len(token: TokenView) -> int {
    match token {
        TokenView::Alphabetic(w) | TokenView::Number(w) => text_width(w) as int,
        TokenView::Op(c) | TokenView::Delimiter(c) | TokenView::Whitespace(c) | TokenView::Unknown(
            c,
        ) => utf8_width(c) as int,
        TokenView::Comment(n) => n as int,
        TokenView::Tree(tree) => tree.span.end.0 - tree.span.start.0,
        TokenView::String(w) => text_width(w) as int + 2,
        TokenView::Semicolon => 1,
        TokenView::Comma => 1,
    }
}

impl Token {
    /// The number of bytes that the token takes in the source text, cut to
    /// the range of `u32`. The quotes of a string literal count.
    pub fn span_len(&self) -> (r: u32)
        ensures
            r == clamp(token_len(self@)),
    {
        match self {
            Token::Alphabetic(word) | Token::Number(word) => {
                match text_width_of(word.as_str()) {
                    Some(n) => n,
                    None => u32::MAX,
                }
            },
            Token::Op(ch) | Token::Delimiter(ch) | Token::Whitespace(ch) | Token::Unknown(ch) => {
                char_width(*ch)
            },
            Token::Comment(n) => *n,
            Token::Tree(tree) => {
                if tree.span.end.0 >= tree.span.start.0 {
                    tree.span.end.0 - tree.span.start.0
                } else {
                    0
                }
            },
            Token::String(word) => {
                match text_width_of(word.as_str()) {
                    Some(n) => if n <= u32::MAX - 2 {
                        n + 2
                    } else {
                        u32::MAX
                    },
                    None => u32::MAX,
                }
            },
            Token::Semicolon => 1,
            Token::Comma => 1,
        }
    }

    /// The word of an [`Token::Alphabetic`] token.
    pub fn alphabetic(&self) -> (r: Option<&Word>)
        ensures
            match r {
                Some(word) => *self == Token::Alphabetic(*word),
                None => !(self is Alphabetic),
            },
    {
        match self {
            Token::Alphabetic(word) => Some(word),
            _ => None,
        }
    }

    /// The text of an [`Token::Alphabetic`] token.
    pub fn alphabetic_str(&self) -> (r: Option<&str>)
        ensures
            match r {
                Some(text) => self@ == TokenView::Alphabetic(text@),
                None => !(self is Alphabetic),
            },
    {
        match self.alphabetic() {
            Some(word) => Some(word.as_str()),
            None => None,
        }
    }

    /// The tree of a [`Token::Tree`] token.
    pub fn tree(&self) -> (r: Option<&TokenTree>)
        ensures
            match r {
                Some(tree) => *self == Token::Tree(*tree),
                None => !(self is Tree),
            },
    {
        match self {
            Token::Tree(tree) => Some(tree),
            _ => None,
        }
    }
}

} // verus!
