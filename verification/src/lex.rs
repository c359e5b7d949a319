//! The lexer: cuts source text into a tree of tokens.
//!
//! What is between two matching delimiters becomes one token, a tree, that
//! stands between the two delimiter tokens.
use crate::input_file::InputFile;
use crate::span::{Offset, Span};
use crate::text::{
    char_width, chars_of, lemma_width_of_prefix, push_char, text_width, text_width_of, utf8_width,
};
use crate::token::{token_view, tokens_view, Token, TokenTree, TokenTreeView, TokenView};
use crate::word::Word;
use vstd::prelude::*;

verus! {

/// Whether `c` opens a delimited group.
pub open spec fn is_open(c: char) -> bool {
    c == '(' || c == '[' || c == '{'
}

/// The delimiter that closes the group that `c` opens.
pub open spec fn closing_of(c: char) -> char {
    if c == '(' {
        ')'
    } else if c == '[' {
        ']'
    } else {
        '}'
    }
}

/// Whether an identifier or a keyword can start with `c`.
pub open spec fn is_word_start(c: char) -> bool {
    ('a' <= c && c <= 'z') || ('A' <= c && c <= 'Z') || c == '_'
}

pub open spec fn is_digit(c: char) -> bool {
    '0' <= c && c <= '9'
}

/// Whether `c` can stand inside an identifier or a keyword.
pub open spec fn is_word_char(c: char) -> bool {
    is_word_start(c) || is_digit(c)
}

/// Whether `c` is a character that operators are made of.
pub open spec fn is_op_char(c: char) -> bool {
    c == '+' || c == '-' || c == '*' || c == '/' || c == '!' || c == '<' || c == '>' || c == '='
}

/// Whether `c` is white space in the sense of Unicode.
pub open spec fn is_whitespace(c: char) -> bool {
    let code = c as u32;
    (0x09 <= code && code <= 0x0d) || code == 0x20 || code == 0x85 || code == 0xa0 || code
        == 0x1680 || (0x2000 <= code && code <= 0x200a) || code == 0x2028 || code == 0x2029 || code
        == 0x202f || code == 0x205f || code == 0x3000
}

/// The kinds of character runs that the lexer gathers into one token.
#[derive(Clone, Copy, Debug, PartialEq, Eq, Structural)]
pub enum Run {
    /// The characters of an identifier or a keyword.
    Word,
    /// Digits.
    Digits,
    /// Anything up to the next double quote.
    Quoted,
}

/// Whether `c` belongs to a run of kind `run`.
pub open spec fn in_run(run: Run, c: char) -> bool {
    match run {
        Run::Word => is_word_char(c),
        Run::Digits => is_digit(c),
        Run::Quoted => c != '"',
    }
}

/// Where the run of kind `run` that starts at `i` ends.
pub open spec fn run_end(chars: Seq<char>, i: int, run: Run) -> int
    decreases chars.len() - i,
{
    if 0 <= i < chars.len() && in_run(run, chars[i]) {
        run_end(chars, i + 1, run)
    } else {
        i
    }
}

/// The byte offset of the character at index `i`.
pub open spec fn offset_at(chars: Seq<char>, i: int) -> Offset {
    Offset(text_width(chars.take(i)) as u32)
}

/// The token that a character makes on its own.
pub open spec fn single_token(c: char) -> TokenView {
    if is_op_char(c) {
        TokenView::Op(c)
    } else if c == ';' {
        TokenView::Semicolon
    } else if c == ',' {
        TokenView::Comma
    } else if is_whitespace(c) {
        TokenView::Whitespace(c)
    } else {
        TokenView::Unknown(c)
    }
}

/// Tokens together with the index of the first character after them.
pub struct Lexed {
    pub tokens: Seq<TokenView>,
    pub next: int,
}

/// The tokens that start with the character at index `i`: one token, or a
/// delimiter with the tree that follows it and the closing delimiter if
/// there is one.
pub open spec fn lex_token_spec(chars: Seq<char>, i: int) -> Lexed
    decreases chars.len() - i, 0nat,
{
    if i < 0 || i >= chars.len() {
        Lexed { tokens: Seq::empty(), next: i }
    } else {
        let c = chars[i];
        if is_open(c) {
            let inner = lex_tokens_spec(chars, i + 1, Some(closing_of(c)));
            let tree = TokenView::Tree(
                TokenTreeView {
                    span: Span { start: offset_at(chars, i + 1), end: offset_at(chars, inner.next) },
                    tokens: inner.tokens,
                },
            );
            if i < inner.next < chars.len() && chars[inner.next] == closing_of(c) {
                Lexed {
                    tokens: seq![TokenView::Delimiter(c), tree, TokenView::Delimiter(closing_of(c))],
                    next: inner.next + 1,
                }
            } else {
                Lexed { tokens: seq![TokenView::Delimiter(c), tree], next: inner.next }
            }
        } else if is_word_start(c) {
            let end = run_end(chars, i + 1, Run::Word);
            Lexed { tokens: seq![TokenView::Alphabetic(chars.subrange(i, end))], next: end }
        } else if is_digit(c) {
            let end = run_end(chars, i + 1, Run::Digits);
            Lexed { tokens: seq![TokenView::Number(chars.subrange(i, end))], next: end }
        } else if c == '"' {
            let end = run_end(chars, i + 1, Run::Quoted);
            Lexed {
                tokens: seq![TokenView::String(chars.subrange(i + 1, end))],
                next: if end < chars.len() {
                    end + 1
                } else {
                    end
                },
            }
        } else {
            Lexed { tokens: seq![single_token(c)], next: i + 1 }
        }
    }
}

/// The tokens from index `i` up to the next `end_ch` outside any group, or
/// to the end of the text.
pub open spec fn lex_tokens_spec(chars: Seq<char>, i: int, end_ch: Option<char>) -> Lexed
    decreases chars.len() - i, 1nat,
{
    if i < 0 || i >= chars.len() || Some(chars[i]) == end_ch {
        Lexed { tokens: Seq::empty(), next: i }
    } else {
        let first = lex_token_spec(chars, i);
        if first.next <= i || first.next > chars.len() {
            first
        } else {
            let rest = lex_tokens_spec(chars, first.next, end_ch);
            Lexed { tokens: first.tokens + rest.tokens, next: rest.next }
        }
    }
}

/// The token tree of a whole text.
pub open spec fn lex_spec(text: Seq<char>) -> TokenTreeView {
    TokenTreeView {
        span: Span { start: Offset(0), end: offset_at(text, text.len() as int) },
        tokens: lex_tokens_spec(text, 0, None).tokens,
    }
}

/// The delimiter that closes the group that `ch` opens.
pub fn closing_delimiter(ch: char) -> (r: char)
    requires
        is_open(ch),
    ensures
        r == closing_of(ch),
{
    if ch == '(' {
        ')'
    } else if ch == '[' {
        ']'
    } else {
        '}'
    }
}

fn char_is_open(c: char) -> (r: bool)
    ensures
        r == is_open(c),
{
    c == '(' || c == '[' || c == '{'
}

fn char_is_word_start(c: char) -> (r: bool)
    ensures
        r == is_word_start(c),
{
    (c >= 'a' && c <= 'z') || (c >= 'A' && c <= 'Z') || c == '_'
}

fn char_is_digit(c: char) -> (r: bool)
    ensures
        r == is_digit(c),
{
    c >= '0' && c <= '9'
}

fn char_is_op(c: char) -> (r: bool)
    ensures
        r == is_op_char(c),
{
    c == '+' || c == '-' || c == '*' || c == '/' || c == '!' || c == '<' || c == '>' || c == '='
}

pub(crate) fn char_is_whitespace(c: char) -> (r: bool)
    ensures
        r == is_whitespace(c),
{
    let code = c as u32;
    (0x09 <= code && code <= 0x0d) || code == 0x20 || code == 0x85 || code == 0xa0 || code
        == 0x1680 || (0x2000 <= code && code <= 0x200a) || code == 0x2028 || code == 0x2029 || code
        == 0x202f || code == 0x205f || code == 0x3000
}

fn char_in_run(run: Run, c: char) -> (r: bool)
    ensures
        r == in_run(run, c),
{
    match run {
        Run::Word => char_is_word_start(c) || char_is_digit(c),
        Run::Digits => char_is_digit(c),
        Run::Quoted => c != '"',
    }
}

/// The run that starts at `i` ends at or after `i`, within the text.
pub proof fn lemma_run_end_bounds(chars: Seq<char>, i: int, run: Run)
    requires
        0 <= i <= chars.len(),
    ensures
        i <= run_end(chars, i, run) <= chars.len(),
    decreases chars.len() - i,
{
    if i < chars.len() && in_run(run, chars[i]) {
        lemma_run_end_bounds(chars, i + 1, run);
    }
}

/// The width of a text grows by the width of each further character.
pub proof fn lemma_width_step(chars: Seq<char>, i: int)
    requires
        0 <= i < chars.len(),
    ensures
        text_width(chars.take(i + 1)) == text_width(chars.take(i)) + utf8_width(chars[i]),
{
    assert(chars.take(i + 1).drop_last() =~= chars.take(i));
    assert(chars.take(i + 1).last() == chars[i]);
}

/// Appending one element is adding a sequence of one.
proof fn lemma_push_is_add(s: Seq<TokenView>, x: TokenView)
    ensures
        s.push(x) == s + seq![x],
{
    assert(s.push(x) =~= s + seq![x]);
}

/// The token that `c` makes on its own.
fn single(c: char) -> (r: Token)
    ensures
        r@ == single_token(c),
{
    if char_is_op(c) {
        Token::Op(c)
    } else if c == ';' {
        Token::Semicolon
    } else if c == ',' {
        Token::Comma
    } else if char_is_whitespace(c) {
        Token::Whitespace(c)
    } else {
        Token::Unknown(c)
    }
}

/// Appends `token` to `tokens`.
fn push_token(tokens: &mut Vec<Token>, token: Token)
    ensures
        tokens_view(final(tokens)@) == tokens_view(old(tokens)@).push(token@),
{
    tokens.push(token);
    assert(tokens_view(tokens@) =~= tokens_view(old(tokens)@).push(token@));
}

/// A lexer at work on a text.
pub struct Lexer {
    chars: Vec<char>,
    /// The index of the next character.
    pos: usize,
    /// The byte offset of the next character.
    offset: u32,
}

impl Lexer {
    /// The position lies in the text, the byte offset belongs to it, and
    /// every byte offset of the text is below the largest `u32`.
    pub closed spec fn well_formed(&self) -> bool {
        &&& self.pos <= self.chars@.len()
        &&& self.offset == text_width(self.chars@.take(self.pos as int))
        &&& text_width(self.chars@) < u32::MAX
    }

    /// The text that is being read.
    pub closed spec fn text(&self) -> Seq<char> {
        self.chars@
    }

    /// The index of the next character.
    pub closed spec fn position(&self) -> int {
        self.pos as int
    }

    /// A lexer at the start of `text`, if all byte offsets of the text are
    /// below the largest `u32`.
    pub fn new(text: &str) -> (r: Option<Lexer>)
        ensures
            match r {
                Some(lexer) => lexer.well_formed() && lexer.text() == text@ && lexer.position()
                    == 0 && text_width(text@) < u32::MAX,
                None => text_width(text@) >= u32::MAX,
            },
    {
        match text_width_of(text) {
            Some(n) => {
                if n == u32::MAX {
                    None
                } else {
                    let chars = chars_of(text);
                    assert(chars@.take(0) =~= Seq::<char>::empty());
                    Some(Lexer { chars, pos: 0, offset: 0 })
                }
            },
            None => None,
        }
    }

    /// Consumes the next character.
    fn advance(&mut self)
        requires
            old(self).well_formed(),
            old(self).pos < old(self).chars@.len(),
        ensures
            final(self).well_formed(),
            final(self).chars@ == old(self).chars@,
            final(self).pos == old(self).pos + 1,
    {
        proof {
            lemma_width_step(self.chars@, self.pos as int);
            lemma_width_of_prefix(self.chars@, self.pos + 1);
        }
        assert(self.pos < self.chars.len());
        self.offset = self.offset + char_width(self.chars[self.pos]);
        self.pos = self.pos + 1;
    }

    /// Consumes the run of kind `run` that starts at the next character,
    /// and appends it to `string`.
    fn accumulate_string(&mut self, string: &mut String, run: Run)
        requires
            old(self).well_formed(),
        ensures
            final(self).well_formed(),
            final(self).chars@ == old(self).chars@,
            final(self).pos == run_end(old(self).chars@, old(self).pos as int, run),
            final(string)@ == old(string)@ + old(self).chars@.subrange(
                old(self).pos as int,
                final(self).pos as int,
            ),
    {
        let ghost start = self.pos as int;
        assert(string@ =~= old(string)@ + self.chars@.subrange(start, start));
        while self.pos < self.chars.len() && char_in_run(run, self.chars[self.pos])
            invariant
                self.well_formed(),
                self.chars@ == old(self).chars@,
                0 <= start <= self.pos <= self.chars@.len(),
                run_end(self.chars@, start, run) == run_end(self.chars@, self.pos as int, run),
                string@ == old(string)@ + self.chars@.subrange(start, self.pos as int),
            decreases self.chars@.len() - self.pos,
        {
            push_char(string, self.chars[self.pos]);
            assert(self.chars@.subrange(start, self.pos + 1) =~= self.chars@.subrange(
                start,
                self.pos as int,
            ).push(self.chars@[self.pos as int]));
            assert(string@ =~= old(string)@ + self.chars@.subrange(start, self.pos + 1));
            self.advance();
        }
    }

    /// Consumes an identifier, a keyword or a number whose first character
    /// `ch0` has just been consumed.
    fn accumulate(&mut self, ch0: char, run: Run) -> (r: Word)
        requires
            old(self).well_formed(),
            0 < old(self).pos,
            old(self).chars@[old(self).pos - 1] == ch0,
        ensures
            final(self).well_formed(),
            final(self).chars@ == old(self).chars@,
            final(self).pos == run_end(old(self).chars@, old(self).pos as int, run),
            r@ == old(self).chars@.subrange(old(self).pos - 1, final(self).pos as int),
    {
        let mut string = String::new();
        push_char(&mut string, ch0);
        self.accumulate_string(&mut string, run);
        proof {
            lemma_run_end_bounds(self.chars@, old(self).pos as int, run);
            assert(string@ =~= self.chars@.subrange(old(self).pos - 1, self.pos as int));
        }
        Word { string }
    }

    /// Consumes a string literal whose opening quote has just been
    /// consumed, with its closing quote if there is one.
    fn string_literal(&mut self) -> (r: Word)
        requires
            old(self).well_formed(),
        ensures
            final(self).well_formed(),
            final(self).chars@ == old(self).chars@,
            ({
                let end = run_end(old(self).chars@, old(self).pos as int, Run::Quoted);
                &&& r@ == old(self).chars@.subrange(old(self).pos as int, end)
                &&& final(self).pos == if end < old(self).chars@.len() {
                    end + 1
                } else {
                    end
                }
            }),
    {
        let mut string = String::new();
        self.accumulate_string(&mut string, Run::Quoted);
        proof {
            lemma_run_end_bounds(self.chars@, old(self).pos as int, Run::Quoted);
            assert(string@ =~= self.chars@.subrange(old(self).pos as int, self.pos as int));
        }
        if self.pos < self.chars.len() {
            self.advance();
        }
        Word { string }
    }

    /// The byte offset of the next character.
    fn here(&self) -> (r: Offset)
        requires
            self.well_formed(),
        ensures
            r == offset_at(self.chars@, self.pos as int),
    {
        Offset::new(self.offset)
    }

    /// Consumes the tokens that start with the next character, and appends
    /// them to `tokens`.
    fn lex_token(&mut self, tokens: &mut Vec<Token>)
        requires
            old(self).well_formed(),
            old(self).pos < old(self).chars@.len(),
        ensures
            final(self).well_formed(),
            final(self).chars@ == old(self).chars@,
            final(self).pos == lex_token_spec(old(self).chars@, old(self).pos as int).next,
            final(self).pos > old(self).pos,
            tokens_view(final(tokens)@) == tokens_view(old(tokens)@) + lex_token_spec(
                old(self).chars@,
                old(self).pos as int,
            ).tokens,
        decreases old(self).text().len() - old(self).position(), 0nat,
    {
        let ghost before = tokens_view(tokens@);
        let ch = self.chars[self.pos];
        self.advance();
        if char_is_open(ch) {
            let closing = closing_delimiter(ch);
            push_token(tokens, Token::Delimiter(ch));
            let tree = self.lex_tokens(Some(closing));
            let ghost shown = token_view(Token::Tree(tree));
            proof {
                assert(shown->Tree_0.tokens =~= tree@.tokens);
            }
            push_token(tokens, Token::Tree(tree));
            if self.pos < self.chars.len() && self.chars[self.pos] == closing {
                self.advance();
                push_token(tokens, Token::Delimiter(closing));
                assert(before.push(TokenView::Delimiter(ch)).push(shown).push(
                    TokenView::Delimiter(closing),
                ) =~= before + seq![
                    TokenView::Delimiter(ch),
                    shown,
                    TokenView::Delimiter(closing),
                ]);
            } else {
                assert(before.push(TokenView::Delimiter(ch)).push(shown) =~= before + seq![
                    TokenView::Delimiter(ch),
                    shown,
                ]);
            }
        } else {
            let token = if char_is_word_start(ch) {
                Token::Alphabetic(self.accumulate(ch, Run::Word))
            } else if char_is_digit(ch) {
                Token::Number(self.accumulate(ch, Run::Digits))
            } else if ch == '"' {
                Token::String(self.string_literal())
            } else {
                single(ch)
            };
            proof {
                lemma_run_end_bounds(self.chars@, old(self).pos + 1, Run::Word);
                lemma_run_end_bounds(self.chars@, old(self).pos + 1, Run::Digits);
                lemma_run_end_bounds(self.chars@, old(self).pos + 1, Run::Quoted);
                lemma_push_is_add(before, token@);
            }
            push_token(tokens, token);
        }
    }

    /// Consumes the tokens up to the next `end_ch` outside any group, or to
    /// the end of the text, and gives them as a tree.
    pub fn lex_tokens(&mut self, end_ch: Option<char>) -> (tree: TokenTree)
        requires
            old(self).well_formed(),
        ensures
            final(self).well_formed(),
            final(self).text() == old(self).text(),
            final(self).position() == lex_tokens_spec(
                old(self).text(),
                old(self).position(),
                end_ch,
            ).next,
            final(self).position() >= old(self).position(),
            tree@.tokens == lex_tokens_spec(old(self).text(), old(self).position(), end_ch).tokens,
            tree.span == (Span {
                start: offset_at(old(self).text(), old(self).position()),
                end: offset_at(old(self).text(), final(self).position()),
            }),
        decreases old(self).text().len() - old(self).position(), 1nat,
    {
        let start = self.here();
        let mut tokens: Vec<Token> = Vec::new();
        let ghost whole = lex_tokens_spec(self.chars@, self.pos as int, end_ch);
        assert(tokens_view(tokens@) + whole.tokens =~= whole.tokens);
        loop
            invariant
                self.well_formed(),
                self.chars@ == old(self).chars@,
                self.pos >= old(self).pos,
                whole == lex_tokens_spec(old(self).chars@, old(self).pos as int, end_ch),
                whole.tokens == tokens_view(tokens@) + lex_tokens_spec(
                    self.chars@,
                    self.pos as int,
                    end_ch,
                ).tokens,
                whole.next == lex_tokens_spec(self.chars@, self.pos as int, end_ch).next,
            ensures
                self.well_formed(),
                self.chars@ == old(self).chars@,
                self.pos >= old(self).pos,
                whole.tokens == tokens_view(tokens@),
                whole.next == self.pos,
            decreases self.chars@.len() - self.pos,
        {
            if self.pos >= self.chars.len() {
                assert(tokens_view(tokens@) + Seq::<TokenView>::empty() =~= tokens_view(tokens@));
                break;
            }
            let ch = self.chars[self.pos];
            let at_end = match end_ch {
                Some(e) => e == ch,
                None => false,
            };
            if at_end {
                assert(tokens_view(tokens@) + Seq::<TokenView>::empty() =~= tokens_view(tokens@));
                break;
            }
            let ghost before = tokens_view(tokens@);
            let ghost first = lex_token_spec(self.chars@, self.pos as int);
            proof {
                lemma_lex_token_advances(self.chars@, self.pos as int);
            }
            let ghost rest = lex_tokens_spec(self.chars@, first.next, end_ch);
            self.lex_token(&mut tokens);
            assert(before + (first.tokens + rest.tokens) =~= (before + first.tokens) + rest.tokens);
        }
        proof {
            lemma_width_of_prefix(self.chars@, self.pos as int);
            lemma_width_of_prefix(self.chars@, old(self).pos as int);
            lemma_width_of_prefix(self.chars@.take(self.pos as int), old(self).pos as int);
            assert(self.chars@.take(self.pos as int).take(old(self).pos as int) =~= self.chars@.take(
                old(self).pos as int,
            ));
        }
        TokenTree { span: Span::from(start, self.here()), tokens }
    }
}

/// Cuts the text of `input_file` into a token tree. There is none if a byte
/// offset of the text would not fit in a `u32`.
pub fn lex_file(input_file: &InputFile) -> (r: Option<TokenTree>)
    ensures
        match r {
            Some(tree) => text_width(input_file.source_text@) < u32::MAX && tree@ == lex_spec(
                input_file.source_text@,
            ),
            None => text_width(input_file.source_text@) >= u32::MAX,
        },
{
    match Lexer::new(input_file.source_text.as_str()) {
        Some(mut lexer) => {
            let tree = lexer.lex_tokens(None);
            proof {
                lemma_lex_to_end(lexer.chars@, 0);
                assert(lexer.chars@.take(0) =~= Seq::<char>::empty());
            }
            Some(tree)
        },
        None => None,
    }
}

/// Without a closing character to stop at, the lexer reads to the end of
/// the text.
pub proof fn lemma_lex_to_end(chars: Seq<char>, i: int)
    requires
        0 <= i <= chars.len(),
    ensures
        lex_tokens_spec(chars, i, None).next == chars.len(),
    decreases chars.len() - i,
{
    if i < chars.len() {
        let first = lex_token_spec(chars, i);
        lemma_lex_token_advances(chars, i);
        lemma_lex_to_end(chars, first.next);
    }
}

/// Tokens that stop at a closing character or the end of the text stop
/// within the text.
pub proof fn lemma_lex_tokens_bounds(chars: Seq<char>, i: int, end_ch: Option<char>)
    requires
        0 <= i <= chars.len(),
    ensures
        i <= lex_tokens_spec(chars, i, end_ch).next <= chars.len(),
    decreases chars.len() - i, 1nat,
{
    if i < chars.len() && Some(chars[i]) != end_ch {
        let first = lex_token_spec(chars, i);
        lemma_lex_token_advances(chars, i);
        lemma_lex_tokens_bounds(chars, first.next, end_ch);
    }
}

/// A token takes at least one character and ends within the text.
pub proof fn lemma_lex_token_advances(chars: Seq<char>, i: int)
    requires
        0 <= i < chars.len(),
    ensures
        i < lex_token_spec(chars, i).next <= chars.len(),
    decreases chars.len() - i, 0nat,
{
    let c = chars[i];
    if is_open(c) {
        lemma_lex_tokens_bounds(chars, i + 1, Some(closing_of(c)));
    } else if is_word_start(c) {
        lemma_run_end_bounds(chars, i + 1, Run::Word);
    } else if is_digit(c) {
        lemma_run_end_bounds(chars, i + 1, Run::Digits);
    } else if c == '"' {
        lemma_run_end_bounds(chars, i + 1, Run::Quoted);
    }
}

} // verus!
