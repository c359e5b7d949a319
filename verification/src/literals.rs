//! Literals survive being written out and read again.
use crate::diagnostic::{diagnostics_view, Diagnostic};
use crate::input_file::InputFile;
use crate::lex::{in_run, lex_file, lex_spec, lex_token_spec, lex_tokens_spec, run_end, Run};
use crate::number::all_digits;
use crate::op::Op;
use crate::parse_spec::{
    advance, assignment_spec, binary_rest_spec, binary_spec, call_rest_spec, call_spec, done,
    eat_any_op, eat_op_spec, level_ops, logic_and_rest_spec, logic_and_spec, logic_or_rest_spec,
    logic_or_spec, operand_spec, primary_spec, unary_spec, ParseState,
};
use crate::parser::Parser;
use crate::syntax::{Expr, ExprView};
use crate::text::{push_char, text_width};
use crate::token::{TokenTreeView, TokenView};
use crate::tokens::{peek, skip_trivia, start_cursor};
use vstd::prelude::*;
use vstd::string::StringExecFns;

verus! {

/// How a literal is written in source text: a number as its digits, a
/// string between double quotes. Other expressions are no literals.
pub open spec fn literal_text(expr: ExprView) -> Option<Seq<char>> {
    match expr {
        ExprView::NumberLiteral(digits) => Some(digits),
        ExprView::StringLiteral(text) => Some(seq!['"'] + text + seq!['"']),
        _ => None,
    }
}

/// The state in which a parser starts on a tree.
pub open spec fn start_state(tree: TokenTreeView) -> ParseState {
    ParseState { cursor: start_cursor(tree.tokens, tree.span.start), diagnostics: Seq::empty() }
}

/// The expression that a source text starts with.
pub open spec fn read_expr(text: Seq<char>) -> Option<ExprView> {
    let tree = lex_spec(text);
    assignment_spec(tree.tokens, start_state(tree)).value
}

impl Expr {
    /// How this literal is written in source text.
    pub fn literal_text(&self) -> (r: Option<String>)
        ensures
            match r {
                Some(text) => literal_text(self@) == Some(text@),
                None => literal_text(self@) is None,
            },
    {
        match self {
            Expr::NumberLiteral(word) => Some(word.string.clone()),
            Expr::StringLiteral(word) => {
                let mut text = String::new();
                push_char(&mut text, '"');
                text.append(word.as_str());
                push_char(&mut text, '"');
                assert(text@ =~= seq!['"'] + word@ + seq!['"']);
                Some(text)
            },
            _ => None,
        }
    }
}

/// The expression that the text of `input_file` starts with, and what is
/// wrong with it. There is none if the text is too long for its byte
/// offsets to fit in a `u32`.
pub fn parse_expression(input_file: &InputFile) -> (r: Option<(Option<Expr>, Vec<Diagnostic>)>)
    ensures
        match r {
            Some((expr, diagnostics)) => {
                let tree = lex_spec(input_file.source_text@);
                let parsed = assignment_spec(tree.tokens, start_state(tree));
                &&& text_width(input_file.source_text@) < u32::MAX
                &&& parsed.state.diagnostics == diagnostics_view(diagnostics@)
                &&& match expr {
                    Some(e) => parsed.value == Some(e@),
                    None => parsed.value is None,
                }
            },
            None => text_width(input_file.source_text@) >= u32::MAX,
        },
{
    match lex_file(input_file) {
        Some(tree) => {
            let table = crate::kw::keywords();
            let mut diagnostics: Vec<Diagnostic> = Vec::new();
            assert(diagnostics_view(diagnostics@) =~= Seq::<
                crate::diagnostic::DiagnosticView,
            >::empty());
            let mut parser = Parser::new(&tree, &table);
            let expr = parser.parse_expr(&mut diagnostics);
            Some((expr, diagnostics))
        },
        None => None,
    }
}

/// A run whose characters all belong to it, up to the first that does not
/// or to the end of the text, ends there.
pub proof fn lemma_run_ends(chars: Seq<char>, i: int, j: int, run: Run)
    requires
        0 <= i <= j <= chars.len(),
        forall|k: int| i <= k < j ==> in_run(run, #[trigger] chars[k]),
        j == chars.len() || !in_run(run, chars[j]),
    ensures
        run_end(chars, i, run) == j,
    decreases j - i,
{
    if i < j {
        lemma_run_ends(chars, i + 1, j, run);
    }
}

/// Where no operator character stands next, no operator stands next.
pub proof fn lemma_no_operator(tokens: Seq<TokenView>, state: ParseState, ops: Seq<Op>, from: int)
    requires
        !(peek(tokens, state.cursor) is Some && peek(tokens, state.cursor).unwrap() is Op),
        0 <= from,
    ensures
        eat_any_op(tokens, state, ops, from) is None,
    decreases ops.len() - from,
{
    if from < ops.len() {
        lemma_no_operator(tokens, state, ops, from + 1);
    }
}

/// A literal that is the only token of a tree is the expression of the
/// tree.
pub proof fn lemma_single_literal(token: TokenView, expr: ExprView)
    requires
        (token, expr) == (TokenView::Number(expr->NumberLiteral_0), expr) && expr is NumberLiteral
            || (token, expr) == (TokenView::String(expr->StringLiteral_0), expr)
            && expr is StringLiteral,
    ensures
        forall|span: crate::span::Span|
            assignment_spec(
                seq![token],
                start_state(TokenTreeView { span, tokens: seq![token] }),
            ).value == Some(expr),
{
    let tokens = seq![token];
    assert forall|span: crate::span::Span|
        assignment_spec(tokens, start_state(TokenTreeView { span, tokens })).value == Some(
            expr,
        ) by {
        let state = start_state(TokenTreeView { span, tokens });
        assert(state.cursor.index == 0);
        assert(peek(tokens, state.cursor) == Some(token));
        let after = advance(tokens, state);
        assert(after.cursor.index == 1) by {
            reveal_with_fuel(skip_trivia, 2);
        }
        assert(peek(tokens, after.cursor) is None);
        assert(primary_spec(tokens, state) == done(expr, after));
        assert(call_rest_spec(tokens, after, expr) == done(expr, after));
        assert(call_spec(tokens, state) == done(expr, after));
        lemma_no_operator(tokens, state, seq![Op::Minus, Op::Bang], 0);
        assert(unary_spec(tokens, state) == done(expr, after));
        lemma_levels(tokens, state, after, expr, 3);
        assert(logic_and_rest_spec(tokens, after, expr) == done(expr, after));
        assert(logic_and_spec(tokens, state) == done(expr, after));
        assert(logic_or_rest_spec(tokens, after, expr) == done(expr, after));
        assert(logic_or_spec(tokens, state) == done(expr, after));
        assert(eat_op_spec(tokens, after, Op::Equal) is None);
        assert(assignment_spec(tokens, state) == done(expr, after));
    }
}

/// An expression without an operator behind it is the same expression at
/// every level of two-operand expressions.
pub proof fn lemma_levels(
    tokens: Seq<TokenView>,
    state: ParseState,
    after: ParseState,
    expr: ExprView,
    level: nat,
)
    requires
        unary_spec(tokens, state) == done(expr, after),
        peek(tokens, after.cursor) is None,
        state.cursor.index <= after.cursor.index <= tokens.len(),
    ensures
        binary_spec(tokens, state, level) == done(expr, after),
    decreases level,
{
    if level > 0 {
        lemma_levels(tokens, state, after, expr, (level - 1) as nat);
    }
    assert(operand_spec(tokens, state, level) == done(expr, after));
    lemma_no_operator(tokens, after, level_ops(level), 0);
    assert(binary_rest_spec(tokens, after, level, expr) == done(expr, after));
}

/// Round trip of number literals: a run of digits, written out as a
/// number literal and read again, is the same number literal.
pub proof fn lemma_number_round_trip(digits: Seq<char>)
    requires
        digits.len() > 0,
        all_digits(digits),
    ensures
        read_expr(literal_text(ExprView::NumberLiteral(digits)).unwrap()) == Some(
            ExprView::NumberLiteral(digits),
        ),
{
    let text = digits;
    let len = text.len() as int;
    assert forall|k: int| 1 <= k < len implies in_run(Run::Digits, #[trigger] text[k]) by {}
    lemma_run_ends(text, 1, len, Run::Digits);
    assert(text.subrange(0, len) =~= digits);
    let first = lex_token_spec(text, 0);
    assert(first.tokens == seq![TokenView::Number(digits)]);
    assert(first.next == len);
    assert(lex_tokens_spec(text, len, None).tokens == Seq::<TokenView>::empty());
    let tokens = lex_tokens_spec(text, 0, None).tokens;
    assert(tokens =~= seq![TokenView::Number(digits)]);
    lemma_single_literal(TokenView::Number(digits), ExprView::NumberLiteral(digits));
}

/// Round trip of string literals: a text without a double quote, written
/// out as a string literal and read again, is the same string literal.
pub proof fn lemma_string_round_trip(content: Seq<char>)
    requires
        forall|i: int| 0 <= i < content.len() ==> content[i] != '"',
    ensures
        read_expr(literal_text(ExprView::StringLiteral(content)).unwrap()) == Some(
            ExprView::StringLiteral(content),
        ),
{
    let text = seq!['"'] + content + seq!['"'];
    let len = text.len() as int;
    assert(len == content.len() + 2);
    assert forall|k: int| 1 <= k < len - 1 implies in_run(Run::Quoted, #[trigger] text[k]) by {
        assert(text[k] == content[k - 1]);
    }
    assert(text[len - 1] == '"');
    lemma_run_ends(text, 1, len - 1, Run::Quoted);
    assert(text.subrange(1, len - 1) =~= content);
    let first = lex_token_spec(text, 0);
    assert(text[0] == '"');
    assert(first.tokens == seq![TokenView::String(content)]);
    assert(first.next == len);
    assert(lex_tokens_spec(text, len, None).tokens == Seq::<TokenView>::empty());
    let tokens = lex_tokens_spec(text, 0, None).tokens;
    assert(tokens =~= seq![TokenView::String(content)]);
    lemma_single_literal(TokenView::String(content), ExprView::StringLiteral(content));
}

} // verus!
