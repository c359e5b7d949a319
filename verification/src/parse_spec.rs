//! The grammar of the language, as functions on token sequences.
//!
//! Every function takes the tokens of one tree and a state, which is a
//! cursor and the diagnostics given so far, and says what is read from
//! there and in which state that leaves the parser. What stands between
//! delimiters is read from the tree of its own that the lexer made of it.
//!
//! The functions are defined by recursion on what is left of the tokens.
//! Where one goes on after another has read something, it asks that the
//! cursor has moved on ([`ahead`]) or at least not back ([`not_behind`]);
//! the parser shows of each of its functions that this is so.
use crate::diagnostic::DiagnosticView;
use crate::kw::{is_keyword, keyword_text, Keyword};
use crate::lex::closing_of;
use crate::op::{op_text, Op};
use crate::span::Span;
use crate::syntax::{DeclarationView, ExprView, StmtView};
use crate::token::{TokenTreeView, TokenView};
use crate::tokens::{consume, peek, peek_span, start_cursor, CursorView};
use vstd::prelude::*;

verus! {

/// Where the parser stands and what it has complained of.
pub struct ParseState {
    pub cursor: CursorView,
    pub diagnostics: Seq<DiagnosticView>,
}

/// What was read, if anything could be, and the state after it.
pub struct Parsed<T> {
    pub value: Option<T>,
    pub state: ParseState,
}

pub open spec fn done<T>(value: T, state: ParseState) -> Parsed<T> {
    Parsed { value: Some(value), state }
}

pub open spec fn fail<T>(state: ParseState) -> Parsed<T> {
    Parsed { value: None, state }
}

/// The state with one more diagnostic.
pub open spec fn report(state: ParseState, span: Span, message: Seq<char>) -> ParseState {
    ParseState {
        diagnostics: state.diagnostics.push(DiagnosticView { span, message }),
        ..state
    }
}

/// The state behind the next token.
pub open spec fn advance(tokens: Seq<TokenView>, state: ParseState) -> ParseState {
    ParseState { cursor: consume(tokens, state.cursor), ..state }
}

/// The state in which the tokens of `tree` are read from the start, with
/// the diagnostics of `state`.
pub open spec fn enter(tree: TokenTreeView, state: ParseState) -> ParseState {
    ParseState {
        cursor: start_cursor(tree.tokens, tree.span.start),
        diagnostics: state.diagnostics,
    }
}

/// The state `outer` with the diagnostics of `inner`: what `outer` is after
/// a tree has been read.
pub open spec fn leave(outer: ParseState, inner: ParseState) -> ParseState {
    ParseState { cursor: outer.cursor, diagnostics: inner.diagnostics }
}

/// Whether `later` is further on in the tokens than `earlier`.
pub open spec fn ahead(tokens: Seq<TokenView>, earlier: ParseState, later: ParseState) -> bool {
    earlier.cursor.index < later.cursor.index <= tokens.len()
}

/// Whether `later` is at least as far on in the tokens as `earlier`.
pub open spec fn not_behind(tokens: Seq<TokenView>, earlier: ParseState, later: ParseState) -> bool {
    earlier.cursor.index <= later.cursor.index <= tokens.len()
}

/// Whether the next token is the keyword `kw`.
pub open spec fn at_keyword(tokens: Seq<TokenView>, state: ParseState, kw: Keyword) -> bool {
    peek(tokens, state.cursor) == Some(TokenView::Alphabetic(keyword_text(kw)))
}

/// Whether the next token is `token`.
pub open spec fn at_token(tokens: Seq<TokenView>, state: ParseState, token: TokenView) -> bool {
    peek(tokens, state.cursor) == Some(token)
}

/// The next token as an identifier: a word that is no keyword.
pub open spec fn identifier(tokens: Seq<TokenView>, state: ParseState) -> Option<Seq<char>> {
    match peek(tokens, state.cursor) {
        Some(TokenView::Alphabetic(word)) => if is_keyword(word) {
            None
        } else {
            Some(word)
        },
        _ => None,
    }
}

/// The cursor behind the operator `op`, if it stands next. The characters
/// of an operator stand side by side, and no further operator character
/// follows them directly.
pub open spec fn op_end(tokens: Seq<TokenView>, cursor: CursorView, op: Op) -> Option<CursorView> {
    if peek(tokens, cursor) == Some(TokenView::Op(op_text(op)[0])) {
        let first = consume(tokens, cursor);
        let whole = if op_text(op).len() == 2 {
            if !first.skipped && peek(tokens, first) == Some(TokenView::Op(op_text(op)[1])) {
                Some(consume(tokens, first))
            } else {
                None
            }
        } else {
            Some(first)
        };
        match whole {
            Some(end) => if end.skipped {
                Some(end)
            } else {
                match peek(tokens, end) {
                    Some(TokenView::Op(_)) => None,
                    _ => Some(end),
                }
            },
            None => None,
        }
    } else {
        None
    }
}

/// The state behind the operator `op`, if it stands next.
pub open spec fn eat_op_spec(tokens: Seq<TokenView>, state: ParseState, op: Op) -> Option<
    ParseState,
> {
    match op_end(tokens, state.cursor, op) {
        Some(cursor) => Some(ParseState { cursor, ..state }),
        None => None,
    }
}

/// The first of `ops`, from index `from` on, that stands next, and the
/// state behind it.
pub open spec fn eat_any_op(tokens: Seq<TokenView>, state: ParseState, ops: Seq<Op>, from: int) -> Option<
    (Op, ParseState),
>
    decreases ops.len() - from,
{
    if from < 0 || from >= ops.len() {
        None
    } else {
        match eat_op_spec(tokens, state, ops[from]) {
            Some(after) => Some((ops[from], after)),
            None => eat_any_op(tokens, state, ops, from + 1),
        }
    }
}

/// The message for a missing closing delimiter.
pub open spec fn expected_closing(close: char) -> Seq<char> {
    "expected `"@.push(close).push('`')
}

/// The tree between the delimiter `open` and its closing delimiter, if
/// `open` stands next. A missing closing delimiter is reported.
pub open spec fn delimited_spec(tokens: Seq<TokenView>, state: ParseState, open: char) -> Parsed<
    TokenTreeView,
> {
    if at_token(tokens, state, TokenView::Delimiter(open)) {
        let inside = advance(tokens, state);
        match peek(tokens, inside.cursor) {
            Some(TokenView::Tree(tree)) => {
                let behind = advance(tokens, inside);
                if at_token(tokens, behind, TokenView::Delimiter(closing_of(open))) {
                    done(tree, advance(tokens, behind))
                } else {
                    done(
                        tree,
                        report(
                            behind,
                            peek_span(tokens, behind.cursor),
                            expected_closing(closing_of(open)),
                        ),
                    )
                }
            },
            _ => fail(inside),
        }
    } else {
        fail(state)
    }
}

/// The state behind a `;`; a missing one is reported.
pub open spec fn semicolon_spec(tokens: Seq<TokenView>, state: ParseState) -> ParseState {
    if at_token(tokens, state, TokenView::Semicolon) {
        advance(tokens, state)
    } else {
        report(state, peek_span(tokens, state.cursor), "expected `;`"@)
    }
}

/// The operators of a level of two-operand expressions: 0 for factors, 1
/// for terms, 2 for comparisons, 3 for equalities.
pub open spec fn level_ops(level: nat) -> Seq<Op> {
    if level == 0 {
        seq![Op::Star, Op::Slash]
    } else if level == 1 {
        seq![Op::Minus, Op::Plus]
    } else if level == 2 {
        seq![Op::Greater, Op::GreaterEqual, Op::Less, Op::LessEqual]
    } else {
        seq![Op::NotEqual, Op::EqualEqual]
    }
}

/// How much of the tokens is left to read.
pub open spec fn left(tokens: Seq<TokenView>, state: ParseState) -> int {
    tokens.len() - state.cursor.index
}

/// `primary -> "true" | "false" | "nil" | IDENTIFIER | NUMBER | STRING | "(" expression ")"`
pub open spec fn primary_spec(tokens: Seq<TokenView>, state: ParseState) -> Parsed<ExprView>
    decreases tokens, left(tokens, state), 0nat,
{
    if at_keyword(tokens, state, Keyword::True) {
        done(ExprView::BooleanLiteral(true), advance(tokens, state))
    } else if at_keyword(tokens, state, Keyword::False) {
        done(ExprView::BooleanLiteral(false), advance(tokens, state))
    } else if at_keyword(tokens, state, Keyword::Nil) {
        done(ExprView::NilLiteral, advance(tokens, state))
    } else {
        match peek(tokens, state.cursor) {
            Some(TokenView::Alphabetic(word)) => if is_keyword(word) {
                fail(state)
            } else {
                done(ExprView::Variable(word), advance(tokens, state))
            },
            Some(TokenView::Number(word)) => done(
                ExprView::NumberLiteral(word),
                advance(tokens, state),
            ),
            Some(TokenView::String(word)) => done(
                ExprView::StringLiteral(word),
                advance(tokens, state),
            ),
            Some(TokenView::Delimiter(_)) => {
                let group = delimited_spec(tokens, state, '(');
                match group.value {
                    Some(tree) => {
                        let inner = assignment_spec(tree.tokens, enter(tree, group.state));
                        match inner.value {
                            Some(e) => done(
                                ExprView::Parenthesized(Box::new(e)),
                                leave(group.state, inner.state),
                            ),
                            None => fail(leave(group.state, inner.state)),
                        }
                    },
                    None => fail(group.state),
                }
            },
            _ => fail(state),
        }
    }
}

/// The arguments of a call: `( expression ( "," expression )* )?`
pub open spec fn arguments_spec(
    tokens: Seq<TokenView>,
    state: ParseState,
    arguments: Seq<ExprView>,
) -> Parsed<Seq<ExprView>>
    decreases tokens, left(tokens, state), 30nat,
{
    let first = assignment_spec(tokens, state);
    match first.value {
        Some(e) => {
            if at_token(tokens, first.state, TokenView::Comma) && ahead(
                tokens,
                state,
                advance(tokens, first.state),
            ) {
                arguments_spec(tokens, advance(tokens, first.state), arguments.push(e))
            } else {
                done(arguments.push(e), first.state)
            }
        },
        None => done(arguments, first.state),
    }
}

/// The calls that follow `callee`: `( "(" arguments ")" )*`
pub open spec fn call_rest_spec(tokens: Seq<TokenView>, state: ParseState, callee: ExprView) -> Parsed<
    ExprView,
>
    decreases tokens, left(tokens, state), 1nat,
{
    if at_token(tokens, state, TokenView::Delimiter('(')) {
        let group = delimited_spec(tokens, state, '(');
        match group.value {
            Some(tree) => {
                let inner = arguments_spec(tree.tokens, enter(tree, group.state), Seq::empty());
                match inner.value {
                    Some(arguments) => {
                        let after = leave(group.state, inner.state);
                        let call = ExprView::Call { callee: Box::new(callee), arguments };
                        if ahead(tokens, state, after) {
                            call_rest_spec(tokens, after, call)
                        } else {
                            done(call, after)
                        }
                    },
                    None => fail(leave(group.state, inner.state)),
                }
            },
            None => fail(group.state),
        }
    } else {
        done(callee, state)
    }
}

/// `call -> primary ( "(" arguments ")" )*`
pub open spec fn call_spec(tokens: Seq<TokenView>, state: ParseState) -> Parsed<ExprView>
    decreases tokens, left(tokens, state), 2nat,
{
    let callee = primary_spec(tokens, state);
    match callee.value {
        Some(e) => if not_behind(tokens, state, callee.state) {
            call_rest_spec(tokens, callee.state, e)
        } else {
            fail(callee.state)
        },
        None => fail(callee.state),
    }
}

/// `unary -> ( "-" | "!" ) unary | call`
pub open spec fn unary_spec(tokens: Seq<TokenView>, state: ParseState) -> Parsed<ExprView>
    decreases tokens, left(tokens, state), 3nat,
{
    match eat_any_op(tokens, state, seq![Op::Minus, Op::Bang], 0) {
        Some((op, after)) => if ahead(tokens, state, after) {
            let operand = unary_spec(tokens, after);
            match operand.value {
                Some(e) => done(ExprView::UnaryOp(op, Box::new(e)), operand.state),
                None => fail(operand.state),
            }
        } else {
            fail(after)
        },
        None => call_spec(tokens, state),
    }
}

/// An operand of a two-operand expression of level `level`.
pub open spec fn operand_spec(tokens: Seq<TokenView>, state: ParseState, level: nat) -> Parsed<
    ExprView,
>
    decreases tokens, left(tokens, state), 4 + 3 * level,
{
    if level == 0 {
        unary_spec(tokens, state)
    } else {
        binary_spec(tokens, state, (level - 1) as nat)
    }
}

/// The operators and operands that follow `left_operand` at level `level`.
/// An operator without a right operand is dropped.
pub open spec fn binary_rest_spec(
    tokens: Seq<TokenView>,
    state: ParseState,
    level: nat,
    left_operand: ExprView,
) -> Parsed<ExprView>
    decreases tokens, left(tokens, state), 5 + 3 * level,
{
    match eat_any_op(tokens, state, level_ops(level), 0) {
        Some((op, after)) => if ahead(tokens, state, after) {
            let right = operand_spec(tokens, after, level);
            match right.value {
                Some(e) => if ahead(tokens, state, right.state) {
                    binary_rest_spec(
                        tokens,
                        right.state,
                        level,
                        ExprView::BinaryOp(Box::new(left_operand), op, Box::new(e)),
                    )
                } else {
                    fail(right.state)
                },
                None => done(left_operand, right.state),
            }
        } else {
            fail(after)
        },
        None => done(left_operand, state),
    }
}

/// A two-operand expression of level `level`: operands of the level below,
/// joined from the left by the operators of the level.
pub open spec fn binary_spec(tokens: Seq<TokenView>, state: ParseState, level: nat) -> Parsed<
    ExprView,
>
    decreases tokens, left(tokens, state), 6 + 3 * level,
{
    let first = operand_spec(tokens, state, level);
    match first.value {
        Some(e) => if not_behind(tokens, state, first.state) {
            binary_rest_spec(tokens, first.state, level, e)
        } else {
            fail(first.state)
        },
        None => fail(first.state),
    }
}

/// The `and`s that follow `left_operand`.
pub open spec fn logic_and_rest_spec(
    tokens: Seq<TokenView>,
    state: ParseState,
    left_operand: ExprView,
) -> Parsed<ExprView>
    decreases tokens, left(tokens, state), 16nat,
{
    if at_keyword(tokens, state, Keyword::And) && ahead(tokens, state, advance(tokens, state)) {
        let right = binary_spec(tokens, advance(tokens, state), 3);
        match right.value {
            Some(e) => if ahead(tokens, state, right.state) {
                logic_and_rest_spec(
                    tokens,
                    right.state,
                    ExprView::LogicalAnd(Box::new(left_operand), Box::new(e)),
                )
            } else {
                fail(right.state)
            },
            None => fail(right.state),
        }
    } else {
        done(left_operand, state)
    }
}

/// `logic_and -> equality ( "and" equality )*`
pub open spec fn logic_and_spec(tokens: Seq<TokenView>, state: ParseState) -> Parsed<ExprView>
    decreases tokens, left(tokens, state), 17nat,
{
    let first = binary_spec(tokens, state, 3);
    match first.value {
        Some(e) => if not_behind(tokens, state, first.state) {
            logic_and_rest_spec(tokens, first.state, e)
        } else {
            fail(first.state)
        },
        None => fail(first.state),
    }
}

/// The `or`s that follow `left_operand`.
pub open spec fn logic_or_rest_spec(
    tokens: Seq<TokenView>,
    state: ParseState,
    left_operand: ExprView,
) -> Parsed<ExprView>
    decreases tokens, left(tokens, state), 18nat,
{
    if at_keyword(tokens, state, Keyword::Or) && ahead(tokens, state, advance(tokens, state)) {
        let right = logic_and_spec(tokens, advance(tokens, state));
        match right.value {
            Some(e) => if ahead(tokens, state, right.state) {
                logic_or_rest_spec(
                    tokens,
                    right.state,
                    ExprView::LogicalOr(Box::new(left_operand), Box::new(e)),
                )
            } else {
                fail(right.state)
            },
            None => fail(right.state),
        }
    } else {
        done(left_operand, state)
    }
}

/// `logic_or -> logic_and ( "or" logic_and )*`
pub open spec fn logic_or_spec(tokens: Seq<TokenView>, state: ParseState) -> Parsed<ExprView>
    decreases tokens, left(tokens, state), 19nat,
{
    let first = logic_and_spec(tokens, state);
    match first.value {
        Some(e) => if not_behind(tokens, state, first.state) {
            logic_or_rest_spec(tokens, first.state, e)
        } else {
            fail(first.state)
        },
        None => fail(first.state),
    }
}

/// `assignment -> IDENTIFIER "=" assignment | logic_or`. A target that is
/// no identifier is reported, and what was assigned to it is dropped.
pub open spec fn assignment_spec(tokens: Seq<TokenView>, state: ParseState) -> Parsed<ExprView>
    decreases tokens, left(tokens, state), 20nat,
{
    let target = logic_or_spec(tokens, state);
    match target.value {
        Some(e) => match eat_op_spec(tokens, target.state, Op::Equal) {
            Some(after) => if ahead(tokens, state, after) {
                let value = assignment_spec(tokens, after);
                match value.value {
                    Some(v) => match e {
                        ExprView::Variable(name) => done(
                            ExprView::Assign { name, value: Box::new(v) },
                            value.state,
                        ),
                        _ => done(
                            e,
                            report(
                                value.state,
                                peek_span(tokens, value.state.cursor),
                                "invalid assignment target"@,
                            ),
                        ),
                    },
                    None => fail(value.state),
                }
            } else {
                fail(after)
            },
            None => done(e, target.state),
        },
        None => fail(target.state),
    }
}

/// The parameters of a function: `( IDENTIFIER ( "," IDENTIFIER )* )?`
pub open spec fn params_spec(tokens: Seq<TokenView>, state: ParseState, params: Seq<Seq<char>>) -> Seq<
    Seq<char>,
>
    decreases tokens, left(tokens, state), 0nat,
{
    match identifier(tokens, state) {
        Some(name) => {
            let after = advance(tokens, state);
            if at_token(tokens, after, TokenView::Comma) && ahead(
                tokens,
                state,
                advance(tokens, after),
            ) {
                params_spec(tokens, advance(tokens, after), params.push(name))
            } else {
                params.push(name)
            }
        },
        None => params,
    }
}

/// What follows `var`: `IDENTIFIER ( "=" expression )? ";"`
pub open spec fn var_declaration_spec(tokens: Seq<TokenView>, state: ParseState) -> Parsed<StmtView>
    decreases tokens, left(tokens, state), 31nat,
{
    match identifier(tokens, state) {
        Some(name) => {
            let named = advance(tokens, state);
            match eat_op_spec(tokens, named, Op::Equal) {
                Some(after) => {
                    let value = assignment_spec(tokens, after);
                    match value.value {
                        Some(e) => done(
                            StmtView::VariableDeclaration { name, initializer: Some(e) },
                            semicolon_spec(tokens, value.state),
                        ),
                        None => fail(value.state),
                    }
                },
                None => done(
                    StmtView::VariableDeclaration { name, initializer: None },
                    semicolon_spec(tokens, named),
                ),
            }
        },
        None => fail(state),
    }
}

/// An expression followed by `;`, made into a statement by `print` or not.
pub open spec fn expr_stmt_spec(tokens: Seq<TokenView>, state: ParseState, print: bool) -> Parsed<
    StmtView,
>
    decreases tokens, left(tokens, state), 31nat,
{
    let value = assignment_spec(tokens, state);
    match value.value {
        Some(e) => done(
            if print {
                StmtView::Print(e)
            } else {
                StmtView::Expr(e)
            },
            semicolon_spec(tokens, value.state),
        ),
        None => fail(value.state),
    }
}

/// What follows `return`: `expression? ";"`
pub open spec fn return_stmt_spec(tokens: Seq<TokenView>, state: ParseState) -> Parsed<StmtView>
    decreases tokens, left(tokens, state), 31nat,
{
    if at_token(tokens, state, TokenView::Semicolon) {
        done(StmtView::Return(None), advance(tokens, state))
    } else {
        let value = assignment_spec(tokens, state);
        match value.value {
            Some(e) => done(StmtView::Return(Some(e)), semicolon_spec(tokens, value.state)),
            None => fail(value.state),
        }
    }
}

/// The condition of an `if` or a `while`: the expression in the
/// parentheses that stand next.
pub open spec fn condition_spec(tokens: Seq<TokenView>, state: ParseState) -> Parsed<ExprView>
    decreases tokens, left(tokens, state), 31nat,
{
    let group = delimited_spec(tokens, state, '(');
    match group.value {
        Some(tree) => {
            let inner = assignment_spec(tree.tokens, enter(tree, group.state));
            Parsed { value: inner.value, state: leave(group.state, inner.state) }
        },
        None => fail(group.state),
    }
}

/// The three parts between the parentheses of a `for`.
pub struct ForHead {
    pub initializer: Option<Box<StmtView>>,
    pub condition: Option<ExprView>,
    pub increment: Option<ExprView>,
}

/// The first part of the head of a `for`: `";" | "var" declaration | expression ";"`
pub open spec fn for_initializer_spec(tokens: Seq<TokenView>, state: ParseState) -> Parsed<
    Option<Box<StmtView>>,
>
    decreases tokens, left(tokens, state), 32nat,
{
    if at_token(tokens, state, TokenView::Semicolon) {
        done(None, advance(tokens, state))
    } else if at_keyword(tokens, state, Keyword::Var) {
        let declared = var_declaration_spec(tokens, advance(tokens, state));
        match declared.value {
            Some(s) => done(Some(Box::new(s)), declared.state),
            None => fail(declared.state),
        }
    } else {
        let declared = expr_stmt_spec(tokens, state, false);
        match declared.value {
            Some(s) => done(Some(Box::new(s)), declared.state),
            None => fail(declared.state),
        }
    }
}

/// The second part of the head of a `for`: `expression? ";"`
pub open spec fn for_condition_spec(tokens: Seq<TokenView>, state: ParseState) -> Parsed<
    Option<ExprView>,
>
    decreases tokens, left(tokens, state), 32nat,
{
    if at_token(tokens, state, TokenView::Semicolon) {
        done(None, advance(tokens, state))
    } else {
        let condition = assignment_spec(tokens, state);
        match condition.value {
            Some(e) => done(Some(e), semicolon_spec(tokens, condition.state)),
            None => fail(condition.state),
        }
    }
}

/// The third part of the head of a `for`: `expression?`
pub open spec fn for_increment_spec(tokens: Seq<TokenView>, state: ParseState) -> Parsed<
    Option<ExprView>,
>
    decreases tokens, left(tokens, state), 32nat,
{
    if peek(tokens, state.cursor) is None {
        done(None, state)
    } else {
        let increment = assignment_spec(tokens, state);
        match increment.value {
            Some(e) => done(Some(e), increment.state),
            None => fail(increment.state),
        }
    }
}

/// What stands between the parentheses of a `for`.
pub open spec fn for_head_spec(tokens: Seq<TokenView>, state: ParseState) -> Parsed<ForHead> {
    let first = for_initializer_spec(tokens, state);
    match first.value {
        Some(initializer) => {
            let second = for_condition_spec(tokens, first.state);
            match second.value {
                Some(condition) => {
                    let third = for_increment_spec(tokens, second.state);
                    match third.value {
                        Some(increment) => done(
                            ForHead { initializer, condition, increment },
                            third.state,
                        ),
                        None => fail(third.state),
                    }
                },
                None => fail(second.state),
            }
        },
        None => fail(first.state),
    }
}

/// What follows `{` up to its `}`: `statements`
pub open spec fn block_spec(tokens: Seq<TokenView>, state: ParseState) -> Parsed<StmtView>
    decreases tokens, left(tokens, state), 32nat,
{
    let group = delimited_spec(tokens, state, '{');
    match group.value {
        Some(tree) => {
            let inner = stmts_spec(tree.tokens, enter(tree, group.state), Seq::empty());
            done(StmtView::Block(inner.0), leave(group.state, inner.1))
        },
        None => fail(group.state),
    }
}

/// What follows `if`: `"(" expression ")" statement ( "else" statement )?`
pub open spec fn if_stmt_spec(tokens: Seq<TokenView>, state: ParseState) -> Parsed<StmtView>
    decreases tokens, left(tokens, state), 32nat,
{
    let condition = condition_spec(tokens, state);
    match condition.value {
        Some(e) => if ahead(tokens, state, condition.state) {
            let then_branch = stmt_spec(tokens, condition.state);
            match then_branch.value {
                Some(t) => if at_keyword(tokens, then_branch.state, Keyword::Else) && ahead(
                    tokens,
                    state,
                    advance(tokens, then_branch.state),
                ) {
                    let else_branch = stmt_spec(tokens, advance(tokens, then_branch.state));
                    done(
                        StmtView::If {
                            condition: e,
                            then_branch: Box::new(t),
                            else_branch: match else_branch.value {
                                Some(s) => Some(Box::new(s)),
                                None => None,
                            },
                        },
                        else_branch.state,
                    )
                } else {
                    done(
                        StmtView::If { condition: e, then_branch: Box::new(t), else_branch: None },
                        then_branch.state,
                    )
                },
                None => fail(then_branch.state),
            }
        } else {
            fail(condition.state)
        },
        None => fail(condition.state),
    }
}

/// What follows `while`: `"(" expression ")" statement`
pub open spec fn while_stmt_spec(tokens: Seq<TokenView>, state: ParseState) -> Parsed<StmtView>
    decreases tokens, left(tokens, state), 32nat,
{
    let condition = condition_spec(tokens, state);
    match condition.value {
        Some(e) => if ahead(tokens, state, condition.state) {
            let body = stmt_spec(tokens, condition.state);
            match body.value {
                Some(b) => done(StmtView::While { condition: e, body: Box::new(b) }, body.state),
                None => fail(body.state),
            }
        } else {
            fail(condition.state)
        },
        None => fail(condition.state),
    }
}

/// What follows `for`: `"(" head ")" statement`
pub open spec fn for_stmt_spec(tokens: Seq<TokenView>, state: ParseState) -> Parsed<StmtView>
    decreases tokens, left(tokens, state), 32nat,
{
    let group = delimited_spec(tokens, state, '(');
    match group.value {
        Some(tree) => {
            let head = for_head_spec(tree.tokens, enter(tree, group.state));
            let after = leave(group.state, head.state);
            match head.value {
                Some(h) => if ahead(tokens, state, after) {
                    let body = stmt_spec(tokens, after);
                    match body.value {
                        Some(b) => done(
                            StmtView::For {
                                initializer: h.initializer,
                                condition: h.condition,
                                increment: h.increment,
                                body: Box::new(b),
                            },
                            body.state,
                        ),
                        None => fail(body.state),
                    }
                } else {
                    fail(after)
                },
                None => fail(after),
            }
        },
        None => fail(group.state),
    }
}

/// A statement.
pub open spec fn stmt_spec(tokens: Seq<TokenView>, state: ParseState) -> Parsed<StmtView>
    decreases tokens, left(tokens, state), 33nat,
{
    if at_keyword(tokens, state, Keyword::Print) {
        expr_stmt_spec(tokens, advance(tokens, state), true)
    } else if at_token(tokens, state, TokenView::Delimiter('{')) {
        block_spec(tokens, state)
    } else if at_keyword(tokens, state, Keyword::If) {
        if_stmt_spec(tokens, advance(tokens, state))
    } else if at_keyword(tokens, state, Keyword::While) {
        while_stmt_spec(tokens, advance(tokens, state))
    } else if at_keyword(tokens, state, Keyword::For) {
        for_stmt_spec(tokens, advance(tokens, state))
    } else if at_keyword(tokens, state, Keyword::Return) {
        return_stmt_spec(tokens, advance(tokens, state))
    } else {
        expr_stmt_spec(tokens, state, false)
    }
}

/// What follows `fun`: `IDENTIFIER "(" parameters ")" "{" statements "}"`
pub open spec fn fun_declaration_spec(tokens: Seq<TokenView>, state: ParseState) -> Parsed<StmtView>
    decreases tokens, left(tokens, state), 33nat,
{
    match identifier(tokens, state) {
        Some(name) => {
            let head = delimited_spec(tokens, advance(tokens, state), '(');
            match head.value {
                Some(params_tree) => {
                    let params = params_spec(
                        params_tree.tokens,
                        enter(params_tree, head.state),
                        Seq::empty(),
                    );
                    let group = delimited_spec(tokens, head.state, '{');
                    match group.value {
                        Some(tree) => {
                            let inner = stmts_spec(
                                tree.tokens,
                                enter(tree, group.state),
                                Seq::empty(),
                            );
                            done(
                                StmtView::FunctionDeclaration(
                                    DeclarationView { name, params, body: inner.0 },
                                ),
                                leave(group.state, inner.1),
                            )
                        },
                        None => fail(group.state),
                    }
                },
                None => fail(head.state),
            }
        },
        None => fail(state),
    }
}

/// `declaration -> "var" ... | "fun" ... | statement`
pub open spec fn declaration_spec(tokens: Seq<TokenView>, state: ParseState) -> Parsed<StmtView>
    decreases tokens, left(tokens, state), 34nat,
{
    if at_keyword(tokens, state, Keyword::Var) {
        var_declaration_spec(tokens, advance(tokens, state))
    } else if at_keyword(tokens, state, Keyword::Fun) {
        fun_declaration_spec(tokens, advance(tokens, state))
    } else {
        stmt_spec(tokens, state)
    }
}

/// The declarations from `state` on, after `stmts`, up to the first that
/// cannot be read. Tokens that are left over are reported.
pub open spec fn stmts_spec(tokens: Seq<TokenView>, state: ParseState, stmts: Seq<StmtView>) -> (
    Seq<StmtView>,
    ParseState,
)
    decreases tokens, left(tokens, state), 35nat,
{
    let first = declaration_spec(tokens, state);
    match first.value {
        Some(s) => if ahead(tokens, state, first.state) {
            stmts_spec(tokens, first.state, stmts.push(s))
        } else {
            (stmts.push(s), first.state)
        },
        None => (
            stmts,
            if peek(tokens, first.state.cursor) is Some {
                report(
                    first.state,
                    peek_span(tokens, first.state.cursor),
                    "extra tokens after statement"@,
                )
            } else {
                first.state
            },
        ),
    }
}

/// The statements and the diagnostics of a token tree.
pub open spec fn parse_spec(tree: TokenTreeView) -> (Seq<StmtView>, Seq<DiagnosticView>) {
    let parsed = stmts_spec(
        tree.tokens,
        ParseState { cursor: start_cursor(tree.tokens, tree.span.start), diagnostics: Seq::empty() },
        Seq::empty(),
    );
    (parsed.0, parsed.1.diagnostics)
}

} // verus!
