//! The parser: reads statements from a token tree by recursive descent.
use crate::diagnostic::{diagnostics_view, Diagnostic};
use crate::kw::{is_keyword, keyword_text, keywords, Keyword, Keywords};
use crate::lex::{closing_delimiter, is_open};
use crate::op::Op;
use crate::parse_spec::{
    advance, ahead, arguments_spec, assignment_spec, at_keyword, at_token, binary_rest_spec,
    binary_spec, call_rest_spec, call_spec, condition_spec, declaration_spec, delimited_spec,
    eat_any_op, eat_op_spec, expr_stmt_spec, fun_declaration_spec, identifier, left, level_ops,
    logic_and_rest_spec, logic_and_spec, logic_or_rest_spec, logic_or_spec, op_end, operand_spec,
    params_spec, parse_spec, block_spec, for_condition_spec, for_increment_spec,
    for_initializer_spec, for_stmt_spec, if_stmt_spec, primary_spec, report, return_stmt_spec,
    semicolon_spec, stmt_spec, stmts_spec, unary_spec, var_declaration_spec, while_stmt_spec,
    ParseState, Parsed,
};
use crate::span::Span;
use crate::syntax::{exprs_view, stmts_view, words_view, Expr, ExprView, Function, Stmt, StmtView};
use crate::text::push_char;
use crate::token::{Token, TokenTree, TokenView};
use crate::tokens::{consume, peek, peek_span, CursorView, Tokens};
use crate::word::Word;
use vstd::prelude::*;
use vstd::string::StringExecFns;

verus! {

/// A parser at work on the tokens of one tree.
pub struct Parser<'a> {
    tokens: Tokens<'a>,
    keywords: &'a Keywords,
}

/// The state of a parser that stands at `cursor` and has given
/// `diagnostics`.
pub open spec fn state_of(cursor: CursorView, diagnostics: Seq<Diagnostic>) -> ParseState {
    ParseState { cursor, diagnostics: diagnostics_view(diagnostics) }
}

/// `r` with the state after it is what `parsed` says.
pub open spec fn is_expr(
    r: Option<Expr>,
    cursor: CursorView,
    diagnostics: Seq<Diagnostic>,
    parsed: Parsed<ExprView>,
) -> bool {
    &&& parsed.state == state_of(cursor, diagnostics)
    &&& match r {
        Some(e) => parsed.value == Some(e@),
        None => parsed.value is None,
    }
}

/// `r` with the state after it is what `parsed` says.
pub open spec fn is_stmt(
    r: Option<Stmt>,
    cursor: CursorView,
    diagnostics: Seq<Diagnostic>,
    parsed: Parsed<StmtView>,
) -> bool {
    &&& parsed.state == state_of(cursor, diagnostics)
    &&& match r {
        Some(s) => parsed.value == Some(s@),
        None => parsed.value is None,
    }
}

/// The expression that assigns `value` to `target`. A target that is no
/// identifier is reported at `span` and stays as it is.
fn assign(target: Expr, value: Expr, span: Span, diagnostics: &mut Vec<Diagnostic>) -> (r: Expr)
    ensures
        match target@ {
            ExprView::Variable(name) => r@ == (ExprView::Assign {
                name,
                value: Box::new(value@),
            }) && diagnostics_view(final(diagnostics)@) == diagnostics_view(old(diagnostics)@),
            _ => r@ == target@ && diagnostics_view(final(diagnostics)@) == diagnostics_view(
                old(diagnostics)@,
            ).push(
                crate::diagnostic::DiagnosticView {
                    span,
                    message: "invalid assignment target"@,
                },
            ),
        },
{
    match target {
        Expr::Variable(name) => Expr::Assign { name, value: Box::new(value) },
        _ => {
            emit(diagnostics, span, String::from_str("invalid assignment target"));
            target
        },
    }
}

/// Appends a diagnostic.
fn emit(diagnostics: &mut Vec<Diagnostic>, span: Span, message: String)
    ensures
        diagnostics_view(final(diagnostics)@) == diagnostics_view(old(diagnostics)@).push(
            crate::diagnostic::DiagnosticView { span, message: message@ },
        ),
{
    diagnostics.push(Diagnostic { span, message });
    assert(diagnostics_view(diagnostics@) =~= diagnostics_view(old(diagnostics)@).push(
        crate::diagnostic::DiagnosticView { span, message: message@ },
    ));
}

impl<'a> Parser<'a> {
    /// The tokens that the parser reads.
    pub closed spec fn tokens(&self) -> Seq<TokenView> {
        self.tokens.tokens()
    }

    /// Where the parser stands.
    pub closed spec fn cursor(&self) -> CursorView {
        self.tokens@
    }

    pub closed spec fn well_formed(&self) -> bool {
        &&& self.tokens.well_formed()
        &&& self.keywords.well_formed()
    }

    /// A parser at the first token of `token_tree`.
    pub fn new(token_tree: &'a TokenTree, keywords: &'a Keywords) -> (r: Self)
        requires
            keywords.well_formed(),
        ensures
            r.well_formed(),
            r.tokens() == token_tree@.tokens,
            r.cursor() == crate::tokens::start_cursor(token_tree@.tokens, token_tree.span.start),
    {
        Self { tokens: Tokens::new(token_tree), keywords }
    }

    /// A parser stands within its tokens or at their end.
    pub proof fn lemma_in_bounds(&self)
        requires
            self.well_formed(),
        ensures
            0 <= self.cursor().index <= self.tokens().len(),
    {
        self.tokens.lemma_in_bounds();
    }

    /// Reports `message` at `span`.
    fn error(&self, diagnostics: &mut Vec<Diagnostic>, span: Span, message: &str)
        ensures
            state_of(self.cursor(), final(diagnostics)@) == report(
                state_of(self.cursor(), old(diagnostics)@),
                span,
                message@,
            ),
    {
        emit(diagnostics, span, String::from_str(message));
    }

    /// Moves behind the next token, which there has to be.
    fn bump(&mut self, Ghost(diagnostics): Ghost<Seq<Diagnostic>>)
        requires
            old(self).well_formed(),
            peek(old(self).tokens(), old(self).cursor()) is Some,
        ensures
            final(self).well_formed(),
            final(self).tokens() == old(self).tokens(),
            state_of(final(self).cursor(), diagnostics) == advance(
                old(self).tokens(),
                state_of(old(self).cursor(), diagnostics),
            ),
            old(self).cursor().index < final(self).cursor().index <= final(self).tokens().len(),
    {
        self.tokens.consume();
        proof {
            self.tokens.lemma_in_bounds();
        }
    }

    /// Whether the next token is the keyword `kw`.
    fn at(&self, kw: Keyword, Ghost(diagnostics): Ghost<Seq<Diagnostic>>) -> (r: bool)
        requires
            self.well_formed(),
        ensures
            r == at_keyword(self.tokens(), state_of(self.cursor(), diagnostics), kw),
            r ==> peek(self.tokens(), self.cursor()) is Some,
    {
        match self.tokens.peek() {
            Some(token) => kw.test(token).is_some(),
            None => false,
        }
    }

    /// Whether the next token is the delimiter `c`.
    fn at_delimiter(&self, c: char, Ghost(diagnostics): Ghost<Seq<Diagnostic>>) -> (r: bool)
        requires
            self.well_formed(),
        ensures
            r == at_token(
                self.tokens(),
                state_of(self.cursor(), diagnostics),
                TokenView::Delimiter(c),
            ),
            r ==> peek(self.tokens(), self.cursor()) is Some,
    {
        match self.tokens.peek() {
            Some(Token::Delimiter(d)) => *d == c,
            _ => false,
        }
    }

    /// Whether the next token is a `;`.
    fn at_semicolon(&self, Ghost(diagnostics): Ghost<Seq<Diagnostic>>) -> (r: bool)
        requires
            self.well_formed(),
        ensures
            r == at_token(self.tokens(), state_of(self.cursor(), diagnostics), TokenView::Semicolon),
            r ==> peek(self.tokens(), self.cursor()) is Some,
    {
        match self.tokens.peek() {
            Some(Token::Semicolon) => true,
            _ => false,
        }
    }

    /// Whether the next token is a `,`.
    fn at_comma(&self, Ghost(diagnostics): Ghost<Seq<Diagnostic>>) -> (r: bool)
        requires
            self.well_formed(),
        ensures
            r == at_token(self.tokens(), state_of(self.cursor(), diagnostics), TokenView::Comma),
            r ==> peek(self.tokens(), self.cursor()) is Some,
    {
        match self.tokens.peek() {
            Some(Token::Comma) => true,
            _ => false,
        }
    }

    /// The next token as an identifier: a word that is no keyword.
    fn peek_identifier(&self, Ghost(diagnostics): Ghost<Seq<Diagnostic>>) -> (r: Option<&'a Word>)
        requires
            self.well_formed(),
        ensures
            match r {
                Some(word) => identifier(self.tokens(), state_of(self.cursor(), diagnostics))
                    == Some(word@) && peek(self.tokens(), self.cursor()) == Some(
                    TokenView::Alphabetic(word@),
                ),
                None => identifier(self.tokens(), state_of(self.cursor(), diagnostics)) is None,
            },
    {
        match self.tokens.peek() {
            Some(Token::Alphabetic(word)) => {
                match self.keywords.get(word) {
                    Some(_) => {
                        proof {
                            lemma_keyword_text_is_keyword(word@);
                        }
                        None
                    },
                    None => Some(word),
                }
            },
            _ => None,
        }
    }

    /// Peek ahead to see if `op` matches the next tokens; if so, return the
    /// cursor behind the operator.
    fn test_op(&self, op: Op) -> (r: Option<Tokens<'a>>)
        requires
            self.well_formed(),
        ensures
            match r {
                Some(tokens) => op_end(self.tokens(), self.cursor(), op) == Some(tokens@)
                    && tokens.well_formed() && tokens.tokens() == self.tokens() && self.cursor().index
                    < tokens@.index <= self.tokens().len(),
                None => op_end(self.tokens(), self.cursor(), op) is None,
            },
    {
        let mut tokens = self.tokens;
        match tokens.peek() {
            Some(Token::Op(c)) => {
                if *c != op.first() {
                    return None;
                }
            },
            _ => {
                return None;
            },
        }
        proof {
            tokens.lemma_in_bounds();
        }
        tokens.consume();
        match op.second() {
            Some(second) => {
                if tokens.skipped_any() {
                    return None;
                }
                match tokens.peek() {
                    Some(Token::Op(c)) => {
                        if *c != second {
                            return None;
                        }
                    },
                    _ => {
                        return None;
                    },
                }
                tokens.consume();
            },
            None => {},
        }
        proof {
            tokens.lemma_in_bounds();
        }
        if tokens.skipped_any() {
            return Some(tokens);
        }
        match tokens.peek() {
            Some(Token::Op(_)) => None,
            _ => Some(tokens),
        }
    }

    /// If the next tokens match the given operator, consume it.
    fn eat_op(&mut self, op: Op, Ghost(diagnostics): Ghost<Seq<Diagnostic>>) -> (r: bool)
        requires
            old(self).well_formed(),
        ensures
            final(self).well_formed(),
            final(self).tokens() == old(self).tokens(),
            match eat_op_spec(old(self).tokens(), state_of(old(self).cursor(), diagnostics), op) {
                Some(after) => r && after == state_of(final(self).cursor(), diagnostics) && old(self).cursor().index < final(self).cursor().index <= final(self).tokens().len(),
                None => !r && final(self).cursor() == old(self).cursor(),
            },
    {
        match self.test_op(op) {
            Some(tokens) => {
                self.tokens = tokens;
                true
            },
            None => false,
        }
    }

    /// The first of `ops`, in order, that stands next is consumed.
    fn eat_any(&mut self, ops: &Vec<Op>, Ghost(diagnostics): Ghost<Seq<Diagnostic>>) -> (r: Option<
        Op,
    >)
        requires
            old(self).well_formed(),
        ensures
            final(self).well_formed(),
            final(self).tokens() == old(self).tokens(),
            match eat_any_op(old(self).tokens(), state_of(old(self).cursor(), diagnostics), ops@, 0) {
                Some((op, after)) => r == Some(op) && after == state_of(
                    final(self).cursor(),
                    diagnostics,
                ) && old(self).cursor().index < final(self).cursor().index <= final(self).tokens().len(),
                None => r is None && final(self).cursor() == old(self).cursor(),
            },
    {
        let mut i: usize = 0;
        while i < ops.len()
            invariant
                self.well_formed(),
                self.tokens() == old(self).tokens(),
                self.cursor() == old(self).cursor(),
                i <= ops.len(),
                eat_any_op(old(self).tokens(), state_of(old(self).cursor(), diagnostics), ops@, 0)
                    == eat_any_op(
                    old(self).tokens(),
                    state_of(old(self).cursor(), diagnostics),
                    ops@,
                    i as int,
                ),
            decreases ops.len() - i,
        {
            if self.eat_op(ops[i], Ghost(diagnostics)) {
                return Some(ops[i]);
            }
            i += 1;
        }
        None
    }

    /// If the next token is the opening delimiter `delimiter`, consumes it,
    /// the token tree that follows, and the closing delimiter (if
    /// present). Reports an error if there is no closing delimiter.
    fn delimited(&mut self, delimiter: char, diagnostics: &mut Vec<Diagnostic>) -> (r: Option<
        &'a TokenTree,
    >)
        requires
            old(self).well_formed(),
            is_open(delimiter),
        ensures
            final(self).well_formed(),
            final(self).tokens() == old(self).tokens(),
            ({
                let parsed = delimited_spec(
                    old(self).tokens(),
                    state_of(old(self).cursor(), old(diagnostics)@),
                    delimiter,
                );
                &&& parsed.state == state_of(final(self).cursor(), final(diagnostics)@)
                &&& match r {
                    Some(tree) => parsed.value == Some(tree@) && decreases_to!(old(self).tokens() => tree@.tokens)
                        && old(self).cursor().index < final(self).cursor().index <= final(self).tokens().len(),
                    None => parsed.value is None && old(self).cursor().index <= final(self).cursor().index <= final(self).tokens().len(),
                }
            }),
    {
        proof {
            self.lemma_in_bounds();
        }
        if !self.at_delimiter(delimiter, Ghost(diagnostics@)) {
            return None;
        }
        self.bump(Ghost(diagnostics@));
        let tree = match self.tokens.peek() {
            Some(Token::Tree(tree)) => tree,
            _ => {
                return None;
            },
        };
        proof {
            let shown = peek(self.tokens(), self.cursor()).unwrap();
            assert(shown == old(self).tokens()[self.cursor().index]);
            assert(shown->Tree_0.tokens =~= tree@.tokens);
            assert(shown == TokenView::Tree(tree@));
        }
        self.bump(Ghost(diagnostics@));
        let closing = closing_delimiter(delimiter);
        if self.at_delimiter(closing, Ghost(diagnostics@)) {
            self.bump(Ghost(diagnostics@));
        } else {
            let span = self.tokens.peek_span();
            let mut message = String::from_str("expected `");
            push_char(&mut message, closing);
            push_char(&mut message, '`');
            emit(diagnostics, span, message);
        }
        Some(tree)
    }

    /// Consumes a `;`, or reports that there is none.
    fn semicolon(&mut self, diagnostics: &mut Vec<Diagnostic>)
        requires
            old(self).well_formed(),
        ensures
            final(self).well_formed(),
            final(self).tokens() == old(self).tokens(),
            state_of(final(self).cursor(), final(diagnostics)@) == semicolon_spec(
                old(self).tokens(),
                state_of(old(self).cursor(), old(diagnostics)@),
            ),
            old(self).cursor().index <= final(self).cursor().index <= final(self).tokens().len(),
    {
        proof {
            self.lemma_in_bounds();
        }
        if self.at_semicolon(Ghost(diagnostics@)) {
            self.bump(Ghost(diagnostics@));
        } else {
            let span = self.tokens.peek_span();
            self.error(diagnostics, span, "expected `;`");
        }
    }

    /// `primary -> "true" | "false" | "nil" | IDENTIFIER | NUMBER | STRING | "(" expression ")"`
    fn primary(&mut self, diagnostics: &mut Vec<Diagnostic>) -> (r: Option<Expr>)
        requires
            old(self).well_formed(),
        ensures
            final(self).well_formed(),
            final(self).tokens() == old(self).tokens(),
            is_expr(
                r,
                final(self).cursor(),
                final(diagnostics)@,
                primary_spec(old(self).tokens(), state_of(old(self).cursor(), old(diagnostics)@)),
            ),
            old(self).cursor().index <= final(self).cursor().index <= final(self).tokens().len(),
        decreases old(self).tokens(), old(self).tokens().len() - old(self).cursor().index, 0nat,
    {
        proof {
            self.lemma_in_bounds();
        }
        if self.at(Keyword::True, Ghost(diagnostics@)) {
            self.bump(Ghost(diagnostics@));
            return Some(Expr::BooleanLiteral(true));
        }
        if self.at(Keyword::False, Ghost(diagnostics@)) {
            self.bump(Ghost(diagnostics@));
            return Some(Expr::BooleanLiteral(false));
        }
        if self.at(Keyword::Nil, Ghost(diagnostics@)) {
            self.bump(Ghost(diagnostics@));
            return Some(Expr::NilLiteral);
        }
        match self.tokens.peek() {
            Some(Token::Alphabetic(_)) => {
                match self.peek_identifier(Ghost(diagnostics@)) {
                    Some(word) => {
                        self.bump(Ghost(diagnostics@));
                        Some(Expr::Variable(word.clone()))
                    },
                    None => None,
                }
            },
            Some(Token::Number(word)) => {
                self.bump(Ghost(diagnostics@));
                Some(Expr::NumberLiteral(word.clone()))
            },
            Some(Token::String(word)) => {
                self.bump(Ghost(diagnostics@));
                Some(Expr::StringLiteral(word.clone()))
            },
            Some(Token::Delimiter(_)) => {
                match self.delimited('(', diagnostics) {
                    Some(tree) => {
                        let mut inner = Parser::new(tree, self.keywords);
                        match inner.assignment(diagnostics) {
                            Some(e) => Some(Expr::Parenthesized(Box::new(e))),
                            None => None,
                        }
                    },
                    None => None,
                }
            },
            _ => None,
        }
    }

    /// The arguments of a call that follow `arguments`: they are all that
    /// is left for this parser to read.
    fn arguments(&mut self, arguments: Vec<Expr>, diagnostics: &mut Vec<Diagnostic>) -> (r: Vec<
        Expr,
    >)
        requires
            old(self).well_formed(),
        ensures
            final(self).well_formed(),
            final(self).tokens() == old(self).tokens(),
            ({
                let parsed = arguments_spec(
                    old(self).tokens(),
                    state_of(old(self).cursor(), old(diagnostics)@),
                    exprs_view(arguments@),
                );
                &&& parsed.value == Some(exprs_view(r@))
                &&& parsed.state == state_of(final(self).cursor(), final(diagnostics)@)
            }),
        decreases old(self).tokens(), old(self).tokens().len() - old(self).cursor().index, 30nat,
    {
        let mut arguments = arguments;
        let ghost before = exprs_view(arguments@);
        match self.assignment(diagnostics) {
            Some(e) => {
                arguments.push(e);
                assert(exprs_view(arguments@) =~= before.push(e@));
                if self.at_comma(Ghost(diagnostics@)) {
                    self.bump(Ghost(diagnostics@));
                    self.arguments(arguments, diagnostics)
                } else {
                    arguments
                }
            },
            None => arguments,
        }
    }

    /// The calls that follow `callee`: `( "(" arguments ")" )*`
    fn call_rest(&mut self, callee: Expr, diagnostics: &mut Vec<Diagnostic>) -> (r: Option<Expr>)
        requires
            old(self).well_formed(),
        ensures
            final(self).well_formed(),
            final(self).tokens() == old(self).tokens(),
            is_expr(
                r,
                final(self).cursor(),
                final(diagnostics)@,
                call_rest_spec(
                    old(self).tokens(),
                    state_of(old(self).cursor(), old(diagnostics)@),
                    callee@,
                ),
            ),
            old(self).cursor().index <= final(self).cursor().index <= final(self).tokens().len(),
        decreases old(self).tokens(), old(self).tokens().len() - old(self).cursor().index, 1nat,
    {
        proof {
            self.lemma_in_bounds();
        }
        if !self.at_delimiter('(', Ghost(diagnostics@)) {
            return Some(callee);
        }
        match self.delimited('(', diagnostics) {
            Some(tree) => {
                let mut inner = Parser::new(tree, self.keywords);
                let none: Vec<Expr> = Vec::new();
                assert(exprs_view(none@) =~= Seq::<ExprView>::empty());
                let arguments = inner.arguments(none, diagnostics);
                let ghost shown = callee@;
                let call = Expr::Call { callee: Box::new(callee), arguments };
                proof {
                    assert(call@->Call_arguments =~= exprs_view(arguments@));
                    assert(call@ == ExprView::Call {
                        callee: Box::new(shown),
                        arguments: exprs_view(arguments@),
                    });
                }
                self.call_rest(call, diagnostics)
            },
            None => None,
        }
    }

    /// `call -> primary ( "(" arguments ")" )*`
    fn call(&mut self, diagnostics: &mut Vec<Diagnostic>) -> (r: Option<Expr>)
        requires
            old(self).well_formed(),
        ensures
            final(self).well_formed(),
            final(self).tokens() == old(self).tokens(),
            is_expr(
                r,
                final(self).cursor(),
                final(diagnostics)@,
                call_spec(old(self).tokens(), state_of(old(self).cursor(), old(diagnostics)@)),
            ),
            old(self).cursor().index <= final(self).cursor().index <= final(self).tokens().len(),
        decreases old(self).tokens(), old(self).tokens().len() - old(self).cursor().index, 2nat,
    {
        match self.primary(diagnostics) {
            Some(e) => self.call_rest(e, diagnostics),
            None => None,
        }
    }

    /// `unary -> ( "-" | "!" ) unary | call`
    fn unary(&mut self, diagnostics: &mut Vec<Diagnostic>) -> (r: Option<Expr>)
        requires
            old(self).well_formed(),
        ensures
            final(self).well_formed(),
            final(self).tokens() == old(self).tokens(),
            is_expr(
                r,
                final(self).cursor(),
                final(diagnostics)@,
                unary_spec(old(self).tokens(), state_of(old(self).cursor(), old(diagnostics)@)),
            ),
            old(self).cursor().index <= final(self).cursor().index <= final(self).tokens().len(),
        decreases old(self).tokens(), old(self).tokens().len() - old(self).cursor().index, 3nat,
    {
        let ops = vec![Op::Minus, Op::Bang];
        assert(ops@ =~= seq![Op::Minus, Op::Bang]);
        match self.eat_any(&ops, Ghost(diagnostics@)) {
            Some(op) => {
                match self.unary(diagnostics) {
                    Some(e) => Some(Expr::UnaryOp(op, Box::new(e))),
                    None => None,
                }
            },
            None => self.call(diagnostics),
        }
    }

    /// An operand of a two-operand expression of level `level`.
    fn operand(&mut self, level: usize, diagnostics: &mut Vec<Diagnostic>) -> (r: Option<Expr>)
        requires
            old(self).well_formed(),
            level <= 3,
        ensures
            final(self).well_formed(),
            final(self).tokens() == old(self).tokens(),
            is_expr(
                r,
                final(self).cursor(),
                final(diagnostics)@,
                operand_spec(
                    old(self).tokens(),
                    state_of(old(self).cursor(), old(diagnostics)@),
                    level as nat,
                ),
            ),
            old(self).cursor().index <= final(self).cursor().index <= final(self).tokens().len(),
        decreases old(self).tokens(), old(self).tokens().len() - old(self).cursor().index, 4 + 4 * level,
    {
        if level == 0 {
            self.unary(diagnostics)
        } else if level == 1 {
            self.factor(diagnostics)
        } else if level == 2 {
            self.term(diagnostics)
        } else {
            self.comparison(diagnostics)
        }
    }

    /// The operators of a level of two-operand expressions.
    fn operators(level: usize) -> (r: Vec<Op>)
        ensures
            r@ == level_ops(level as nat),
    {
        let r = if level == 0 {
            vec![Op::Star, Op::Slash]
        } else if level == 1 {
            vec![Op::Minus, Op::Plus]
        } else if level == 2 {
            vec![Op::Greater, Op::GreaterEqual, Op::Less, Op::LessEqual]
        } else {
            vec![Op::NotEqual, Op::EqualEqual]
        };
        assert(r@ =~= level_ops(level as nat));
        r
    }

    /// The operators and operands that follow `left_operand` at level
    /// `level`.
    fn binary_rest(&mut self, level: usize, left_operand: Expr, diagnostics: &mut Vec<Diagnostic>) -> (r:
        Option<Expr>)
        requires
            old(self).well_formed(),
            level <= 3,
        ensures
            final(self).well_formed(),
            final(self).tokens() == old(self).tokens(),
            is_expr(
                r,
                final(self).cursor(),
                final(diagnostics)@,
                binary_rest_spec(
                    old(self).tokens(),
                    state_of(old(self).cursor(), old(diagnostics)@),
                    level as nat,
                    left_operand@,
                ),
            ),
            old(self).cursor().index <= final(self).cursor().index <= final(self).tokens().len(),
        decreases old(self).tokens(), old(self).tokens().len() - old(self).cursor().index, 5 + 4 * level,
    {
        proof {
            self.lemma_in_bounds();
        }
        let ops = Self::operators(level);
        match self.eat_any(&ops, Ghost(diagnostics@)) {
            Some(op) => {
                match self.operand(level, diagnostics) {
                    Some(right) => {
                        let joined = Expr::BinaryOp(Box::new(left_operand), op, Box::new(right));
                        self.binary_rest(level, joined, diagnostics)
                    },
                    None => Some(left_operand),
                }
            },
            None => Some(left_operand),
        }
    }

    /// A two-operand expression of level `level`: 0 for factors, 1 for
    /// terms, 2 for comparisons, 3 for equalities.
    fn binary(&mut self, level: usize, diagnostics: &mut Vec<Diagnostic>) -> (r: Option<Expr>)
        requires
            old(self).well_formed(),
            level <= 3,
        ensures
            final(self).well_formed(),
            final(self).tokens() == old(self).tokens(),
            is_expr(
                r,
                final(self).cursor(),
                final(diagnostics)@,
                binary_spec(
                    old(self).tokens(),
                    state_of(old(self).cursor(), old(diagnostics)@),
                    level as nat,
                ),
            ),
            old(self).cursor().index <= final(self).cursor().index <= final(self).tokens().len(),
        decreases old(self).tokens(), old(self).tokens().len() - old(self).cursor().index, 6 + 4 * level,
    {
        match self.operand(level, diagnostics) {
            Some(e) => self.binary_rest(level, e, diagnostics),
            None => None,
        }
    }

    /// `factor -> unary ( ( "/" | "*" ) unary )*`
    fn factor(&mut self, diagnostics: &mut Vec<Diagnostic>) -> (r: Option<Expr>)
        requires
            old(self).well_formed(),
        ensures
            final(self).well_formed(),
            final(self).tokens() == old(self).tokens(),
            is_expr(
                r,
                final(self).cursor(),
                final(diagnostics)@,
                binary_spec(old(self).tokens(), state_of(old(self).cursor(), old(diagnostics)@), 0),
            ),
            old(self).cursor().index <= final(self).cursor().index <= final(self).tokens().len(),
        decreases old(self).tokens(), old(self).tokens().len() - old(self).cursor().index, 7nat,
    {
        self.binary(0, diagnostics)
    }

    /// `term -> factor ( ( "-" | "+" ) factor )*`
    fn term(&mut self, diagnostics: &mut Vec<Diagnostic>) -> (r: Option<Expr>)
        requires
            old(self).well_formed(),
        ensures
            final(self).well_formed(),
            final(self).tokens() == old(self).tokens(),
            is_expr(
                r,
                final(self).cursor(),
                final(diagnostics)@,
                binary_spec(old(self).tokens(), state_of(old(self).cursor(), old(diagnostics)@), 1),
            ),
            old(self).cursor().index <= final(self).cursor().index <= final(self).tokens().len(),
        decreases old(self).tokens(), old(self).tokens().len() - old(self).cursor().index, 11nat,
    {
        self.binary(1, diagnostics)
    }

    /// `comparison -> term ( ( ">" | ">=" | "<" | "<=" ) term )*`
    fn comparison(&mut self, diagnostics: &mut Vec<Diagnostic>) -> (r: Option<Expr>)
        requires
            old(self).well_formed(),
        ensures
            final(self).well_formed(),
            final(self).tokens() == old(self).tokens(),
            is_expr(
                r,
                final(self).cursor(),
                final(diagnostics)@,
                binary_spec(old(self).tokens(), state_of(old(self).cursor(), old(diagnostics)@), 2),
            ),
            old(self).cursor().index <= final(self).cursor().index <= final(self).tokens().len(),
        decreases old(self).tokens(), old(self).tokens().len() - old(self).cursor().index, 15nat,
    {
        self.binary(2, diagnostics)
    }

    /// `equality -> comparison ( ( "!=" | "==" ) comparison )*`
    fn equality(&mut self, diagnostics: &mut Vec<Diagnostic>) -> (r: Option<Expr>)
        requires
            old(self).well_formed(),
        ensures
            final(self).well_formed(),
            final(self).tokens() == old(self).tokens(),
            is_expr(
                r,
                final(self).cursor(),
                final(diagnostics)@,
                binary_spec(old(self).tokens(), state_of(old(self).cursor(), old(diagnostics)@), 3),
            ),
            old(self).cursor().index <= final(self).cursor().index <= final(self).tokens().len(),
        decreases old(self).tokens(), old(self).tokens().len() - old(self).cursor().index, 19nat,
    {
        self.binary(3, diagnostics)
    }

    /// The `and`s that follow `left_operand`.
    fn logic_and_rest(&mut self, left_operand: Expr, diagnostics: &mut Vec<Diagnostic>) -> (r:
        Option<Expr>)
        requires
            old(self).well_formed(),
        ensures
            final(self).well_formed(),
            final(self).tokens() == old(self).tokens(),
            is_expr(
                r,
                final(self).cursor(),
                final(diagnostics)@,
                logic_and_rest_spec(
                    old(self).tokens(),
                    state_of(old(self).cursor(), old(diagnostics)@),
                    left_operand@,
                ),
            ),
            old(self).cursor().index <= final(self).cursor().index <= final(self).tokens().len(),
        decreases old(self).tokens(), old(self).tokens().len() - old(self).cursor().index, 20nat,
    {
        proof {
            self.lemma_in_bounds();
        }
        if !self.at(Keyword::And, Ghost(diagnostics@)) {
            return Some(left_operand);
        }
        self.bump(Ghost(diagnostics@));
        match self.equality(diagnostics) {
            Some(right) => {
                let joined = Expr::LogicalAnd(Box::new(left_operand), Box::new(right));
                self.logic_and_rest(joined, diagnostics)
            },
            None => None,
        }
    }

    /// `logic_and -> equality ( "and" equality )*`
    fn logic_and(&mut self, diagnostics: &mut Vec<Diagnostic>) -> (r: Option<Expr>)
        requires
            old(self).well_formed(),
        ensures
            final(self).well_formed(),
            final(self).tokens() == old(self).tokens(),
            is_expr(
                r,
                final(self).cursor(),
                final(diagnostics)@,
                logic_and_spec(old(self).tokens(), state_of(old(self).cursor(), old(diagnostics)@)),
            ),
            old(self).cursor().index <= final(self).cursor().index <= final(self).tokens().len(),
        decreases old(self).tokens(), old(self).tokens().len() - old(self).cursor().index, 21nat,
    {
        match self.equality(diagnostics) {
            Some(e) => self.logic_and_rest(e, diagnostics),
            None => None,
        }
    }

    /// The `or`s that follow `left_operand`.
    fn logic_or_rest(&mut self, left_operand: Expr, diagnostics: &mut Vec<Diagnostic>) -> (r:
        Option<Expr>)
        requires
            old(self).well_formed(),
        ensures
            final(self).well_formed(),
            final(self).tokens() == old(self).tokens(),
            is_expr(
                r,
                final(self).cursor(),
                final(diagnostics)@,
                logic_or_rest_spec(
                    old(self).tokens(),
                    state_of(old(self).cursor(), old(diagnostics)@),
                    left_operand@,
                ),
            ),
            old(self).cursor().index <= final(self).cursor().index <= final(self).tokens().len(),
        decreases old(self).tokens(), old(self).tokens().len() - old(self).cursor().index, 22nat,
    {
        proof {
            self.lemma_in_bounds();
        }
        if !self.at(Keyword::Or, Ghost(diagnostics@)) {
            return Some(left_operand);
        }
        self.bump(Ghost(diagnostics@));
        match self.logic_and(diagnostics) {
            Some(right) => {
                let joined = Expr::LogicalOr(Box::new(left_operand), Box::new(right));
                self.logic_or_rest(joined, diagnostics)
            },
            None => None,
        }
    }

    /// `logic_or -> logic_and ( "or" logic_and )*`
    fn logic_or(&mut self, diagnostics: &mut Vec<Diagnostic>) -> (r: Option<Expr>)
        requires
            old(self).well_formed(),
        ensures
            final(self).well_formed(),
            final(self).tokens() == old(self).tokens(),
            is_expr(
                r,
                final(self).cursor(),
                final(diagnostics)@,
                logic_or_spec(old(self).tokens(), state_of(old(self).cursor(), old(diagnostics)@)),
            ),
            old(self).cursor().index <= final(self).cursor().index <= final(self).tokens().len(),
        decreases old(self).tokens(), old(self).tokens().len() - old(self).cursor().index, 23nat,
    {
        match self.logic_and(diagnostics) {
            Some(e) => self.logic_or_rest(e, diagnostics),
            None => None,
        }
    }

    /// `assignment -> IDENTIFIER "=" assignment | logic_or`
    fn assignment(&mut self, diagnostics: &mut Vec<Diagnostic>) -> (r: Option<Expr>)
        requires
            old(self).well_formed(),
        ensures
            final(self).well_formed(),
            final(self).tokens() == old(self).tokens(),
            is_expr(
                r,
                final(self).cursor(),
                final(diagnostics)@,
                assignment_spec(old(self).tokens(), state_of(old(self).cursor(), old(diagnostics)@)),
            ),
            old(self).cursor().index <= final(self).cursor().index <= final(self).tokens().len(),
        decreases old(self).tokens(), old(self).tokens().len() - old(self).cursor().index, 24nat,
    {
        let expr = match self.logic_or(diagnostics) {
            Some(e) => e,
            None => {
                return None;
            },
        };
        if self.eat_op(Op::Equal, Ghost(diagnostics@)) {
            let value = match self.assignment(diagnostics) {
                Some(v) => v,
                None => {
                    return None;
                },
            };
            let span = self.tokens.peek_span();
            Some(assign(expr, value, span, diagnostics))
        } else {
            Some(expr)
        }
    }

    /// `expression -> assignment`
    pub fn parse_expr(&mut self, diagnostics: &mut Vec<Diagnostic>) -> (r: Option<Expr>)
        requires
            old(self).well_formed(),
        ensures
            final(self).well_formed(),
            final(self).tokens() == old(self).tokens(),
            is_expr(
                r,
                final(self).cursor(),
                final(diagnostics)@,
                assignment_spec(old(self).tokens(), state_of(old(self).cursor(), old(diagnostics)@)),
            ),
    {
        self.assignment(diagnostics)
    }

    /// What follows `var`: `IDENTIFIER ( "=" expression )? ";"`
    fn var_declaration(&mut self, diagnostics: &mut Vec<Diagnostic>) -> (r: Option<Stmt>)
        requires
            old(self).well_formed(),
        ensures
            final(self).well_formed(),
            final(self).tokens() == old(self).tokens(),
            is_stmt(
                r,
                final(self).cursor(),
                final(diagnostics)@,
                var_declaration_spec(
                    old(self).tokens(),
                    state_of(old(self).cursor(), old(diagnostics)@),
                ),
            ),
            old(self).cursor().index <= final(self).cursor().index <= final(self).tokens().len(),
            r is Some ==> old(self).cursor().index < final(self).cursor().index,
    {
        proof {
            self.lemma_in_bounds();
        }
        let name = match self.peek_identifier(Ghost(diagnostics@)) {
            Some(word) => word.clone(),
            None => {
                return None;
            },
        };
        self.bump(Ghost(diagnostics@));
        let initializer = if self.eat_op(Op::Equal, Ghost(diagnostics@)) {
            match self.assignment(diagnostics) {
                Some(e) => Some(e),
                None => {
                    return None;
                },
            }
        } else {
            None
        };
        self.semicolon(diagnostics);
        Some(Stmt::VariableDeclaration { name, initializer })
    }

    /// An expression followed by `;`, made into a statement by `print` or
    /// not.
    fn expr_stmt_as(&mut self, print: bool, diagnostics: &mut Vec<Diagnostic>) -> (r: Option<Stmt>)
        requires
            old(self).well_formed(),
        ensures
            final(self).well_formed(),
            final(self).tokens() == old(self).tokens(),
            is_stmt(
                r,
                final(self).cursor(),
                final(diagnostics)@,
                expr_stmt_spec(
                    old(self).tokens(),
                    state_of(old(self).cursor(), old(diagnostics)@),
                    print,
                ),
            ),
            old(self).cursor().index <= final(self).cursor().index <= final(self).tokens().len(),
    {
        let expr = match self.assignment(diagnostics) {
            Some(e) => e,
            None => {
                return None;
            },
        };
        self.semicolon(diagnostics);
        if print {
            Some(Stmt::Print(expr))
        } else {
            Some(Stmt::Expr(expr))
        }
    }

    /// What follows `print`: `expression ";"`
    fn print_stmt(&mut self, diagnostics: &mut Vec<Diagnostic>) -> (r: Option<Stmt>)
        requires
            old(self).well_formed(),
        ensures
            final(self).well_formed(),
            final(self).tokens() == old(self).tokens(),
            is_stmt(
                r,
                final(self).cursor(),
                final(diagnostics)@,
                expr_stmt_spec(
                    old(self).tokens(),
                    state_of(old(self).cursor(), old(diagnostics)@),
                    true,
                ),
            ),
            old(self).cursor().index <= final(self).cursor().index <= final(self).tokens().len(),
    {
        self.expr_stmt_as(true, diagnostics)
    }

    /// `expression ";"`
    fn expr_stmt(&mut self, diagnostics: &mut Vec<Diagnostic>) -> (r: Option<Stmt>)
        requires
            old(self).well_formed(),
        ensures
            final(self).well_formed(),
            final(self).tokens() == old(self).tokens(),
            is_stmt(
                r,
                final(self).cursor(),
                final(diagnostics)@,
                expr_stmt_spec(
                    old(self).tokens(),
                    state_of(old(self).cursor(), old(diagnostics)@),
                    false,
                ),
            ),
            old(self).cursor().index <= final(self).cursor().index <= final(self).tokens().len(),
    {
        self.expr_stmt_as(false, diagnostics)
    }

    /// What follows `return`: `expression? ";"`
    fn return_stmt(&mut self, diagnostics: &mut Vec<Diagnostic>) -> (r: Option<Stmt>)
        requires
            old(self).well_formed(),
        ensures
            final(self).well_formed(),
            final(self).tokens() == old(self).tokens(),
            is_stmt(
                r,
                final(self).cursor(),
                final(diagnostics)@,
                return_stmt_spec(old(self).tokens(), state_of(old(self).cursor(), old(diagnostics)@)),
            ),
            old(self).cursor().index <= final(self).cursor().index <= final(self).tokens().len(),
    {
        proof {
            self.lemma_in_bounds();
        }
        if self.at_semicolon(Ghost(diagnostics@)) {
            self.bump(Ghost(diagnostics@));
            return Some(Stmt::Return(None));
        }
        let expr = match self.assignment(diagnostics) {
            Some(e) => e,
            None => {
                return None;
            },
        };
        self.semicolon(diagnostics);
        Some(Stmt::Return(Some(expr)))
    }

    /// The condition of an `if` or a `while`: the expression in the
    /// parentheses that stand next.
    fn condition(&mut self, diagnostics: &mut Vec<Diagnostic>) -> (r: Option<Expr>)
        requires
            old(self).well_formed(),
        ensures
            final(self).well_formed(),
            final(self).tokens() == old(self).tokens(),
            is_expr(
                r,
                final(self).cursor(),
                final(diagnostics)@,
                condition_spec(old(self).tokens(), state_of(old(self).cursor(), old(diagnostics)@)),
            ),
            old(self).cursor().index <= final(self).cursor().index <= final(self).tokens().len(),
            r is Some ==> old(self).cursor().index < final(self).cursor().index,
    {
        match self.delimited('(', diagnostics) {
            Some(tree) => {
                let mut inner = Parser::new(tree, self.keywords);
                inner.assignment(diagnostics)
            },
            None => None,
        }
    }

    /// The first part of the head of a `for`.
    fn for_initializer(&mut self, diagnostics: &mut Vec<Diagnostic>) -> (r: Option<Option<Box<Stmt>>>)
        requires
            old(self).well_formed(),
        ensures
            final(self).well_formed(),
            final(self).tokens() == old(self).tokens(),
            ({
                let parsed = for_initializer_spec(
                    old(self).tokens(),
                    state_of(old(self).cursor(), old(diagnostics)@),
                );
                &&& parsed.state == state_of(final(self).cursor(), final(diagnostics)@)
                &&& match r {
                    Some(Some(s)) => parsed.value == Some(Some(Box::new(s@))),
                    Some(None) => parsed.value == Some(None::<Box<StmtView>>),
                    None => parsed.value is None,
                }
            }),
    {
        proof {
            self.lemma_in_bounds();
        }
        if self.at_semicolon(Ghost(diagnostics@)) {
            self.bump(Ghost(diagnostics@));
            Some(None)
        } else if self.at(Keyword::Var, Ghost(diagnostics@)) {
            self.bump(Ghost(diagnostics@));
            match self.var_declaration(diagnostics) {
                Some(s) => Some(Some(Box::new(s))),
                None => None,
            }
        } else {
            match self.expr_stmt(diagnostics) {
                Some(s) => Some(Some(Box::new(s))),
                None => None,
            }
        }
    }

    /// The second part of the head of a `for`.
    fn for_condition(&mut self, diagnostics: &mut Vec<Diagnostic>) -> (r: Option<Option<Expr>>)
        requires
            old(self).well_formed(),
        ensures
            final(self).well_formed(),
            final(self).tokens() == old(self).tokens(),
            ({
                let parsed = for_condition_spec(
                    old(self).tokens(),
                    state_of(old(self).cursor(), old(diagnostics)@),
                );
                &&& parsed.state == state_of(final(self).cursor(), final(diagnostics)@)
                &&& match r {
                    Some(Some(e)) => parsed.value == Some(Some(e@)),
                    Some(None) => parsed.value == Some(None::<ExprView>),
                    None => parsed.value is None,
                }
            }),
    {
        proof {
            self.lemma_in_bounds();
        }
        if self.at_semicolon(Ghost(diagnostics@)) {
            self.bump(Ghost(diagnostics@));
            Some(None)
        } else {
            match self.assignment(diagnostics) {
                Some(e) => {
                    self.semicolon(diagnostics);
                    Some(Some(e))
                },
                None => None,
            }
        }
    }

    /// The third part of the head of a `for`.
    fn for_increment(&mut self, diagnostics: &mut Vec<Diagnostic>) -> (r: Option<Option<Expr>>)
        requires
            old(self).well_formed(),
        ensures
            final(self).well_formed(),
            final(self).tokens() == old(self).tokens(),
            ({
                let parsed = for_increment_spec(
                    old(self).tokens(),
                    state_of(old(self).cursor(), old(diagnostics)@),
                );
                &&& parsed.state == state_of(final(self).cursor(), final(diagnostics)@)
                &&& match r {
                    Some(Some(e)) => parsed.value == Some(Some(e@)),
                    Some(None) => parsed.value == Some(None::<ExprView>),
                    None => parsed.value is None,
                }
            }),
    {
        match self.tokens.peek() {
            None => Some(None),
            Some(_) => {
                match self.assignment(diagnostics) {
                    Some(e) => Some(Some(e)),
                    None => None,
                }
            },
        }
    }

    /// What follows `for`: `"(" head ")" statement`
    fn for_stmt(&mut self, diagnostics: &mut Vec<Diagnostic>) -> (r: Option<Stmt>)
        requires
            old(self).well_formed(),
        ensures
            final(self).well_formed(),
            final(self).tokens() == old(self).tokens(),
            is_stmt(
                r,
                final(self).cursor(),
                final(diagnostics)@,
                for_stmt_spec(old(self).tokens(), state_of(old(self).cursor(), old(diagnostics)@)),
            ),
            old(self).cursor().index <= final(self).cursor().index <= final(self).tokens().len(),
            r is Some ==> old(self).cursor().index < final(self).cursor().index,
        decreases old(self).tokens(), old(self).tokens().len() - old(self).cursor().index, 32nat,
    {
        let tree = match self.delimited('(', diagnostics) {
            Some(tree) => tree,
            None => {
                return None;
            },
        };
        let mut inner = Parser::new(tree, self.keywords);
        let initializer = match inner.for_initializer(diagnostics) {
            Some(s) => s,
            None => {
                return None;
            },
        };
        let condition = match inner.for_condition(diagnostics) {
            Some(e) => e,
            None => {
                return None;
            },
        };
        let increment = match inner.for_increment(diagnostics) {
            Some(e) => e,
            None => {
                return None;
            },
        };
        match self.stmt(diagnostics) {
            Some(body) => Some(Stmt::For { initializer, condition, increment, body: Box::new(body) }),
            None => None,
        }
    }

    /// What follows `while`: `"(" expression ")" statement`
    fn while_stmt(&mut self, diagnostics: &mut Vec<Diagnostic>) -> (r: Option<Stmt>)
        requires
            old(self).well_formed(),
        ensures
            final(self).well_formed(),
            final(self).tokens() == old(self).tokens(),
            is_stmt(
                r,
                final(self).cursor(),
                final(diagnostics)@,
                while_stmt_spec(old(self).tokens(), state_of(old(self).cursor(), old(diagnostics)@)),
            ),
            old(self).cursor().index <= final(self).cursor().index <= final(self).tokens().len(),
            r is Some ==> old(self).cursor().index < final(self).cursor().index,
        decreases old(self).tokens(), old(self).tokens().len() - old(self).cursor().index, 32nat,
    {
        let condition = match self.condition(diagnostics) {
            Some(e) => e,
            None => {
                return None;
            },
        };
        match self.stmt(diagnostics) {
            Some(body) => Some(Stmt::While { condition, body: Box::new(body) }),
            None => None,
        }
    }

    /// What follows `if`: `"(" expression ")" statement ( "else" statement )?`
    fn if_stmt(&mut self, diagnostics: &mut Vec<Diagnostic>) -> (r: Option<Stmt>)
        requires
            old(self).well_formed(),
        ensures
            final(self).well_formed(),
            final(self).tokens() == old(self).tokens(),
            is_stmt(
                r,
                final(self).cursor(),
                final(diagnostics)@,
                if_stmt_spec(old(self).tokens(), state_of(old(self).cursor(), old(diagnostics)@)),
            ),
            old(self).cursor().index <= final(self).cursor().index <= final(self).tokens().len(),
            r is Some ==> old(self).cursor().index < final(self).cursor().index,
        decreases old(self).tokens(), old(self).tokens().len() - old(self).cursor().index, 32nat,
    {
        let condition = match self.condition(diagnostics) {
            Some(e) => e,
            None => {
                return None;
            },
        };
        let then_branch = match self.stmt(diagnostics) {
            Some(s) => s,
            None => {
                return None;
            },
        };
        let else_branch = if self.at(Keyword::Else, Ghost(diagnostics@)) {
            self.bump(Ghost(diagnostics@));
            match self.stmt(diagnostics) {
                Some(s) => Some(Box::new(s)),
                None => None,
            }
        } else {
            None
        };
        Some(Stmt::If { condition, then_branch: Box::new(then_branch), else_branch })
    }

    /// What follows `{` up to its `}`.
    fn block(&mut self, diagnostics: &mut Vec<Diagnostic>) -> (r: Option<Stmt>)
        requires
            old(self).well_formed(),
        ensures
            final(self).well_formed(),
            final(self).tokens() == old(self).tokens(),
            is_stmt(
                r,
                final(self).cursor(),
                final(diagnostics)@,
                block_spec(old(self).tokens(), state_of(old(self).cursor(), old(diagnostics)@)),
            ),
            old(self).cursor().index <= final(self).cursor().index <= final(self).tokens().len(),
            r is Some ==> old(self).cursor().index < final(self).cursor().index,
        decreases old(self).tokens(), old(self).tokens().len() - old(self).cursor().index, 32nat,
    {
        match self.delimited('{', diagnostics) {
            Some(tree) => {
                let mut inner = Parser::new(tree, self.keywords);
                let none: Vec<Stmt> = Vec::new();
                assert(stmts_view(none@) =~= Seq::<StmtView>::empty());
                let stmts = inner.stmts(none, diagnostics);
                let block = Stmt::Block(stmts);
                proof {
                    assert(block@->Block_0 =~= stmts_view(stmts@));
                }
                Some(block)
            },
            None => None,
        }
    }

    /// A statement.
    fn stmt(&mut self, diagnostics: &mut Vec<Diagnostic>) -> (r: Option<Stmt>)
        requires
            old(self).well_formed(),
        ensures
            final(self).well_formed(),
            final(self).tokens() == old(self).tokens(),
            is_stmt(
                r,
                final(self).cursor(),
                final(diagnostics)@,
                stmt_spec(old(self).tokens(), state_of(old(self).cursor(), old(diagnostics)@)),
            ),
            old(self).cursor().index <= final(self).cursor().index <= final(self).tokens().len(),
        decreases old(self).tokens(), old(self).tokens().len() - old(self).cursor().index, 33nat,
    {
        proof {
            self.lemma_in_bounds();
        }
        if self.at(Keyword::Print, Ghost(diagnostics@)) {
            self.bump(Ghost(diagnostics@));
            self.print_stmt(diagnostics)
        } else if self.at_delimiter('{', Ghost(diagnostics@)) {
            self.block(diagnostics)
        } else if self.at(Keyword::If, Ghost(diagnostics@)) {
            self.bump(Ghost(diagnostics@));
            self.if_stmt(diagnostics)
        } else if self.at(Keyword::While, Ghost(diagnostics@)) {
            self.bump(Ghost(diagnostics@));
            self.while_stmt(diagnostics)
        } else if self.at(Keyword::For, Ghost(diagnostics@)) {
            self.bump(Ghost(diagnostics@));
            self.for_stmt(diagnostics)
        } else if self.at(Keyword::Return, Ghost(diagnostics@)) {
            self.bump(Ghost(diagnostics@));
            self.return_stmt(diagnostics)
        } else {
            self.expr_stmt(diagnostics)
        }
    }

    /// The parameters of a function that follow `params`: they are all
    /// that is left for this parser to read.
    fn params(&mut self, params: Vec<Word>, Ghost(diagnostics): Ghost<Seq<Diagnostic>>) -> (r: Vec<
        Word,
    >)
        requires
            old(self).well_formed(),
        ensures
            final(self).well_formed(),
            words_view(r@) == params_spec(
                old(self).tokens(),
                state_of(old(self).cursor(), diagnostics),
                words_view(params@),
            ),
        decreases old(self).tokens().len() - old(self).cursor().index,
    {
        proof {
            self.lemma_in_bounds();
        }
        let mut params = params;
        let ghost before = words_view(params@);
        match self.peek_identifier(Ghost(diagnostics)) {
            Some(word) => {
                params.push(word.clone());
                assert(words_view(params@) =~= before.push(word@));
                self.bump(Ghost(diagnostics));
                if self.at_comma(Ghost(diagnostics)) {
                    self.bump(Ghost(diagnostics));
                    self.params(params, Ghost(diagnostics))
                } else {
                    params
                }
            },
            None => params,
        }
    }

    /// What follows `fun`: `IDENTIFIER "(" parameters ")" "{" statements "}"`
    fn fun_declaration(&mut self, diagnostics: &mut Vec<Diagnostic>) -> (r: Option<Stmt>)
        requires
            old(self).well_formed(),
        ensures
            final(self).well_formed(),
            final(self).tokens() == old(self).tokens(),
            is_stmt(
                r,
                final(self).cursor(),
                final(diagnostics)@,
                fun_declaration_spec(
                    old(self).tokens(),
                    state_of(old(self).cursor(), old(diagnostics)@),
                ),
            ),
            old(self).cursor().index <= final(self).cursor().index <= final(self).tokens().len(),
            r is Some ==> old(self).cursor().index < final(self).cursor().index,
        decreases old(self).tokens(), old(self).tokens().len() - old(self).cursor().index, 33nat,
    {
        proof {
            self.lemma_in_bounds();
        }
        let name = match self.peek_identifier(Ghost(diagnostics@)) {
            Some(word) => word.clone(),
            None => {
                return None;
            },
        };
        self.bump(Ghost(diagnostics@));
        let params_tree = match self.delimited('(', diagnostics) {
            Some(tree) => tree,
            None => {
                return None;
            },
        };
        let mut inner = Parser::new(params_tree, self.keywords);
        let no_params: Vec<Word> = Vec::new();
        assert(words_view(no_params@) =~= Seq::<Seq<char>>::empty());
        let params = inner.params(no_params, Ghost(diagnostics@));
        let tree = match self.delimited('{', diagnostics) {
            Some(tree) => tree,
            None => {
                return None;
            },
        };
        let mut inner = Parser::new(tree, self.keywords);
        let none: Vec<Stmt> = Vec::new();
        assert(stmts_view(none@) =~= Seq::<StmtView>::empty());
        let body = inner.stmts(none, diagnostics);
        let function = Function { name, params, body };
        let declaration = Stmt::FunctionDeclaration(function);
        proof {
            assert(declaration@->FunctionDeclaration_0.body =~= stmts_view(body@));
        }
        Some(declaration)
    }

    /// `declaration -> "var" ... | "fun" ... | statement`
    fn declaration(&mut self, diagnostics: &mut Vec<Diagnostic>) -> (r: Option<Stmt>)
        requires
            old(self).well_formed(),
        ensures
            final(self).well_formed(),
            final(self).tokens() == old(self).tokens(),
            is_stmt(
                r,
                final(self).cursor(),
                final(diagnostics)@,
                declaration_spec(old(self).tokens(), state_of(old(self).cursor(), old(diagnostics)@)),
            ),
            old(self).cursor().index <= final(self).cursor().index <= final(self).tokens().len(),
        decreases old(self).tokens(), old(self).tokens().len() - old(self).cursor().index, 34nat,
    {
        proof {
            self.lemma_in_bounds();
        }
        if self.at(Keyword::Var, Ghost(diagnostics@)) {
            self.bump(Ghost(diagnostics@));
            self.var_declaration(diagnostics)
        } else if self.at(Keyword::Fun, Ghost(diagnostics@)) {
            self.bump(Ghost(diagnostics@));
            self.fun_declaration(diagnostics)
        } else {
            self.stmt(diagnostics)
        }
    }

    /// The declarations that follow `stmts`, up to the first that cannot
    /// be read. Tokens that are left over are reported.
    fn stmts(&mut self, stmts: Vec<Stmt>, diagnostics: &mut Vec<Diagnostic>) -> (r: Vec<Stmt>)
        requires
            old(self).well_formed(),
        ensures
            final(self).well_formed(),
            final(self).tokens() == old(self).tokens(),
            ({
                let parsed = stmts_spec(
                    old(self).tokens(),
                    state_of(old(self).cursor(), old(diagnostics)@),
                    stmts_view(stmts@),
                );
                &&& parsed.0 == stmts_view(r@)
                &&& parsed.1 == state_of(final(self).cursor(), final(diagnostics)@)
            }),
        decreases old(self).tokens(), old(self).tokens().len() - old(self).cursor().index, 35nat,
    {
        let mut stmts = stmts;
        let ghost before = stmts_view(stmts@);
        let start = self.tokens.position();
        match self.declaration(diagnostics) {
            Some(s) => {
                stmts.push(s);
                assert(stmts_view(stmts@) =~= before.push(s@));
                if self.tokens.position() > start {
                    self.stmts(stmts, diagnostics)
                } else {
                    stmts
                }
            },
            None => {
                match self.tokens.peek() {
                    Some(_) => {
                        let span = self.tokens.peek_span();
                        self.error(diagnostics, span, "extra tokens after statement");
                    },
                    None => {},
                }
                stmts
            },
        }
    }

    /// Reads the statements of the whole tree.
    pub fn parse(&mut self, diagnostics: &mut Vec<Diagnostic>) -> (r: Vec<Stmt>)
        requires
            old(self).well_formed(),
        ensures
            final(self).well_formed(),
            final(self).tokens() == old(self).tokens(),
            ({
                let parsed = stmts_spec(
                    old(self).tokens(),
                    state_of(old(self).cursor(), old(diagnostics)@),
                    Seq::empty(),
                );
                &&& parsed.0 == stmts_view(r@)
                &&& parsed.1 == state_of(final(self).cursor(), final(diagnostics)@)
            }),
    {
        let none: Vec<Stmt> = Vec::new();
        assert(stmts_view(none@) =~= Seq::<StmtView>::empty());
        self.stmts(none, diagnostics)
    }
}

/// Reads the statements of a token tree, and says what is wrong with them.
pub fn parse_tokens(tree: &TokenTree) -> (r: (Vec<Stmt>, Vec<Diagnostic>))
    ensures
        (stmts_view(r.0@), diagnostics_view(r.1@)) == parse_spec(tree@),
{
    let table = keywords();
    let mut diagnostics: Vec<Diagnostic> = Vec::new();
    assert(diagnostics_view(diagnostics@) =~= Seq::<crate::diagnostic::DiagnosticView>::empty());
    let mut parser = Parser::new(tree, &table);
    let stmts = parser.parse(&mut diagnostics);
    (stmts, diagnostics)
}

/// The text of a keyword is a keyword.
pub proof fn lemma_keyword_text_is_keyword(text: Seq<char>)
    requires
        exists|kw: Keyword| keyword_text(kw) == text,
    ensures
        is_keyword(text),
{
    let kw = choose|kw: Keyword| keyword_text(kw) == text;
    let all = crate::kw::all_keywords();
    let i: int = match kw {
        Keyword::True => 0,
        Keyword::False => 1,
        Keyword::Nil => 2,
        Keyword::Print => 3,
        Keyword::Var => 4,
        Keyword::And => 5,
        Keyword::Or => 6,
        Keyword::If => 7,
        Keyword::Else => 8,
        Keyword::While => 9,
        Keyword::For => 10,
        Keyword::Fun => 11,
        Keyword::Return => 12,
    };
    assert(all[i] == kw);
    assert(keyword_text(all[i]) == text);
}

} // verus!
