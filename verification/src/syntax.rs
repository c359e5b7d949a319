//! The statement and expression trees that the parser produces and the
//! compiler consumes.
use crate::op::Op;
use crate::word::Word;
use vstd::prelude::*;

verus! {

#[derive(Debug, PartialEq, Eq)]
pub enum Expr {
    /// `22`
    NumberLiteral(Word),
    /// `"foo"`
    StringLiteral(Word),
    /// `true`, `false`
    BooleanLiteral(bool),
    /// `nil`
    NilLiteral,
    /// `left op right`
    BinaryOp(Box<Expr>, Op, Box<Expr>),
    /// `op expr`
    UnaryOp(Op, Box<Expr>),
    /// `(expr)`
    Parenthesized(Box<Expr>),
    /// `foo`
    Variable(Word),
    /// `foo = value`
    Assign { name: Word, value: Box<Expr> },
    /// `left and right`
    LogicalAnd(Box<Expr>, Box<Expr>),
    /// `left or right`
    LogicalOr(Box<Expr>, Box<Expr>),
    /// `callee(arguments)`
    Call { callee: Box<Expr>, arguments: Vec<Expr> },
}

#[allow(inconsistent_fields)]
#[derive(Debug, PartialEq, Eq)]
pub enum Stmt {
    /// `1 + 2;`
    Expr(Expr),
    /// `print 1 + 2;`
    Print(Expr),
    /// `var foo = 1 + 2;`
    VariableDeclaration { name: Word, initializer: Option<Expr> },
    /// `{ ... }`
    Block(Vec<Stmt>),
    /// `if (condition) then_branch else else_branch`
    If { condition: Expr, then_branch: Box<Stmt>, else_branch: Option<Box<Stmt>> },
    /// `while (condition) body`
    While { condition: Expr, body: Box<Stmt> },
    /// `for (initializer; condition; increment) body`
    For {
        initializer: Option<Box<Stmt>>,
        condition: Option<Expr>,
        increment: Option<Expr>,
        body: Box<Stmt>,
    },
    /// `fun name(params) { body }`
    FunctionDeclaration(Function),
    /// `return;`, `return value;`
    Return(Option<Expr>),
}

/// A function as it is declared.
#[derive(Debug, PartialEq, Eq)]
pub struct Function {
    pub name: Word,
    pub params: Vec<Word>,
    pub body: Vec<Stmt>,
}

pub enum ExprView {
    NumberLiteral(Seq<char>),
    StringLiteral(Seq<char>),
    BooleanLiteral(bool),
    NilLiteral,
    BinaryOp(Box<ExprView>, Op, Box<ExprView>),
    UnaryOp(Op, Box<ExprView>),
    Parenthesized(Box<ExprView>),
    Variable(Seq<char>),
    Assign { name: Seq<char>, value: Box<ExprView> },
    LogicalAnd(Box<ExprView>, Box<ExprView>),
    LogicalOr(Box<ExprView>, Box<ExprView>),
    Call { callee: Box<ExprView>, arguments: Seq<ExprView> },
}

#[allow(inconsistent_fields)]
pub enum StmtView {
    Expr(ExprView),
    Print(ExprView),
    VariableDeclaration { name: Seq<char>, initializer: Option<ExprView> },
    Block(Seq<StmtView>),
    If { condition: ExprView, then_branch: Box<StmtView>, else_branch: Option<Box<StmtView>> },
    While { condition: ExprView, body: Box<StmtView> },
    For {
        initializer: Option<Box<StmtView>>,
        condition: Option<ExprView>,
        increment: Option<ExprView>,
        body: Box<StmtView>,
    },
    FunctionDeclaration(DeclarationView),
    Return(Option<ExprView>),
}

pub struct DeclarationView {
    pub name: Seq<char>,
    pub params: Seq<Seq<char>>,
    pub body: Seq<StmtView>,
}

/// The views of a list of expressions.
pub open spec fn exprs_view(exprs: Seq<Expr>) -> Seq<ExprView> {
    Seq::new(exprs.len(), |i: int| exprs[i]@)
}

/// The views of a list of statements.
pub open spec fn stmts_view(stmts: Seq<Stmt>) -> Seq<StmtView> {
    Seq::new(stmts.len(), |i: int| stmts[i]@)
}

/// The views of a list of words.
pub open spec fn words_view(words: Seq<Word>) -> Seq<Seq<char>> {
    Seq::new(words.len(), |i: int| words[i]@)
}

/// The tree that an expression stands for.
pub open spec fn expr_view(expr: Expr) -> ExprView
    decreases expr,
{
    match expr {
        Expr::NumberLiteral(w) => ExprView::NumberLiteral(w@),
        Expr::StringLiteral(w) => ExprView::StringLiteral(w@),
        Expr::BooleanLiteral(b) => ExprView::BooleanLiteral(b),
        Expr::NilLiteral => ExprView::NilLiteral,
        Expr::BinaryOp(l, op, r) => ExprView::BinaryOp(
            Box::new(expr_view(*l)),
            op,
            Box::new(expr_view(*r)),
        ),
        Expr::UnaryOp(op, e) => ExprView::UnaryOp(op, Box::new(expr_view(*e))),
        Expr::Parenthesized(e) => ExprView::Parenthesized(Box::new(expr_view(*e))),
        Expr::Variable(w) => ExprView::Variable(w@),
        Expr::Assign { name, value } => ExprView::Assign {
            name: name@,
            value: Box::new(expr_view(*value)),
        },
        Expr::LogicalAnd(l, r) => ExprView::LogicalAnd(
            Box::new(expr_view(*l)),
            Box::new(expr_view(*r)),
        ),
        Expr::LogicalOr(l, r) => ExprView::LogicalOr(
            Box::new(expr_view(*l)),
            Box::new(expr_view(*r)),
        ),
        Expr::Call { callee, arguments } => ExprView::Call {
            callee: Box::new(expr_view(*callee)),
            arguments: Seq::new(
                arguments.len() as nat,
                |i: int|
                    if 0 <= i < arguments.len() {
                        expr_view(arguments[i])
                    } else {
                        ExprView::NilLiteral
                    },
            ),
        },
    }
}

/// The tree that an optional expression stands for.
pub open spec fn optional_expr_view(expr: Option<Expr>) -> Option<ExprView> {
    match expr {
        Some(e) => Some(expr_view(e)),
        None => None,
    }
}

/// The tree that a statement stands for.
pub open spec fn stmt_view(stmt: Stmt) -> StmtView
    decreases stmt,
{
    match stmt {
        Stmt::Expr(e) => StmtView::Expr(expr_view(e)),
        Stmt::Print(e) => StmtView::Print(expr_view(e)),
        Stmt::VariableDeclaration { name, initializer } => StmtView::VariableDeclaration {
            name: name@,
            initializer: optional_expr_view(initializer),
        },
        Stmt::Block(stmts) => StmtView::Block(
            Seq::new(
                stmts.len() as nat,
                |i: int|
                    if 0 <= i < stmts.len() {
                        stmt_view(stmts[i])
                    } else {
                        StmtView::Return(None)
                    },
            ),
        ),
        Stmt::If { condition, then_branch, else_branch } => StmtView::If {
            condition: expr_view(condition),
            then_branch: Box::new(stmt_view(*then_branch)),
            else_branch: match else_branch {
                Some(s) => Some(Box::new(stmt_view(*s))),
                None => None,
            },
        },
        Stmt::While { condition, body } => StmtView::While {
            condition: expr_view(condition),
            body: Box::new(stmt_view(*body)),
        },
        Stmt::For { initializer, condition, increment, body } => StmtView::For {
            initializer: match initializer {
                Some(s) => Some(Box::new(stmt_view(*s))),
                None => None,
            },
            condition: optional_expr_view(condition),
            increment: optional_expr_view(increment),
            body: Box::new(stmt_view(*body)),
        },
        Stmt::FunctionDeclaration(f) => StmtView::FunctionDeclaration(
            DeclarationView {
                name: f.name@,
                params: words_view(f.params@),
                body: Seq::new(
                    f.body.len() as nat,
                    |i: int|
                        if 0 <= i < f.body.len() {
                            stmt_view(f.body[i])
                        } else {
                            StmtView::Return(None)
                        },
                ),
            },
        ),
        Stmt::Return(value) => StmtView::Return(optional_expr_view(value)),
    }
}

impl View for Expr {
    type V = ExprView;

    open spec fn view(&self) -> ExprView {
        expr_view(*self)
    }
}

impl View for Stmt {
    type V = StmtView;

    open spec fn view(&self) -> StmtView {
        stmt_view(*self)
    }
}

impl View for Function {
    type V = DeclarationView;

    open spec fn view(&self) -> DeclarationView {
        DeclarationView {
            name: self.name@,
            params: words_view(self.params@),
            body: stmts_view(self.body@),
        }
    }
}

} // verus!
