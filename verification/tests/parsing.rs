use lox::diagnostic::Diagnostic;
use lox::execute::parse_file;
use lox::input_file::InputFile;
use lox::op::Op;
use lox::span::{Offset, Span};
use lox::syntax::{Expr, Function, Stmt};
use lox::word::Word;

fn parse(source: &str) -> (Vec<Stmt>, Vec<Diagnostic>) {
    let file = InputFile::new(Word::intern("test.lox"), source.to_string());
    parse_file(&file).unwrap()
}

fn stmts(source: &str) -> Vec<Stmt> {
    let (stmts, diagnostics) = parse(source);
    assert_eq!(diagnostics, vec![]);
    stmts
}

fn number(text: &str) -> Expr {
    Expr::NumberLiteral(Word::intern(text))
}

fn variable(text: &str) -> Expr {
    Expr::Variable(Word::intern(text))
}

fn binary(left: Expr, op: Op, right: Expr) -> Expr {
    Expr::BinaryOp(Box::new(left), op, Box::new(right))
}

fn diagnostic(start: u32, end: u32, message: &str) -> Diagnostic {
    Diagnostic::new(Span { start: Offset(start), end: Offset(end) }, message)
}

#[test]
fn factor_binds_tighter_than_term() {
    assert_eq!(
        stmts("1 + 2 * 3;"),
        vec![Stmt::Expr(binary(number("1"), Op::Plus, binary(number("2"), Op::Star, number("3"))))]
    );
}

#[test]
fn operators_of_one_level_join_from_the_left() {
    assert_eq!(
        stmts("1 - 2 - 3;"),
        vec![Stmt::Expr(binary(binary(number("1"), Op::Minus, number("2")), Op::Minus, number("3")))]
    );
}

#[test]
fn precedence_from_assignment_down_to_unary() {
    assert_eq!(
        stmts("a = b or c and d == e < f + g * -h;"),
        vec![Stmt::Expr(Expr::Assign {
            name: Word::intern("a"),
            value: Box::new(Expr::LogicalOr(
                Box::new(variable("b")),
                Box::new(Expr::LogicalAnd(
                    Box::new(variable("c")),
                    Box::new(binary(
                        variable("d"),
                        Op::EqualEqual,
                        binary(
                            variable("e"),
                            Op::Less,
                            binary(
                                variable("f"),
                                Op::Plus,
                                binary(
                                    variable("g"),
                                    Op::Star,
                                    Expr::UnaryOp(Op::Minus, Box::new(variable("h"))),
                                ),
                            ),
                        ),
                    )),
                )),
            )),
        })]
    );
}

#[test]
fn two_character_operators_need_adjacent_characters() {
    assert_eq!(
        stmts("1 <= 2; 1 >= 2; 1 != 2; 1 == 2;"),
        vec![
            Stmt::Expr(binary(number("1"), Op::LessEqual, number("2"))),
            Stmt::Expr(binary(number("1"), Op::GreaterEqual, number("2"))),
            Stmt::Expr(binary(number("1"), Op::NotEqual, number("2"))),
            Stmt::Expr(binary(number("1"), Op::EqualEqual, number("2"))),
        ]
    );
    let (_, diagnostics) = parse("1 < = 2;");
    assert!(!diagnostics.is_empty());
}

#[test]
fn literals_and_grouping() {
    assert_eq!(
        stmts("true; false; nil; \"s\"; (1);"),
        vec![
            Stmt::Expr(Expr::BooleanLiteral(true)),
            Stmt::Expr(Expr::BooleanLiteral(false)),
            Stmt::Expr(Expr::NilLiteral),
            Stmt::Expr(Expr::StringLiteral(Word::intern("s"))),
            Stmt::Expr(Expr::Parenthesized(Box::new(number("1")))),
        ]
    );
}

#[test]
fn assignment_associates_to_the_right() {
    assert_eq!(
        stmts("a = b = 1;"),
        vec![Stmt::Expr(Expr::Assign {
            name: Word::intern("a"),
            value: Box::new(Expr::Assign { name: Word::intern("b"), value: Box::new(number("1")) }),
        })]
    );
}

#[test]
fn calls() {
    assert_eq!(
        stmts("f(); g(1, x)(2);"),
        vec![
            Stmt::Expr(Expr::Call { callee: Box::new(variable("f")), arguments: vec![] }),
            Stmt::Expr(Expr::Call {
                callee: Box::new(Expr::Call {
                    callee: Box::new(variable("g")),
                    arguments: vec![number("1"), variable("x")],
                }),
                arguments: vec![number("2")],
            }),
        ]
    );
}

#[test]
fn declarations_and_print() {
    assert_eq!(
        stmts("var a; var b = 1; print b;"),
        vec![
            Stmt::VariableDeclaration { name: Word::intern("a"), initializer: None },
            Stmt::VariableDeclaration { name: Word::intern("b"), initializer: Some(number("1")) },
            Stmt::Print(variable("b")),
        ]
    );
}

#[test]
fn blocks_nest() {
    assert_eq!(
        stmts("{ 1; { 2; } }"),
        vec![Stmt::Block(vec![
            Stmt::Expr(number("1")),
            Stmt::Block(vec![Stmt::Expr(number("2"))]),
        ])]
    );
}

#[test]
fn if_and_while() {
    assert_eq!(
        stmts("if (a) 1; else 2; if (b) 3; while (c) { 4; }"),
        vec![
            Stmt::If {
                condition: variable("a"),
                then_branch: Box::new(Stmt::Expr(number("1"))),
                else_branch: Some(Box::new(Stmt::Expr(number("2")))),
            },
            Stmt::If {
                condition: variable("b"),
                then_branch: Box::new(Stmt::Expr(number("3"))),
                else_branch: None,
            },
            Stmt::While {
                condition: variable("c"),
                body: Box::new(Stmt::Block(vec![Stmt::Expr(number("4"))])),
            },
        ]
    );
}

#[test]
fn for_with_every_part_and_with_none() {
    assert_eq!(
        stmts("for (var i = 0; i < 3; i = i + 1) print i; for (;;) 1; for (i = 0; ; ) 2;"),
        vec![
            Stmt::For {
                initializer: Some(Box::new(Stmt::VariableDeclaration {
                    name: Word::intern("i"),
                    initializer: Some(number("0")),
                })),
                condition: Some(binary(variable("i"), Op::Less, number("3"))),
                increment: Some(Expr::Assign {
                    name: Word::intern("i"),
                    value: Box::new(binary(variable("i"), Op::Plus, number("1"))),
                }),
                body: Box::new(Stmt::Print(variable("i"))),
            },
            Stmt::For {
                initializer: None,
                condition: None,
                increment: None,
                body: Box::new(Stmt::Expr(number("1"))),
            },
            Stmt::For {
                initializer: Some(Box::new(Stmt::Expr(Expr::Assign {
                    name: Word::intern("i"),
                    value: Box::new(number("0")),
                }))),
                condition: None,
                increment: None,
                body: Box::new(Stmt::Expr(number("2"))),
            },
        ]
    );
}

#[test]
fn functions_and_return() {
    assert_eq!(
        stmts("fun f(a, b) { return a; return; } fun g() { }"),
        vec![
            Stmt::FunctionDeclaration(Function {
                name: Word::intern("f"),
                params: vec![Word::intern("a"), Word::intern("b")],
                body: vec![Stmt::Return(Some(variable("a"))), Stmt::Return(None)],
            }),
            Stmt::FunctionDeclaration(Function {
                name: Word::intern("g"),
                params: vec![],
                body: vec![],
            }),
        ]
    );
}

#[test]
fn keywords_are_no_identifiers() {
    let (stmts, diagnostics) = parse("var while = 1;");
    assert_eq!(stmts, vec![]);
    assert_eq!(diagnostics, vec![diagnostic(4, 9, "extra tokens after statement")]);
}

#[test]
fn number_literal_round_trip() {
    for text in ["0", "7", "42", "12345678901234567890"] {
        let source = format!("{};", text);
        assert_eq!(stmts(&source), vec![Stmt::Expr(number(text))]);
    }
}

#[test]
fn string_literal_round_trip() {
    for text in ["", "y", "hello world", "1 + 2", "h\u{e9}"] {
        let source = format!("\"{}\";", text);
        assert_eq!(stmts(&source), vec![Stmt::Expr(Expr::StringLiteral(Word::intern(text)))]);
    }
}

#[test]
fn missing_semicolon_is_reported_where_it_should_stand() {
    let (stmts, diagnostics) = parse("print 1 print 2;");
    assert_eq!(stmts, vec![Stmt::Print(number("1")), Stmt::Print(number("2"))]);
    assert_eq!(diagnostics, vec![diagnostic(8, 13, "expected `;`")]);
}

#[test]
fn missing_semicolon_at_the_end() {
    let (stmts, diagnostics) = parse("1");
    assert_eq!(stmts, vec![Stmt::Expr(number("1"))]);
    assert_eq!(diagnostics, vec![diagnostic(1, 1, "expected `;`")]);
}

#[test]
fn unclosed_delimiter_is_reported() {
    let (stmts, diagnostics) = parse("{ 1;");
    assert_eq!(stmts, vec![Stmt::Block(vec![Stmt::Expr(number("1"))])]);
    assert_eq!(diagnostics, vec![diagnostic(4, 4, "expected `}`")]);
    let (_, diagnostics) = parse("print (1;");
    assert_eq!(diagnostics[0], diagnostic(9, 9, "expected `)`"));
}

#[test]
fn invalid_assignment_target_is_reported() {
    let (stmts, diagnostics) = parse("1 = 2;");
    assert_eq!(stmts, vec![Stmt::Expr(number("1"))]);
    assert_eq!(diagnostics, vec![diagnostic(5, 6, "invalid assignment target")]);
}

#[test]
fn unexpected_token_is_reported() {
    let (stmts, diagnostics) = parse("1; ) 2;");
    assert_eq!(stmts, vec![Stmt::Expr(number("1"))]);
    assert_eq!(diagnostics, vec![diagnostic(3, 4, "extra tokens after statement")]);
    let (_, diagnostics) = parse("@");
    assert_eq!(diagnostics, vec![diagnostic(0, 1, "extra tokens after statement")]);
}

#[test]
fn an_operator_without_a_right_operand_is_dropped() {
    let (stmts, diagnostics) = parse("1 + ;");
    assert_eq!(stmts, vec![Stmt::Expr(number("1"))]);
    assert_eq!(diagnostics, vec![]);
}

#[test]
fn diagnostics_copy() {
    let d = diagnostic(1, 2, "m");
    assert_eq!(d.clone(), d);
}

#[test]
fn literals_are_read_back_as_they_are_written() {
    for literal in [
        Expr::NumberLiteral(Word::intern("0")),
        Expr::NumberLiteral(Word::intern("1234567890")),
        Expr::StringLiteral(Word::intern("")),
        Expr::StringLiteral(Word::intern("hello, world")),
        Expr::StringLiteral(Word::intern("12")),
    ] {
        let text = literal.literal_text().unwrap();
        let file = InputFile::new(Word::intern("literal"), text);
        let (read, diagnostics) = lox::literals::parse_expression(&file).unwrap();
        assert_eq!(diagnostics, vec![]);
        assert_eq!(read, Some(literal));
    }
    assert_eq!(Expr::NumberLiteral(Word::intern("42")).literal_text(), Some("42".to_string()));
    assert_eq!(Expr::StringLiteral(Word::intern("a")).literal_text(), Some("\"a\"".to_string()));
    assert_eq!(Expr::NilLiteral.literal_text(), None);
}
