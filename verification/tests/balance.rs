use lox::balance::{is_quiet, is_valid_program, is_valid_stmt};
use lox::bytecode::Code;
use lox::compile::compile_program;
use lox::execute::parse_file;
use lox::input_file::InputFile;
use lox::kernel::BufferKernel;
use lox::machine::ControlFlow;
use lox::syntax::Stmt;
use lox::vm::VM;
use lox::word::Word;

fn parse(source: &str) -> Vec<Stmt> {
    let file = InputFile::new(Word::intern("test.lox"), source.to_string());
    let (stmts, diagnostics) = parse_file(&file).unwrap();
    assert_eq!(diagnostics, vec![]);
    stmts
}

/// The sources of the statements one by one, so that the program can be
/// compiled up to each of them.
fn boundaries(statements: &[&str]) -> Vec<usize> {
    let mut source = String::new();
    let mut found = vec![0];
    for statement in statements {
        source.push_str(statement);
        source.push(' ');
        found.push(compile_program(&parse(&source)).chunk.len());
    }
    found
}

/// Runs the statements and returns the heights of the stack at every
/// moment at which the main function stood between two of them.
fn heights_between(statements: &[&str]) -> Vec<usize> {
    let between = boundaries(statements);
    let source = statements.join(" ");
    let mut vm = VM::new(compile_program(&parse(&source)));
    let mut kernel = BufferKernel::new();
    let mut heights = Vec::new();
    for _ in 0..100_000 {
        if vm.frame_count() == 1 && between.contains(&vm.position().unwrap()) {
            heights.push(vm.stack_height());
        }
        match vm.step(&mut kernel) {
            Ok(ControlFlow::Next) => {}
            Ok(ControlFlow::Done) => return heights,
            Err(e) => panic!("{:?}", e),
        }
    }
    panic!("program did not end");
}

#[test]
fn every_top_level_statement_leaves_the_stack_as_it_found_it() {
    let heights = heights_between(&[
        "var a = 1;",
        "print a + 2;",
        "{ var b = a; { var c = b; print c; } b = 3; }",
        "if (a < 2) { print \"small\"; } else { print \"large\"; }",
        "var i = 0;",
        "while (i < 3) { i = i + 1; }",
        "for (var j = 0; j < 2; j = j + 1) { var k = j; print k; }",
        "fun f(x, y) { var unused = 3; { var inner = x; return inner + y; } }",
        "print f(1, 2);",
        "fun g() { }",
        "g();",
        "a = f(f(1, 2), 3) and true or false;",
        "fun make(x) { fun get() { return x; } return get; }",
        "print make(7)();",
    ]);
    assert!(heights.len() >= 15);
    assert!(heights.iter().all(|h| *h == 1), "{:?}", heights);
}

#[test]
fn a_declaration_in_a_branch_unbalances_the_stack() {
    let heights = heights_between(&[
        "print 0;",
        "{ if (false) for (var i = 0; i < 1; i = i + 1) print i; }",
        "print 1;",
    ]);
    assert_eq!(heights, vec![1, 1, 0, 0]);
}

#[test]
fn jumps_of_compiled_code_are_in_range() {
    fn check(code: &[Code]) {
        for instruction in code {
            match instruction {
                Code::Jump(target) | Code::JumpIfFalse(target) => assert!(*target <= code.len()),
                Code::Closure { function, upvalues } => {
                    assert_eq!(upvalues.len(), function.upvalue_count);
                    let mut inner = Vec::new();
                    for ip in 0..function.chunk.len() {
                        inner.push(function.chunk.read_byte(ip));
                    }
                    check(&inner);
                }
                _ => {}
            }
        }
    }
    let function = compile_program(&parse(
        "fun f(a) { while (a < 3) { if (a == 1 or a == 2) { a = a + 1; } else { fun g() { for (;a;) { return a and 1; } } return g; } } } if (f) f(0);",
    ));
    let mut code = Vec::new();
    for ip in 0..function.chunk.len() {
        code.push(function.chunk.read_byte(ip));
    }
    check(&code);
}

#[test]
fn programs_of_which_balance_is_proved() {
    assert!(is_valid_program(&parse("")));
    assert!(is_valid_program(&parse(
        "var a = 1; { var b = a; if (b) { var c = b; } else print b; } while (a) { var d; } for (var i = 0; i < 2; i = i + 1) print i; fun f(x) { { var y = x; return y; } } print f(1);"
    )));
    assert!(!is_valid_program(&parse("{ if (false) for (var i = 0; i < 1; i = i + 1) print i; }")));
    assert!(!is_valid_program(&parse("while (true) for (var i = 0;;) print i;")));
    assert!(!is_valid_program(&parse("fun f() { if (true) for (var i = 0;;) print i; }")));
    assert!(is_valid_program(&parse("if (true) for (;;) print 1;")));
}

#[test]
fn statements_that_declare_nothing() {
    let stmts = parse("var a; fun f() { } print a; { var b; } for (var i = 0;;) 1; for (a = 0;;) 1;");
    let quiet: Vec<bool> = stmts.iter().map(is_quiet).collect();
    assert_eq!(quiet, vec![false, false, true, true, false, true]);
    assert!(stmts.iter().all(|s| is_valid_stmt(s, 0)));
    assert!(!is_valid_stmt(&stmts[3], usize::MAX));
    assert!(is_valid_stmt(&stmts[2], usize::MAX));
}
