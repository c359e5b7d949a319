use eq_float::F64;
use lox::bytecode::{Chunk, Code, CompiledFunction, Upvalue};
use lox::compile::{compile, compile_program};
use lox::execute::compile_file;
use lox::input_file::InputFile;
use lox::op::Op;
use lox::syntax::{Expr, Function, Stmt};
use lox::word::Word;

fn code_of(source: &str) -> Vec<Code> {
    let file = InputFile::new(Word::intern("test.lox"), source.to_string());
    let (function, diagnostics) = compile_file(&file).unwrap();
    assert_eq!(diagnostics, vec![]);
    listing(&function.chunk)
}

fn listing(chunk: &Chunk) -> Vec<Code> {
    let mut code = Vec::new();
    for ip in 0..chunk.len() {
        code.push(chunk.read_byte(ip));
    }
    code
}

fn global_read(name: &str) -> Code {
    Code::ReadGlobalVariable { name: name.to_string() }
}

fn number(n: f64) -> Code {
    Code::Constant(F64(n))
}

#[test]
fn expression_statement_is_popped() {
    assert_eq!(code_of("1;"), vec![number(1.0), Code::Pop]);
}

#[test]
fn operands_come_before_their_operator() {
    assert_eq!(
        code_of("print 1 + 2 * 3;"),
        vec![number(1.0), number(2.0), number(3.0), Code::Multiply, Code::Add, Code::Print]
    );
}

#[test]
fn every_operator_has_its_instruction() {
    assert_eq!(
        code_of("1 - 2; 1 / 2; 1 == 2; 1 != 2; 1 > 2; 1 >= 2; 1 < 2; 1 <= 2; -1; !true;"),
        vec![
            number(1.0), number(2.0), Code::Subtract, Code::Pop,
            number(1.0), number(2.0), Code::Divide, Code::Pop,
            number(1.0), number(2.0), Code::Equal, Code::Pop,
            number(1.0), number(2.0), Code::NotEqual, Code::Pop,
            number(1.0), number(2.0), Code::Greater, Code::Pop,
            number(1.0), number(2.0), Code::GreaterEqual, Code::Pop,
            number(1.0), number(2.0), Code::Less, Code::Pop,
            number(1.0), number(2.0), Code::LessEqual, Code::Pop,
            number(1.0), Code::Negate, Code::Pop,
            Code::True, Code::Not, Code::Pop,
        ]
    );
}

#[test]
fn literals() {
    assert_eq!(
        code_of("print nil; print false; print \"s\"; print (7);"),
        vec![
            Code::Nil, Code::Print,
            Code::False, Code::Print,
            Code::String("s".to_string()), Code::Print,
            number(7.0), Code::Print,
        ]
    );
}

#[test]
fn number_literal_is_read_as_a_double() {
    assert_eq!(code_of("12345678901234567890;"), vec![number(12345678901234567890.0), Code::Pop]);
}

#[test]
fn global_declaration_and_access() {
    assert_eq!(
        code_of("var a; var b = 1; a = b;"),
        vec![
            Code::Nil,
            Code::GlobalVarDeclaration { name: "a".to_string() },
            number(1.0),
            Code::GlobalVarDeclaration { name: "b".to_string() },
            global_read("b"),
            Code::WriteGlobalVariable { name: "a".to_string() },
            Code::Pop,
        ]
    );
}

#[test]
fn locals_live_in_slots_after_the_function_itself() {
    assert_eq!(
        code_of("{ var a = 1; var b = 2; a = b; }"),
        vec![
            number(1.0),
            number(2.0),
            Code::ReadLocalVariable { index_in_stack: 2 },
            Code::WriteLocalVariable { index_in_stack: 1 },
            Code::Pop,
            Code::Pop,
            Code::Pop,
        ]
    );
}

#[test]
fn innermost_local_wins() {
    assert_eq!(
        code_of("{ var a = 1; { var a = 2; print a; } print a; }"),
        vec![
            number(1.0),
            number(2.0),
            Code::ReadLocalVariable { index_in_stack: 2 },
            Code::Print,
            Code::Pop,
            Code::ReadLocalVariable { index_in_stack: 1 },
            Code::Print,
            Code::Pop,
        ]
    );
}

#[test]
fn if_with_else() {
    assert_eq!(
        code_of("if (true) print 1; else print 2;"),
        vec![
            Code::True,
            Code::JumpIfFalse(6),
            Code::Pop,
            number(1.0),
            Code::Print,
            Code::Jump(9),
            Code::Pop,
            number(2.0),
            Code::Print,
        ]
    );
}

#[test]
fn if_without_else() {
    assert_eq!(
        code_of("if (true) print 1;"),
        vec![
            Code::True,
            Code::JumpIfFalse(6),
            Code::Pop,
            number(1.0),
            Code::Print,
            Code::Jump(7),
            Code::Pop,
        ]
    );
}

#[test]
fn while_loop() {
    assert_eq!(
        code_of("print 0; while (false) print 1;"),
        vec![
            number(0.0),
            Code::Print,
            Code::False,
            Code::JumpIfFalse(8),
            Code::Pop,
            number(1.0),
            Code::Print,
            Code::Jump(2),
            Code::Pop,
        ]
    );
}

#[test]
fn for_loop() {
    assert_eq!(
        code_of("for (var i = 0; i < 1; i = 2) print i;"),
        vec![
            number(0.0),
            Code::GlobalVarDeclaration { name: "i".to_string() },
            global_read("i"),
            number(1.0),
            Code::Less,
            Code::JumpIfFalse(13),
            Code::Pop,
            global_read("i"),
            Code::Print,
            number(2.0),
            Code::WriteGlobalVariable { name: "i".to_string() },
            Code::Pop,
            Code::Jump(2),
            Code::Pop,
        ]
    );
}

#[test]
fn for_without_condition_loads_true() {
    assert_eq!(
        code_of("for (;;) print 1;"),
        vec![
            Code::True,
            Code::JumpIfFalse(6),
            Code::Pop,
            number(1.0),
            Code::Print,
            Code::Jump(0),
            Code::Pop,
        ]
    );
}

#[test]
fn logical_and() {
    assert_eq!(
        code_of("true and false;"),
        vec![Code::True, Code::JumpIfFalse(4), Code::Pop, Code::False, Code::Pop]
    );
}

#[test]
fn logical_or() {
    assert_eq!(
        code_of("true or false;"),
        vec![
            Code::True,
            Code::JumpIfFalse(3),
            Code::Jump(5),
            Code::Pop,
            Code::False,
            Code::Pop,
        ]
    );
}

#[test]
fn call_pushes_callee_then_arguments() {
    assert_eq!(
        code_of("f(1, 2);"),
        vec![global_read("f"), number(1.0), number(2.0), Code::Call { arity: 2 }, Code::Pop]
    );
}

#[test]
fn return_with_and_without_value() {
    assert_eq!(
        code_of("return; return 1;"),
        vec![Code::Nil, Code::Return, number(1.0), Code::Return]
    );
}

#[test]
fn function_declaration_makes_a_closure() {
    let code = code_of("fun add(a, b) { return a + b; }");
    assert_eq!(code.len(), 2);
    match &code[0] {
        Code::Closure { function, upvalues } => {
            assert_eq!(function.name, "add");
            assert_eq!(function.arity, 2);
            assert_eq!(function.upvalue_count, 0);
            assert_eq!(upvalues, &vec![]);
            assert_eq!(
                listing(&function.chunk),
                vec![
                    Code::ReadLocalVariable { index_in_stack: 1 },
                    Code::ReadLocalVariable { index_in_stack: 2 },
                    Code::Add,
                    Code::Return,
                ]
            );
        }
        other => panic!("{:?}", other),
    }
    assert_eq!(code[1], Code::GlobalVarDeclaration { name: "add".to_string() });
}

#[test]
fn captured_parameter_becomes_an_upvalue() {
    let code = code_of("fun make(x) { fun inner() { return x; } return inner; }");
    let make = match &code[0] {
        Code::Closure { function, upvalues } => {
            assert_eq!(upvalues, &vec![]);
            function
        }
        other => panic!("{:?}", other),
    };
    let body = listing(&make.chunk);
    match &body[0] {
        Code::Closure { function, upvalues } => {
            assert_eq!(function.name, "inner");
            assert_eq!(function.upvalue_count, 1);
            assert_eq!(upvalues, &vec![Upvalue { index: 1, is_local: true }]);
            assert_eq!(
                listing(&function.chunk),
                vec![Code::ReadUpvalue { index: 0 }, Code::Return]
            );
        }
        other => panic!("{:?}", other),
    }
    assert_eq!(
        body[1..].to_vec(),
        vec![
            Code::GlobalVarDeclaration { name: "inner".to_string() },
            global_read("inner"),
            Code::Return,
        ]
    );
}

#[test]
fn capture_is_threaded_through_the_function_between() {
    let code = code_of("fun a(x) { fun b() { fun c() { x = x; } } }");
    let a = match &code[0] {
        Code::Closure { function, .. } => function,
        other => panic!("{:?}", other),
    };
    let b = match &listing(&a.chunk)[0] {
        Code::Closure { function, upvalues } => {
            assert_eq!(upvalues, &vec![Upvalue { index: 1, is_local: true }]);
            function.clone()
        }
        other => panic!("{:?}", other),
    };
    match &listing(&b.chunk)[0] {
        Code::Closure { function, upvalues } => {
            assert_eq!(upvalues, &vec![Upvalue { index: 0, is_local: false }]);
            assert_eq!(function.upvalue_count, 1);
            assert_eq!(
                listing(&function.chunk),
                vec![Code::ReadUpvalue { index: 0 }, Code::WriteUpvalue { index: 0 }, Code::Pop]
            );
        }
        other => panic!("{:?}", other),
    }
}

#[test]
fn the_same_variable_is_captured_once() {
    let code = code_of("{ var v = 1; fun f() { return v + v; } }");
    match &code[1] {
        Code::Closure { function, upvalues } => {
            assert_eq!(upvalues, &vec![Upvalue { index: 1, is_local: true }]);
            assert_eq!(function.upvalue_count, 1);
        }
        other => panic!("{:?}", other),
    }
}

#[test]
fn captured_local_is_closed_at_the_end_of_its_block() {
    let code = code_of("{ var v = 1; var w = 2; fun f() { return v; } }");
    assert_eq!(code.len(), 6);
    assert_eq!(code[3..].to_vec(), vec![Code::Pop, Code::Pop, Code::CloseUpvalue]);
}

#[test]
fn compile_program_names_the_main_function() {
    let function = compile_program(&vec![Stmt::Print(Expr::NumberLiteral(Word::intern("5")))]);
    assert_eq!(function.name, "main");
    assert_eq!(function.arity, 0);
    assert_eq!(function.upvalue_count, 0);
    assert_eq!(listing(&function.chunk), vec![number(5.0), Code::Print]);
}

#[test]
fn compile_a_function_on_its_own() {
    let function = compile(&Function {
        name: Word::intern("twice"),
        params: vec![Word::intern("n")],
        body: vec![Stmt::Return(Some(Expr::BinaryOp(
            Box::new(Expr::Variable(Word::intern("n"))),
            Op::Star,
            Box::new(Expr::NumberLiteral(Word::intern("2"))),
        )))],
    });
    assert_eq!(function.name, "twice");
    assert_eq!(function.arity, 1);
    assert_eq!(
        listing(&function.chunk),
        vec![
            Code::ReadLocalVariable { index_in_stack: 1 },
            number(2.0),
            Code::Multiply,
            Code::Return,
        ]
    );
}

#[test]
fn malformed_trees_keep_the_stack_in_balance() {
    let function = compile_program(&vec![
        Stmt::Expr(Expr::NumberLiteral(Word::intern("1x"))),
        Stmt::Expr(Expr::BinaryOp(
            Box::new(Expr::NilLiteral),
            Op::Bang,
            Box::new(Expr::NilLiteral),
        )),
        Stmt::Expr(Expr::UnaryOp(Op::Plus, Box::new(Expr::NilLiteral))),
    ]);
    assert_eq!(
        listing(&function.chunk),
        vec![Code::Nil, Code::Pop, Code::Nil, Code::Nil, Code::Pop, Code::Pop, Code::Nil, Code::Pop]
    );
}

#[test]
fn chunk_operations() {
    let mut chunk = Chunk::default();
    assert!(chunk.is_empty());
    assert_eq!(chunk.emit_byte(Code::Jump(0)), 0);
    assert_eq!(chunk.emit_byte(Code::Pop), 1);
    assert_eq!(chunk.len(), 2);
    assert!(!chunk.is_empty());
    *chunk.read_byte_mut(0) = Code::Jump(2);
    assert_eq!(chunk.read_byte(0), Code::Jump(2));
    chunk.patch(1, Code::Nil);
    assert_eq!(chunk.read_byte(1), Code::Nil);
    let copy = chunk.clone();
    assert_eq!(copy, chunk);
}

#[test]
fn function_copies_are_equal() {
    let file = InputFile::new(Word::intern("t"), "fun f(a) { return a; }".to_string());
    let (function, _) = compile_file(&file).unwrap();
    let copy: CompiledFunction = function.clone();
    assert_eq!(copy, function);
}
