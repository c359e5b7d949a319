use lox::execute::{execute_file, Outcome};
use lox::input_file::InputFile;
use lox::kernel::BufferKernel;
use lox::value::RuntimeError;
use lox::word::Word;

fn run_with(source: &str, steps: u64) -> (Outcome, String) {
    let file = InputFile::new(Word::intern("test.lox"), source.to_string());
    let mut kernel = BufferKernel::new();
    let outcome = execute_file(&file, &mut kernel, steps);
    (outcome, kernel.take_buffer())
}

fn run(source: &str) -> String {
    let (outcome, output) = run_with(source, 1_000_000);
    assert!(matches!(outcome, Outcome::Finished), "{:?}", outcome);
    output
}

#[test]
fn arithmetic_precedence() {
    assert_eq!(run("print 1 + 2 * 3;"), "7\n");
}

#[test]
fn block_scope_shadowing() {
    assert_eq!(run("var a = 1; { var a = 2; print a; } print a;"), "2\n1\n");
}

#[test]
fn while_loop_counts() {
    assert_eq!(run("var i = 0; while (i < 3) { print i; i = i + 1; }"), "0\n1\n2\n");
}

#[test]
fn if_with_logical_or() {
    assert_eq!(run("if (false or true) { print \"y\"; } else { print \"n\"; }"), "y\n");
}

#[test]
fn closure_outlives_its_call() {
    assert_eq!(
        run("fun make(x) { fun inner() { return x; } return inner; } print make(42)();"),
        "42\n"
    );
}

#[test]
fn counter_closure() {
    assert_eq!(
        run("fun counter() { var n = 0; fun inc() { n = n + 1; return n; } return inc; } var c = counter(); print c(); print c(); print c();"),
        "1\n2\n3\n"
    );
}

#[test]
fn same_program_twice_prints_the_same() {
    let source = "var i = 0; while (i < 5) { print i * i; i = i + 1; } fun f(a, b) { return a + b; } print f(\"x\", \"y\");";
    let first = run(source);
    let second = run(source);
    assert_eq!(first, second);
    assert_eq!(first, "0\n1\n4\n9\n16\nxy\n");
}

#[test]
fn assignment_then_print_equals_print() {
    assert_eq!(run("var x; x = 3 * (4 + 5); print x;"), run("print 3 * (4 + 5);"));
    assert_eq!(run("var x; x = \"a\" + \"b\"; print x;"), run("print \"a\" + \"b\";"));
}

#[test]
fn and_short_circuits() {
    assert_eq!(
        run("var hit = 0; fun touch() { hit = hit + 1; return true; } print false and touch(); print hit;"),
        "false\n0\n"
    );
    assert_eq!(
        run("var hit = 0; fun touch() { hit = hit + 1; return true; } print true and touch(); print hit;"),
        "true\n1\n"
    );
}

#[test]
fn or_short_circuits() {
    assert_eq!(
        run("var hit = 0; fun touch() { hit = hit + 1; return false; } print true or touch(); print hit;"),
        "true\n0\n"
    );
    assert_eq!(
        run("var hit = 0; fun touch() { hit = hit + 1; return false; } print false or touch(); print hit;"),
        "false\n1\n"
    );
}

#[test]
fn inner_variable_does_not_overwrite_outer() {
    assert_eq!(
        run("{ var x = 1; { var x = 2; x = x + 10; print x; } print x; }"),
        "12\n1\n"
    );
}

#[test]
fn closure_over_loop_variable_sees_live_slot() {
    assert_eq!(
        run("var f = nil; { for (var i = 0; i < 3; i = i + 1) { fun g() { return i; } f = g; } } print f();"),
        "3\n"
    );
}

#[test]
fn closed_variable_is_shared_between_closures() {
    assert_eq!(
        run("var get = nil; var set = nil; { var v = 1; fun g() { return v; } fun s(x) { v = x; } get = g; set = s; } set(5); print get();"),
        "5\n"
    );
}

#[test]
fn global_function_can_call_itself() {
    assert_eq!(
        run("fun down(n) { if (n < 1) { return 0; } return n + down(n - 1); } print down(4);"),
        "10\n"
    );
}

#[test]
fn local_function_is_bound_after_its_body_is_compiled() {
    let (outcome, _) = run_with("{ fun f(n) { if (n < 1) { return 0; } return f(n - 1); } print f(1); }", 1000);
    assert!(matches!(outcome, Outcome::Failed(RuntimeError::UndefinedVariable)), "{:?}", outcome);
}

#[test]
fn for_loop_with_all_parts() {
    assert_eq!(run("for (var i = 0; i < 3; i = i + 1) { print i; }"), "0\n1\n2\n");
}

#[test]
fn for_loop_without_initializer_and_increment() {
    assert_eq!(run("var i = 0; for (; i < 2;) { print i; i = i + 1; }"), "0\n1\n");
}

#[test]
fn for_without_condition_runs_until_the_steps_run_out() {
    let (outcome, output) = run_with("for (;;) { print 1; }", 12);
    assert!(matches!(outcome, Outcome::OutOfSteps), "{:?}", outcome);
    assert_eq!(output, "1\n1\n");
}

#[test]
fn function_without_return_gives_nil() {
    assert_eq!(run("fun f() { } print f();"), "nil\n");
}

#[test]
fn return_without_value_gives_nil() {
    assert_eq!(run("fun f() { return; } print f();"), "nil\n");
}

#[test]
fn prints_each_kind_of_value() {
    assert_eq!(
        run("print 12; print true; print false; print nil; print \"text\"; fun named() { } print named;"),
        "12\ntrue\nfalse\nnil\ntext\n<func named>\n"
    );
}

#[test]
fn division_gives_fractions_and_infinity() {
    assert_eq!(run("print 1 / 4; print 1 / 0; print 0 - 7;"), "0.25\ninf\n-7\n");
}

#[test]
fn comparison_and_equality() {
    assert_eq!(
        run("print 1 < 2; print 2 <= 2; print 3 > 4; print 4 >= 5; print 1 == 1; print 1 != 1; print nil == nil; print true == false;"),
        "true\ntrue\nfalse\nfalse\ntrue\nfalse\ntrue\nfalse\n"
    );
}

#[test]
fn strings_are_never_equal_and_never_ordered() {
    assert_eq!(run("print \"a\" == \"a\"; print \"a\" < \"b\"; print 1 == \"1\";"), "false\nfalse\nfalse\n");
}

#[test]
fn unary_operators() {
    assert_eq!(run("print -3; print !true; print ! !false; print - - 2;"), "-3\nfalse\nfalse\n2\n");
}

#[test]
fn nil_is_truthy() {
    assert_eq!(run("if (nil) { print \"then\"; } else { print \"else\"; }"), "then\n");
}

#[test]
fn assignment_is_an_expression() {
    assert_eq!(run("var a; var b; a = b = 4; print a + b;"), "8\n");
}

#[test]
fn assigning_an_undeclared_global_creates_it() {
    assert_eq!(run("x = 9; print x;"), "9\n");
}

#[test]
fn arguments_are_passed_in_order() {
    assert_eq!(run("fun f(a, b, c) { return a - b - c; } print f(10, 3, 2);"), "5\n");
}

#[test]
fn reading_an_undefined_global_fails() {
    let (outcome, output) = run_with("print 1; print missing;", 1000);
    assert!(matches!(outcome, Outcome::Failed(RuntimeError::UndefinedVariable)), "{:?}", outcome);
    assert_eq!(output, "1\n");
}

#[test]
fn adding_a_number_and_a_string_fails() {
    let (outcome, _) = run_with("print 1 + \"a\";", 1000);
    assert!(matches!(outcome, Outcome::Failed(RuntimeError::TypeMismatch)), "{:?}", outcome);
}

#[test]
fn negating_a_string_fails() {
    let (outcome, _) = run_with("print -\"a\";", 1000);
    assert!(matches!(outcome, Outcome::Failed(RuntimeError::TypeMismatch)), "{:?}", outcome);
}

#[test]
fn not_of_a_number_fails() {
    let (outcome, _) = run_with("print !1;", 1000);
    assert!(matches!(outcome, Outcome::Failed(RuntimeError::TypeMismatch)), "{:?}", outcome);
}

#[test]
fn calling_a_number_fails() {
    let (outcome, _) = run_with("var f = 3; f();", 1000);
    assert!(matches!(outcome, Outcome::Failed(RuntimeError::NotCallable)), "{:?}", outcome);
}

#[test]
fn a_text_with_a_missing_semicolon_is_not_run() {
    let (outcome, output) = run_with("print 1; print 2", 1000);
    match outcome {
        Outcome::Rejected(diagnostics) => {
            assert_eq!(diagnostics.len(), 1);
            assert_eq!(diagnostics[0].message, "expected `;`");
        }
        other => panic!("{:?}", other),
    }
    assert_eq!(output, "");
}

#[test]
fn errors_have_messages() {
    assert_eq!(RuntimeError::UndefinedVariable.message(), "undefined variable");
    assert_eq!(RuntimeError::TypeMismatch.message(), "operands have the wrong type");
    assert_eq!(RuntimeError::NotCallable.message(), "can only call functions");
    assert_eq!(RuntimeError::StackUnderflow.message(), "stack underflow");
    assert_eq!(RuntimeError::DanglingCell.message(), "value is no longer alive");
    assert_eq!(RuntimeError::BadSlot.message(), "local slot out of range");
    assert_eq!(RuntimeError::BadUpvalue.message(), "captured variable out of range");
    assert_eq!(RuntimeError::HeapExhausted.message(), "heap exhausted");
}
