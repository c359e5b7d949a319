//! A value that is assigned to a global variable reads back as it is.
use crate::balance::start;
use crate::bytecode::{CodeView, FunctionView};
use crate::compile_spec::{
    access, compile_expr_spec, compile_program_spec, compile_stmt_spec, compile_stmts_spec, emit,
    find_local, number_code, resolve_upvalue_spec,
};
use crate::machine::{
    finish_call, initial_state, peek_value, spec_run, spec_step, ControlFlow, VmView,
};
use crate::syntax::{ExprView, StmtView};
use crate::value::{value_text, ValueView};
use vstd::prelude::*;

verus! {

/// Whether an expression is a literal.
pub open spec fn is_literal(expr: ExprView) -> bool {
    expr is NumberLiteral || expr is StringLiteral || expr is BooleanLiteral || expr is NilLiteral
}

/// The instruction that loads a literal.
pub open spec fn literal_code(expr: ExprView) -> CodeView {
    match expr {
        ExprView::NumberLiteral(text) => number_code(text),
        ExprView::StringLiteral(text) => CodeView::String(text),
        ExprView::BooleanLiteral(b) => if b {
            CodeView::True
        } else {
            CodeView::False
        },
        _ => CodeView::Nil,
    }
}

/// The value of a literal.
pub open spec fn literal_value(expr: ExprView) -> ValueView<nat> {
    match literal_code(expr) {
        CodeView::Constant(n) => ValueView::Number(n),
        CodeView::String(text) => ValueView::String(text),
        CodeView::True => ValueView::Boolean(true),
        CodeView::False => ValueView::Boolean(false),
        _ => ValueView::Nil,
    }
}

/// The program `name = expr; print name;`.
pub open spec fn assign_and_print(name: Seq<char>, expr: ExprView) -> Seq<StmtView> {
    seq![
        StmtView::Expr(ExprView::Assign { name, value: Box::new(expr) }),
        StmtView::Print(ExprView::Variable(name)),
    ]
}

/// The program `print expr;`.
pub open spec fn print_only(expr: ExprView) -> Seq<StmtView> {
    seq![StmtView::Print(expr)]
}

/// What a program prints in at most `steps` steps.
pub open spec fn printed_by(stmts: Seq<StmtView>, steps: nat) -> Seq<char> {
    spec_run(initial_state(compile_program_spec(stmts)), steps).printed
}

/// The code of `name = expr; print name;` for a literal.
proof fn lemma_assign_and_print_code(name: Seq<char>, expr: ExprView)
    requires
        is_literal(expr),
        name.len() > 0,
    ensures
        compile_program_spec(assign_and_print(name, expr)).code == seq![
            literal_code(expr),
            CodeView::WriteGlobalVariable { name },
            CodeView::Pop,
            CodeView::ReadGlobalVariable { name },
            CodeView::Print,
        ],
{
    let stmts = assign_and_print(name, expr);
    let c0 = start();
    assert(c0.last().locals.len() == 1);
    assert(c0.last().locals[0].name.len() == 0);
    reveal_with_fuel(find_local, 3);
    reveal_with_fuel(compile_stmts_spec, 3);
    reveal_with_fuel(resolve_upvalue_spec, 2);
    assert(find_local(c0.last().locals, name) is None) by {
        assert(c0.last().locals.last().name != name);
        assert(c0.last().locals.drop_last().len() == 0);
    }
    let c1 = emit(c0, literal_code(expr));
    assert(compile_expr_spec(c0, expr) == c1);
    assert(c1.last().locals == c0.last().locals);
    assert(resolve_upvalue_spec(c1, 0, name) == (c1, None::<usize>));
    let c2 = emit(c1, CodeView::WriteGlobalVariable { name });
    assert(access(c1, name, true) == c2);
    assert(compile_expr_spec(c0, ExprView::Assign { name, value: Box::new(expr) }) == c2);
    let c3 = emit(c2, CodeView::Pop);
    assert(compile_stmt_spec(c0, stmts[0]) == c3);
    assert(c3.last().locals == c0.last().locals);
    assert(resolve_upvalue_spec(c3, 0, name) == (c3, None::<usize>));
    let c4 = emit(c3, CodeView::ReadGlobalVariable { name });
    assert(access(c3, name, false) == c4);
    let c5 = emit(c4, CodeView::Print);
    assert(compile_stmt_spec(c3, stmts[1]) == c5);
    assert(compile_stmts_spec(c0, stmts, 0) == c0);
    assert(compile_stmts_spec(c0, stmts, 1) == c3);
    assert(compile_stmts_spec(c0, stmts, 2) == c5);
    assert(c5.last().code =~= seq![
        literal_code(expr),
        CodeView::WriteGlobalVariable { name },
        CodeView::Pop,
        CodeView::ReadGlobalVariable { name },
        CodeView::Print,
    ]);
}

/// The code of `print expr;` for a literal.
proof fn lemma_print_only_code(expr: ExprView)
    requires
        is_literal(expr),
    ensures
        compile_program_spec(print_only(expr)).code == seq![literal_code(expr), CodeView::Print],
{
    let stmts = print_only(expr);
    let c0 = start();
    reveal_with_fuel(compile_stmts_spec, 2);
    let c1 = emit(c0, literal_code(expr));
    assert(compile_expr_spec(c0, expr) == c1);
    let c2 = emit(c1, CodeView::Print);
    assert(compile_stmt_spec(c0, stmts[0]) == c2);
    assert(compile_stmts_spec(c0, stmts, 0) == c0);
    assert(compile_stmts_spec(c0, stmts, 1) == c2);
    assert(c2.last().code =~= seq![literal_code(expr), CodeView::Print]);
}

/// The machine in its main frame, with the instruction pointer at `ip`.
spec fn at(main: FunctionView, vm: VmView, ip: usize) -> bool {
    &&& vm.frames.len() == 1
    &&& vm.frames[0].function == main
    &&& vm.frames[0].ip == ip
    &&& vm.frames[0].fp == 0
    &&& vm.released < 100
}

/// `print expr;` prints the literal.
proof fn lemma_print_only_runs(expr: ExprView, steps: nat)
    requires
        is_literal(expr),
        steps >= 3,
    ensures
        printed_by(print_only(expr), steps) == value_text(literal_value(expr)) + seq!['\n'],
{
    lemma_print_only_code(expr);
    let main = compile_program_spec(print_only(expr));
    let vm0 = initial_state(main);
    assert(vm0.frames.last() == vm0.frames[0]);
    let s1 = spec_step(vm0);
    let vm1 = s1.vm;
    assert(main.code[0] == literal_code(expr));
    assert(s1.outcome == Ok::<_, crate::value::RuntimeError>(ControlFlow::Next) && s1.printed is None
        && at(main, vm1, 1) && peek_value(vm1) == Ok::<_, crate::value::RuntimeError>(
        literal_value(expr),
    ));
    assert(vm1.frames.last() == vm1.frames[0]);
    let s2 = spec_step(vm1);
    let vm2 = s2.vm;
    assert(main.code[1] == CodeView::Print);
    assert(s2.outcome == Ok::<_, crate::value::RuntimeError>(ControlFlow::Next) && s2.printed
        == Some(value_text(literal_value(expr))) && at(main, vm2, 2));
    assert(vm2.frames.last() == vm2.frames[0]);
    let s3 = spec_step(vm2);
    assert(s3.outcome == Ok::<_, crate::value::RuntimeError>(ControlFlow::Done) && s3.printed
        is None) by {
        assert(vm2.stack.len() == 1);
        assert(finish_call(vm2, ValueView::Nil).vm.frames =~= Seq::empty());
    }
    reveal_with_fuel(spec_run, 4);
    let text = value_text(literal_value(expr)) + seq!['\n'];
    assert(spec_run(vm2, (steps - 2) as nat).printed =~= Seq::<char>::empty());
    assert(spec_run(vm1, (steps - 1) as nat).printed =~= text);
    assert(spec_run(vm0, steps).printed =~= text);
}

/// `name = expr; print name;` prints the literal.
proof fn lemma_assign_and_print_runs(name: Seq<char>, expr: ExprView, steps: nat)
    requires
        is_literal(expr),
        name.len() > 0,
        steps >= 6,
    ensures
        printed_by(assign_and_print(name, expr), steps) == value_text(literal_value(expr)) + seq![
            '\n',
        ],
{
    lemma_assign_and_print_code(name, expr);
    let main = compile_program_spec(assign_and_print(name, expr));
    let value = literal_value(expr);
    let vm0 = initial_state(main);
    assert(vm0.frames.last() == vm0.frames[0]);
    let s1 = spec_step(vm0);
    let vm1 = s1.vm;
    assert(main.code[0] == literal_code(expr));
    assert(s1.outcome == Ok::<_, crate::value::RuntimeError>(ControlFlow::Next) && s1.printed is None
        && at(main, vm1, 1) && peek_value(vm1) == Ok::<_, crate::value::RuntimeError>(value)
        && vm1.stack.len() == 2);
    assert(vm1.frames.last() == vm1.frames[0]);
    let s2 = spec_step(vm1);
    let vm2 = s2.vm;
    assert(main.code[1] == CodeView::WriteGlobalVariable { name });
    assert(s2.outcome == Ok::<_, crate::value::RuntimeError>(ControlFlow::Next) && s2.printed is None
        && at(main, vm2, 2) && vm2.globals.contains_key(name) && vm2.globals[name] == value
        && vm2.stack == vm1.stack && vm2.cells == vm1.cells);
    assert(vm2.frames.last() == vm2.frames[0]);
    let s3 = spec_step(vm2);
    let vm3 = s3.vm;
    assert(main.code[2] == CodeView::Pop);
    assert(s3.outcome == Ok::<_, crate::value::RuntimeError>(ControlFlow::Next) && s3.printed is None
        && at(main, vm3, 3) && vm3.globals == vm2.globals && vm3.stack.len() == 1);
    assert(vm3.frames.last() == vm3.frames[0]);
    let s4 = spec_step(vm3);
    let vm4 = s4.vm;
    assert(main.code[3] == CodeView::ReadGlobalVariable { name });
    assert(s4.outcome == Ok::<_, crate::value::RuntimeError>(ControlFlow::Next) && s4.printed is None
        && at(main, vm4, 4) && peek_value(vm4) == Ok::<_, crate::value::RuntimeError>(value)
        && vm4.stack.len() == 2);
    assert(vm4.frames.last() == vm4.frames[0]);
    let s5 = spec_step(vm4);
    let vm5 = s5.vm;
    assert(main.code[4] == CodeView::Print);
    assert(s5.outcome == Ok::<_, crate::value::RuntimeError>(ControlFlow::Next) && s5.printed
        == Some(value_text(value)) && at(main, vm5, 5) && vm5.stack.len() == 1);
    assert(vm5.frames.last() == vm5.frames[0]);
    let s6 = spec_step(vm5);
    assert(s6.outcome == Ok::<_, crate::value::RuntimeError>(ControlFlow::Done) && s6.printed
        is None) by {
        assert(finish_call(vm5, ValueView::Nil).vm.frames =~= Seq::empty());
    }
    reveal_with_fuel(spec_run, 2);
    let text = value_text(value) + seq!['\n'];
    assert(spec_run(vm5, (steps - 5) as nat).printed =~= Seq::<char>::empty());
    assert(spec_run(vm4, (steps - 4) as nat).printed =~= text);
    assert(spec_run(vm3, (steps - 3) as nat).printed =~= text);
    assert(spec_run(vm2, (steps - 2) as nat).printed =~= text);
    assert(spec_run(vm1, (steps - 1) as nat).printed =~= text);
    assert(spec_run(vm0, steps).printed =~= text);
}

/// Assigning a literal to a global variable and printing the variable
/// prints what printing the literal prints.
pub proof fn lemma_assign_then_print(name: Seq<char>, expr: ExprView, steps: nat)
    requires
        is_literal(expr),
        name.len() > 0,
        steps >= 6,
    ensures
        printed_by(assign_and_print(name, expr), steps) == printed_by(print_only(expr), steps),
{
    lemma_assign_and_print_runs(name, expr, steps);
    lemma_print_only_runs(expr, steps);
}

} // verus!
