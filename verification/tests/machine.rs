use eq_float::F64;
use lox::bytecode::{Chunk, Code, CompiledFunction, Upvalue};
use lox::kernel::{BufferKernel, Kernel};
use lox::machine::ControlFlow;
use lox::value::{RuntimeError, Value};
use lox::vm::VM;

fn function(code: Vec<Code>) -> CompiledFunction {
    let mut chunk = Chunk::default();
    for c in code {
        chunk.emit_byte(c);
    }
    CompiledFunction { name: "main".to_string(), arity: 0, chunk, upvalue_count: 0 }
}

fn run(code: Vec<Code>) -> (Result<ControlFlow, RuntimeError>, String, VM) {
    let mut vm = VM::new(function(code));
    let mut kernel = BufferKernel::new();
    let outcome = vm.run(&mut kernel, 10_000);
    (outcome, kernel.take_buffer(), vm)
}

fn number(n: f64) -> Code {
    Code::Constant(F64(n))
}

fn shown(values: Vec<Value>) -> Vec<String> {
    values.iter().map(|v| v.to_text()).collect()
}

#[test]
fn new_machine_holds_the_main_closure() {
    let vm = VM::new(function(vec![]));
    assert_eq!(shown(vm.stack_values().unwrap()), vec!["<func main>"]);
}

#[test]
fn step_by_step() {
    let mut vm = VM::new(function(vec![number(1.0), number(2.0), Code::Add, Code::Print]));
    let mut kernel = BufferKernel::new();
    assert_eq!(vm.step(&mut kernel), Ok(ControlFlow::Next));
    assert_eq!(shown(vm.stack_values().unwrap()), vec!["<func main>", "1"]);
    assert_eq!(vm.step(&mut kernel), Ok(ControlFlow::Next));
    assert_eq!(vm.step(&mut kernel), Ok(ControlFlow::Next));
    assert_eq!(shown(vm.stack_values().unwrap()), vec!["<func main>", "3"]);
    assert_eq!(kernel.buffer(), "");
    assert_eq!(vm.step(&mut kernel), Ok(ControlFlow::Next));
    assert_eq!(kernel.buffer(), "3\n");
    assert_eq!(shown(vm.stack_values().unwrap()), vec!["<func main>"]);
    assert_eq!(vm.step(&mut kernel), Ok(ControlFlow::Done));
    assert_eq!(shown(vm.stack_values().unwrap()), vec!["nil"]);
    assert_eq!(vm.step(&mut kernel), Ok(ControlFlow::Done));
}

#[test]
fn run_stops_when_the_steps_run_out() {
    let mut vm = VM::new(function(vec![Code::Jump(0)]));
    let mut kernel = BufferKernel::new();
    assert_eq!(vm.run(&mut kernel, 50), Ok(ControlFlow::Next));
    assert_eq!(vm.run(&mut kernel, 0), Ok(ControlFlow::Next));
}

#[test]
fn arithmetic() {
    let (outcome, output, _) = run(vec![
        number(7.0), number(2.0), Code::Subtract, Code::Print,
        number(7.0), number(2.0), Code::Multiply, Code::Print,
        number(7.0), number(2.0), Code::Divide, Code::Print,
        number(7.0), Code::Negate, Code::Print,
        Code::String("ab".to_string()), Code::String("cd".to_string()), Code::Add, Code::Print,
    ]);
    assert_eq!(outcome, Ok(ControlFlow::Done));
    assert_eq!(output, "5\n14\n3.5\n-7\nabcd\n");
}

#[test]
fn comparisons_take_the_left_operand_first() {
    let (outcome, output, _) = run(vec![
        number(1.0), number(2.0), Code::Less, Code::Print,
        number(1.0), number(2.0), Code::Greater, Code::Print,
        number(2.0), number(2.0), Code::LessEqual, Code::Print,
        number(1.0), number(2.0), Code::GreaterEqual, Code::Print,
        number(2.0), number(2.0), Code::Equal, Code::Print,
        number(2.0), number(2.0), Code::NotEqual, Code::Print,
        Code::True, Code::Not, Code::Print,
    ]);
    assert_eq!(outcome, Ok(ControlFlow::Done));
    assert_eq!(output, "true\nfalse\ntrue\nfalse\ntrue\nfalse\nfalse\n");
}

#[test]
fn not_a_number_equals_nothing() {
    let (_, output, _) = run(vec![
        number(0.0), number(0.0), Code::Divide,
        number(0.0), number(0.0), Code::Divide,
        Code::Equal, Code::Print,
        number(0.0), number(0.0), Code::Divide, Code::Print,
    ]);
    assert_eq!(output, "false\nNaN\n");
}

#[test]
fn jump_if_false_peeks() {
    let (outcome, output, vm) = run(vec![
        Code::False,
        Code::JumpIfFalse(4),
        Code::String("skipped".to_string()),
        Code::Print,
        Code::Nil,
        Code::JumpIfFalse(8),
        Code::String("nil is true".to_string()),
        Code::Print,
        Code::Jump(9),
    ]);
    assert_eq!(outcome, Ok(ControlFlow::Done));
    assert_eq!(output, "nil is true\n");
    assert_eq!(vm.stack_values().unwrap().len(), 1);
}

#[test]
fn globals() {
    let (outcome, output, _) = run(vec![
        number(1.0),
        Code::GlobalVarDeclaration { name: "g".to_string() },
        number(2.0),
        Code::WriteGlobalVariable { name: "g".to_string() },
        Code::WriteGlobalVariable { name: "h".to_string() },
        Code::Pop,
        Code::ReadGlobalVariable { name: "g".to_string() },
        Code::Print,
        Code::ReadGlobalVariable { name: "h".to_string() },
        Code::Print,
    ]);
    assert_eq!(outcome, Ok(ControlFlow::Done));
    assert_eq!(output, "2\n2\n");
}

#[test]
fn locals_are_relative_to_the_frame() {
    let (outcome, output, vm) = run(vec![
        number(10.0),
        number(20.0),
        Code::ReadLocalVariable { index_in_stack: 1 },
        Code::WriteLocalVariable { index_in_stack: 2 },
        Code::Pop,
        Code::Print,
        Code::ReadLocalVariable { index_in_stack: 0 },
        Code::Print,
        Code::Return,
    ]);
    assert_eq!(outcome, Ok(ControlFlow::Done));
    assert_eq!(output, "10\n<func main>\n");
    assert_eq!(shown(vm.stack_values().unwrap()), vec!["10"]);
}

#[test]
fn call_and_return() {
    let mut callee = Chunk::default();
    callee.emit_byte(Code::ReadLocalVariable { index_in_stack: 1 });
    callee.emit_byte(Code::ReadLocalVariable { index_in_stack: 2 });
    callee.emit_byte(Code::Subtract);
    callee.emit_byte(Code::Return);
    let callee = CompiledFunction { name: "sub".to_string(), arity: 2, chunk: callee, upvalue_count: 0 };
    let (outcome, output, vm) = run(vec![
        number(100.0),
        Code::Closure { function: callee, upvalues: vec![] },
        number(9.0),
        number(4.0),
        Code::Call { arity: 2 },
        Code::Print,
    ]);
    assert_eq!(outcome, Ok(ControlFlow::Done));
    assert_eq!(output, "5\n");
    assert_eq!(shown(vm.stack_values().unwrap()), vec!["nil"]);
}

#[test]
fn upvalue_shares_the_cell_of_the_slot() {
    let mut inner = Chunk::default();
    inner.emit_byte(Code::ReadUpvalue { index: 0 });
    inner.emit_byte(number(1.0));
    inner.emit_byte(Code::Add);
    inner.emit_byte(Code::WriteUpvalue { index: 0 });
    inner.emit_byte(Code::Return);
    let inner = CompiledFunction { name: "bump".to_string(), arity: 0, chunk: inner, upvalue_count: 1 };
    let (outcome, output, _) = run(vec![
        number(5.0),
        Code::Closure { function: inner, upvalues: vec![Upvalue { index: 1, is_local: true }] },
        Code::ReadLocalVariable { index_in_stack: 2 },
        Code::Call { arity: 0 },
        Code::Pop,
        Code::ReadLocalVariable { index_in_stack: 1 },
        Code::Print,
        Code::GlobalVarDeclaration { name: "bump".to_string() },
        Code::CloseUpvalue,
        Code::ReadGlobalVariable { name: "bump".to_string() },
        Code::Call { arity: 0 },
        Code::Print,
    ]);
    assert_eq!(outcome, Ok(ControlFlow::Done));
    assert_eq!(output, "6\n7\n");
}

#[test]
fn stack_underflow() {
    let (outcome, _, _) = run(vec![Code::Pop, Code::Pop]);
    assert_eq!(outcome, Err(RuntimeError::StackUnderflow));
    let (outcome, _, _) = run(vec![Code::Call { arity: 1 }]);
    assert_eq!(outcome, Err(RuntimeError::StackUnderflow));
    let (outcome, _, _) = run(vec![Code::CloseUpvalue, Code::CloseUpvalue]);
    assert_eq!(outcome, Err(RuntimeError::StackUnderflow));
}

#[test]
fn bad_slot() {
    let (outcome, _, _) = run(vec![Code::ReadLocalVariable { index_in_stack: 1 }]);
    assert_eq!(outcome, Err(RuntimeError::BadSlot));
    let (outcome, _, _) = run(vec![Code::WriteLocalVariable { index_in_stack: usize::MAX }]);
    assert_eq!(outcome, Err(RuntimeError::BadSlot));
}

#[test]
fn bad_upvalue() {
    let (outcome, _, _) = run(vec![Code::ReadUpvalue { index: 0 }]);
    assert_eq!(outcome, Err(RuntimeError::BadUpvalue));
    let (outcome, _, _) = run(vec![Code::WriteUpvalue { index: 0 }]);
    assert_eq!(outcome, Err(RuntimeError::BadUpvalue));
    let (outcome, _, _) = run(vec![Code::Closure {
        function: function(vec![]),
        upvalues: vec![Upvalue { index: 0, is_local: false }],
    }]);
    assert_eq!(outcome, Err(RuntimeError::BadUpvalue));
    let (outcome, _, _) = run(vec![Code::Closure {
        function: function(vec![]),
        upvalues: vec![Upvalue { index: 5, is_local: true }],
    }]);
    assert_eq!(outcome, Err(RuntimeError::BadUpvalue));
}

#[test]
fn dangling_cell() {
    let mut reader = Chunk::default();
    reader.emit_byte(Code::ReadUpvalue { index: 0 });
    reader.emit_byte(Code::Return);
    let reader = CompiledFunction { name: "r".to_string(), arity: 0, chunk: reader, upvalue_count: 1 };
    let (outcome, _, _) = run(vec![
        number(5.0),
        Code::Closure { function: reader, upvalues: vec![Upvalue { index: 1, is_local: true }] },
        Code::GlobalVarDeclaration { name: "r".to_string() },
        Code::Pop,
        Code::ReadGlobalVariable { name: "r".to_string() },
        Code::Call { arity: 0 },
    ]);
    assert_eq!(outcome, Err(RuntimeError::DanglingCell));
}

#[test]
fn undefined_variable_type_mismatch_and_not_callable() {
    let (outcome, _, _) = run(vec![Code::ReadGlobalVariable { name: "x".to_string() }]);
    assert_eq!(outcome, Err(RuntimeError::UndefinedVariable));
    let (outcome, _, _) = run(vec![Code::Nil, Code::True, Code::Multiply]);
    assert_eq!(outcome, Err(RuntimeError::TypeMismatch));
    let (outcome, _, _) = run(vec![Code::Nil, Code::Call { arity: 0 }]);
    assert_eq!(outcome, Err(RuntimeError::NotCallable));
}

#[test]
fn a_closure_can_capture_its_own_slot() {
    let mut me = Chunk::default();
    me.emit_byte(Code::ReadUpvalue { index: 0 });
    me.emit_byte(Code::Return);
    let me = CompiledFunction { name: "me".to_string(), arity: 0, chunk: me, upvalue_count: 1 };
    let (outcome, output, _) = run(vec![
        Code::Closure { function: me, upvalues: vec![Upvalue { index: 1, is_local: true }] },
        Code::ReadLocalVariable { index_in_stack: 1 },
        Code::Call { arity: 0 },
        Code::Print,
    ]);
    assert_eq!(outcome, Ok(ControlFlow::Done));
    assert_eq!(output, "<func me>\n");
}

#[test]
fn push_frame_runs_a_function_on_the_values_on_top() {
    let mut vm = VM::new(function(vec![]));
    let mut kernel = BufferKernel::new();
    let callee = function(vec![number(3.0), Code::Print]);
    assert_eq!(vm.push_frame(callee), Ok(()));
    assert_eq!(vm.run(&mut kernel, 100), Ok(ControlFlow::Done));
    assert_eq!(kernel.buffer(), "3\n");
    let mut needy = function(vec![]);
    needy.arity = 4;
    assert_eq!(vm.push_frame(needy), Err(RuntimeError::StackUnderflow));
}

#[test]
fn buffer_kernel_keeps_lines() {
    let mut kernel = BufferKernel::default();
    assert_eq!(kernel.buffer(), "");
    kernel.print("one");
    kernel.print("");
    kernel.print("two");
    assert_eq!(kernel.buffer(), "one\n\ntwo\n");
    assert_eq!(kernel.take_buffer(), "one\n\ntwo\n");
}

#[test]
fn machine_reports_where_it_stands() {
    let mut vm = VM::new(function(vec![number(1.0), Code::Jump(3), Code::Nil, Code::Pop]));
    let mut kernel = BufferKernel::new();
    assert_eq!(vm.frame_count(), 1);
    assert_eq!(vm.position(), Some(0));
    assert_eq!(vm.stack_height(), 1);
    vm.step(&mut kernel).unwrap();
    assert_eq!(vm.position(), Some(1));
    assert_eq!(vm.stack_height(), 2);
    vm.step(&mut kernel).unwrap();
    assert_eq!(vm.position(), Some(3));
    vm.step(&mut kernel).unwrap();
    assert_eq!(vm.stack_height(), 1);
    assert_eq!(vm.step(&mut kernel), Ok(ControlFlow::Done));
    assert_eq!(vm.frame_count(), 0);
    assert_eq!(vm.position(), None);
}
