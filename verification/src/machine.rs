//! The virtual machine as a mathematical object.
//!
//! A state holds call frames, a stack of cells, the cells themselves, and
//! the global variables. Cells are numbered in the order in which they are
//! created, so a step is a function of the state alone. [`spec_step`] is the
//! semantics of one instruction; [`spec_run`] iterates it.
use crate::bytecode::{CodeView, FunctionView, Upvalue};
use crate::value::{
    add_values, divide_values, multiply_values, negate_value, not_value, subtract_values,
    value_at_most, value_is_false, value_less, value_text, values_equal, RuntimeError, ValueView,
};
use vstd::prelude::*;

verus! {

/// What the driver does after a step.
#[derive(Clone, Copy, Debug, PartialEq, Eq, Structural)]
pub enum ControlFlow {
    /// There is more to execute.
    Next,
    /// The last frame has returned.
    Done,
}

/// One call in progress. `fp` is the stack index of the called closure; the
/// locals of the call follow it.
pub struct FrameView {
    pub function: FunctionView,
    pub ip: usize,
    pub fp: usize,
    pub upvalues: Seq<nat>,
}

/// A state of the machine.
pub struct VmView {
    pub frames: Seq<FrameView>,
    /// The value stack: each slot names the cell that holds its value.
    pub stack: Seq<nat>,
    pub cells: Map<nat, ValueView<nat>>,
    /// The number the next new cell gets.
    pub next_cell: nat,
    pub globals: Map<Seq<char>, ValueView<nat>>,
    /// How many cells have been released.
    pub released: nat,
}

/// What one step does: the state after it, the line it printed if any, and
/// how it ended.
pub struct StepView {
    pub vm: VmView,
    pub printed: Option<Seq<char>>,
    pub outcome: Result<ControlFlow, RuntimeError>,
}

/// The state in which `function` is about to run as the main program: it
/// sits in slot 0 as a closure without captured variables.
pub open spec fn initial_state(function: FunctionView) -> VmView {
    VmView {
        frames: seq![FrameView { function, ip: 0, fp: 0, upvalues: Seq::empty() }],
        stack: seq![0nat],
        cells: Map::empty().insert(
            0nat,
            ValueView::Closure { function, upvalues: Seq::empty() },
        ),
        next_cell: 1,
        globals: Map::empty(),
        released: 0,
    }
}

/// Puts `value` in a new cell on top of the stack.
pub open spec fn push_value(vm: VmView, value: ValueView<nat>) -> VmView {
    VmView {
        stack: vm.stack.push(vm.next_cell),
        cells: vm.cells.insert(vm.next_cell, value),
        next_cell: vm.next_cell + 1,
        ..vm
    }
}

/// Takes the top slot off the stack and releases its cell.
pub open spec fn pop_value(vm: VmView) -> (VmView, Result<ValueView<nat>, RuntimeError>) {
    if vm.stack.len() == 0 {
        (vm, Err(RuntimeError::StackUnderflow))
    } else if vm.released >= u64::MAX {
        (vm, Err(RuntimeError::HeapExhausted))
    } else {
        let cell = vm.stack.last();
        let shorter = VmView { stack: vm.stack.drop_last(), ..vm };
        if !vm.cells.contains_key(cell) {
            (shorter, Err(RuntimeError::DanglingCell))
        } else {
            (
                VmView { cells: vm.cells.remove(cell), released: vm.released + 1, ..shorter },
                Ok(vm.cells[cell]),
            )
        }
    }
}

/// The value in a cell.
pub open spec fn read_cell(vm: VmView, cell: nat) -> Result<ValueView<nat>, RuntimeError> {
    if vm.cells.contains_key(cell) {
        Ok(vm.cells[cell])
    } else {
        Err(RuntimeError::DanglingCell)
    }
}

/// Overwrites the value in a cell.
pub open spec fn write_cell(vm: VmView, cell: nat, value: ValueView<nat>) -> (
    VmView,
    Result<(), RuntimeError>,
) {
    if vm.cells.contains_key(cell) {
        (VmView { cells: vm.cells.insert(cell, value), ..vm }, Ok(()))
    } else {
        (vm, Err(RuntimeError::DanglingCell))
    }
}

/// The value in stack slot `index`.
pub open spec fn read_slot(vm: VmView, index: int) -> Result<ValueView<nat>, RuntimeError> {
    if 0 <= index < vm.stack.len() {
        read_cell(vm, vm.stack[index])
    } else {
        Err(RuntimeError::BadSlot)
    }
}

/// The value on top of the stack.
pub open spec fn peek_value(vm: VmView) -> Result<ValueView<nat>, RuntimeError> {
    if vm.stack.len() == 0 {
        Err(RuntimeError::StackUnderflow)
    } else {
        read_cell(vm, vm.stack.last())
    }
}

/// The state with the instruction pointer of the top frame set to `ip`.
pub open spec fn with_ip(vm: VmView, ip: usize) -> VmView
    recommends
        vm.frames.len() > 0,
{
    VmView {
        frames: vm.frames.update(
            vm.frames.len() - 1,
            FrameView { ip, ..vm.frames.last() },
        ),
        ..vm
    }
}

/// A step that went through and printed nothing.
pub open spec fn proceed(vm: VmView) -> StepView {
    StepView { vm, printed: None, outcome: Ok(ControlFlow::Next) }
}

/// A step that failed.
pub open spec fn fail(vm: VmView, e: RuntimeError) -> StepView {
    StepView { vm, printed: None, outcome: Err(e) }
}

/// Leaves the current call with `value`: the stack is cut back to where the
/// called closure sat, and the value takes its place.
pub open spec fn finish_call(vm: VmView, value: ValueView<nat>) -> StepView
    recommends
        vm.frames.len() > 0,
{
    let frame = vm.frames.last();
    if frame.fp > vm.stack.len() {
        fail(vm, RuntimeError::BadSlot)
    } else {
        let unwound = VmView {
            frames: vm.frames.drop_last(),
            stack: vm.stack.take(frame.fp as int),
            ..vm
        };
        StepView {
            vm: push_value(unwound, value),
            printed: None,
            outcome: Ok(
                if unwound.frames.len() == 0 {
                    ControlFlow::Done
                } else {
                    ControlFlow::Next
                },
            ),
        }
    }
}

/// What a two-operand instruction computes from its operands.
pub open spec fn apply_binary(code: CodeView, a: ValueView<nat>, b: ValueView<nat>) -> Result<
    ValueView<nat>,
    RuntimeError,
> {
    match code {
        CodeView::Add => add_values(a, b),
        CodeView::Subtract => subtract_values(a, b),
        CodeView::Multiply => multiply_values(a, b),
        CodeView::Divide => divide_values(a, b),
        CodeView::Equal => Ok(ValueView::Boolean(values_equal(a, b))),
        CodeView::NotEqual => Ok(ValueView::Boolean(!values_equal(a, b))),
        CodeView::Greater => Ok(ValueView::Boolean(value_less(b, a))),
        CodeView::GreaterEqual => Ok(ValueView::Boolean(value_at_most(b, a))),
        CodeView::Less => Ok(ValueView::Boolean(value_less(a, b))),
        CodeView::LessEqual => Ok(ValueView::Boolean(value_at_most(a, b))),
        _ => Err(RuntimeError::TypeMismatch),
    }
}

/// A two-operand instruction: the right operand is on top, the left below.
pub open spec fn binary_step(vm: VmView, code: CodeView) -> StepView {
    let (vm1, right) = pop_value(vm);
    match right {
        Err(e) => fail(vm1, e),
        Ok(b) => {
            let (vm2, left) = pop_value(vm1);
            match left {
                Err(e) => fail(vm2, e),
                Ok(a) => match apply_binary(code, a, b) {
                    Err(e) => fail(vm2, e),
                    Ok(v) => proceed(push_value(vm2, v)),
                },
            }
        },
    }
}

/// What a one-operand instruction computes.
pub open spec fn apply_unary(code: CodeView, a: ValueView<nat>) -> Result<
    ValueView<nat>,
    RuntimeError,
> {
    match code {
        CodeView::Negate => negate_value(a),
        CodeView::Not => not_value(a),
        _ => Err(RuntimeError::TypeMismatch),
    }
}

/// A one-operand instruction.
pub open spec fn unary_step(vm: VmView, code: CodeView) -> StepView {
    let (vm1, operand) = pop_value(vm);
    match operand {
        Err(e) => fail(vm1, e),
        Ok(a) => match apply_unary(code, a) {
            Err(e) => fail(vm1, e),
            Ok(v) => proceed(push_value(vm1, v)),
        },
    }
}

/// The cell that one captured variable of a new closure refers to: a slot
/// of the current frame, or a captured variable of the current closure.
pub open spec fn resolve_upvalue(vm: VmView, upvalue: Upvalue) -> Option<nat>
    recommends
        vm.frames.len() > 0,
{
    let frame = vm.frames.last();
    if upvalue.is_local {
        if frame.fp + upvalue.index < vm.stack.len() {
            Some(vm.stack[frame.fp + upvalue.index])
        } else {
            None
        }
    } else {
        if upvalue.index < frame.upvalues.len() {
            Some(frame.upvalues[upvalue.index as int])
        } else {
            None
        }
    }
}

/// Whether every one of the first `n` captured variables resolves.
pub open spec fn upvalues_resolve(vm: VmView, upvalues: Seq<Upvalue>, n: int) -> bool {
    forall|i: int| 0 <= i < n ==> (#[trigger] resolve_upvalue(vm, upvalues[i])) is Some
}

/// The cells of the first `n` captured variables.
pub open spec fn resolved_upvalues(vm: VmView, upvalues: Seq<Upvalue>, n: int) -> Seq<nat> {
    Seq::new(n as nat, |i: int| resolve_upvalue(vm, upvalues[i]).unwrap())
}

/// `Closure`: a new closure is pushed. Its slot exists before its captured
/// variables are resolved, so a function can capture the variable that
/// holds it.
pub open spec fn closure_step(vm: VmView, function: FunctionView, upvalues: Seq<Upvalue>) -> StepView {
    let cell = vm.next_cell;
    let vm1 = push_value(vm, ValueView::Nil);
    if upvalues_resolve(vm1, upvalues, upvalues.len() as int) {
        let closure = ValueView::Closure {
            function,
            upvalues: resolved_upvalues(vm1, upvalues, upvalues.len() as int),
        };
        proceed(VmView { cells: vm1.cells.insert(cell, closure), ..vm1 })
    } else {
        fail(vm1, RuntimeError::BadUpvalue)
    }
}

/// `Call`: the closure below the arguments gets a frame of its own.
pub open spec fn call_step(vm: VmView, arity: usize) -> StepView {
    if arity >= vm.stack.len() {
        fail(vm, RuntimeError::StackUnderflow)
    } else if vm.stack.len() - arity - 1 > usize::MAX {
        fail(vm, RuntimeError::BadSlot)
    } else {
        let fp = vm.stack.len() - arity - 1;
        match read_cell(vm, vm.stack[fp]) {
            Err(e) => fail(vm, e),
            Ok(ValueView::Closure { function, upvalues }) => proceed(
                VmView {
                    frames: vm.frames.push(
                        FrameView { function, ip: 0, fp: fp as usize, upvalues },
                    ),
                    ..vm
                },
            ),
            Ok(_) => fail(vm, RuntimeError::NotCallable),
        }
    }
}

/// Gives `function` a frame over the values on top of the stack: the slot of
/// the frame is the one below as many values as the function has parameters.
pub open spec fn enter_function(vm: VmView, function: FunctionView) -> (
    VmView,
    Result<(), RuntimeError>,
) {
    if function.arity >= vm.stack.len() {
        (vm, Err(RuntimeError::StackUnderflow))
    } else if vm.stack.len() - function.arity - 1 > usize::MAX {
        (vm, Err(RuntimeError::BadSlot))
    } else {
        (
            VmView {
                frames: vm.frames.push(
                    FrameView {
                        function,
                        ip: 0,
                        fp: (vm.stack.len() - function.arity - 1) as usize,
                        upvalues: Seq::empty(),
                    },
                ),
                ..vm
            },
            Ok(()),
        )
    }
}

/// What the instruction `code` does in a state whose instruction pointer
/// has already moved past it.
pub open spec fn execute(vm: VmView, code: CodeView) -> StepView
    recommends
        vm.frames.len() > 0,
{
    let frame = vm.frames.last();
    match code {
        CodeView::Return => {
            let (vm1, r) = pop_value(vm);
            match r {
                Err(e) => fail(vm1, e),
                Ok(v) => finish_call(vm1, v),
            }
        },
        CodeView::Constant(n) => proceed(push_value(vm, ValueView::Number(n))),
        CodeView::True => proceed(push_value(vm, ValueView::Boolean(true))),
        CodeView::False => proceed(push_value(vm, ValueView::Boolean(false))),
        CodeView::Nil => proceed(push_value(vm, ValueView::Nil)),
        CodeView::String(s) => proceed(push_value(vm, ValueView::String(s))),
        CodeView::Add
        | CodeView::Subtract
        | CodeView::Multiply
        | CodeView::Divide
        | CodeView::Equal
        | CodeView::NotEqual
        | CodeView::Greater
        | CodeView::GreaterEqual
        | CodeView::Less
        | CodeView::LessEqual => binary_step(vm, code),
        CodeView::Negate | CodeView::Not => unary_step(vm, code),
        CodeView::Print => {
            let (vm1, r) = pop_value(vm);
            match r {
                Err(e) => fail(vm1, e),
                Ok(v) => StepView {
                    vm: vm1,
                    printed: Some(value_text(v)),
                    outcome: Ok(ControlFlow::Next),
                },
            }
        },
        CodeView::Pop => {
            let (vm1, r) = pop_value(vm);
            match r {
                Err(e) => fail(vm1, e),
                Ok(_) => proceed(vm1),
            }
        },
        CodeView::GlobalVarDeclaration { name } => {
            let (vm1, r) = pop_value(vm);
            match r {
                Err(e) => fail(vm1, e),
                Ok(v) => proceed(VmView { globals: vm1.globals.insert(name, v), ..vm1 }),
            }
        },
        CodeView::ReadGlobalVariable { name } => {
            if vm.globals.contains_key(name) {
                proceed(push_value(vm, vm.globals[name]))
            } else {
                fail(vm, RuntimeError::UndefinedVariable)
            }
        },
        CodeView::WriteGlobalVariable { name } => match peek_value(vm) {
            Err(e) => fail(vm, e),
            Ok(v) => proceed(VmView { globals: vm.globals.insert(name, v), ..vm }),
        },
        CodeView::ReadLocalVariable { index_in_stack } => match read_slot(
            vm,
            frame.fp + index_in_stack,
        ) {
            Err(e) => fail(vm, e),
            Ok(v) => proceed(push_value(vm, v)),
        },
        CodeView::WriteLocalVariable { index_in_stack } => match peek_value(vm) {
            Err(e) => fail(vm, e),
            Ok(v) => {
                if frame.fp + index_in_stack < vm.stack.len() {
                    let (vm1, r) = write_cell(vm, vm.stack[frame.fp + index_in_stack], v);
                    match r {
                        Err(e) => fail(vm1, e),
                        Ok(_) => proceed(vm1),
                    }
                } else {
                    fail(vm, RuntimeError::BadSlot)
                }
            },
        },
        CodeView::JumpIfFalse(target) => match peek_value(vm) {
            Err(e) => fail(vm, e),
            Ok(v) => if value_is_false(v) {
                proceed(with_ip(vm, target))
            } else {
                proceed(vm)
            },
        },
        CodeView::Jump(target) => proceed(with_ip(vm, target)),
        CodeView::Call { arity } => call_step(vm, arity),
        CodeView::Closure { function, upvalues } => closure_step(vm, function, upvalues),
        CodeView::ReadUpvalue { index } => {
            if index < frame.upvalues.len() {
                match read_cell(vm, frame.upvalues[index as int]) {
                    Err(e) => fail(vm, e),
                    Ok(v) => proceed(push_value(vm, v)),
                }
            } else {
                fail(vm, RuntimeError::BadUpvalue)
            }
        },
        CodeView::WriteUpvalue { index } => match peek_value(vm) {
            Err(e) => fail(vm, e),
            Ok(v) => {
                if index < frame.upvalues.len() {
                    let (vm1, r) = write_cell(vm, frame.upvalues[index as int], v);
                    match r {
                        Err(e) => fail(vm1, e),
                        Ok(_) => proceed(vm1),
                    }
                } else {
                    fail(vm, RuntimeError::BadUpvalue)
                }
            },
        },
        CodeView::CloseUpvalue => {
            if vm.stack.len() == 0 {
                fail(vm, RuntimeError::StackUnderflow)
            } else {
                proceed(VmView { stack: vm.stack.drop_last(), ..vm })
            }
        },
    }
}

/// One step of the machine. Without a frame there is nothing to do. A frame
/// whose code has run out returns nil. Otherwise the instruction under the
/// instruction pointer is executed, with the pointer already moved on.
pub open spec fn spec_step(vm: VmView) -> StepView {
    if vm.frames.len() == 0 {
        StepView { vm, printed: None, outcome: Ok(ControlFlow::Done) }
    } else {
        let frame = vm.frames.last();
        if frame.ip >= frame.function.code.len() {
            finish_call(vm, ValueView::Nil)
        } else {
            execute(
                with_ip(vm, (frame.ip + 1) as usize),
                frame.function.code[frame.ip as int],
            )
        }
    }
}

/// What a run of at most `steps` steps does.
pub struct RunView {
    pub vm: VmView,
    /// Everything printed, each line followed by a line feed.
    pub printed: Seq<char>,
    /// `Ok(Next)` when the steps ran out before the program ended.
    pub outcome: Result<ControlFlow, RuntimeError>,
}

/// The text that a step adds to the output.
pub open spec fn printed_text(printed: Option<Seq<char>>) -> Seq<char> {
    match printed {
        Some(line) => line + seq!['\n'],
        None => Seq::empty(),
    }
}

/// Runs the machine until it is done, fails, or has made `steps` steps.
pub open spec fn spec_run(vm: VmView, steps: nat) -> RunView
    decreases steps,
{
    if steps == 0 {
        RunView { vm, printed: Seq::empty(), outcome: Ok(ControlFlow::Next) }
    } else {
        let step = spec_step(vm);
        match step.outcome {
            Ok(ControlFlow::Next) => {
                let rest = spec_run(step.vm, (steps - 1) as nat);
                RunView { printed: printed_text(step.printed) + rest.printed, ..rest }
            },
            _ => RunView {
                vm: step.vm,
                printed: printed_text(step.printed),
                outcome: step.outcome,
            },
        }
    }
}

} // verus!
