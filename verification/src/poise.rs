//! Stack balance: a program that keeps the stack discipline runs with the
//! stack at the heights of its code.
use crate::balance::{boundary, lemma_program, start, valid_program};
use crate::bytecode::{CodeView, FunctionView};
use crate::compile_spec::{compile_program_spec, compile_stmts_spec};
use crate::discipline::{consistent, effect, instruction_fits};
use crate::machine::{
    binary_step, call_step, closure_step, execute, finish_call, initial_state, pop_value, spec_run,
    spec_step, unary_step, with_ip, ControlFlow, VmView,
};
use crate::syntax::StmtView;
use crate::value::ValueView;
use vstd::prelude::*;

verus! {

/// Whether the machine runs `main` as its main program with the stack at
/// the heights `heights`: when the main frame is the only one, the stack is
/// as high as its position says; when it has called a function, the frame
/// of that function sits where the position after the call says.
pub open spec fn poised(main: FunctionView, heights: Seq<int>, vm: VmView) -> bool {
    vm.frames.len() == 0 || {
        &&& vm.frames[0].function == main
        &&& vm.frames[0].ip <= main.code.len()
        &&& vm.frames.len() == 1 ==> vm.stack.len() == heights[vm.frames[0].ip as int]
        &&& vm.frames.len() >= 2 ==> vm.frames[1].fp + 1 == heights[vm.frames[0].ip as int]
    }
}

/// A step of the main frame keeps the machine poised.
proof fn lemma_main_step(main: FunctionView, heights: Seq<int>, vm: VmView)
    requires
        consistent(main.code, heights, Set::empty()),
        main.code.len() <= usize::MAX,
        poised(main, heights, vm),
        vm.frames.len() == 1,
        spec_step(vm).outcome is Ok,
    ensures
        poised(main, heights, spec_step(vm).vm),
{
    let frame = vm.frames[0];
    assert(vm.frames.last() == frame);
    if frame.ip >= main.code.len() {
    } else {
        let ip = frame.ip as int;
        let code = main.code[ip];
        assert(instruction_fits(main.code, heights, Set::empty(), ip));
        let vm1 = with_ip(vm, (frame.ip + 1) as usize);
        assert(vm1.frames.len() == 1);
        assert(vm1.frames[0].function == main);
        assert(vm1.frames.last() == vm1.frames[0]);
        assert(vm1.stack == vm.stack);
        assert(vm1.frames[0].ip == ip + 1);
        lemma_execute_height(vm1, code);
        let after = execute(vm1, code).vm;
        match code {
            CodeView::Jump(target) => {
                assert(after.frames[0].ip == target);
            },
            CodeView::JumpIfFalse(target) => {
                assert(after.frames[0].ip == target || after.frames[0].ip == ip + 1);
            },
            CodeView::Call { arity } => {
                assert(after.frames.len() == 2);
                assert(after.frames[0] == vm1.frames[0]);
                assert(after.frames[1].fp == vm.stack.len() - arity - 1);
            },
            CodeView::Return => {},
            _ => {
                assert(after.frames[0].ip == ip + 1);
            },
        }
    }
}

/// What an instruction that goes through does to a machine with one frame:
/// it changes the height of the stack by its effect, and only a jump
/// changes the instruction pointer. A call adds a frame, which sits below
/// its arguments; a return takes the frame away.
proof fn lemma_execute_height(vm: VmView, code: CodeView)
    requires
        vm.frames.len() == 1,
        execute(vm, code).outcome is Ok,
    ensures
        ({
            let after = execute(vm, code).vm;
            match code {
                CodeView::Return => after.frames.len() == 0,
                CodeView::Call { arity } => {
                    &&& after.frames.len() == 2
                    &&& after.frames[0] == vm.frames[0]
                    &&& after.frames[1].fp == vm.stack.len() - arity - 1
                    &&& after.stack == vm.stack
                },
                CodeView::Jump(target) => {
                    &&& after.frames.len() == 1
                    &&& after.frames[0] == (crate::machine::FrameView { ip: target, ..vm.frames[0] })
                    &&& after.stack == vm.stack
                },
                CodeView::JumpIfFalse(target) => {
                    &&& after.frames.len() == 1
                    &&& (after.frames[0] == (crate::machine::FrameView {
                        ip: target,
                        ..vm.frames[0]
                    }) || after.frames[0] == vm.frames[0])
                    &&& after.stack == vm.stack
                },
                _ => {
                    &&& after.frames == vm.frames
                    &&& after.stack.len() == vm.stack.len() + effect(code)
                },
            }
        }),
{
    assert(vm.frames.last() == vm.frames[0]);
    match code {
        CodeView::Add
        | CodeView::Subtract
        | CodeView::Multiply
        | CodeView::Divide
        | CodeView::Equal
        | CodeView::NotEqual
        | CodeView::Greater
        | CodeView::GreaterEqual
        | CodeView::Less
        | CodeView::LessEqual => {
            lemma_binary_height(vm, code);
        },
        CodeView::Jump(target) => {
            assert(with_ip(vm, target).frames =~= seq![
                crate::machine::FrameView { ip: target, ..vm.frames[0] },
            ]);
        },
        CodeView::JumpIfFalse(target) => {
            assert(with_ip(vm, target).frames =~= seq![
                crate::machine::FrameView { ip: target, ..vm.frames[0] },
            ]);
        },
        CodeView::Return => {
            let (vm1, r) = pop_value(vm);
            assert(vm1.frames == vm.frames);
            assert(finish_call(vm1, r->Ok_0).vm.frames =~= vm1.frames.drop_last());
        },
        CodeView::Negate | CodeView::Not => {
            assert(unary_step(vm, code).vm.stack.len() == vm.stack.len());
        },
        CodeView::Closure { function, upvalues } => {
            assert(closure_step(vm, function, upvalues).vm.stack.len() == vm.stack.len() + 1);
        },
        CodeView::Call { arity } => {
            assert(call_step(vm, arity).vm.frames.len() == 2);
        },
        CodeView::Print => {
            assert(execute(vm, code).vm.stack.len() == vm.stack.len() - 1);
        },
        CodeView::Pop => {
            assert(execute(vm, code).vm.stack.len() == vm.stack.len() - 1);
        },
        CodeView::GlobalVarDeclaration { name } => {
            assert(execute(vm, code).vm.stack.len() == vm.stack.len() - 1);
        },
        CodeView::CloseUpvalue => {
            assert(execute(vm, code).vm.stack.len() == vm.stack.len() - 1);
        },
        CodeView::ReadGlobalVariable { name } => {
            assert(execute(vm, code).vm.stack.len() == vm.stack.len() + 1);
        },
        CodeView::ReadLocalVariable { index_in_stack } => {
            assert(execute(vm, code).vm.stack.len() == vm.stack.len() + 1);
        },
        CodeView::ReadUpvalue { index } => {
            assert(execute(vm, code).vm.stack.len() == vm.stack.len() + 1);
        },
        CodeView::WriteGlobalVariable { name } => {
            assert(execute(vm, code).vm.stack.len() == vm.stack.len());
        },
        CodeView::WriteLocalVariable { index_in_stack } => {
            assert(execute(vm, code).vm.stack.len() == vm.stack.len());
        },
        CodeView::WriteUpvalue { index } => {
            assert(execute(vm, code).vm.stack.len() == vm.stack.len());
        },
        _ => {},
    }
}

/// A two-operand instruction that goes through lowers the stack by one
/// and leaves the frames alone.
proof fn lemma_binary_height(vm: VmView, code: CodeView)
    requires
        binary_step(vm, code).outcome is Ok,
    ensures
        binary_step(vm, code).vm.stack.len() == vm.stack.len() - 1,
        binary_step(vm, code).vm.frames == vm.frames,
{
}

/// A step of a frame above the main frame keeps the machine poised.
proof fn lemma_inner_step(main: FunctionView, heights: Seq<int>, vm: VmView)
    requires
        poised(main, heights, vm),
        vm.frames.len() >= 2,
        spec_step(vm).outcome is Ok,
    ensures
        poised(main, heights, spec_step(vm).vm),
{
    let frame = vm.frames.last();
    let top = vm.frames.len() - 1;
    if frame.ip >= frame.function.code.len() {
        let after = finish_call(vm, ValueView::Nil).vm;
        assert(after.frames == vm.frames.drop_last());
        assert(after.frames[0] == vm.frames[0]);
        if vm.frames.len() > 2 {
            assert(after.frames[1] == vm.frames[1]);
        }
    } else {
        let code = frame.function.code[frame.ip as int];
        let vm1 = with_ip(vm, (frame.ip + 1) as usize);
        assert(vm1.frames.len() == vm.frames.len());
        assert(vm1.frames[0] == vm.frames[0]);
        assert(vm1.frames[1].fp == vm.frames[1].fp);
        assert(vm1.stack == vm.stack);
        lemma_execute_frames(vm1, code);
    }
}

/// What an instruction that goes through does to the frames: it leaves
/// those below the top one as they are and the frame pointer of the top
/// one as it is, unless it returns from the top one; then the stack is one
/// higher than that frame sat.
proof fn lemma_execute_frames(vm: VmView, code: CodeView)
    requires
        vm.frames.len() >= 2,
        execute(vm, code).outcome is Ok,
    ensures
        ({
            let after = execute(vm, code).vm;
            if code is Return {
                &&& after.frames == vm.frames.drop_last()
                &&& after.stack.len() == vm.frames.last().fp + 1
            } else {
                &&& after.frames.len() >= vm.frames.len()
                &&& forall|k: int| 0 <= k < vm.frames.len() - 1 ==> after.frames[k] == vm.frames[k]
                &&& after.frames[vm.frames.len() - 1].fp == vm.frames.last().fp
            }
        }),
{
    match code {
        CodeView::Add
        | CodeView::Subtract
        | CodeView::Multiply
        | CodeView::Divide
        | CodeView::Equal
        | CodeView::NotEqual
        | CodeView::Greater
        | CodeView::GreaterEqual
        | CodeView::Less
        | CodeView::LessEqual => {
            lemma_binary_height(vm, code);
        },
        _ => {},
    }
}

/// A step that goes through keeps the machine poised.
pub proof fn lemma_step_poised(main: FunctionView, heights: Seq<int>, vm: VmView)
    requires
        consistent(main.code, heights, Set::empty()),
        main.code.len() <= usize::MAX,
        poised(main, heights, vm),
        spec_step(vm).outcome is Ok,
    ensures
        poised(main, heights, spec_step(vm).vm),
{
    if vm.frames.len() == 1 {
        lemma_main_step(main, heights, vm);
    } else if vm.frames.len() >= 2 {
        lemma_inner_step(main, heights, vm);
    }
}

/// A run that does not fail keeps the machine poised.
pub proof fn lemma_run_poised(main: FunctionView, heights: Seq<int>, vm: VmView, steps: nat)
    requires
        consistent(main.code, heights, Set::empty()),
        main.code.len() <= usize::MAX,
        poised(main, heights, vm),
        spec_run(vm, steps).outcome is Ok,
    ensures
        poised(main, heights, spec_run(vm, steps).vm),
    decreases steps,
{
    if steps > 0 {
        let step = spec_step(vm);
        match step.outcome {
            Ok(ControlFlow::Next) => {
                lemma_step_poised(main, heights, vm);
                lemma_run_poised(main, heights, step.vm, (steps - 1) as nat);
            },
            Ok(ControlFlow::Done) => {
                lemma_step_poised(main, heights, vm);
            },
            Err(_) => {},
        }
    }
}

/// Stack balance. Whenever a run of a valid program has not failed and
/// stands in the main function between two statements of the program, the
/// stack is as high as it was at the start: it holds the main function's
/// closure and nothing else. So every top-level statement leaves the stack
/// as high as it found it.
pub proof fn lemma_stack_balance(stmts: Seq<StmtView>, steps: nat, k: nat)
    requires
        valid_program(stmts),
        k <= stmts.len(),
    ensures
        ({
            let run = spec_run(initial_state(compile_program_spec(stmts)), steps);
            run.outcome is Ok && run.vm.frames.len() == 1 && run.vm.frames[0].ip == boundary(
                stmts,
                k,
            ) ==> run.vm.stack.len() == initial_state(compile_program_spec(stmts)).stack.len()
        }),
{
    let main = compile_program_spec(stmts);
    let heights = lemma_program(stmts, stmts.len());
    assert(boundary(stmts, 0) == 0) by {
        assert(compile_stmts_spec(start(), stmts, 0) == start());
    }
    let vm = initial_state(main);
    assert(poised(main, heights, vm));
    if spec_run(vm, steps).outcome is Ok {
        lemma_run_poised(main, heights, vm, steps);
    }
}

} // verus!
