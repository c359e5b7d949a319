//! The stack discipline of compiled code.
//!
//! A function's code keeps the discipline if every position in it can be
//! given a height, the number of stack slots that the frame holds there,
//! such that every instruction leads from the height of its position to
//! the height of each position that it can pass control to. Such code has
//! its jumps in range, and whenever control comes back to a position the
//! frame is as high as it was there before.
use crate::bytecode::{CodeView, FunctionView};
use vstd::prelude::*;

verus! {

/// By how much an instruction that passes control to the next one changes
/// the height of the stack.
pub open spec fn effect(code: CodeView) -> int {
    match code {
        CodeView::Constant(_)
        | CodeView::True
        | CodeView::False
        | CodeView::Nil
        | CodeView::String(_)
        | CodeView::ReadGlobalVariable { .. }
        | CodeView::ReadLocalVariable { .. }
        | CodeView::ReadUpvalue { .. }
        | CodeView::Closure { .. } => 1,
        CodeView::Add
        | CodeView::Subtract
        | CodeView::Multiply
        | CodeView::Divide
        | CodeView::Equal
        | CodeView::NotEqual
        | CodeView::Greater
        | CodeView::GreaterEqual
        | CodeView::Less
        | CodeView::LessEqual
        | CodeView::Print
        | CodeView::Pop
        | CodeView::GlobalVarDeclaration { .. }
        | CodeView::CloseUpvalue => -1,
        CodeView::Call { arity } => -(arity as int),
        _ => 0,
    }
}

/// Whether instruction `i` of `code` fits the heights: it leads to the
/// height of the next position, and a jump leads to a position in range
/// that is as high as its own. A jump whose index is in `pending` has no
/// target yet.
pub open spec fn instruction_fits(
    code: Seq<CodeView>,
    heights: Seq<int>,
    pending: Set<int>,
    i: int,
) -> bool {
    match code[i] {
        CodeView::Jump(target) => pending.contains(i) || (target <= code.len() && heights[target as int] == heights[i]),
        CodeView::JumpIfFalse(target) => heights[i + 1] == heights[i] && (pending.contains(i) || (
        target <= code.len() && heights[target as int] == heights[i])),
        CodeView::Return => true,
        other => heights[i + 1] == heights[i] + effect(other),
    }
}

/// Whether `code` keeps the discipline with the heights `heights`, but for
/// the jumps in `pending`.
pub open spec fn consistent(code: Seq<CodeView>, heights: Seq<int>, pending: Set<int>) -> bool {
    &&& heights.len() == code.len() + 1
    &&& forall|i: int| 0 <= i < code.len() ==> #[trigger] instruction_fits(code, heights, pending, i)
}

/// Whether an instruction of a chunk of `len` instructions is well formed:
/// a jump has its target in `0..=len`, and a closure captures as many
/// variables as its template says and has a well-formed template.
pub open spec fn instruction_ok(code: CodeView, len: nat) -> bool
    decreases code, 0nat,
{
    match code {
        CodeView::Jump(target) => target <= len,
        CodeView::JumpIfFalse(target) => target <= len,
        CodeView::Closure { function, upvalues } => upvalues.len() == function.upvalue_count
            && first_ok(function.code, function.code.len(), function.code.len()),
        _ => true,
    }
}

/// Whether the first `n` instructions of `code`, a part of a chunk of `len`
/// instructions, are well formed.
pub open spec fn first_ok(code: Seq<CodeView>, n: nat, len: nat) -> bool
    decreases code, n,
{
    n == 0 || (n <= code.len() && instruction_ok(code[n - 1], len) && first_ok(
        code,
        (n - 1) as nat,
        len,
    ))
}

/// Whether every instruction of a template, and of every template in it,
/// is well formed.
pub open spec fn function_ok(function: FunctionView) -> bool {
    first_ok(function.code, function.code.len(), function.code.len())
}

/// The first `n` instructions are well formed if each of them is.
pub proof fn lemma_first_ok(code: Seq<CodeView>, n: nat, len: nat)
    requires
        n <= code.len(),
    ensures
        first_ok(code, n, len) <==> forall|i: int|
            0 <= i < n ==> #[trigger] instruction_ok(code[i], len),
    decreases n,
{
    if n > 0 {
        lemma_first_ok(code, (n - 1) as nat, len);
        assert(first_ok(code, n, len) == (instruction_ok(code[n - 1], len) && first_ok(
            code,
            (n - 1) as nat,
            len,
        )));
        if first_ok(code, n, len) {
            assert forall|i: int| 0 <= i < n implies #[trigger] instruction_ok(code[i], len) by {
                if i < n - 1 {
                } else {
                    assert(code[i] == code[n - 1]);
                }
            }
        }
        if forall|i: int| 0 <= i < n ==> #[trigger] instruction_ok(code[i], len) {
            assert(instruction_ok(code[n - 1], len));
            assert(first_ok(code, (n - 1) as nat, len));
        }
    }
}

/// `later` starts with `earlier`.
pub open spec fn extends(earlier: Seq<int>, later: Seq<int>) -> bool {
    &&& earlier.len() <= later.len()
    &&& forall|i: int| 0 <= i < earlier.len() ==> later[i] == earlier[i]
}

/// Whether every instruction of `code` is well formed.
pub open spec fn code_ok(code: Seq<CodeView>) -> bool {
    first_ok(code, code.len(), code.len())
}

/// An instruction that is well formed in a chunk stays so when the chunk
/// grows.
pub proof fn lemma_instruction_ok_grows(code: CodeView, len: nat, longer: nat)
    requires
        instruction_ok(code, len),
        len <= longer,
    ensures
        instruction_ok(code, longer),
{
}

/// Well-formed code with one more well-formed instruction is well formed.
pub proof fn lemma_code_ok_push(code: Seq<CodeView>, next: CodeView)
    requires
        code_ok(code),
        instruction_ok(next, code.len() + 1),
    ensures
        code_ok(code.push(next)),
{
    let longer = code.push(next);
    lemma_first_ok(code, code.len(), code.len());
    assert forall|i: int| 0 <= i < longer.len() implies #[trigger] instruction_ok(
        longer[i],
        longer.len(),
    ) by {
        if i < code.len() {
            assert(instruction_ok(code[i], code.len()));
            lemma_instruction_ok_grows(code[i], code.len(), longer.len());
        }
    }
    lemma_first_ok(longer, longer.len(), longer.len());
}

/// Well-formed code with one instruction replaced by a well-formed one is
/// well formed.
pub proof fn lemma_code_ok_update(code: Seq<CodeView>, at: int, next: CodeView)
    requires
        code_ok(code),
        0 <= at < code.len(),
        instruction_ok(next, code.len()),
    ensures
        code_ok(code.update(at, next)),
{
    let changed = code.update(at, next);
    lemma_first_ok(code, code.len(), code.len());
    assert forall|i: int| 0 <= i < changed.len() implies #[trigger] instruction_ok(
        changed[i],
        changed.len(),
    ) by {
        if i != at {
            assert(instruction_ok(code[i], code.len()));
        }
    }
    lemma_first_ok(changed, changed.len(), changed.len());
}

} // verus!
