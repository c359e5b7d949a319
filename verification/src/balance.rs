//! Compiled code keeps the stack discipline.
//!
//! The lemmas here follow the compiler through a program. They show that
//! each construct leaves the code that was there before as it was, and
//! that its own code fits heights on which the construct has the effect
//! that it should have: an expression raises the stack by one, a statement
//! leaves it as high as the locals.
use crate::bytecode::{CodeView, Upvalue};
use crate::compile_spec::{
    access, after_scope_spec, before_scope_spec, binary_code, capture, compile_expr_spec,
    compile_exprs_spec, compile_function_spec, compile_optional_spec, compile_program_spec,
    compile_stmt_spec, compile_stmts_spec, declare, emit, find_local, function_scope,
    lemma_find_local_in_range, number_code, patch, position, record, resolve_upvalue_spec, set_top,
    template, unary_code, unwind, LocalView, ScopeView,
};
use crate::discipline::{consistent, effect, extends, instruction_fits};
use crate::syntax::{
    expr_view, optional_expr_view, stmt_view, stmts_view, Expr, ExprView, Stmt, StmtView,
};
use vstd::prelude::*;

verus! {

/// The same locals, but for their captured marks.
pub open spec fn same_shape(a: Seq<LocalView>, b: Seq<LocalView>) -> bool {
    &&& a.len() == b.len()
    &&& forall|i: int|
        0 <= i < a.len() ==> (#[trigger] a[i]).name == b[i].name && a[i].depth == b[i].depth
}

/// `later` comes from `earlier` by compiling something in the current
/// function: the enclosing functions have the code, the depth and the
/// locals that they had, and the current one has the depth that it had and
/// no less code.
pub open spec fn settled(earlier: Seq<ScopeView>, later: Seq<ScopeView>) -> bool {
    &&& later.len() == earlier.len()
    &&& earlier.len() > 0
    &&& forall|k: int|
        0 <= k < earlier.len() - 1 ==> (#[trigger] later[k]).code == earlier[k].code
            && later[k].scope_depth == earlier[k].scope_depth && same_shape(
            earlier[k].locals,
            later[k].locals,
        )
    &&& later.last().scope_depth == earlier.last().scope_depth
    &&& earlier.last().code.len() <= later.last().code.len()
}

/// The current function of `later` starts with all the code that it had
/// in `earlier`.
pub open spec fn kept(earlier: Seq<ScopeView>, later: Seq<ScopeView>) -> bool {
    later.last().code.take(earlier.last().code.len() as int) == earlier.last().code
}

/// No local is deeper than the current depth.
pub open spec fn depths_ok(scope: ScopeView) -> bool {
    forall|i: int|
        0 <= i < scope.locals.len() ==> (#[trigger] scope.locals[i]).depth <= scope.scope_depth
}

/// What a statement does to the locals of the current function: those that
/// were there keep their names and depths, and those that are new are of
/// the current depth. At depth 0 there are no new ones.
pub open spec fn declares(earlier: ScopeView, later: ScopeView) -> bool {
    &&& earlier.locals.len() <= later.locals.len()
    &&& same_shape(earlier.locals, later.locals.take(earlier.locals.len() as int))
    &&& forall|i: int|
        earlier.locals.len() <= i < later.locals.len() ==> (#[trigger] later.locals[i]).depth
            == earlier.scope_depth
    &&& earlier.scope_depth == 0 ==> later.locals.len() == earlier.locals.len()
}

/// Whether the current function keeps the discipline with `heights`, but
/// for the jumps in `pending`, and its code is not longer than an index
/// can say.
pub open spec fn held(c: Seq<ScopeView>, heights: Seq<int>, pending: Set<int>) -> bool {
    &&& c.len() > 0
    &&& consistent(c.last().code, heights, pending)
    &&& forall|p: int| pending.contains(p) ==> 0 <= p < c.last().code.len()
    &&& c.last().code.len() <= usize::MAX
}

/// The code of the current function is not longer than an index can say.
pub open spec fn bounded(c: Seq<ScopeView>) -> bool {
    c.last().code.len() <= usize::MAX
}

pub proof fn lemma_same_shape_trans(a: Seq<LocalView>, b: Seq<LocalView>, c: Seq<LocalView>)
    requires
        same_shape(a, b),
        same_shape(b, c),
    ensures
        same_shape(a, c),
{
    assert forall|i: int| 0 <= i < a.len() implies (#[trigger] a[i]).name == c[i].name
        && a[i].depth == c[i].depth by {
        assert(b[i].name == a[i].name);
    }
}

pub proof fn lemma_settled_refl(c: Seq<ScopeView>)
    requires
        c.len() > 0,
    ensures
        settled(c, c),
        kept(c, c),
{
    assert(c.last().code.take(c.last().code.len() as int) =~= c.last().code);
}

pub proof fn lemma_settled_trans(a: Seq<ScopeView>, b: Seq<ScopeView>, c: Seq<ScopeView>)
    requires
        settled(a, b),
        settled(b, c),
    ensures
        settled(a, c),
        kept(a, b) && kept(b, c) ==> kept(a, c),
{
    assert forall|k: int| 0 <= k < a.len() - 1 implies (#[trigger] c[k]).code == a[k].code
        && c[k].scope_depth == a[k].scope_depth && same_shape(a[k].locals, c[k].locals) by {
        assert(b[k].code == a[k].code);
        lemma_same_shape_trans(a[k].locals, b[k].locals, c[k].locals);
    }
    if kept(a, b) && kept(b, c) {
        assert(c.last().code.take(a.last().code.len() as int) =~= a.last().code) by {
            assert forall|i: int| 0 <= i < a.last().code.len() implies c.last().code[i]
                == a.last().code[i] by {
                assert(b.last().code.take(a.last().code.len() as int)[i] == a.last().code[i]);
                assert(c.last().code.take(b.last().code.len() as int)[i] == b.last().code[i]);
            }
        }
    }
}

pub proof fn lemma_declares_refl(scope: ScopeView, later: ScopeView)
    requires
        same_shape(scope.locals, later.locals),
    ensures
        declares(scope, later),
{
    assert(later.locals.take(scope.locals.len() as int) =~= later.locals);
}

pub proof fn lemma_declares_trans(a: ScopeView, b: ScopeView, c: ScopeView)
    requires
        declares(a, b),
        declares(b, c),
        b.scope_depth == a.scope_depth,
    ensures
        declares(a, c),
{
    let n = a.locals.len() as int;
    let m = b.locals.len() as int;
    assert forall|i: int| 0 <= i < n implies (#[trigger] a.locals[i]).name == c.locals.take(n)[i].name
        && a.locals[i].depth == c.locals.take(n)[i].depth by {
        assert(b.locals.take(n)[i].name == a.locals[i].name);
        assert(c.locals.take(m)[i].name == b.locals[i].name);
    }
    assert forall|i: int| n <= i < c.locals.len() implies (#[trigger] c.locals[i]).depth
        == a.scope_depth by {
        if i < m {
            assert(c.locals.take(m)[i].depth == b.locals[i].depth);
        }
    }
}

/// A change of the current function alone, which keeps its depth and
/// loses no code, settles the state.
pub proof fn lemma_settled_top(c: Seq<ScopeView>, scope: ScopeView)
    requires
        c.len() > 0,
        scope.scope_depth == c.last().scope_depth,
        c.last().code.len() <= scope.code.len(),
    ensures
        settled(c, set_top(c, scope)),
{
    let later = set_top(c, scope);
    assert forall|k: int| 0 <= k < c.len() - 1 implies (#[trigger] later[k]).code == c[k].code
        && later[k].scope_depth == c[k].scope_depth && same_shape(c[k].locals, later[k].locals) by {
        assert(later[k] == c[k]);
    }
}

/// Emitting settles the state and leaves the locals alone.
pub proof fn lemma_emit_settles(c: Seq<ScopeView>, code: CodeView)
    requires
        c.len() > 0,
    ensures
        settled(c, emit(c, code)),
        kept(c, emit(c, code)),
        emit(c, code).last().locals == c.last().locals,
        emit(c, code).last().code == c.last().code.push(code),
{
    lemma_settled_top(c, emit(c, code).last());
    assert(c.last().code.push(code).take(c.last().code.len() as int) =~= c.last().code);
}

/// Patching settles the state and leaves the locals alone.
pub proof fn lemma_patch_settles(c: Seq<ScopeView>, at: usize)
    requires
        c.len() > 0,
    ensures
        settled(c, patch(c, at)),
        patch(c, at).last().locals == c.last().locals,
        patch(c, at).last().code.len() == c.last().code.len(),
        forall|i: int|
            0 <= i < c.last().code.len() && i != at ==> (#[trigger] patch(c, at).last().code[i])
                == c.last().code[i],
{
    lemma_settled_refl(c);
    lemma_settled_top(c, patch(c, at).last());
    assert(set_top(c, c.last()) =~= c);
}

/// Emitting an instruction that fits the heights keeps what holds.
pub proof fn lemma_emit(
    c: Seq<ScopeView>,
    heights: Seq<int>,
    pending: Set<int>,
    code: CodeView,
    height: int,
    still: Set<int>,
)
    requires
        held(c, heights, pending),
        c.last().code.len() < usize::MAX,
        still == pending || still == pending.insert(c.last().code.len() as int),
        instruction_fits(
            c.last().code.push(code),
            heights.push(height),
            still,
            c.last().code.len() as int,
        ),
    ensures
        held(emit(c, code), heights.push(height), still),
        extends(heights, heights.push(height)),
{
    let old_code = c.last().code;
    let new_code = old_code.push(code);
    let new_heights = heights.push(height);
    assert forall|i: int| 0 <= i < new_code.len() implies #[trigger] instruction_fits(
        new_code,
        new_heights,
        still,
        i,
    ) by {
        if i < old_code.len() {
            assert(instruction_fits(old_code, heights, pending, i));
            assert(new_code[i] == old_code[i]);
        }
    }
}

/// Giving a pending jump the current position as its target, which is as
/// high as the jump, keeps what holds; the jump is pending no more.
pub proof fn lemma_patch(c: Seq<ScopeView>, heights: Seq<int>, pending: Set<int>, at: usize)
    requires
        held(c, heights, pending),
        pending.contains(at as int),
        c.last().code[at as int] is Jump || c.last().code[at as int] is JumpIfFalse,
        heights.last() == heights[at as int],
    ensures
        held(patch(c, at), heights, pending.remove(at as int)),
{
    let old_code = c.last().code;
    let target = position(c);
    let patched = match old_code[at as int] {
        CodeView::Jump(_) => CodeView::Jump(target),
        _ => CodeView::JumpIfFalse(target),
    };
    let new_code = old_code.update(at as int, patched);
    assert(patch(c, at).last().code == new_code);
    assert forall|i: int| 0 <= i < new_code.len() implies #[trigger] instruction_fits(
        new_code,
        heights,
        pending.remove(at as int),
        i,
    ) by {
        assert(instruction_fits(old_code, heights, pending, i));
    }
}

/// Looking for a captured variable changes no code, no depth, and no
/// local but in its captured mark; from `level` on it changes no local at
/// all.
pub proof fn lemma_resolve(c: Seq<ScopeView>, level: int, name: Seq<char>)
    ensures
        ({
            let c1 = resolve_upvalue_spec(c, level, name).0;
            &&& c1.len() == c.len()
            &&& forall|k: int|
                0 <= k < c.len() ==> (#[trigger] c1[k]).code == c[k].code && c1[k].scope_depth
                    == c[k].scope_depth && same_shape(c[k].locals, c1[k].locals)
            &&& forall|k: int| level <= k < c.len() && 0 <= k ==> (#[trigger] c1[k]).locals == c[k].locals
        }),
    decreases level,
{
    if level <= 0 || level >= c.len() {
    } else {
        match find_local(c[level - 1].locals, name) {
            Some(slot) => {
                lemma_find_local_in_range(c[level - 1].locals, name);
                let captured = capture(c, level, slot);
                let c1 = record(captured, level, Upvalue { index: slot, is_local: true }).0;
                assert forall|k: int| 0 <= k < c.len() implies (#[trigger] c1[k]).code == c[k].code
                    && c1[k].scope_depth == c[k].scope_depth && same_shape(
                    c[k].locals,
                    c1[k].locals,
                ) by {}
            },
            None => {
                lemma_resolve(c, level - 1, name);
                let (c0, outer) = resolve_upvalue_spec(c, level - 1, name);
                match outer {
                    Some(index) => {
                        let c1 = record(c0, level, Upvalue { index, is_local: false }).0;
                        assert forall|k: int| 0 <= k < c.len() implies (#[trigger] c1[k]).code
                            == c[k].code && c1[k].scope_depth == c[k].scope_depth && same_shape(
                            c[k].locals,
                            c1[k].locals,
                        ) by {
                            assert(c0[k].code == c[k].code);
                        }
                        assert forall|k: int| level <= k < c.len() && 0 <= k implies (
                        #[trigger] c1[k]).locals == c[k].locals by {
                            assert(c0[k].locals == c[k].locals);
                        }
                    },
                    None => {},
                }
            },
        }
    }
}

/// Reading a variable raises the stack by one, writing one leaves it as
/// high as it is; neither touches a local of the current function.
pub proof fn lemma_access(
    c: Seq<ScopeView>,
    heights: Seq<int>,
    pending: Set<int>,
    name: Seq<char>,
    write: bool,
) -> (after: Seq<int>)
    requires
        c.len() > 0,
    ensures
        ({
            let c2 = access(c, name, write);
            &&& settled(c, c2)
            &&& kept(c, c2)
            &&& c2.last().locals == c.last().locals
            &&& c2.last().code.len() == c.last().code.len() + 1
            &&& held(c, heights, pending) && bounded(c2) ==> held(c2, after, pending) && extends(
                heights,
                after,
            ) && after.last() == heights.last() + if write {
                0int
            } else {
                1int
            }
        }),
{
    let height = heights.last() + if write {
        0int
    } else {
        1int
    };
    let c2 = access(c, name, write);
    match find_local(c.last().locals, name) {
        Some(slot) => {
            let code = if write {
                CodeView::WriteLocalVariable { index_in_stack: slot }
            } else {
                CodeView::ReadLocalVariable { index_in_stack: slot }
            };
            lemma_emit_settles(c, code);
            if held(c, heights, pending) && bounded(c2) {
                lemma_emit(c, heights, pending, code, height, pending);
            }
        },
        None => {
            lemma_resolve(c, c.len() - 1, name);
            let (c1, found) = resolve_upvalue_spec(c, c.len() - 1, name);
            let code = match found {
                Some(index) => if write {
                    CodeView::WriteUpvalue { index }
                } else {
                    CodeView::ReadUpvalue { index }
                },
                None => if write {
                    CodeView::WriteGlobalVariable { name }
                } else {
                    CodeView::ReadGlobalVariable { name }
                },
            };
            assert(c2 == emit(c1, code));
            lemma_emit_settles(c1, code);
            assert(settled(c, c1));
            assert(c1.last().code == c.last().code);
            assert(c1.last().locals == c.last().locals);
            lemma_settled_trans(c, c1, c2);
            if held(c, heights, pending) && bounded(c2) {
                assert(held(c1, heights, pending));
                lemma_emit(c1, heights, pending, code, height, pending);
            }
        },
    }
    heights.push(height)
}

/// Whether no call in an expression has more arguments than an instruction
/// can say.
pub open spec fn valid_expr(expr: ExprView) -> bool
    decreases expr, 0nat,
{
    match expr {
        ExprView::BinaryOp(left, _, right) => valid_expr(*left) && valid_expr(*right),
        ExprView::UnaryOp(_, operand) => valid_expr(*operand),
        ExprView::Parenthesized(inner) => valid_expr(*inner),
        ExprView::Assign { name, value } => valid_expr(*value),
        ExprView::LogicalAnd(left, right) => valid_expr(*left) && valid_expr(*right),
        ExprView::LogicalOr(left, right) => valid_expr(*left) && valid_expr(*right),
        ExprView::Call { callee, arguments } => valid_expr(*callee) && arguments.len()
            <= usize::MAX && valid_exprs(arguments, arguments.len()),
        _ => true,
    }
}

/// Whether the first `n` of `exprs` are valid.
pub open spec fn valid_exprs(exprs: Seq<ExprView>, n: nat) -> bool
    decreases exprs, n,
{
    n == 0 || (n <= exprs.len() && valid_expr(exprs[n - 1]) && valid_exprs(exprs, (n - 1) as nat))
}

/// What the lemmas say of an expression: its code settles the state and
/// touches no local of the current function; and where the discipline
/// held before, it holds after, with the stack one higher.
pub open spec fn raises(
    c: Seq<ScopeView>,
    heights: Seq<int>,
    pending: Set<int>,
    c2: Seq<ScopeView>,
    after: Seq<int>,
    by: int,
) -> bool {
    &&& settled(c, c2)
    &&& c2.last().locals == c.last().locals
    &&& held(c, heights, pending) && bounded(c2) ==> kept(c, c2) && held(c2, after, pending)
        && extends(heights, after) && after.last() == heights.last() + by
}

/// `raises` for an expression that is compiled as two parts.
pub proof fn lemma_raises_trans(
    c: Seq<ScopeView>,
    heights: Seq<int>,
    pending: Set<int>,
    c1: Seq<ScopeView>,
    middle: Seq<int>,
    by1: int,
    c2: Seq<ScopeView>,
    after: Seq<int>,
    by2: int,
)
    requires
        raises(c, heights, pending, c1, middle, by1),
        raises(c1, middle, pending, c2, after, by2),
    ensures
        raises(c, heights, pending, c2, after, by1 + by2),
{
    lemma_settled_trans(c, c1, c2);
}

/// `raises` for code that ends with one more instruction with the usual
/// effect.
pub proof fn lemma_raises_emit(
    c: Seq<ScopeView>,
    heights: Seq<int>,
    pending: Set<int>,
    c1: Seq<ScopeView>,
    middle: Seq<int>,
    by: int,
    code: CodeView,
)
    requires
        raises(c, heights, pending, c1, middle, by),
        !(code is Jump) && !(code is JumpIfFalse) && !(code is Return),
    ensures
        raises(
            c,
            heights,
            pending,
            emit(c1, code),
            middle.push(middle.last() + effect(code)),
            by + effect(code),
        ),
{
    let c2 = emit(c1, code);
    lemma_emit_settles(c1, code);
    lemma_settled_trans(c, c1, c2);
    if held(c, heights, pending) && bounded(c2) {
        lemma_emit(c1, middle, pending, code, middle.last() + effect(code), pending);
    }
}

/// An expression raises the stack by one.
pub proof fn lemma_expr(c: Seq<ScopeView>, heights: Seq<int>, pending: Set<int>, expr: ExprView) -> (after:
    Seq<int>)
    requires
        c.len() > 0,
        valid_expr(expr),
    ensures
        raises(c, heights, pending, compile_expr_spec(c, expr), after, 1),
    decreases expr, 1nat,
{
    lemma_settled_refl(c);
    assert(extends(heights, heights));
    match expr {
        ExprView::NumberLiteral(text) => {
            lemma_raises_emit(c, heights, pending, c, heights, 0, number_code(text));
            heights.push(heights.last() + 1)
        },
        ExprView::StringLiteral(text) => {
            lemma_raises_emit(c, heights, pending, c, heights, 0, CodeView::String(text));
            heights.push(heights.last() + 1)
        },
        ExprView::BooleanLiteral(b) => {
            let code = if b {
                CodeView::True
            } else {
                CodeView::False
            };
            lemma_raises_emit(c, heights, pending, c, heights, 0, code);
            heights.push(heights.last() + 1)
        },
        ExprView::NilLiteral => {
            lemma_raises_emit(c, heights, pending, c, heights, 0, CodeView::Nil);
            heights.push(heights.last() + 1)
        },
        ExprView::BinaryOp(left, op, right) => {
            let h1 = lemma_expr(c, heights, pending, *left);
            let c1 = compile_expr_spec(c, *left);
            let h2 = lemma_expr(c1, h1, pending, *right);
            let c2 = compile_expr_spec(c1, *right);
            lemma_raises_trans(c, heights, pending, c1, h1, 1, c2, h2, 1);
            let code = match binary_code(op) {
                Some(code) => code,
                None => CodeView::Pop,
            };
            lemma_raises_emit(c, heights, pending, c2, h2, 2, code);
            h2.push(h2.last() - 1)
        },
        ExprView::UnaryOp(op, operand) => {
            let h1 = lemma_expr(c, heights, pending, *operand);
            let c1 = compile_expr_spec(c, *operand);
            match unary_code(op) {
                Some(code) => {
                    lemma_raises_emit(c, heights, pending, c1, h1, 1, code);
                    h1.push(h1.last())
                },
                None => h1,
            }
        },
        ExprView::Parenthesized(inner) => lemma_expr(c, heights, pending, *inner),
        ExprView::Variable(name) => lemma_access(c, heights, pending, name, false),
        ExprView::Assign { name, value } => {
            let h1 = lemma_expr(c, heights, pending, *value);
            let c1 = compile_expr_spec(c, *value);
            let h2 = lemma_access(c1, h1, pending, name, true);
            lemma_raises_trans(c, heights, pending, c1, h1, 1, access(c1, name, true), h2, 0);
            h2
        },
        ExprView::LogicalAnd(left, right) => lemma_and(c, heights, pending, expr),
        ExprView::LogicalOr(left, right) => lemma_or(c, heights, pending, expr),
        ExprView::Call { callee, arguments } => {
            let h1 = lemma_expr(c, heights, pending, *callee);
            let c1 = compile_expr_spec(c, *callee);
            let h2 = lemma_exprs(c1, h1, pending, arguments, arguments.len());
            let c2 = compile_exprs_spec(c1, arguments, arguments.len());
            lemma_raises_trans(c, heights, pending, c1, h1, 1, c2, h2, arguments.len() as int);
            lemma_raises_emit(
                c,
                heights,
                pending,
                c2,
                h2,
                1 + arguments.len() as int,
                CodeView::Call { arity: arguments.len() as usize },
            );
            h2.push(h2.last() - arguments.len())
        },
    }
}

/// The first `n` of `exprs` raise the stack by `n`.
pub proof fn lemma_exprs(
    c: Seq<ScopeView>,
    heights: Seq<int>,
    pending: Set<int>,
    exprs: Seq<ExprView>,
    n: nat,
) -> (after: Seq<int>)
    requires
        c.len() > 0,
        n <= exprs.len(),
        valid_exprs(exprs, n),
    ensures
        raises(c, heights, pending, compile_exprs_spec(c, exprs, n), after, n as int),
    decreases exprs, n,
{
    if n == 0 {
        lemma_settled_refl(c);
        assert(extends(heights, heights));
        heights
    } else {
        let h1 = lemma_exprs(c, heights, pending, exprs, (n - 1) as nat);
        let c1 = compile_exprs_spec(c, exprs, (n - 1) as nat);
        let h2 = lemma_expr(c1, h1, pending, exprs[n - 1]);
        lemma_raises_trans(
            c,
            heights,
            pending,
            c1,
            h1,
            n - 1,
            compile_expr_spec(c1, exprs[n - 1]),
            h2,
            1,
        );
        h2
    }
}

/// `left and right` raises the stack by one.
pub proof fn lemma_and(c: Seq<ScopeView>, heights: Seq<int>, pending: Set<int>, expr: ExprView) -> (after:
    Seq<int>)
    requires
        c.len() > 0,
        valid_expr(expr),
        expr is LogicalAnd,
    ensures
        raises(c, heights, pending, compile_expr_spec(c, expr), after, 1),
    decreases expr, 0nat,
{
    let left = *expr->LogicalAnd_0;
    let right = *expr->LogicalAnd_1;
    let h1 = lemma_expr(c, heights, pending, left);
    let c1 = compile_expr_spec(c, left);
    let skip = position(c1);
    let at = c1.last().code.len() as int;
    let waiting = pending.insert(at);
    let c2 = emit(c1, CodeView::JumpIfFalse(0));
    let h2 = h1.push(h1.last());
    let c3 = emit(c2, CodeView::Pop);
    let h3 = h2.push(h2.last() - 1);
    lemma_emit_settles(c1, CodeView::JumpIfFalse(0));
    lemma_emit_settles(c2, CodeView::Pop);
    let h4 = lemma_expr(c3, h3, waiting, right);
    let c4 = compile_expr_spec(c3, right);
    let c5 = patch(c4, skip);
    lemma_patch_settles(c4, skip);
    lemma_settled_trans(c, c1, c2);
    lemma_settled_trans(c, c2, c3);
    lemma_settled_trans(c, c3, c4);
    lemma_settled_trans(c, c4, c5);
    if held(c, heights, pending) && bounded(c5) {
        lemma_emit(c1, h1, pending, CodeView::JumpIfFalse(0), h1.last(), waiting);
        lemma_emit(c2, h2, waiting, CodeView::Pop, h2.last() - 1, waiting);
        assert(c4.last().code.take(c3.last().code.len() as int)[at] == c3.last().code[at]);
        assert(h4[at] == h3[at]);
        lemma_patch(c4, h4, waiting, skip);
        assert(waiting.remove(at) =~= pending);
        assert(c5.last().code.take(c.last().code.len() as int) =~= c.last().code) by {
            assert forall|i: int| 0 <= i < c.last().code.len() implies c5.last().code[i]
                == c.last().code[i] by {
                assert(c1.last().code.take(c.last().code.len() as int)[i] == c.last().code[i]);
                assert(c4.last().code.take(c3.last().code.len() as int)[i] == c3.last().code[i]);
            }
        }
        assert(extends(heights, h4));
    }
    h4
}

/// `left or right` raises the stack by one.
pub proof fn lemma_or(c: Seq<ScopeView>, heights: Seq<int>, pending: Set<int>, expr: ExprView) -> (after:
    Seq<int>)
    requires
        c.len() > 0,
        valid_expr(expr),
        expr is LogicalOr,
    ensures
        raises(c, heights, pending, compile_expr_spec(c, expr), after, 1),
    decreases expr, 0nat,
{
    let left = *expr->LogicalOr_0;
    let right = *expr->LogicalOr_1;
    let h1 = lemma_expr(c, heights, pending, left);
    let c1 = compile_expr_spec(c, left);
    let to_right = position(c1);
    let at = c1.last().code.len() as int;
    let first = pending.insert(at);
    let c2 = emit(c1, CodeView::JumpIfFalse(0));
    let h2 = h1.push(h1.last());
    let to_end = position(c2);
    let both = first.insert(at + 1);
    let c3 = emit(c2, CodeView::Jump(0));
    let h3 = h2.push(h1.last());
    let c4 = patch(c3, to_right);
    let second = both.remove(at);
    let c5 = emit(c4, CodeView::Pop);
    let h5 = h3.push(h3.last() - 1);
    lemma_emit_settles(c1, CodeView::JumpIfFalse(0));
    lemma_emit_settles(c2, CodeView::Jump(0));
    lemma_patch_settles(c3, to_right);
    lemma_emit_settles(c4, CodeView::Pop);
    let h6 = lemma_expr(c5, h5, second, right);
    let c6 = compile_expr_spec(c5, right);
    let c7 = patch(c6, to_end);
    lemma_patch_settles(c6, to_end);
    lemma_settled_trans(c, c1, c2);
    lemma_settled_trans(c, c2, c3);
    lemma_settled_trans(c, c3, c4);
    lemma_settled_trans(c, c4, c5);
    lemma_settled_trans(c, c5, c6);
    lemma_settled_trans(c, c6, c7);
    if held(c, heights, pending) && bounded(c7) {
        lemma_emit(c1, h1, pending, CodeView::JumpIfFalse(0), h1.last(), first);
        lemma_emit(c2, h2, first, CodeView::Jump(0), h1.last(), both);
        lemma_patch(c3, h3, both, to_right);
        assert(c4.last().code[at + 1] == c3.last().code[at + 1]);
        lemma_emit(c4, h3, second, CodeView::Pop, h3.last() - 1, second);
        assert(c6.last().code.take(c5.last().code.len() as int)[at + 1] == c5.last().code[at + 1]);
        assert(h6[at + 1] == h5[at + 1]);
        lemma_patch(c6, h6, second, to_end);
        assert(second.remove(at + 1) =~= pending);
        assert(c7.last().code.take(c.last().code.len() as int) =~= c.last().code) by {
            assert forall|i: int| 0 <= i < c.last().code.len() implies c7.last().code[i]
                == c.last().code[i] by {
                assert(c1.last().code.take(c.last().code.len() as int)[i] == c.last().code[i]);
                assert(c4.last().code[i] == c3.last().code[i]);
                assert(c6.last().code.take(c5.last().code.len() as int)[i] == c5.last().code[i]);
            }
        }
        assert(extends(heights, h6));
    }
    h6
}

/// Whether a statement declares no local of the function that it stands
/// in.
pub open spec fn quiet(stmt: StmtView) -> bool
    decreases stmt,
{
    match stmt {
        StmtView::VariableDeclaration { .. } => false,
        StmtView::FunctionDeclaration(_) => false,
        StmtView::For { initializer, condition, increment, body } => match initializer {
            Some(s) => quiet(*s),
            None => true,
        },
        _ => true,
    }
}

/// Whether an optional expression is valid.
pub open spec fn valid_optional(expr: Option<ExprView>) -> bool {
    match expr {
        Some(e) => valid_expr(e),
        None => true,
    }
}

/// Whether a statement at block depth `depth` is one that this proof
/// speaks of: a branch of an `if` and the body of a loop declare nothing,
/// blocks are not nested deeper than a depth can say, and no call has more
/// arguments than an instruction can say.
pub open spec fn valid_stmt(stmt: StmtView, depth: nat) -> bool
    decreases stmt, 0nat,
{
    match stmt {
        StmtView::Expr(e) => valid_expr(e),
        StmtView::Print(e) => valid_expr(e),
        StmtView::VariableDeclaration { name, initializer } => valid_optional(initializer),
        StmtView::Block(stmts) => depth < usize::MAX && valid_stmts(stmts, stmts.len(), depth + 1),
        StmtView::If { condition, then_branch, else_branch } => valid_expr(condition) && quiet(
            *then_branch,
        ) && valid_stmt(*then_branch, depth) && match else_branch {
            Some(s) => quiet(*s) && valid_stmt(*s, depth),
            None => true,
        },
        StmtView::While { condition, body } => valid_expr(condition) && quiet(*body) && valid_stmt(
            *body,
            depth,
        ),
        StmtView::For { initializer, condition, increment, body } => valid_optional(condition)
            && valid_optional(increment) && quiet(*body) && valid_stmt(*body, depth)
            && match initializer {
            Some(s) => valid_stmt(*s, depth),
            None => true,
        },
        StmtView::FunctionDeclaration(function) => valid_stmts(
            function.body,
            function.body.len(),
            0,
        ),
        StmtView::Return(value) => valid_optional(value),
    }
}

/// Whether the first `n` of `stmts` are valid at depth `depth`.
pub open spec fn valid_stmts(stmts: Seq<StmtView>, n: nat, depth: nat) -> bool
    decreases stmts, n,
{
    n == 0 || (n <= stmts.len() && valid_stmt(stmts[n - 1], depth) && valid_stmts(
        stmts,
        (n - 1) as nat,
        depth,
    ))
}

/// What the lemmas say of a statement: its code settles the state and
/// declares locals in order; and where the discipline held before with the
/// stack as high as the locals, it holds after, with the stack as high as
/// the locals.
pub open spec fn levels(
    c: Seq<ScopeView>,
    heights: Seq<int>,
    pending: Set<int>,
    c2: Seq<ScopeView>,
    after: Seq<int>,
) -> bool {
    &&& settled(c, c2)
    &&& declares(c.last(), c2.last())
    &&& depths_ok(c2.last())
    &&& held(c, heights, pending) && bounded(c2) && heights.last() == c.last().locals.len()
        ==> kept(c, c2) && held(c2, after, pending) && extends(heights, after) && after.last()
        == c2.last().locals.len()
}

/// `levels` for two statements in a row.
pub proof fn lemma_levels_trans(
    c: Seq<ScopeView>,
    heights: Seq<int>,
    pending: Set<int>,
    c1: Seq<ScopeView>,
    middle: Seq<int>,
    c2: Seq<ScopeView>,
    after: Seq<int>,
)
    requires
        levels(c, heights, pending, c1, middle),
        levels(c1, middle, pending, c2, after),
    ensures
        levels(c, heights, pending, c2, after),
{
    lemma_settled_trans(c, c1, c2);
    lemma_declares_trans(c.last(), c1.last(), c2.last());
}

/// Code that leaves the stack as it found it and touches no local is the
/// code of a statement.
pub proof fn lemma_raises_levels(
    c: Seq<ScopeView>,
    heights: Seq<int>,
    pending: Set<int>,
    c2: Seq<ScopeView>,
    after: Seq<int>,
)
    requires
        raises(c, heights, pending, c2, after, 0),
        depths_ok(c.last()),
    ensures
        levels(c, heights, pending, c2, after),
        c2.last().locals == c.last().locals,
{
    lemma_declares_refl(c.last(), c2.last());
}

/// An optional expression, or the instruction that stands for a missing
/// one, raises the stack by one.
pub proof fn lemma_optional(
    c: Seq<ScopeView>,
    heights: Seq<int>,
    pending: Set<int>,
    expr: Option<ExprView>,
    otherwise: CodeView,
) -> (after: Seq<int>)
    requires
        c.len() > 0,
        valid_optional(expr),
        otherwise is Nil || otherwise is True,
    ensures
        raises(c, heights, pending, compile_optional_spec(c, expr, otherwise), after, 1),
{
    match expr {
        Some(e) => lemma_expr(c, heights, pending, e),
        None => {
            lemma_settled_refl(c);
            assert(extends(heights, heights));
            lemma_raises_emit(c, heights, pending, c, heights, 0, otherwise);
            heights.push(heights.last() + 1)
        },
    }
}

/// Binding the value on top of the stack to a new variable leaves the
/// stack as high as the locals.
pub proof fn lemma_declare(
    c: Seq<ScopeView>,
    heights: Seq<int>,
    pending: Set<int>,
    name: Seq<char>,
) -> (after: Seq<int>)
    requires
        c.len() > 0,
        depths_ok(c.last()),
    ensures
        ({
            let c2 = declare(c, name);
            &&& settled(c, c2)
            &&& kept(c, c2)
            &&& declares(c.last(), c2.last())
            &&& depths_ok(c2.last())
            &&& held(c, heights, pending) && bounded(c2) && heights.last() == c.last().locals.len()
                + 1 ==> held(c2, after, pending) && extends(heights, after) && after.last()
                == c2.last().locals.len()
        }),
{
    let c2 = declare(c, name);
    let scope = c.last();
    if scope.scope_depth == 0 {
        let code = CodeView::GlobalVarDeclaration { name };
        lemma_emit_settles(c, code);
        lemma_declares_refl(c.last(), c2.last());
        if held(c, heights, pending) && bounded(c2) {
            lemma_emit(c, heights, pending, code, heights.last() - 1, pending);
        }
        heights.push(heights.last() - 1)
    } else {
        lemma_settled_top(c, c2.last());
        assert(c2.last().code.take(scope.code.len() as int) =~= scope.code);
        assert(c2.last().locals.take(scope.locals.len() as int) =~= scope.locals);
        assert(extends(heights, heights));
        heights
    }
}

/// Discarding the locals that are deeper than the current depth lowers
/// the stack by their number.
pub proof fn lemma_unwind(scope: ScopeView, heights: Seq<int>, pending: Set<int>, from: int) -> (after:
    Seq<int>)
    requires
        0 <= from <= scope.locals.len(),
        forall|i: int| 0 <= i < from ==> (#[trigger] scope.locals[i]).depth <= scope.scope_depth,
        forall|i: int|
            from <= i < scope.locals.len() ==> (#[trigger] scope.locals[i]).depth
                > scope.scope_depth,
    ensures
        ({
            let done = unwind(scope);
            &&& done.locals == scope.locals.take(from)
            &&& done.scope_depth == scope.scope_depth
            &&& done.upvalues == scope.upvalues
            &&& scope.code.len() <= done.code.len()
            &&& done.code.take(scope.code.len() as int) == scope.code
            &&& consistent(scope.code, heights, pending) && (forall|p: int|
                pending.contains(p) ==> 0 <= p < scope.code.len()) && done.code.len()
                <= usize::MAX ==> consistent(done.code, after, pending) && extends(heights, after)
                && after.last() == heights.last() - (scope.locals.len() - from)
        }),
    decreases scope.locals.len(),
{
    if scope.locals.len() > 0 && scope.locals.last().depth > scope.scope_depth {
        assert(from < scope.locals.len());
        let code = if scope.locals.last().is_captured {
            CodeView::CloseUpvalue
        } else {
            CodeView::Pop
        };
        let next = ScopeView {
            locals: scope.locals.drop_last(),
            code: scope.code.push(code),
            ..scope
        };
        let lower = heights.push(heights.last() - 1);
        let after = lemma_unwind(next, lower, pending, from);
        let done = unwind(scope);
        assert(next.locals.take(from) =~= scope.locals.take(from));
        assert(done.code.take(scope.code.len() as int) =~= scope.code) by {
            assert forall|i: int| 0 <= i < scope.code.len() implies done.code[i] == scope.code[i] by {
                assert(done.code.take(next.code.len() as int)[i] == next.code[i]);
            }
        }
        if consistent(scope.code, heights, pending) && (forall|p: int|
            pending.contains(p) ==> 0 <= p < scope.code.len()) && done.code.len() <= usize::MAX {
            assert forall|i: int| 0 <= i < next.code.len() implies #[trigger] instruction_fits(
                next.code,
                lower,
                pending,
                i,
            ) by {
                if i < scope.code.len() {
                    assert(instruction_fits(scope.code, heights, pending, i));
                    assert(next.code[i] == scope.code[i]);
                }
            }
            assert(extends(heights, after));
        }
        after
    } else {
        assert(from == scope.locals.len()) by {
            if from < scope.locals.len() {
                assert(scope.locals[scope.locals.len() - 1].depth > scope.scope_depth);
            }
        }
        assert(scope.locals.take(from) =~= scope.locals);
        assert(scope.code.take(scope.code.len() as int) =~= scope.code);
        assert(extends(heights, heights));
        heights
    }
}

/// What the lemmas say of a statement and of the state that it is
/// compiled in.
pub open spec fn stmt_levels(
    c: Seq<ScopeView>,
    heights: Seq<int>,
    pending: Set<int>,
    stmt: StmtView,
    after: Seq<int>,
) -> bool {
    let c2 = compile_stmt_spec(c, stmt);
    &&& levels(c, heights, pending, c2, after)
    &&& quiet(stmt) ==> same_shape(c.last().locals, c2.last().locals)
}

/// Locals in the shape of others that are not too deep are not too deep.
pub proof fn lemma_shape_depths(earlier: ScopeView, later: ScopeView)
    requires
        depths_ok(earlier),
        same_shape(earlier.locals, later.locals),
        later.scope_depth >= earlier.scope_depth,
    ensures
        depths_ok(later),
{
    assert forall|i: int| 0 <= i < later.locals.len() implies (#[trigger] later.locals[i]).depth
        <= later.scope_depth by {
        assert(earlier.locals[i].depth == later.locals[i].depth);
    }
}

/// The first part of a construct's code is still there after a jump of
/// the construct has been patched.
pub proof fn lemma_kept_patch(c: Seq<ScopeView>, c1: Seq<ScopeView>, at: usize)
    requires
        c.len() > 0,
        settled(c, c1),
        kept(c, c1),
        c.last().code.len() <= at,
    ensures
        kept(c, patch(c1, at)),
{
    lemma_patch_settles(c1, at);
    assert(patch(c1, at).last().code.take(c.last().code.len() as int) =~= c.last().code) by {
        assert forall|i: int| 0 <= i < c.last().code.len() implies patch(c1, at).last().code[i]
            == c.last().code[i] by {
            assert(c1.last().code.take(c.last().code.len() as int)[i] == c.last().code[i]);
        }
    }
}

/// An instruction of the first part of a construct's code is still there.
pub proof fn lemma_kept_index(c: Seq<ScopeView>, c1: Seq<ScopeView>, i: int)
    requires
        kept(c, c1),
        0 <= i < c.last().code.len(),
        c.last().code.len() <= c1.last().code.len(),
    ensures
        c1.last().code[i] == c.last().code[i],
{
    assert(c1.last().code.take(c.last().code.len() as int)[i] == c.last().code[i]);
}

/// A statement leaves the stack as high as the locals.
pub proof fn lemma_stmt(c: Seq<ScopeView>, heights: Seq<int>, pending: Set<int>, stmt: StmtView) -> (after:
    Seq<int>)
    requires
        c.len() > 0,
        depths_ok(c.last()),
        valid_stmt(stmt, c.last().scope_depth as nat),
    ensures
        stmt_levels(c, heights, pending, stmt, after),
    decreases stmt, 1nat,
{
    match stmt {
        StmtView::Expr(e) => {
            let h1 = lemma_expr(c, heights, pending, e);
            let c1 = compile_expr_spec(c, e);
            lemma_raises_emit(c, heights, pending, c1, h1, 1, CodeView::Pop);
            let after = h1.push(h1.last() - 1);
            lemma_raises_levels(c, heights, pending, emit(c1, CodeView::Pop), after);
            lemma_declares_refl(c.last(), c.last());
            after
        },
        StmtView::Print(e) => {
            let h1 = lemma_expr(c, heights, pending, e);
            let c1 = compile_expr_spec(c, e);
            lemma_raises_emit(c, heights, pending, c1, h1, 1, CodeView::Print);
            let after = h1.push(h1.last() - 1);
            lemma_raises_levels(c, heights, pending, emit(c1, CodeView::Print), after);
            after
        },
        StmtView::VariableDeclaration { name, initializer } => {
            let h1 = lemma_optional(c, heights, pending, initializer, CodeView::Nil);
            let c1 = compile_optional_spec(c, initializer, CodeView::Nil);
            let after = lemma_declare(c1, h1, pending, name);
            let c2 = declare(c1, name);
            lemma_settled_trans(c, c1, c2);
            after
        },
        StmtView::Block(stmts) => lemma_block(c, heights, pending, stmt),
        StmtView::If { condition, then_branch, else_branch } => lemma_if(
            c,
            heights,
            pending,
            stmt,
        ),
        StmtView::While { condition, body } => lemma_while(c, heights, pending, stmt),
        StmtView::For { initializer, condition, increment, body } => lemma_for(
            c,
            heights,
            pending,
            stmt,
        ),
        StmtView::FunctionDeclaration(function) => lemma_function(c, heights, pending, stmt),
        StmtView::Return(value) => {
            let h1 = lemma_optional(c, heights, pending, value, CodeView::Nil);
            let c1 = compile_optional_spec(c, value, CodeView::Nil);
            let c2 = emit(c1, CodeView::Return);
            let after = h1.push(h1.last() - 1);
            lemma_emit_settles(c1, CodeView::Return);
            lemma_settled_trans(c, c1, c2);
            lemma_declares_refl(c.last(), c2.last());
            if held(c, heights, pending) && bounded(c2) {
                lemma_emit(c1, h1, pending, CodeView::Return, h1.last() - 1, pending);
            }
            after
        },
    }
}

/// The first `n` of `stmts` leave the stack as high as the locals.
pub proof fn lemma_stmts(
    c: Seq<ScopeView>,
    heights: Seq<int>,
    pending: Set<int>,
    stmts: Seq<StmtView>,
    n: nat,
) -> (after: Seq<int>)
    requires
        c.len() > 0,
        depths_ok(c.last()),
        n <= stmts.len(),
        valid_stmts(stmts, n, c.last().scope_depth as nat),
    ensures
        levels(c, heights, pending, compile_stmts_spec(c, stmts, n), after),
    decreases stmts, n,
{
    if n == 0 {
        lemma_settled_refl(c);
        lemma_declares_refl(c.last(), c.last());
        assert(extends(heights, heights));
        heights
    } else {
        let h1 = lemma_stmts(c, heights, pending, stmts, (n - 1) as nat);
        let c1 = compile_stmts_spec(c, stmts, (n - 1) as nat);
        let h2 = lemma_stmt(c1, h1, pending, stmts[n - 1]);
        lemma_levels_trans(c, heights, pending, c1, h1, compile_stmt_spec(c1, stmts[n - 1]), h2);
        h2
    }
}

/// A block leaves the stack as high as it found it.
pub proof fn lemma_block(c: Seq<ScopeView>, heights: Seq<int>, pending: Set<int>, stmt: StmtView) -> (after:
    Seq<int>)
    requires
        c.len() > 0,
        depths_ok(c.last()),
        valid_stmt(stmt, c.last().scope_depth as nat),
        stmt is Block,
    ensures
        stmt_levels(c, heights, pending, stmt, after),
    decreases stmt, 0nat,
{
    let stmts = stmt->Block_0;
    let from = c.last().locals.len() as int;
    let c1 = before_scope_spec(c);
    assert(c1.last().scope_depth == c.last().scope_depth + 1);
    lemma_shape_depths(c.last(), c1.last());
    let h2 = lemma_stmts(c1, heights, pending, stmts, stmts.len());
    let c2 = compile_stmts_spec(c1, stmts, stmts.len());
    let opened = c2.last();
    let closing = ScopeView { scope_depth: c.last().scope_depth, ..opened };
    assert(after_scope_spec(c2) == set_top(c2, unwind(closing)));
    assert forall|i: int| 0 <= i < from implies (#[trigger] closing.locals[i]).depth
        <= closing.scope_depth by {
        assert(opened.locals.take(from)[i].depth == c1.last().locals[i].depth);
        assert(c.last().locals[i].depth <= c.last().scope_depth);
    }
    let after = lemma_unwind(closing, h2, pending, from);
    let closed = unwind(closing);
    let c3 = set_top(c2, closed);
    assert(closed.locals =~= opened.locals.take(from));
    assert(same_shape(c.last().locals, closed.locals));
    lemma_declares_refl(c.last(), closed);
    lemma_shape_depths(c.last(), closed);
    assert(settled(c, c3)) by {
        assert forall|k: int| 0 <= k < c.len() - 1 implies (#[trigger] c3[k]).code == c[k].code
            && c3[k].scope_depth == c[k].scope_depth && same_shape(c[k].locals, c3[k].locals) by {
            assert(c1[k] == c[k]);
            assert(c2[k].code == c1[k].code);
            assert(c3[k] == c2[k]);
        }
    }
    if held(c, heights, pending) && bounded(c3) && heights.last() == c.last().locals.len() {
        assert(held(c1, heights, pending));
        assert(bounded(c2));
        assert(kept(c1, c2));
        assert(held(c2, h2, pending));
        assert(closed.code.take(c.last().code.len() as int) =~= c.last().code) by {
            assert forall|i: int| 0 <= i < c.last().code.len() implies closed.code[i]
                == c.last().code[i] by {
                assert(opened.code.take(c1.last().code.len() as int)[i] == c1.last().code[i]);
                assert(closed.code.take(opened.code.len() as int)[i] == opened.code[i]);
            }
        }
        assert(extends(heights, after));
    }
    after
}

/// A function declaration leaves the stack as high as the locals.
pub proof fn lemma_function(
    c: Seq<ScopeView>,
    heights: Seq<int>,
    pending: Set<int>,
    stmt: StmtView,
) -> (after: Seq<int>)
    requires
        c.len() > 0,
        depths_ok(c.last()),
        valid_stmt(stmt, c.last().scope_depth as nat),
        stmt is FunctionDeclaration,
    ensures
        stmt_levels(c, heights, pending, stmt, after),
    decreases stmt, 0nat,
{
    let function = stmt->FunctionDeclaration_0;
    let entered = c.push(function_scope(function.params));
    assert(depths_ok(entered.last()));
    let _ = lemma_stmts(
        entered,
        Seq::empty(),
        Set::empty(),
        function.body,
        function.body.len(),
    );
    let inner = compile_stmts_spec(entered, function.body, function.body.len());
    let done = inner.last();
    let back = inner.drop_last();
    assert(back.len() == c.len());
    assert forall|k: int| 0 <= k < c.len() implies (#[trigger] back[k]).code == c[k].code
        && back[k].scope_depth == c[k].scope_depth && same_shape(c[k].locals, back[k].locals) by {
        assert(back[k] == inner[k]);
        assert(entered[k] == c[k]);
        assert(inner[k].code == entered[k].code);
    }
    assert(back.last() == back[c.len() - 1]);
    assert(settled(c, back));
    assert(back.last().code.take(c.last().code.len() as int) =~= c.last().code);
    lemma_shape_depths(c.last(), back.last());
    let closure = CodeView::Closure {
        function: template(done, function.name, function.params.len()),
        upvalues: done.upvalues,
    };
    let c2 = emit(back, closure);
    assert(compile_function_spec(c, function) == c2);
    lemma_emit_settles(back, closure);
    let h2 = heights.push(heights.last() + 1);
    let after = lemma_declare(c2, h2, pending, function.name);
    let c3 = declare(c2, function.name);
    assert(stmt == StmtView::FunctionDeclaration(function));
    assert(compile_stmt_spec(c, stmt) == c3);
    lemma_settled_trans(c, back, c2);
    lemma_settled_trans(c, c2, c3);
    lemma_declares_refl(c.last(), c2.last());
    lemma_declares_trans(c.last(), c2.last(), c3.last());
    if held(c, heights, pending) && bounded(c3) && heights.last() == c.last().locals.len() {
        assert(held(back, heights, pending));
        lemma_emit(back, heights, pending, closure, heights.last() + 1, pending);
        assert(extends(heights, after));
    }
    after
}

/// An `if` leaves the stack as high as it found it.
pub proof fn lemma_if(c: Seq<ScopeView>, heights: Seq<int>, pending: Set<int>, stmt: StmtView) -> (after:
    Seq<int>)
    requires
        c.len() > 0,
        depths_ok(c.last()),
        valid_stmt(stmt, c.last().scope_depth as nat),
        stmt is If,
    ensures
        stmt_levels(c, heights, pending, stmt, after),
    decreases stmt, 0nat,
{
    let condition = stmt->If_condition;
    let then_branch = *stmt->then_branch;
    let else_branch = stmt->else_branch;
    let h1 = lemma_expr(c, heights, pending, condition);
    let c1 = compile_expr_spec(c, condition);
    let to_else = position(c1);
    let at = c1.last().code.len() as int;
    let first = pending.insert(at);
    let c2 = emit(c1, CodeView::JumpIfFalse(0));
    let h2 = h1.push(h1.last());
    let c3 = emit(c2, CodeView::Pop);
    let h3 = h2.push(h2.last() - 1);
    lemma_emit_settles(c1, CodeView::JumpIfFalse(0));
    lemma_emit_settles(c2, CodeView::Pop);
    lemma_shape_depths(c.last(), c3.last());
    let h4 = lemma_stmt(c3, h3, first, then_branch);
    let c4 = compile_stmt_spec(c3, then_branch);
    let to_end = position(c4);
    let end = c4.last().code.len() as int;
    let both = first.insert(end);
    let c5 = emit(c4, CodeView::Jump(0));
    let h5 = h4.push(h1.last());
    lemma_emit_settles(c4, CodeView::Jump(0));
    let c6 = patch(c5, to_else);
    let second = both.remove(at);
    lemma_patch_settles(c5, to_else);
    let c7 = emit(c6, CodeView::Pop);
    let h7 = h5.push(h5.last() - 1);
    lemma_emit_settles(c6, CodeView::Pop);
    lemma_settled_trans(c, c1, c2);
    lemma_settled_trans(c, c2, c3);
    lemma_settled_trans(c, c3, c4);
    lemma_settled_trans(c, c4, c5);
    lemma_settled_trans(c, c5, c6);
    lemma_settled_trans(c, c6, c7);
    lemma_same_shape_trans(c.last().locals, c3.last().locals, c4.last().locals);
    lemma_shape_depths(c.last(), c7.last());
    let (c8, h8) = match else_branch {
        Some(s) => {
            let h8 = lemma_stmt(c7, h7, second, *s);
            (compile_stmt_spec(c7, *s), h8)
        },
        None => {
            lemma_settled_refl(c7);
            (c7, h7)
        },
    };
    assert(same_shape(c7.last().locals, c8.last().locals));
    let c9 = patch(c8, to_end);
    lemma_patch_settles(c8, to_end);
    lemma_settled_trans(c, c7, c8);
    lemma_settled_trans(c, c8, c9);
    lemma_same_shape_trans(c.last().locals, c7.last().locals, c8.last().locals);
    lemma_declares_refl(c.last(), c9.last());
    lemma_shape_depths(c.last(), c9.last());
    if held(c, heights, pending) && bounded(c9) && heights.last() == c.last().locals.len() {
        lemma_emit(c1, h1, pending, CodeView::JumpIfFalse(0), h1.last(), first);
        lemma_emit(c2, h2, first, CodeView::Pop, h2.last() - 1, first);
        assert(held(c4, h4, first) && kept(c3, c4) && extends(h3, h4));
        lemma_kept_index(c3, c4, at);
        lemma_emit(c4, h4, first, CodeView::Jump(0), h1.last(), both);
        assert(h5[at] == h3[at]);
        lemma_patch(c5, h5, both, to_else);
        lemma_emit(c6, h5, second, CodeView::Pop, h5.last() - 1, second);
        assert(c7.last().code[end] == CodeView::Jump(0)) by {
            assert(c6.last().code[end] == c5.last().code[end]);
        }
        assert(held(c8, h8, second) && kept(c7, c8) && extends(h7, h8)) by {
            if else_branch is None {
                assert(extends(h7, h7));
            }
        }
        lemma_kept_index(c7, c8, end);
        assert(h8[end] == h7[end]);
        assert(h7[end] == h4.last());
        lemma_patch(c8, h8, second, to_end);
        assert(second.remove(end) =~= pending);
        lemma_kept_patch(c, c5, to_else);
        lemma_settled_trans(c6, c7, c8);
        assert(kept(c, c8)) by {
            assert(c8.last().code.take(c.last().code.len() as int) =~= c.last().code) by {
                assert forall|i: int| 0 <= i < c.last().code.len() implies c8.last().code[i]
                    == c.last().code[i] by {
                    assert(c6.last().code.take(c.last().code.len() as int)[i] == c.last().code[i]);
                    assert(c8.last().code.take(c7.last().code.len() as int)[i]
                        == c7.last().code[i]);
                }
            }
        }
        lemma_kept_patch(c, c8, to_end);
        assert(extends(heights, h8));
    }
    h8
}

/// A `while` leaves the stack as high as it found it.
pub proof fn lemma_while(c: Seq<ScopeView>, heights: Seq<int>, pending: Set<int>, stmt: StmtView) -> (after:
    Seq<int>)
    requires
        c.len() > 0,
        depths_ok(c.last()),
        valid_stmt(stmt, c.last().scope_depth as nat),
        stmt is While,
    ensures
        stmt_levels(c, heights, pending, stmt, after),
    decreases stmt, 0nat,
{
    let condition = stmt->While_condition;
    let body = *stmt->While_body;
    lemma_settled_refl(c);
    assert(extends(heights, heights));
    lemma_same_shape_trans(c.last().locals, c.last().locals, c.last().locals);
    lemma_loop(c, heights, pending, c, heights, Some(condition), None, body)
}

/// The code of a loop, which starts in state `c0`, leaves the stack as
/// high as it was there.
pub proof fn lemma_loop(
    c: Seq<ScopeView>,
    heights: Seq<int>,
    pending: Set<int>,
    c0: Seq<ScopeView>,
    h0: Seq<int>,
    condition: Option<ExprView>,
    increment: Option<ExprView>,
    body: StmtView,
) -> (after: Seq<int>)
    requires
        c.len() > 0,
        depths_ok(c0.last()),
        levels(c, heights, pending, c0, h0),
        valid_optional(condition),
        valid_optional(increment),
        quiet(body),
        valid_stmt(body, c0.last().scope_depth as nat),
    ensures
        levels(c, heights, pending, loop_spec(c0, condition, increment, body), after),
        same_shape(c0.last().locals, loop_spec(c0, condition, increment, body).last().locals),
        held(c, heights, pending) && bounded(loop_spec(c0, condition, increment, body))
            && heights.last() == c.last().locals.len() && condition is None ==> loop_spec(
            c0,
            condition,
            increment,
            body,
        ).last().code[c0.last().code.len() as int] == CodeView::True,
    decreases body, 2nat,
{
    let start = position(c0);
    let h1 = lemma_optional(c0, h0, pending, condition, CodeView::True);
    let c1 = compile_optional_spec(c0, condition, CodeView::True);
    let to_end = position(c1);
    let at = c1.last().code.len() as int;
    let waiting = pending.insert(at);
    let c2 = emit(c1, CodeView::JumpIfFalse(0));
    let h2 = h1.push(h1.last());
    let c3 = emit(c2, CodeView::Pop);
    let h3 = h2.push(h2.last() - 1);
    lemma_emit_settles(c1, CodeView::JumpIfFalse(0));
    lemma_emit_settles(c2, CodeView::Pop);
    lemma_shape_depths(c0.last(), c3.last());
    let h4 = lemma_stmt(c3, h3, waiting, body);
    let c4 = compile_stmt_spec(c3, body);
    lemma_shape_depths(c3.last(), c4.last());
    let (c5, h5) = match increment {
        Some(e) => {
            let h = lemma_expr(c4, h4, waiting, e);
            let c = compile_expr_spec(c4, e);
            lemma_raises_emit(c4, h4, waiting, c, h, 1, CodeView::Pop);
            (emit(c, CodeView::Pop), h.push(h.last() - 1))
        },
        None => {
            lemma_settled_refl(c4);
            assert(extends(h4, h4));
            (c4, h4)
        },
    };
    assert(raises(c4, h4, waiting, c5, h5, 0));
    let c6 = emit(c5, CodeView::Jump(start));
    let h6 = h5.push(h1.last());
    lemma_emit_settles(c5, CodeView::Jump(start));
    let c7 = patch(c6, to_end);
    lemma_patch_settles(c6, to_end);
    let c8 = emit(c7, CodeView::Pop);
    let h8 = h6.push(h6.last() - 1);
    lemma_emit_settles(c7, CodeView::Pop);
    assert(c8 == loop_spec(c0, condition, increment, body));
    lemma_settled_trans(c0, c1, c2);
    lemma_settled_trans(c0, c2, c3);
    lemma_settled_trans(c0, c3, c4);
    lemma_settled_trans(c0, c4, c5);
    lemma_settled_trans(c0, c5, c6);
    lemma_settled_trans(c0, c6, c7);
    lemma_settled_trans(c0, c7, c8);
    lemma_settled_trans(c, c0, c8);
    lemma_same_shape_trans(c0.last().locals, c3.last().locals, c4.last().locals);
    lemma_declares_refl(c0.last(), c8.last());
    lemma_declares_trans(c.last(), c0.last(), c8.last());
    lemma_shape_depths(c0.last(), c8.last());
    if held(c, heights, pending) && bounded(c8) && heights.last() == c.last().locals.len() {
        assert(held(c0, h0, pending) && h0.last() == c0.last().locals.len());
        lemma_emit(c1, h1, pending, CodeView::JumpIfFalse(0), h1.last(), waiting);
        lemma_emit(c2, h2, waiting, CodeView::Pop, h2.last() - 1, waiting);
        assert(held(c4, h4, waiting) && kept(c3, c4) && extends(h3, h4));
        assert(held(c5, h5, waiting) && kept(c4, c5) && extends(h4, h5));
        lemma_settled_trans(c3, c4, c5);
        lemma_kept_index(c3, c5, at);
        assert(h5[start as int] == h0.last()) by {
            assert(h1[start as int] == h0[start as int]);
            assert(h4[start as int] == h3[start as int]);
        }
        lemma_emit(c5, h5, waiting, CodeView::Jump(start), h1.last(), waiting);
        assert(h6[at] == h1.last()) by {
            assert(h4[at] == h3[at]);
        }
        lemma_patch(c6, h6, waiting, to_end);
        assert(waiting.remove(at) =~= pending);
        lemma_emit(c7, h6, pending, CodeView::Pop, h6.last() - 1, pending);
        assert(kept(c0, c6)) by {
            lemma_settled_trans(c1, c2, c3);
            assert(c6.last().code.take(c0.last().code.len() as int) =~= c0.last().code) by {
                assert forall|i: int| 0 <= i < c0.last().code.len() implies c6.last().code[i]
                    == c0.last().code[i] by {
                    assert(c1.last().code.take(c0.last().code.len() as int)[i]
                        == c0.last().code[i]);
                    assert(c5.last().code.take(c3.last().code.len() as int)[i]
                        == c3.last().code[i]);
                }
            }
        }
        lemma_kept_patch(c0, c6, to_end);
        lemma_settled_trans(c0, c7, c8);
        if condition is None {
            let first = c0.last().code.len() as int;
            assert(c1.last().code[first] == CodeView::True);
            assert(c3.last().code[first] == CodeView::True);
            assert(c5.last().code.take(c3.last().code.len() as int)[first] == c3.last().code[first]);
            assert(c6.last().code[first] == c5.last().code[first]);
            assert(c7.last().code[first] == c6.last().code[first]);
            assert(c8.last().code[first] == c7.last().code[first]);
        }
        assert(kept(c, c8)) by {
            assert(c8.last().code.take(c.last().code.len() as int) =~= c.last().code) by {
                assert forall|i: int| 0 <= i < c.last().code.len() implies c8.last().code[i]
                    == c.last().code[i] by {
                    assert(c0.last().code.take(c.last().code.len() as int)[i] == c.last().code[i]);
                    assert(c7.last().code.take(c0.last().code.len() as int)[i]
                        == c0.last().code[i]);
                }
            }
        }
        assert(extends(heights, h8));
    }
    h8
}

/// The code of a loop: the condition, or `True` in its place; a jump out
/// of the loop if it is false; the body; the increment, if there is one;
/// the jump back to the condition.
pub open spec fn loop_spec(
    c0: Seq<ScopeView>,
    condition: Option<ExprView>,
    increment: Option<ExprView>,
    body: StmtView,
) -> Seq<ScopeView> {
    let start = position(c0);
    let c1 = compile_optional_spec(c0, condition, CodeView::True);
    let to_end = position(c1);
    let c2 = emit(emit(c1, CodeView::JumpIfFalse(0)), CodeView::Pop);
    let c3 = compile_stmt_spec(c2, body);
    let c4 = match increment {
        Some(e) => emit(compile_expr_spec(c3, e), CodeView::Pop),
        None => c3,
    };
    emit(patch(emit(c4, CodeView::Jump(start)), to_end), CodeView::Pop)
}

/// A `for` leaves the stack as high as the locals.
pub proof fn lemma_for(c: Seq<ScopeView>, heights: Seq<int>, pending: Set<int>, stmt: StmtView) -> (after:
    Seq<int>)
    requires
        c.len() > 0,
        depths_ok(c.last()),
        valid_stmt(stmt, c.last().scope_depth as nat),
        stmt is For,
    ensures
        stmt_levels(c, heights, pending, stmt, after),
    decreases stmt, 0nat,
{
    let initializer = stmt->For_initializer;
    let condition = stmt->For_condition;
    let increment = stmt->For_increment;
    let body = *stmt->For_body;
    let (c0, h0) = match initializer {
        Some(s) => {
            let h = lemma_stmt(c, heights, pending, *s);
            (compile_stmt_spec(c, *s), h)
        },
        None => {
            lemma_settled_refl(c);
            lemma_declares_refl(c.last(), c.last());
            assert(extends(heights, heights));
            (c, heights)
        },
    };
    let after = lemma_loop(c, heights, pending, c0, h0, condition, increment, body);
    if quiet(stmt) {
        lemma_same_shape_trans(
            c.last().locals,
            c0.last().locals,
            loop_spec(c0, condition, increment, body).last().locals,
        );
    }
    after
}

/// A `for` without a condition loops on `True`: where its condition would
/// be compiled, right after the initializer, stands the instruction that
/// loads true.
pub proof fn lemma_for_without_condition(
    c: Seq<ScopeView>,
    heights: Seq<int>,
    pending: Set<int>,
    stmt: StmtView,
)
    requires
        c.len() > 0,
        depths_ok(c.last()),
        valid_stmt(stmt, c.last().scope_depth as nat),
        stmt is For,
        stmt->For_condition is None,
        held(c, heights, pending),
        heights.last() == c.last().locals.len(),
        bounded(compile_stmt_spec(c, stmt)),
    ensures
        ({
            let start = match stmt->For_initializer {
                Some(s) => compile_stmt_spec(c, *s),
                None => c,
            };
            compile_stmt_spec(c, stmt).last().code[start.last().code.len() as int]
                == CodeView::True
        }),
{
    let initializer = stmt->For_initializer;
    let increment = stmt->For_increment;
    let body = *stmt->For_body;
    let (c0, h0) = match initializer {
        Some(s) => {
            let h = lemma_stmt(c, heights, pending, *s);
            (compile_stmt_spec(c, *s), h)
        },
        None => {
            lemma_settled_refl(c);
            lemma_declares_refl(c.last(), c.last());
            assert(extends(heights, heights));
            (c, heights)
        },
    };
    let _ = lemma_loop(c, heights, pending, c0, h0, None, increment, body);
}

/// Every expression that is held by the executable types is valid: none of
/// its calls can have more arguments than an instruction can say.
pub proof fn lemma_expr_valid(expr: Expr)
    ensures
        valid_expr(expr@),
    decreases expr,
{
    match expr {
        Expr::BinaryOp(left, _, right) => {
            lemma_expr_valid(*left);
            lemma_expr_valid(*right);
        },
        Expr::UnaryOp(_, operand) => {
            lemma_expr_valid(*operand);
        },
        Expr::Parenthesized(inner) => {
            lemma_expr_valid(*inner);
        },
        Expr::Assign { name, value } => {
            lemma_expr_valid(*value);
        },
        Expr::LogicalAnd(left, right) => {
            lemma_expr_valid(*left);
            lemma_expr_valid(*right);
        },
        Expr::LogicalOr(left, right) => {
            lemma_expr_valid(*left);
            lemma_expr_valid(*right);
        },
        Expr::Call { callee, arguments } => {
            lemma_expr_valid(*callee);
            lemma_arguments_valid(expr, arguments.len() as nat);
        },
        _ => {},
    }
}

/// The first `n` arguments of a call that is held by the executable types
/// are valid.
proof fn lemma_arguments_valid(call: Expr, n: nat)
    requires
        call is Call,
        n <= call->arguments.len(),
    ensures
        valid_exprs(call@->Call_arguments, n),
    decreases call, n,
{
    if n > 0 {
        lemma_arguments_valid(call, (n - 1) as nat);
        lemma_expr_valid(call->arguments[n - 1]);
    }
}

/// Whether `stmt` declares no local of the function that it stands in.
pub fn is_quiet(stmt: &Stmt) -> (r: bool)
    ensures
        r == quiet(stmt@),
    decreases stmt,
{
    match stmt {
        Stmt::VariableDeclaration { .. } => false,
        Stmt::FunctionDeclaration(_) => false,
        Stmt::For { initializer, condition, increment, body } => match initializer {
            Some(s) => is_quiet(&**s),
            None => true,
        },
        _ => true,
    }
}

/// Whether `stmt`, at block depth `depth`, is a statement of which stack
/// balance is proved.
pub fn is_valid_stmt(stmt: &Stmt, depth: usize) -> (r: bool)
    ensures
        r == valid_stmt(stmt@, depth as nat),
    decreases stmt, 1nat,
{
    match stmt {
        Stmt::Expr(e) => {
            proof {
                lemma_expr_valid(*e);
            }
            true
        },
        Stmt::Print(e) => {
            proof {
                lemma_expr_valid(*e);
            }
            true
        },
        Stmt::VariableDeclaration { name, initializer } => {
            proof {
                if let Some(e) = initializer {
                    lemma_expr_valid(*e);
                }
            }
            true
        },
        Stmt::Block(stmts) => {
            if depth == usize::MAX {
                return false;
            }
            let ghost shown = stmt@->Block_0;
            let mut i: usize = 0;
            while i < stmts.len()
                invariant
                    i <= stmts.len(),
                    depth < usize::MAX,
                    shown.len() == stmts.len(),
                    forall|j: int| 0 <= j < stmts.len() ==> shown[j] == stmt_view(stmts[j]),
                    valid_stmts(shown, i as nat, (depth + 1) as nat),
                    stmt@ == StmtView::Block(shown),
                    decreases_to!(stmt => stmts),
                decreases stmts.len() - i,
            {
                if !is_valid_stmt(&stmts[i], depth + 1) {
                    proof {
                        assert(!valid_stmts(shown, (i + 1) as nat, (depth + 1) as nat));
                        lemma_invalid_suffix(
                            shown,
                            (i + 1) as nat,
                            shown.len(),
                            (depth + 1) as nat,
                        );
                    }
                    return false;
                }
                i += 1;
            }
            true
        },
        Stmt::If { condition, then_branch, else_branch } => {
            proof {
                lemma_expr_valid(*condition);
            }
            if !(is_quiet(&**then_branch) && is_valid_stmt(&**then_branch, depth)) {
                return false;
            }
            match else_branch {
                Some(s) => is_quiet(&**s) && is_valid_stmt(&**s, depth),
                None => true,
            }
        },
        Stmt::While { condition, body } => {
            proof {
                lemma_expr_valid(*condition);
            }
            is_quiet(&**body) && is_valid_stmt(&**body, depth)
        },
        Stmt::For { initializer, condition, increment, body } => {
            proof {
                if let Some(e) = condition {
                    lemma_expr_valid(*e);
                }
                if let Some(e) = increment {
                    lemma_expr_valid(*e);
                }
            }
            if !(is_quiet(&**body) && is_valid_stmt(&**body, depth)) {
                return false;
            }
            match initializer {
                Some(s) => is_valid_stmt(&**s, depth),
                None => true,
            }
        },
        Stmt::FunctionDeclaration(function) => {
            let ghost shown = stmt@->FunctionDeclaration_0.body;
            let mut i: usize = 0;
            while i < function.body.len()
                invariant
                    i <= function.body.len(),
                    shown.len() == function.body.len(),
                    forall|j: int|
                        0 <= j < function.body.len() ==> shown[j] == stmt_view(function.body[j]),
                    valid_stmts(shown, i as nat, 0),
                    stmt@ is FunctionDeclaration,
                    stmt@->FunctionDeclaration_0.body == shown,
                    decreases_to!(stmt => function.body),
                decreases function.body.len() - i,
            {
                if !is_valid_stmt(&function.body[i], 0) {
                    proof {
                        assert(!valid_stmts(shown, (i + 1) as nat, 0));
                        lemma_invalid_suffix(shown, (i + 1) as nat, shown.len(), 0);
                    }
                    return false;
                }
                i += 1;
            }
            true
        },
        Stmt::Return(value) => {
            proof {
                if let Some(e) = value {
                    lemma_expr_valid(*e);
                }
            }
            true
        },
    }
}

/// Statements of which the first `k` are not all valid are not all valid.
proof fn lemma_invalid_suffix(stmts: Seq<StmtView>, k: nat, n: nat, depth: nat)
    requires
        !valid_stmts(stmts, k, depth),
        k <= n,
    ensures
        !valid_stmts(stmts, n, depth),
    decreases n - k,
{
    if k < n {
        lemma_invalid_suffix(stmts, k + 1, n, depth);
    }
}

/// Whether stack balance is proved of the program `stmts`: whether no
/// branch of an `if` and no body of a loop declares a local.
pub fn is_valid_program(stmts: &Vec<Stmt>) -> (r: bool)
    ensures
        r == valid_stmts(stmts_view(stmts@), stmts@.len(), 0),
{
    let ghost shown = stmts_view(stmts@);
    let mut i: usize = 0;
    while i < stmts.len()
        invariant
            i <= stmts.len(),
            shown == stmts_view(stmts@),
            valid_stmts(shown, i as nat, 0),
        decreases stmts.len() - i,
    {
        if !is_valid_stmt(&stmts[i], 0) {
            proof {
                assert(!valid_stmts(shown, (i + 1) as nat, 0));
                lemma_invalid_suffix(shown, (i + 1) as nat, shown.len(), 0);
            }
            return false;
        }
        i += 1;
    }
    true
}

/// The state in which the compiler starts on a program.
pub open spec fn start() -> Seq<ScopeView> {
    seq![function_scope(Seq::empty())]
}

/// The index in the main function of the first instruction after the first
/// `k` statements of a program.
pub open spec fn boundary(stmts: Seq<StmtView>, k: nat) -> int {
    compile_stmts_spec(start(), stmts, k).last().code.len() as int
}

/// Whether a program is one that the proof of stack balance speaks of:
/// each of its statements is valid, and the code of its main function is
/// not longer than an index can say.
pub open spec fn valid_program(stmts: Seq<StmtView>) -> bool {
    &&& valid_stmts(stmts, stmts.len(), 0)
    &&& compile_program_spec(stmts).code.len() <= usize::MAX
}

/// The first statements of a valid list are valid.
pub proof fn lemma_valid_prefix(stmts: Seq<StmtView>, n: nat, k: nat, depth: nat)
    requires
        valid_stmts(stmts, n, depth),
        k <= n,
    ensures
        valid_stmts(stmts, k, depth),
    decreases n,
{
    if k < n {
        lemma_valid_prefix(stmts, (n - 1) as nat, k, depth);
    }
}

/// The main function grows with every statement.
pub proof fn lemma_boundary_grows(stmts: Seq<StmtView>, k: nat, n: nat)
    requires
        valid_stmts(stmts, n, 0),
        k <= n <= stmts.len(),
    ensures
        boundary(stmts, k) <= boundary(stmts, n),
        compile_stmts_spec(start(), stmts, k).last().scope_depth == 0,
        compile_stmts_spec(start(), stmts, k).last().locals.len() == 1,
        depths_ok(compile_stmts_spec(start(), stmts, k).last()),
        compile_stmts_spec(start(), stmts, k).len() == 1,
    decreases n - k,
{
    lemma_valid_prefix(stmts, n, k, 0);
    assert(depths_ok(start().last()));
    let _ = lemma_stmts(start(), Seq::empty(), Set::empty(), stmts, k);
    if k < n {
        lemma_valid_prefix(stmts, n, k + 1, 0);
        let c1 = compile_stmts_spec(start(), stmts, k);
        let _ = lemma_stmt(c1, Seq::empty(), Set::empty(), stmts[k as int]);
        lemma_boundary_grows(stmts, k + 1, n);
    }
}

/// The main function of a valid program keeps the stack discipline, with
/// heights that are 1 before the first statement and after every
/// statement.
pub proof fn lemma_program(stmts: Seq<StmtView>, n: nat) -> (heights: Seq<int>)
    requires
        valid_stmts(stmts, n, 0),
        n <= stmts.len(),
        boundary(stmts, n) <= usize::MAX,
    ensures
        consistent(compile_stmts_spec(start(), stmts, n).last().code, heights, Set::empty()),
        forall|k: nat| k <= n ==> heights[#[trigger] boundary(stmts, k)] == 1,
    decreases n,
{
    if n == 0 {
        let heights = seq![1int];
        assert(compile_stmts_spec(start(), stmts, 0) == start());
        assert forall|k: nat| k <= n implies heights[#[trigger] boundary(stmts, k)] == 1 by {
            assert(k == 0);
        }
        heights
    } else {
        let m = (n - 1) as nat;
        lemma_boundary_grows(stmts, m, n);
        lemma_valid_prefix(stmts, n, m, 0);
        let before = lemma_program(stmts, m);
        let c1 = compile_stmts_spec(start(), stmts, m);
        let heights = lemma_stmt(c1, before, Set::empty(), stmts[n - 1]);
        let c2 = compile_stmts_spec(start(), stmts, n);
        assert(c2 == compile_stmt_spec(c1, stmts[n - 1]));
        assert(before[boundary(stmts, m)] == 1);
        assert(held(c1, before, Set::empty()));
        assert(before.last() == c1.last().locals.len());
        assert(c2.last().locals.len() == 1);
        assert forall|k: nat| k <= n implies heights[#[trigger] boundary(stmts, k)] == 1 by {
            if k < n {
                lemma_boundary_grows(stmts, k, m);
                assert(before[boundary(stmts, k)] == 1);
            }
        }
        heights
    }
}

} // verus!
