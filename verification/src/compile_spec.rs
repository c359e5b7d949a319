//! What the compiler emits, as functions on mathematical values.
//!
//! The state of a compilation is a stack of scopes, one for each function
//! that is being compiled; the last one is the function whose body is being
//! read. Every function here takes such a stack and gives the stack after
//! one construct of the language has been compiled.
use crate::bytecode::{CodeView, FunctionView, Upvalue};
use crate::discipline::code_ok;
use crate::number::{all_digits, number_of_digits};
use crate::op::Op;
use crate::syntax::{DeclarationView, ExprView, StmtView};
use vstd::prelude::*;

verus! {

/// A local variable at compile time. Its index among the locals of its
/// function is its slot at run time.
pub struct LocalView {
    pub name: Seq<char>,
    pub depth: usize,
    pub is_captured: bool,
}

/// What the compiler knows of one function while it compiles its body.
pub struct ScopeView {
    pub locals: Seq<LocalView>,
    /// How many blocks are open; 0 is the level of the function itself.
    pub scope_depth: usize,
    pub upvalues: Seq<Upvalue>,
    pub code: Seq<CodeView>,
}

/// `later` comes from `earlier` by compiling more of the current function:
/// the same functions are open, the code of the enclosing ones is as it was,
/// and the current one has lost no instruction.
pub open spec fn grows(earlier: Seq<ScopeView>, later: Seq<ScopeView>) -> bool {
    &&& later.len() == earlier.len()
    &&& forall|k: int|
        0 <= k < earlier.len() - 1 ==> (#[trigger] later[k]).code == earlier[k].code
            && later[k].locals.len() == earlier[k].locals.len()
    &&& earlier.len() > 0 ==> later.last().code.len() >= earlier.last().code.len()
}

/// Whether the captured variable `upvalue` of the function at `level` is
/// there to capture: a local of the enclosing function, marked as captured,
/// or a captured variable of the enclosing function.
pub open spec fn capture_ok(c: Seq<ScopeView>, level: int, upvalue: Upvalue) -> bool {
    if upvalue.is_local {
        upvalue.index < c[level - 1].locals.len() && c[level - 1].locals[upvalue.index as int].is_captured
    } else {
        upvalue.index < c[level - 1].upvalues.len()
    }
}

/// Whether every captured variable of every function but the outermost is
/// there to capture.
pub open spec fn captures_ok(c: Seq<ScopeView>) -> bool {
    forall|level: int, j: int|
        1 <= level < c.len() && 0 <= j < c[level].upvalues.len() ==> capture_ok(
            c,
            level,
            #[trigger] c[level].upvalues[j],
        )
}

/// In `later` every local of an enclosing function that was marked as
/// captured in `earlier` still is, and every function has the captured
/// variables that it had.
pub open spec fn keeps_captures(earlier: Seq<ScopeView>, later: Seq<ScopeView>) -> bool {
    &&& later.len() == earlier.len()
    &&& forall|level: int|
        0 <= level < earlier.len() ==> (#[trigger] later[level]).upvalues == earlier[level].upvalues
    &&& forall|level: int, i: int|
        0 <= level < earlier.len() - 1 && 0 <= i < earlier[level].locals.len() ==> i
            < later[level].locals.len() && ((#[trigger] earlier[level].locals[i]).is_captured
            ==> later[level].locals[i].is_captured)
}

/// Captured variables that were there to capture still are, if the
/// captured marks are kept.
pub proof fn lemma_keeps_captures(earlier: Seq<ScopeView>, later: Seq<ScopeView>)
    requires
        captures_ok(earlier),
        keeps_captures(earlier, later),
    ensures
        captures_ok(later),
{
    assert forall|level: int, j: int|
        1 <= level < later.len() && 0 <= j < later[level].upvalues.len() implies capture_ok(
        later,
        level,
        #[trigger] later[level].upvalues[j],
    ) by {
        let upvalue = earlier[level].upvalues[j];
        assert(later[level].upvalues == earlier[level].upvalues);
        assert(later[level - 1].upvalues == earlier[level - 1].upvalues);
        assert(capture_ok(earlier, level, upvalue));
        if upvalue.is_local {
            assert(earlier[level - 1].locals[upvalue.index as int].is_captured);
        }
    }
}

/// Whether the code of every function is well formed.
pub open spec fn codes_ok(c: Seq<ScopeView>) -> bool {
    forall|level: int| 0 <= level < c.len() ==> code_ok(#[trigger] c[level].code)
}

/// Whether a state of the compiler is as it should be: there is a function
/// that is being compiled, all code is well formed, and every captured
/// variable is there to capture.
pub open spec fn compiler_ok(c: Seq<ScopeView>) -> bool {
    &&& c.len() > 0
    &&& codes_ok(c)
    &&& captures_ok(c)
}

/// The state with its last scope replaced.
pub open spec fn set_top(c: Seq<ScopeView>, scope: ScopeView) -> Seq<ScopeView> {
    c.update(c.len() - 1, scope)
}

/// Appends an instruction to the code of the current function.
pub open spec fn emit(c: Seq<ScopeView>, code: CodeView) -> Seq<ScopeView> {
    set_top(c, ScopeView { code: c.last().code.push(code), ..c.last() })
}

/// The index that the next instruction of the current function gets.
pub open spec fn position(c: Seq<ScopeView>) -> usize {
    c.last().code.len() as usize
}

/// Makes the jump at index `at` of the current function lead to the
/// current position.
pub open spec fn patch(c: Seq<ScopeView>, at: usize) -> Seq<ScopeView> {
    let code = c.last().code;
    if at < code.len() {
        match code[at as int] {
            CodeView::Jump(_) => set_top(
                c,
                ScopeView { code: code.update(at as int, CodeView::Jump(position(c))), ..c.last() },
            ),
            CodeView::JumpIfFalse(_) => set_top(
                c,
                ScopeView {
                    code: code.update(at as int, CodeView::JumpIfFalse(position(c))),
                    ..c.last()
                },
            ),
            _ => c,
        }
    } else {
        c
    }
}

/// The slot of the innermost local called `name`.
pub open spec fn find_local(locals: Seq<LocalView>, name: Seq<char>) -> Option<usize>
    decreases locals.len(),
{
    if locals.len() == 0 {
        None
    } else if locals.last().name == name {
        Some((locals.len() - 1) as usize)
    } else {
        find_local(locals.drop_last(), name)
    }
}

/// A local that is found lies among the locals.
pub proof fn lemma_find_local_in_range(locals: Seq<LocalView>, name: Seq<char>)
    ensures
        match find_local(locals, name) {
            Some(slot) => slot < locals.len(),
            None => true,
        },
    decreases locals.len(),
{
    if locals.len() > 0 && locals.last().name != name {
        lemma_find_local_in_range(locals.drop_last(), name);
    }
}

/// The first index at or after `from` at which `upvalue` stands.
pub open spec fn find_upvalue(upvalues: Seq<Upvalue>, upvalue: Upvalue, from: int) -> Option<usize>
    decreases upvalues.len() - from,
{
    if from < 0 || from >= upvalues.len() {
        None
    } else if upvalues[from] == upvalue {
        Some(from as usize)
    } else {
        find_upvalue(upvalues, upvalue, from + 1)
    }
}

/// Records a captured variable, unless the same one is recorded already,
/// and gives its index.
pub open spec fn add_upvalue(scope: ScopeView, upvalue: Upvalue) -> (ScopeView, usize) {
    match find_upvalue(scope.upvalues, upvalue, 0) {
        Some(i) => (scope, i),
        None => (
            ScopeView { upvalues: scope.upvalues.push(upvalue), ..scope },
            scope.upvalues.len() as usize,
        ),
    }
}

/// Scope `level - 1` with its local `slot` marked as captured.
pub open spec fn capture(c: Seq<ScopeView>, level: int, slot: usize) -> Seq<ScopeView> {
    let outer = c[level - 1];
    c.update(
        level - 1,
        ScopeView {
            locals: outer.locals.update(
                slot as int,
                LocalView { is_captured: true, ..outer.locals[slot as int] },
            ),
            ..outer
        },
    )
}

/// Scope `level` with `upvalue` recorded, and the index of the record.
pub open spec fn record(c: Seq<ScopeView>, level: int, upvalue: Upvalue) -> (
    Seq<ScopeView>,
    Option<usize>,
) {
    let (scope, index) = add_upvalue(c[level], upvalue);
    (c.update(level, scope), Some(index))
}

/// Looks for `name` in the functions that enclose the one at `level`: as a
/// local of the next one out, which is then marked as captured, else as a
/// captured variable of that one. Whatever is found is recorded in every
/// function on the way.
pub open spec fn resolve_upvalue_spec(c: Seq<ScopeView>, level: int, name: Seq<char>) -> (
    Seq<ScopeView>,
    Option<usize>,
)
    decreases level,
{
    if level <= 0 || level >= c.len() {
        (c, None)
    } else {
        match find_local(c[level - 1].locals, name) {
            Some(slot) => record(
                capture(c, level, slot),
                level,
                Upvalue { index: slot, is_local: true },
            ),
            None => {
                let (c1, outer) = resolve_upvalue_spec(c, level - 1, name);
                match outer {
                    Some(index) => record(c1, level, Upvalue { index, is_local: false }),
                    None => (c1, None),
                }
            },
        }
    }
}

/// Reads or writes the variable called `name`: a local, else a captured
/// variable, else a global.
pub open spec fn access(c: Seq<ScopeView>, name: Seq<char>, write: bool) -> Seq<ScopeView> {
    match find_local(c.last().locals, name) {
        Some(slot) => emit(
            c,
            if write {
                CodeView::WriteLocalVariable { index_in_stack: slot }
            } else {
                CodeView::ReadLocalVariable { index_in_stack: slot }
            },
        ),
        None => {
            let (c1, found) = resolve_upvalue_spec(c, c.len() - 1, name);
            match found {
                Some(index) => emit(
                    c1,
                    if write {
                        CodeView::WriteUpvalue { index }
                    } else {
                        CodeView::ReadUpvalue { index }
                    },
                ),
                None => emit(
                    c1,
                    if write {
                        CodeView::WriteGlobalVariable { name }
                    } else {
                        CodeView::ReadGlobalVariable { name }
                    },
                ),
            }
        },
    }
}

/// Binds the value on top of the stack to a new variable: a global at the
/// level of the function itself, a local inside a block.
pub open spec fn declare(c: Seq<ScopeView>, name: Seq<char>) -> Seq<ScopeView> {
    let scope = c.last();
    if scope.scope_depth == 0 {
        emit(c, CodeView::GlobalVarDeclaration { name })
    } else {
        set_top(
            c,
            ScopeView {
                locals: scope.locals.push(
                    LocalView { name, depth: scope.scope_depth, is_captured: false },
                ),
                ..scope
            },
        )
    }
}

/// Opens a block.
pub open spec fn before_scope_spec(c: Seq<ScopeView>) -> Seq<ScopeView> {
    let scope = c.last();
    set_top(
        c,
        ScopeView {
            scope_depth: if scope.scope_depth < usize::MAX {
                (scope.scope_depth + 1) as usize
            } else {
                scope.scope_depth
            },
            ..scope
        },
    )
}

/// Discards the locals that are deeper than the current depth, the last
/// first: a captured one is closed, any other popped.
pub open spec fn unwind(scope: ScopeView) -> ScopeView
    decreases scope.locals.len(),
{
    if scope.locals.len() > 0 && scope.locals.last().depth > scope.scope_depth {
        unwind(
            ScopeView {
                locals: scope.locals.drop_last(),
                code: scope.code.push(
                    if scope.locals.last().is_captured {
                        CodeView::CloseUpvalue
                    } else {
                        CodeView::Pop
                    },
                ),
                ..scope
            },
        )
    } else {
        scope
    }
}

/// Closes a block.
pub open spec fn after_scope_spec(c: Seq<ScopeView>) -> Seq<ScopeView> {
    let scope = c.last();
    set_top(
        c,
        unwind(
            ScopeView {
                scope_depth: if scope.scope_depth > 0 {
                    (scope.scope_depth - 1) as usize
                } else {
                    0
                },
                ..scope
            },
        ),
    )
}

/// The instruction of a two-operand operator.
pub open spec fn binary_code(op: Op) -> Option<CodeView> {
    match op {
        Op::Plus => Some(CodeView::Add),
        Op::Minus => Some(CodeView::Subtract),
        Op::Slash => Some(CodeView::Divide),
        Op::Star => Some(CodeView::Multiply),
        Op::EqualEqual => Some(CodeView::Equal),
        Op::NotEqual => Some(CodeView::NotEqual),
        Op::Greater => Some(CodeView::Greater),
        Op::GreaterEqual => Some(CodeView::GreaterEqual),
        Op::Less => Some(CodeView::Less),
        Op::LessEqual => Some(CodeView::LessEqual),
        _ => None,
    }
}

/// The instruction of a one-operand operator.
pub open spec fn unary_code(op: Op) -> Option<CodeView> {
    match op {
        Op::Minus => Some(CodeView::Negate),
        Op::Bang => Some(CodeView::Not),
        _ => None,
    }
}

/// The instruction that loads a number literal. A literal that is not a
/// run of digits loads nil.
pub open spec fn number_code(text: Seq<char>) -> CodeView {
    if text.len() > 0 && all_digits(text) {
        CodeView::Constant(number_of_digits(text))
    } else {
        CodeView::Nil
    }
}

/// The code of an expression: it leaves the value of the expression on top
/// of the stack.
pub open spec fn compile_expr_spec(c: Seq<ScopeView>, expr: ExprView) -> Seq<ScopeView>
    decreases expr, 0nat,
{
    match expr {
        ExprView::NumberLiteral(text) => emit(c, number_code(text)),
        ExprView::StringLiteral(text) => emit(c, CodeView::String(text)),
        ExprView::BooleanLiteral(b) => emit(
            c,
            if b {
                CodeView::True
            } else {
                CodeView::False
            },
        ),
        ExprView::NilLiteral => emit(c, CodeView::Nil),
        ExprView::BinaryOp(left, op, right) => {
            let c1 = compile_expr_spec(compile_expr_spec(c, *left), *right);
            match binary_code(op) {
                Some(code) => emit(c1, code),
                None => emit(c1, CodeView::Pop),
            }
        },
        ExprView::UnaryOp(op, operand) => {
            let c1 = compile_expr_spec(c, *operand);
            match unary_code(op) {
                Some(code) => emit(c1, code),
                None => c1,
            }
        },
        ExprView::Parenthesized(inner) => compile_expr_spec(c, *inner),
        ExprView::Variable(name) => access(c, name, false),
        ExprView::Assign { name, value } => access(compile_expr_spec(c, *value), name, true),
        ExprView::LogicalAnd(left, right) => {
            let c1 = compile_expr_spec(c, *left);
            let skip = position(c1);
            let c2 = emit(emit(c1, CodeView::JumpIfFalse(0)), CodeView::Pop);
            patch(compile_expr_spec(c2, *right), skip)
        },
        ExprView::LogicalOr(left, right) => {
            let c1 = compile_expr_spec(c, *left);
            let to_right = position(c1);
            let c2 = emit(c1, CodeView::JumpIfFalse(0));
            let to_end = position(c2);
            let c3 = emit(patch(emit(c2, CodeView::Jump(0)), to_right), CodeView::Pop);
            patch(compile_expr_spec(c3, *right), to_end)
        },
        ExprView::Call { callee, arguments } => emit(
            compile_exprs_spec(compile_expr_spec(c, *callee), arguments, arguments.len()),
            CodeView::Call { arity: arguments.len() as usize },
        ),
    }
}

/// The code of the first `n` of `exprs`, in order.
pub open spec fn compile_exprs_spec(c: Seq<ScopeView>, exprs: Seq<ExprView>, n: nat) -> Seq<
    ScopeView,
>
    decreases exprs, n,
{
    if n == 0 || n > exprs.len() {
        c
    } else {
        compile_expr_spec(compile_exprs_spec(c, exprs, (n - 1) as nat), exprs[n - 1])
    }
}

/// The code of an expression if there is one, else `otherwise`.
pub open spec fn compile_optional_spec(
    c: Seq<ScopeView>,
    expr: Option<ExprView>,
    otherwise: CodeView,
) -> Seq<ScopeView> {
    match expr {
        Some(e) => compile_expr_spec(c, e),
        None => emit(c, otherwise),
    }
}

/// The scope in which the body of a function starts: slot 0 is the called
/// closure itself, the parameters follow.
pub open spec fn function_scope(params: Seq<Seq<char>>) -> ScopeView {
    ScopeView {
        locals: Seq::new(
            params.len() + 1,
            |i: int|
                LocalView {
                    name: if i == 0 {
                        Seq::empty()
                    } else {
                        params[i - 1]
                    },
                    depth: 0,
                    is_captured: false,
                },
        ),
        scope_depth: 0,
        upvalues: Seq::empty(),
        code: Seq::empty(),
    }
}

/// The template that a finished scope gives.
pub open spec fn template(scope: ScopeView, name: Seq<char>, arity: nat) -> FunctionView {
    FunctionView {
        name,
        arity: arity as usize,
        code: scope.code,
        upvalue_count: scope.upvalues.len() as usize,
    }
}

/// The code of a statement: it leaves the stack as high as it found it,
/// but for a local that it declares.
pub open spec fn compile_stmt_spec(c: Seq<ScopeView>, stmt: StmtView) -> Seq<ScopeView>
    decreases stmt, 0nat,
{
    match stmt {
        StmtView::Expr(e) => emit(compile_expr_spec(c, e), CodeView::Pop),
        StmtView::Print(e) => emit(compile_expr_spec(c, e), CodeView::Print),
        StmtView::VariableDeclaration { name, initializer } => declare(
            compile_optional_spec(c, initializer, CodeView::Nil),
            name,
        ),
        StmtView::Block(stmts) => after_scope_spec(
            compile_stmts_spec(before_scope_spec(c), stmts, stmts.len()),
        ),
        StmtView::If { condition, then_branch, else_branch } => {
            let c1 = compile_expr_spec(c, condition);
            let to_else = position(c1);
            let c2 = emit(emit(c1, CodeView::JumpIfFalse(0)), CodeView::Pop);
            let c3 = compile_stmt_spec(c2, *then_branch);
            let to_end = position(c3);
            let c4 = emit(patch(emit(c3, CodeView::Jump(0)), to_else), CodeView::Pop);
            let c5 = match else_branch {
                Some(s) => compile_stmt_spec(c4, *s),
                None => c4,
            };
            patch(c5, to_end)
        },
        StmtView::While { condition, body } => {
            let start = position(c);
            let c1 = compile_expr_spec(c, condition);
            let to_end = position(c1);
            let c2 = emit(emit(c1, CodeView::JumpIfFalse(0)), CodeView::Pop);
            let c3 = emit(compile_stmt_spec(c2, *body), CodeView::Jump(start));
            emit(patch(c3, to_end), CodeView::Pop)
        },
        StmtView::For { initializer, condition, increment, body } => {
            let c0 = match initializer {
                Some(s) => compile_stmt_spec(c, *s),
                None => c,
            };
            let start = position(c0);
            let c1 = compile_optional_spec(c0, condition, CodeView::True);
            let to_end = position(c1);
            let c2 = emit(emit(c1, CodeView::JumpIfFalse(0)), CodeView::Pop);
            let c3 = compile_stmt_spec(c2, *body);
            let c4 = match increment {
                Some(e) => emit(compile_expr_spec(c3, e), CodeView::Pop),
                None => c3,
            };
            emit(patch(emit(c4, CodeView::Jump(start)), to_end), CodeView::Pop)
        },
        StmtView::FunctionDeclaration(function) => declare(
            compile_function_spec(c, function),
            function.name,
        ),
        StmtView::Return(value) => emit(
            compile_optional_spec(c, value, CodeView::Nil),
            CodeView::Return,
        ),
    }
}

/// The code of the first `n` of `stmts`, in order.
pub open spec fn compile_stmts_spec(c: Seq<ScopeView>, stmts: Seq<StmtView>, n: nat) -> Seq<
    ScopeView,
>
    decreases stmts, n,
{
    if n == 0 || n > stmts.len() {
        c
    } else {
        compile_stmt_spec(compile_stmts_spec(c, stmts, (n - 1) as nat), stmts[n - 1])
    }
}

/// A function declaration up to the instruction that creates its closure:
/// the body is compiled in a scope of its own, and the enclosing function
/// gets a `Closure` with the template and what the body captured.
pub open spec fn compile_function_spec(c: Seq<ScopeView>, function: DeclarationView) -> Seq<
    ScopeView,
>
    decreases function, 0nat,
{
    let inner = compile_stmts_spec(
        c.push(function_scope(function.params)),
        function.body,
        function.body.len(),
    );
    let done = inner.last();
    emit(
        inner.drop_last(),
        CodeView::Closure {
            function: template(done, function.name, function.params.len()),
            upvalues: done.upvalues,
        },
    )
}

/// The template of a whole program, called `main`.
pub open spec fn compile_program_spec(stmts: Seq<StmtView>) -> FunctionView {
    template(
        compile_stmts_spec(seq![function_scope(Seq::empty())], stmts, stmts.len()).last(),
        "main"@,
        0,
    )
}

} // verus!
