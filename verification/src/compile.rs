//! The compiler: lowers statements to instructions in a single pass.
use crate::bytecode::{Chunk, Code, CodeView, CompiledFunction, Upvalue};
use crate::compile_spec::{
    capture_ok, captures_ok, codes_ok, compiler_ok, keeps_captures, lemma_keeps_captures, access,
    after_scope_spec, before_scope_spec, binary_code, capture, compile_expr_spec,
    compile_exprs_spec, compile_function_spec, compile_optional_spec, compile_program_spec,
    compile_stmt_spec, compile_stmts_spec, declare, emit, find_local, find_upvalue, function_scope,
    grows, lemma_find_local_in_range, patch, position, record, resolve_upvalue_spec, set_top,
    template, unwind, LocalView, ScopeView,
};
use crate::discipline::{
    code_ok, function_ok, instruction_ok, lemma_code_ok_push, lemma_code_ok_update,
};
use crate::number::{all_digits, number_parse};
use crate::op::Op;
use crate::syntax::{expr_view, stmt_view, stmts_view, words_view, Expr, Function, Stmt};
use crate::text::chars_of;
use crate::word::Word;
use vstd::prelude::*;
use vstd::string::StringExecFns;

verus! {

/// A local variable at compile time.
#[derive(Debug)]
pub struct Local {
    name: String,
    depth: usize,
    /// Whether a closure captures this variable. Such a local is closed,
    /// not popped, when its block ends.
    is_captured: bool,
}

impl View for Local {
    type V = LocalView;

    closed spec fn view(&self) -> LocalView {
        LocalView { name: self.name@, depth: self.depth, is_captured: self.is_captured }
    }
}

impl Local {
    pub fn new(name: &str, depth: usize) -> (r: Self)
        ensures
            r@ == (LocalView { name: name@, depth, is_captured: false }),
    {
        Self { name: String::from_str(name), depth, is_captured: false }
    }
}

/// What the compiler knows of one function while it compiles its body.
#[derive(Debug)]
struct FunctionScope {
    locals: Vec<Local>,
    scope_depth: usize,
    upvalues: Vec<Upvalue>,
    chunk: Chunk,
}

spec fn locals_view(locals: Seq<Local>) -> Seq<LocalView> {
    Seq::new(locals.len(), |i: int| locals[i]@)
}

spec fn scope_view(scope: FunctionScope) -> ScopeView {
    ScopeView {
        locals: locals_view(scope.locals@),
        scope_depth: scope.scope_depth,
        upvalues: scope.upvalues@,
        code: scope.chunk@,
    }
}

/// The state of a compilation: one scope for each function that is being
/// compiled, the innermost last.
#[derive(Debug)]
pub struct Compiler {
    scopes: Vec<FunctionScope>,
}

impl View for Compiler {
    type V = Seq<ScopeView>;

    closed spec fn view(&self) -> Seq<ScopeView> {
        Seq::new(self.scopes@.len(), |i: int| scope_view(self.scopes@[i]))
    }
}

/// A new scope for a function with the parameters `params`.
fn new_scope(params: &Vec<Word>) -> (r: FunctionScope)
    ensures
        scope_view(r) == function_scope(words_view(params@)),
{
    let mut locals: Vec<Local> = Vec::new();
    locals.push(Local::new("", 0));
    let mut i: usize = 0;
    proof {
        reveal_strlit("");
        assert(""@ =~= Seq::<char>::empty());
    }
    while i < params.len()
        invariant
            i <= params.len(),
            locals.len() == i + 1,
            locals[0]@ == (LocalView { name: Seq::empty(), depth: 0, is_captured: false }),
            forall|j: int|
                1 <= j <= i ==> (#[trigger] locals[j])@ == (LocalView {
                    name: params[j - 1]@,
                    depth: 0,
                    is_captured: false,
                }),
        decreases params.len() - i,
    {
        locals.push(Local::new(params[i].as_str(), 0));
        i += 1;
    }
    let scope = FunctionScope {
        locals,
        scope_depth: 0,
        upvalues: Vec::new(),
        chunk: Chunk::default(),
    };
    assert(scope_view(scope).locals =~= function_scope(words_view(params@)).locals);
    scope
}

/// A state stays as it should be when an instruction that is well formed
/// is emitted.
proof fn lemma_emit_ok(c: Seq<ScopeView>, code: CodeView)
    requires
        compiler_ok(c),
        instruction_ok(code, c.last().code.len() + 1),
    ensures
        compiler_ok(emit(c, code)),
{
    lemma_code_ok_push(c.last().code, code);
    lemma_top_change_ok(c, emit(c, code).last());
}

/// A state stays as it should be when the current function is changed in
/// its locals, its depth, or its code, if the code stays well formed.
proof fn lemma_top_change_ok(c: Seq<ScopeView>, scope: ScopeView)
    requires
        compiler_ok(c),
        scope.upvalues == c.last().upvalues,
        code_ok(scope.code),
    ensures
        compiler_ok(set_top(c, scope)),
{
    let later = set_top(c, scope);
    assert(keeps_captures(c, later));
    lemma_keeps_captures(c, later);
    assert forall|level: int| 0 <= level < later.len() implies code_ok(
        #[trigger] later[level].code,
    ) by {
        if level < c.len() - 1 {
            assert(code_ok(c[level].code));
        }
    }
}

/// A state stays as it should be when a function records a captured
/// variable that is there to capture.
proof fn lemma_record_ok(c: Seq<ScopeView>, level: int, upvalue: Upvalue)
    requires
        compiler_ok(c),
        0 <= level < c.len(),
        level >= 1 ==> capture_ok(c, level, upvalue),
    ensures
        compiler_ok(record(c, level, upvalue).0),
{
    let later = record(c, level, upvalue).0;
    assert forall|k: int| 0 <= k < later.len() implies code_ok(#[trigger] later[k].code) by {
        assert(code_ok(c[k].code));
    }
    assert forall|k: int, j: int|
        1 <= k < later.len() && 0 <= j < later[k].upvalues.len() implies capture_ok(
        later,
        k,
        #[trigger] later[k].upvalues[j],
    ) by {
        if k == level && j >= c[k].upvalues.len() {
            assert(later[k].upvalues[j] == upvalue);
        } else {
            assert(later[k].upvalues[j] == c[k].upvalues[j]);
            assert(capture_ok(c, k, c[k].upvalues[j]));
        }
    }
}

/// A state stays as it should be when a local of an enclosing function is
/// marked as captured.
proof fn lemma_capture_ok(c: Seq<ScopeView>, level: int, slot: usize)
    requires
        compiler_ok(c),
        0 < level < c.len(),
        slot < c[level - 1].locals.len(),
    ensures
        compiler_ok(capture(c, level, slot)),
        capture_ok(capture(c, level, slot), level, Upvalue { index: slot, is_local: true }),
{
    let later = capture(c, level, slot);
    assert forall|k: int| 0 <= k < later.len() implies code_ok(#[trigger] later[k].code) by {
        assert(code_ok(c[k].code));
    }
    assert forall|k: int, j: int|
        1 <= k < later.len() && 0 <= j < later[k].upvalues.len() implies capture_ok(
        later,
        k,
        #[trigger] later[k].upvalues[j],
    ) by {
        assert(later[k].upvalues[j] == c[k].upvalues[j]);
        assert(capture_ok(c, k, c[k].upvalues[j]));
    }
}

/// A state stays as it should be when the compiler enters a function.
proof fn lemma_enter_ok(c: Seq<ScopeView>, scope: ScopeView)
    requires
        codes_ok(c),
        captures_ok(c),
        scope.upvalues.len() == 0,
        scope.code.len() == 0,
    ensures
        compiler_ok(c.push(scope)),
{
    let later = c.push(scope);
    assert forall|k: int| 0 <= k < later.len() implies code_ok(#[trigger] later[k].code) by {
        if k < c.len() {
            assert(code_ok(c[k].code));
        }
    }
    assert forall|k: int, j: int|
        1 <= k < later.len() && 0 <= j < later[k].upvalues.len() implies capture_ok(
        later,
        k,
        #[trigger] later[k].upvalues[j],
    ) by {
        assert(k < c.len());
        assert(later[k].upvalues[j] == c[k].upvalues[j]);
        assert(capture_ok(c, k, c[k].upvalues[j]));
    }
}

/// What holds of the states around a function body that has just been
/// compiled: `c` is the state without the function, `done` what the
/// compiler knew of the function at its end.
spec fn body_ok(c: Seq<ScopeView>, done: ScopeView) -> bool {
    &&& codes_ok(c)
    &&& captures_ok(c)
    &&& code_ok(done.code)
    &&& forall|j: int|
        c.len() > 0 && 0 <= j < done.upvalues.len() ==> capture_ok(
            c.push(done),
            c.len() as int,
            #[trigger] done.upvalues[j],
        )
}

/// What is as it should be stays so when the compiler leaves a function.
proof fn lemma_leave_ok(c: Seq<ScopeView>)
    requires
        compiler_ok(c),
    ensures
        body_ok(c.drop_last(), c.last()),
{
    let earlier = c.drop_last();
    assert(earlier.push(c.last()) =~= c);
    assert forall|k: int| 0 <= k < earlier.len() implies code_ok(#[trigger] earlier[k].code) by {
        assert(code_ok(c[k].code));
    }
    assert forall|k: int, j: int|
        1 <= k < earlier.len() && 0 <= j < earlier[k].upvalues.len() implies capture_ok(
        earlier,
        k,
        #[trigger] earlier[k].upvalues[j],
    ) by {
        assert(earlier[k].upvalues[j] == c[k].upvalues[j]);
        assert(capture_ok(c, k, c[k].upvalues[j]));
    }
    assert forall|j: int| earlier.len() > 0 && 0 <= j < c.last().upvalues.len() implies capture_ok(
        c,
        earlier.len() as int,
        #[trigger] c.last().upvalues[j],
    ) by {
        assert(c.last().upvalues[j] == c[c.len() - 1].upvalues[j]);
    }
}

/// The last instruction of the current function creates a closure that
/// captures as many variables as its template says; its template is well
/// formed; and every local of the current function that it captures is
/// marked as captured.
pub open spec fn closure_ok(c: Seq<ScopeView>) -> bool {
    &&& c.len() > 0
    &&& c.last().code.len() > 0
    &&& match c.last().code.last() {
        CodeView::Closure { function, upvalues } => {
            &&& upvalues.len() == function.upvalue_count
            &&& function_ok(function)
            &&& forall|j: int|
                0 <= j < upvalues.len() && (#[trigger] upvalues[j]).is_local ==> upvalues[j].index
                    < c.last().locals.len() && c.last().locals[upvalues[j].index as int].is_captured
        },
        _ => false,
    }
}

impl Compiler {
    /// A compiler that is about to read the main program.
    pub fn new() -> (r: Self)
        ensures
            r@ == seq![function_scope(Seq::empty())],
            compiler_ok(r@),
    {
        let params: Vec<Word> = Vec::new();
        let mut scopes: Vec<FunctionScope> = Vec::new();
        scopes.push(new_scope(&params));
        let r = Compiler { scopes };
        assert(words_view(params@) =~= Seq::<Seq<char>>::empty());
        assert(r@ =~= seq![function_scope(Seq::empty())]);
        proof {
            lemma_enter_ok(Seq::empty(), function_scope(Seq::empty()));
            assert(Seq::<ScopeView>::empty().push(function_scope(Seq::empty())) =~= r@);
        }
        r
    }

    /// Appends an instruction to the current function and returns its index.
    pub fn emit(&mut self, code: Code) -> (index: usize)
        requires
            old(self)@.len() > 0,
        ensures
            final(self)@ == emit(old(self)@, code@),
            index == position(old(self)@),
            grows(old(self)@, final(self)@),
            final(self)@.last().code.len() == old(self)@.last().code.len() + 1,
            compiler_ok(old(self)@) && instruction_ok(
                code@,
                old(self)@.last().code.len() + 1,
            ) ==> compiler_ok(final(self)@),
    {
        let top = self.scopes.len() - 1;
        let scope = &mut self.scopes[top];
        let index = scope.chunk.emit_byte(code);
        assert(self@ =~= emit(old(self)@, code@));
        proof {
            if compiler_ok(old(self)@) && instruction_ok(
                code@,
                old(self)@.last().code.len() + 1,
            ) {
                lemma_emit_ok(old(self)@, code@);
            }
        }
        index
    }

    /// The index that the next instruction gets.
    pub fn position(&self) -> (index: usize)
        requires
            self@.len() > 0,
        ensures
            index == position(self@),
    {
        let top = self.scopes.len() - 1;
        self.scopes[top].chunk.len()
    }

    /// Binds the value on top of the stack to a new variable.
    pub fn declare(&mut self, name: &Word)
        requires
            old(self)@.len() > 0,
        ensures
            final(self)@ == declare(old(self)@, name@),
            grows(old(self)@, final(self)@),
            compiler_ok(old(self)@) ==> compiler_ok(final(self)@),
    {
        let top = self.scopes.len() - 1;
        if self.scopes[top].scope_depth == 0 {
            self.emit(Code::GlobalVarDeclaration { name: name.string.clone() });
        } else {
            let scope = &mut self.scopes[top];
            let local = Local::new(name.as_str(), scope.scope_depth);
            scope.locals.push(local);
            assert(scope_view(self.scopes@[top as int]).locals =~= scope_view(
                old(self).scopes@[top as int],
            ).locals.push(local@));
            assert(self@ =~= declare(old(self)@, name@));
            proof {
                if compiler_ok(old(self)@) {
                    lemma_top_change_ok(old(self)@, self@.last());
                }
            }
        }
    }
}

/// Makes the jump at index `jump` of the current function lead to the
/// current position.
pub fn patch_jump(jump: usize, compiler: &mut Compiler)
    requires
        old(compiler)@.len() > 0,
        jump < old(compiler)@.last().code.len(),
    ensures
        final(compiler)@ == patch(old(compiler)@, jump),
        grows(old(compiler)@, final(compiler)@),
        final(compiler)@.last().code.len() == old(compiler)@.last().code.len(),
        compiler_ok(old(compiler)@) ==> compiler_ok(final(compiler)@),
{
    let top = compiler.scopes.len() - 1;
    let scope = &mut compiler.scopes[top];
    let offset = scope.chunk.len();
    let ghost before = scope.chunk@;
    let code = scope.chunk.read_byte_mut(jump);
    match code {
        Code::Jump(ip) => {
            *ip = offset;
        },
        Code::JumpIfFalse(ip) => {
            *ip = offset;
        },
        _ => {},
    }
    proof {
        let after = scope_view(compiler.scopes@[top as int]).code;
        match before[jump as int] {
            CodeView::Jump(_) => {
                assert(after == before.update(jump as int, CodeView::Jump(offset)));
            },
            CodeView::JumpIfFalse(_) => {
                assert(after == before.update(jump as int, CodeView::JumpIfFalse(offset)));
            },
            _ => {
                assert(after =~= before);
            },
        }
        assert(compiler@ =~= patch(old(compiler)@, jump));
        if compiler_ok(old(compiler)@) {
            match before[jump as int] {
                CodeView::Jump(_) => {
                    lemma_code_ok_update(before, jump as int, CodeView::Jump(offset));
                },
                CodeView::JumpIfFalse(_) => {
                    lemma_code_ok_update(before, jump as int, CodeView::JumpIfFalse(offset));
                },
                _ => {},
            }
            lemma_top_change_ok(old(compiler)@, compiler@.last());
        }
    }
}

/// Opens a block.
pub fn before_scope(compiler: &mut Compiler)
    requires
        old(compiler)@.len() > 0,
    ensures
        final(compiler)@ == before_scope_spec(old(compiler)@),
        grows(old(compiler)@, final(compiler)@),
        final(compiler)@.last().code.len() == old(compiler)@.last().code.len(),
        compiler_ok(old(compiler)@) ==> compiler_ok(final(compiler)@),
{
    let top = compiler.scopes.len() - 1;
    let scope = &mut compiler.scopes[top];
    if scope.scope_depth < usize::MAX {
        scope.scope_depth += 1;
    }
    assert(compiler@ =~= before_scope_spec(old(compiler)@));
    proof {
        if compiler_ok(old(compiler)@) {
            lemma_top_change_ok(old(compiler)@, compiler@.last());
        }
    }
}

/// Closes a block: its locals are discarded, the last first.
pub fn after_scope(compiler: &mut Compiler)
    requires
        old(compiler)@.len() > 0,
    ensures
        final(compiler)@ == after_scope_spec(old(compiler)@),
        grows(old(compiler)@, final(compiler)@),
        compiler_ok(old(compiler)@) ==> compiler_ok(final(compiler)@),
{
    let top = compiler.scopes.len() - 1;
    let scope = &mut compiler.scopes[top];
    if scope.scope_depth > 0 {
        scope.scope_depth -= 1;
    }
    let ghost start = scope_view(*scope);
    while scope.locals.len() > 0 && scope.locals[scope.locals.len() - 1].depth > scope.scope_depth
        invariant
            unwind(scope_view(*scope)) == unwind(start),
            scope_view(*scope).code.len() >= start.code.len(),
            scope_view(*scope).upvalues == start.upvalues,
            code_ok(start.code) ==> code_ok(scope_view(*scope).code),
        decreases scope.locals.len(),
    {
        let ghost before = scope_view(*scope);
        let local = scope.locals.pop().unwrap();
        if local.is_captured {
            scope.chunk.emit_byte(Code::CloseUpvalue);
            proof {
                if code_ok(before.code) {
                    lemma_code_ok_push(before.code, CodeView::CloseUpvalue);
                }
            }
        } else {
            scope.chunk.emit_byte(Code::Pop);
            proof {
                if code_ok(before.code) {
                    lemma_code_ok_push(before.code, CodeView::Pop);
                }
            }
        }
        proof {
            assert(before.locals.last() == local@);
            assert(scope_view(*scope).locals =~= before.locals.drop_last());
        }
    }
    proof {
        let done = scope_view(*scope);
        assert(done.locals.len() > 0 ==> done.locals.last() == scope.locals@.last()@);
        assert(unwind(done) == done);
    }
    assert(compiler@ =~= after_scope_spec(old(compiler)@));
    proof {
        if compiler_ok(old(compiler)@) {
            assert(code_ok(old(compiler)@.last().code));
            lemma_top_change_ok(old(compiler)@, compiler@.last());
        }
    }
}

/// The slot of the innermost local of the function at `level` that is
/// called `name`.
pub fn resolve_local(compiler: &Compiler, level: usize, name: &String) -> (r: Option<usize>)
    requires
        level < compiler@.len(),
    ensures
        r == find_local(compiler@[level as int].locals, name@),
{
    let locals = &compiler.scopes[level].locals;
    let mut i: usize = locals.len();
    assert(locals_view(locals@).take(i as int) =~= locals_view(locals@));
    while i > 0
        invariant
            i <= locals.len(),
            level < compiler@.len(),
            compiler@[level as int].locals == locals_view(locals@),
            find_local(locals_view(locals@), name@) == find_local(
                locals_view(locals@).take(i as int),
                name@,
            ),
        decreases i,
    {
        let ghost prefix = locals_view(locals@).take(i as int);
        i -= 1;
        assert(prefix.last() == locals@[i as int]@);
        assert(prefix.drop_last() =~= locals_view(locals@).take(i as int));
        if locals[i].name == *name {
            assert(find_local(prefix, name@) == Some(i));
            return Some(i);
        }
    }
    None
}

/// Records a captured variable of the function at `level`, unless the same
/// one is recorded already, and gives its index.
fn add_upvalue_at(compiler: &mut Compiler, level: usize, upvalue: Upvalue) -> (r: usize)
    requires
        level < old(compiler)@.len(),
    ensures
        (final(compiler)@, Some(r)) == record(old(compiler)@, level as int, upvalue),
        r < final(compiler)@[level as int].upvalues.len(),
        final(compiler)@[level as int].upvalues[r as int] == upvalue,
        compiler_ok(old(compiler)@) && (level >= 1 ==> capture_ok(
            old(compiler)@,
            level as int,
            upvalue,
        )) ==> compiler_ok(final(compiler)@),
{
    let mut i: usize = 0;
    while i < compiler.scopes[level].upvalues.len()
        invariant
            level < compiler.scopes@.len(),
            i <= compiler.scopes@[level as int].upvalues@.len(),
            find_upvalue(compiler.scopes@[level as int].upvalues@, upvalue, 0) == find_upvalue(
                compiler.scopes@[level as int].upvalues@,
                upvalue,
                i as int,
            ),
        decreases compiler.scopes@[level as int].upvalues@.len() - i,
    {
        let known = compiler.scopes[level].upvalues[i];
        if known.index == upvalue.index && known.is_local == upvalue.is_local {
            assert(known == upvalue);
            assert(find_upvalue(compiler.scopes@[level as int].upvalues@, upvalue, i as int)
                == Some(i));
            assert(compiler@ =~= record(compiler@, level as int, upvalue).0);
            return i;
        }
        i += 1;
    }
    assert(find_upvalue(compiler.scopes@[level as int].upvalues@, upvalue, i as int) is None);
    let scope = &mut compiler.scopes[level];
    scope.upvalues.push(upvalue);
    let index = scope.upvalues.len() - 1;
    assert(compiler@ =~= record(old(compiler)@, level as int, upvalue).0);
    proof {
        if compiler_ok(old(compiler)@) && (level >= 1 ==> capture_ok(
            old(compiler)@,
            level as int,
            upvalue,
        )) {
            lemma_record_ok(old(compiler)@, level as int, upvalue);
        }
    }
    index
}

/// Marks local `slot` of the function at `level - 1` as captured.
fn capture_at(compiler: &mut Compiler, level: usize, slot: usize)
    requires
        0 < level < old(compiler)@.len(),
        slot < old(compiler)@[level - 1].locals.len(),
    ensures
        final(compiler)@ == capture(old(compiler)@, level as int, slot),
        compiler_ok(old(compiler)@) ==> compiler_ok(final(compiler)@) && capture_ok(
            final(compiler)@,
            level as int,
            Upvalue { index: slot, is_local: true },
        ),
{
    let scope = &mut compiler.scopes[level - 1];
    let local = &mut scope.locals[slot];
    local.is_captured = true;
    assert(scope_view(compiler.scopes@[level - 1]).locals =~= capture(
        old(compiler)@,
        level as int,
        slot,
    )[level - 1].locals);
    assert(compiler@ =~= capture(old(compiler)@, level as int, slot));
    proof {
        if compiler_ok(old(compiler)@) {
            lemma_capture_ok(old(compiler)@, level as int, slot);
        }
    }
}

/// Looks for `name` in the functions that enclose the one at `level`, and
/// records what it finds in every function on the way.
pub fn resolve_upvalue(compiler: &mut Compiler, level: usize, name: &String) -> (r: Option<usize>)
    requires
        level < old(compiler)@.len(),
    ensures
        (final(compiler)@, r) == resolve_upvalue_spec(old(compiler)@, level as int, name@),
        final(compiler)@.len() == old(compiler)@.len(),
        forall|k: int|
            0 <= k < old(compiler)@.len() ==> (#[trigger] final(compiler)@[k]).code == old(
                compiler,
            )@[k].code && final(compiler)@[k].locals.len() == old(compiler)@[k].locals.len(),
        match r {
            Some(index) => index < final(compiler)@[level as int].upvalues.len(),
            None => true,
        },
        compiler_ok(old(compiler)@) ==> compiler_ok(final(compiler)@),
    decreases level,
{
    if level == 0 {
        return None;
    }
    match resolve_local(compiler, level - 1, name) {
        Some(slot) => {
            proof {
                lemma_find_local_in_range(compiler@[level - 1].locals, name@);
            }
            capture_at(compiler, level, slot);
            Some(add_upvalue_at(compiler, level, Upvalue { index: slot, is_local: true }))
        },
        None => {
            match resolve_upvalue(compiler, level - 1, name) {
                Some(index) => Some(
                    add_upvalue_at(compiler, level, Upvalue { index, is_local: false }),
                ),
                None => None,
            }
        },
    }
}

/// Emits the instruction that reads or writes the variable called `name`.
pub fn compile_access(compiler: &mut Compiler, name: &Word, write: bool)
    requires
        old(compiler)@.len() > 0,
    ensures
        final(compiler)@ == access(old(compiler)@, name@, write),
        grows(old(compiler)@, final(compiler)@),
        compiler_ok(old(compiler)@) ==> compiler_ok(final(compiler)@),
{
    let top = compiler.scopes.len() - 1;
    match resolve_local(compiler, top, &name.string) {
        Some(slot) => {
            if write {
                compiler.emit(Code::WriteLocalVariable { index_in_stack: slot });
            } else {
                compiler.emit(Code::ReadLocalVariable { index_in_stack: slot });
            }
        },
        None => {
            match resolve_upvalue(compiler, top, &name.string) {
                Some(index) => {
                    if write {
                        compiler.emit(Code::WriteUpvalue { index });
                    } else {
                        compiler.emit(Code::ReadUpvalue { index });
                    }
                },
                None => {
                    if write {
                        compiler.emit(Code::WriteGlobalVariable { name: name.string.clone() });
                    } else {
                        compiler.emit(Code::ReadGlobalVariable { name: name.string.clone() });
                    }
                },
            }
        },
    }
}

/// Whether `text` is a non-empty run of ASCII digits.
fn is_number(text: &str) -> (r: bool)
    ensures
        r == (text@.len() > 0 && all_digits(text@)),
{
    let chars = chars_of(text);
    if chars.len() == 0 {
        return false;
    }
    let mut i: usize = 0;
    while i < chars.len()
        invariant
            i <= chars.len(),
            chars@ == text@,
            forall|j: int| 0 <= j < i ==> '0' <= #[trigger] text@[j] <= '9',
        decreases chars.len() - i,
    {
        if !(chars[i] >= '0' && chars[i] <= '9') {
            return false;
        }
        i += 1;
    }
    true
}

/// The instruction of a two-operand operator.
fn binary_instruction(op: Op) -> (r: Option<Code>)
    ensures
        match r {
            Some(code) => binary_code(op) == Some(code@),
            None => binary_code(op) is None,
        },
{
    match op {
        Op::Plus => Some(Code::Add),
        Op::Minus => Some(Code::Subtract),
        Op::Slash => Some(Code::Divide),
        Op::Star => Some(Code::Multiply),
        Op::EqualEqual => Some(Code::Equal),
        Op::NotEqual => Some(Code::NotEqual),
        Op::Greater => Some(Code::Greater),
        Op::GreaterEqual => Some(Code::GreaterEqual),
        Op::Less => Some(Code::Less),
        Op::LessEqual => Some(Code::LessEqual),
        _ => None,
    }
}

/// Compiles an expression: the code leaves its value on top of the stack.
pub fn compile_expr(compiler: &mut Compiler, expr: &Expr)
    requires
        old(compiler)@.len() > 0,
    ensures
        final(compiler)@ == compile_expr_spec(old(compiler)@, expr@),
        grows(old(compiler)@, final(compiler)@),
        compiler_ok(old(compiler)@) ==> compiler_ok(final(compiler)@),
    decreases expr,
{
    match expr {
        Expr::NumberLiteral(word) => {
            if is_number(word.as_str()) {
                compiler.emit(Code::Constant(number_parse(word.as_str())));
            } else {
                compiler.emit(Code::Nil);
            }
        },
        Expr::StringLiteral(word) => {
            compiler.emit(Code::String(word.string.clone()));
        },
        Expr::BooleanLiteral(value) => {
            if *value {
                compiler.emit(Code::True);
            } else {
                compiler.emit(Code::False);
            }
        },
        Expr::NilLiteral => {
            compiler.emit(Code::Nil);
        },
        Expr::BinaryOp(left, op, right) => {
            compile_expr(compiler, &**left);
            compile_expr(compiler, &**right);
            match binary_instruction(*op) {
                Some(code) => {
                    compiler.emit(code);
                },
                None => {
                    compiler.emit(Code::Pop);
                },
            }
        },
        Expr::UnaryOp(op, operand) => {
            compile_expr(compiler, &**operand);
            match op {
                Op::Minus => {
                    compiler.emit(Code::Negate);
                },
                Op::Bang => {
                    compiler.emit(Code::Not);
                },
                _ => {},
            }
        },
        Expr::Parenthesized(inner) => {
            compile_expr(compiler, &**inner);
        },
        Expr::Variable(word) => {
            compile_access(compiler, word, false);
        },
        Expr::Assign { name, value } => {
            compile_expr(compiler, &**value);
            compile_access(compiler, name, true);
        },
        Expr::LogicalAnd(left, right) => {
            compile_expr(compiler, &**left);
            let skip = compiler.emit(Code::JumpIfFalse(0));
            compiler.emit(Code::Pop);
            compile_expr(compiler, &**right);
            patch_jump(skip, compiler);
        },
        Expr::LogicalOr(left, right) => {
            compile_expr(compiler, &**left);
            let to_right = compiler.emit(Code::JumpIfFalse(0));
            let to_end = compiler.emit(Code::Jump(0));
            patch_jump(to_right, compiler);
            compiler.emit(Code::Pop);
            compile_expr(compiler, &**right);
            patch_jump(to_end, compiler);
        },
        Expr::Call { callee, arguments } => {
            compile_expr(compiler, &**callee);
            let ghost start = compiler@;
            let ghost shown = expr@->Call_arguments;
            let mut i: usize = 0;
            while i < arguments.len()
                invariant
                    i <= arguments.len(),
                    shown.len() == arguments.len(),
                    forall|j: int| 0 <= j < arguments.len() ==> shown[j] == expr_view(arguments[j]),
                    compiler@ == compile_exprs_spec(start, shown, i as nat),
                    grows(start, compiler@),
                    compiler@.len() > 0,
                    compiler_ok(start) ==> compiler_ok(compiler@),
                    decreases_to!(expr => arguments),
                decreases arguments.len() - i,
            {
                compile_expr(compiler, &arguments[i]);
                i += 1;
            }
            compiler.emit(Code::Call { arity: arguments.len() });
        },
    }
}

/// Compiles an expression if there is one, else emits `otherwise`.
fn compile_optional(compiler: &mut Compiler, expr: &Option<Expr>, otherwise: Code)
    requires
        old(compiler)@.len() > 0,
    ensures
        final(compiler)@ == compile_optional_spec(
            old(compiler)@,
            crate::syntax::optional_expr_view(*expr),
            otherwise@,
        ),
        grows(old(compiler)@, final(compiler)@),
        compiler_ok(old(compiler)@) && instruction_ok(otherwise@, 0) ==> compiler_ok(
            final(compiler)@,
        ),
{
    match expr {
        Some(e) => {
            compile_expr(compiler, e);
        },
        None => {
            compiler.emit(otherwise);
        },
    }
}

/// Compiles a statement.
pub fn compile_stmt(compiler: &mut Compiler, stmt: &Stmt)
    requires
        old(compiler)@.len() > 0,
    ensures
        final(compiler)@ == compile_stmt_spec(old(compiler)@, stmt@),
        grows(old(compiler)@, final(compiler)@),
        compiler_ok(old(compiler)@) ==> compiler_ok(final(compiler)@),
    decreases stmt,
{
    match stmt {
        Stmt::Expr(expr) => {
            compile_expr(compiler, expr);
            compiler.emit(Code::Pop);
        },
        Stmt::Print(expr) => {
            compile_expr(compiler, expr);
            compiler.emit(Code::Print);
        },
        Stmt::VariableDeclaration { name, initializer } => {
            compile_optional(compiler, initializer, Code::Nil);
            compiler.declare(name);
        },
        Stmt::Block(stmts) => {
            before_scope(compiler);
            let ghost start = compiler@;
            let ghost shown = stmt@->Block_0;
            let mut i: usize = 0;
            while i < stmts.len()
                invariant
                    i <= stmts.len(),
                    shown.len() == stmts.len(),
                    forall|j: int| 0 <= j < stmts.len() ==> shown[j] == stmt_view(stmts[j]),
                    compiler@ == compile_stmts_spec(start, shown, i as nat),
                    grows(start, compiler@),
                    compiler@.len() > 0,
                    compiler_ok(start) ==> compiler_ok(compiler@),
                    decreases_to!(stmt => stmts),
                decreases stmts.len() - i,
            {
                compile_stmt(compiler, &stmts[i]);
                i += 1;
            }
            after_scope(compiler);
        },
        Stmt::If { condition, then_branch, else_branch } => {
            compile_expr(compiler, condition);
            let to_else = compiler.emit(Code::JumpIfFalse(0));
            compiler.emit(Code::Pop);
            compile_stmt(compiler, &**then_branch);
            let to_end = compiler.emit(Code::Jump(0));
            patch_jump(to_else, compiler);
            compiler.emit(Code::Pop);
            match else_branch {
                Some(s) => {
                    compile_stmt(compiler, &**s);
                },
                None => {},
            }
            patch_jump(to_end, compiler);
        },
        Stmt::While { condition, body } => {
            let start = compiler.position();
            compile_expr(compiler, condition);
            let to_end = compiler.emit(Code::JumpIfFalse(0));
            compiler.emit(Code::Pop);
            compile_stmt(compiler, &**body);
            compiler.emit(Code::Jump(start));
            patch_jump(to_end, compiler);
            compiler.emit(Code::Pop);
        },
        Stmt::For { initializer, condition, increment, body } => {
            match initializer {
                Some(s) => {
                    compile_stmt(compiler, &**s);
                },
                None => {},
            }
            let start = compiler.position();
            compile_optional(compiler, condition, Code::True);
            let to_end = compiler.emit(Code::JumpIfFalse(0));
            compiler.emit(Code::Pop);
            compile_stmt(compiler, &**body);
            match increment {
                Some(e) => {
                    compile_expr(compiler, e);
                    compiler.emit(Code::Pop);
                },
                None => {},
            }
            compiler.emit(Code::Jump(start));
            patch_jump(to_end, compiler);
            compiler.emit(Code::Pop);
        },
        Stmt::FunctionDeclaration(function) => {
            assert(stmt@ == crate::syntax::StmtView::FunctionDeclaration(function@)) by {
                assert(stmt@->FunctionDeclaration_0.body =~= function@.body);
            }
            compile_function(compiler, function);
            compiler.declare(&function.name);
        },
        Stmt::Return(value) => {
            compile_optional(compiler, value, Code::Nil);
            compiler.emit(Code::Return);
        },
    }
}

/// Compiles the body of a function in a scope of its own, and takes the
/// scope off again when the body is done.
fn compile_body(compiler: &mut Compiler, function: &Function) -> (done: FunctionScope)
    ensures
        final(compiler)@ == compile_stmts_spec(
            old(compiler)@.push(function_scope(function@.params)),
            function@.body,
            function@.body.len(),
        ).drop_last(),
        scope_view(done) == compile_stmts_spec(
            old(compiler)@.push(function_scope(function@.params)),
            function@.body,
            function@.body.len(),
        ).last(),
        final(compiler)@.len() == old(compiler)@.len(),
        forall|k: int|
            0 <= k < old(compiler)@.len() ==> (#[trigger] final(compiler)@[k]).code == old(
                compiler,
            )@[k].code && final(compiler)@[k].locals.len() == old(compiler)@[k].locals.len(),
        codes_ok(old(compiler)@) && captures_ok(old(compiler)@) ==> body_ok(
            final(compiler)@,
            scope_view(done),
        ),
    decreases function, 0nat,
{
    compiler.scopes.push(new_scope(&function.params));
    assert(compiler@ =~= old(compiler)@.push(function_scope(function@.params)));
    let ghost start = compiler@;
    proof {
        if codes_ok(old(compiler)@) && captures_ok(old(compiler)@) {
            lemma_enter_ok(old(compiler)@, function_scope(function@.params));
        }
    }
    let ghost shown = function@.body;
    let mut i: usize = 0;
    while i < function.body.len()
        invariant
            i <= function.body.len(),
            shown.len() == function.body.len(),
            forall|j: int| 0 <= j < function.body.len() ==> shown[j] == stmt_view(function.body[j]),
            compiler@ == compile_stmts_spec(start, shown, i as nat),
            grows(start, compiler@),
            compiler@.len() > 0,
            compiler_ok(start) ==> compiler_ok(compiler@),
            decreases_to!(function => function.body),
        decreases function.body.len() - i,
    {
        compile_stmt(compiler, &function.body[i]);
        i += 1;
    }
    let ghost inner = compiler@;
    let done = compiler.scopes.pop().unwrap();
    assert(compiler@ =~= inner.drop_last());
    proof {
        if codes_ok(old(compiler)@) && captures_ok(old(compiler)@) {
            lemma_leave_ok(inner);
            assert(compiler@.push(scope_view(done)) =~= inner);
        }
    }
    done
}

/// Compiles a function declaration up to the instruction that creates its
/// closure. In a state that is as it should be, the closure captures as
/// many variables as its template says, and every local of the enclosing
/// function that it captures is marked as captured.
pub fn compile_function(compiler: &mut Compiler, function: &Function)
    requires
        old(compiler)@.len() > 0,
    ensures
        final(compiler)@ == compile_function_spec(old(compiler)@, function@),
        grows(old(compiler)@, final(compiler)@),
        compiler_ok(old(compiler)@) ==> compiler_ok(final(compiler)@) && closure_ok(
            final(compiler)@,
        ),
    decreases function, 1nat,
{
    let done = compile_body(compiler, function);
    let ghost before = compiler@;
    let ghost finished = scope_view(done);
    let closure = Code::Closure {
        function: CompiledFunction {
            name: function.name.string.clone(),
            arity: function.params.len(),
            chunk: done.chunk,
            upvalue_count: done.upvalues.len(),
        },
        upvalues: done.upvalues,
    };
    proof {
        if compiler_ok(old(compiler)@) {
            assert(body_ok(before, finished));
            assert(function_ok(closure@->Closure_function));
        }
    }
    compiler.emit(closure);
    proof {
        if compiler_ok(old(compiler)@) {
            assert(compiler@.last().locals == before.last().locals);
            assert forall|j: int|
                0 <= j < finished.upvalues.len() && (
                #[trigger] finished.upvalues[j]).is_local implies finished.upvalues[j].index
                < compiler@.last().locals.len() && compiler@.last().locals[finished.upvalues[j].index as int].is_captured by {
                assert(capture_ok(
                    before.push(finished),
                    before.len() as int,
                    finished.upvalues[j],
                ));
            }
        }
    }
}

/// Compiles a function on its own, outside any other.
pub fn compile(function: &Function) -> (r: CompiledFunction)
    ensures
        r@ == template(
            compile_stmts_spec(
                seq![function_scope(function@.params)],
                function@.body,
                function@.body.len(),
            ).last(),
            function@.name,
            function@.params.len(),
        ),
        function_ok(r@),
{
    let mut compiler = Compiler { scopes: Vec::new() };
    assert(compiler@ =~= Seq::<ScopeView>::empty());
    assert(Seq::<ScopeView>::empty().push(function_scope(function@.params)) =~= seq![
        function_scope(function@.params),
    ]);
    let done = compile_body(&mut compiler, function);
    CompiledFunction {
        name: function.name.string.clone(),
        arity: function.params.len(),
        chunk: done.chunk,
        upvalue_count: done.upvalues.len(),
    }
}

/// Compiles a whole program to the template of its main function. Every
/// jump in it, and in every function in it, leads into its chunk or just
/// behind it, and every closure captures as many variables as its template
/// says.
pub fn compile_program(stmts: &Vec<Stmt>) -> (r: CompiledFunction)
    ensures
        r@ == compile_program_spec(stmts_view(stmts@)),
        function_ok(r@),
        r@.code.len() <= usize::MAX,
{
    let mut compiler = Compiler::new();
    let ghost start = compiler@;
    let ghost shown = stmts_view(stmts@);
    let mut i: usize = 0;
    while i < stmts.len()
        invariant
            i <= stmts.len(),
            shown == stmts_view(stmts@),
            compiler@ == compile_stmts_spec(start, shown, i as nat),
            compiler@.len() == 1,
            compiler_ok(compiler@),
        decreases stmts.len() - i,
    {
        compile_stmt(&mut compiler, &stmts[i]);
        i += 1;
    }
    assert(compiler.scopes@.len() == compiler@.len());
    let done = compiler.scopes.pop().unwrap();
    proof {
        done.chunk.lemma_bounded();
    }
    CompiledFunction {
        name: String::from_str("main"),
        arity: 0,
        chunk: done.chunk,
        upvalue_count: done.upvalues.len(),
    }
}

} // verus!
