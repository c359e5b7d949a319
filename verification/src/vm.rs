//! The virtual machine: executes compiled code one instruction at a time.
//!
//! Every stack slot holds the handle of a heap cell, and a captured variable
//! shares the cell of the slot it was captured from. The machine keeps, as
//! ghost state, the number of each cell in order of creation; through it a
//! concrete state stands for a state of [`crate::machine`], and every
//! operation is proved to do what the semantics there say.
use crate::bytecode::{clone_function, Code, CodeView, CompiledFunction, Upvalue};
use crate::globals::Globals;
use crate::heap::{
    arena_contents, arena_generation, arena_in_order, heap_get, heap_insert, heap_new,
    heap_remove, heap_set,
};
use crate::kernel::Kernel;
use crate::machine::{
    binary_step, call_step, closure_step, enter_function, execute, finish_call, initial_state,
    peek_value, pop_value, printed_text, proceed, push_value, read_cell, read_slot,
    resolve_upvalue, resolved_upvalues, spec_run, spec_step, unary_step, upvalues_resolve, with_ip,
    write_cell, ControlFlow, FrameView, VmView,
};
use crate::value::{Handle, RuntimeError, Value, ValueView};
use vstd::prelude::*;

verus! {

/// One call in progress.
#[derive(Debug)]
pub struct CallFrame {
    function: CompiledFunction,
    ip: usize,
    fp: usize,
    upvalues: Vec<Handle>,
}

/// The virtual machine.
pub struct VM {
    frames: Vec<CallFrame>,
    heap: generational_arena::Arena<Value>,
    stack: Vec<Handle>,
    globals: Globals,
    /// How many cells have been released.
    released: u64,
    /// The number of every cell ever created, by its handle.
    ids: Ghost<Map<Handle, nat>>,
    /// The handle of every cell ever created, by its number.
    owners: Ghost<Map<nat, Handle>>,
    next_cell: Ghost<nat>,
}

/// `later` knows every handle that `earlier` knows, under the same number.
spec fn agrees(earlier: Map<Handle, nat>, later: Map<Handle, nat>) -> bool {
    forall|h: Handle| #[trigger]
        earlier.contains_key(h) ==> later.contains_key(h) && later[h] == earlier[h]
}

spec fn handles_known(handles: Seq<Handle>, ids: Map<Handle, nat>) -> bool {
    forall|i: int| 0 <= i < handles.len() ==> ids.contains_key(#[trigger] handles[i])
}

spec fn value_known(value: ValueView<Handle>, ids: Map<Handle, nat>) -> bool {
    match value {
        ValueView::Closure { function, upvalues } => handles_known(upvalues, ids),
        _ => true,
    }
}

spec fn rename_handles(handles: Seq<Handle>, ids: Map<Handle, nat>) -> Seq<nat> {
    Seq::new(handles.len(), |i: int| ids[handles[i]])
}

spec fn rename_value(value: ValueView<Handle>, ids: Map<Handle, nat>) -> ValueView<nat> {
    match value {
        ValueView::Number(n) => ValueView::Number(n),
        ValueView::Boolean(b) => ValueView::Boolean(b),
        ValueView::Nil => ValueView::Nil,
        ValueView::String(s) => ValueView::String(s),
        ValueView::Closure { function, upvalues } => ValueView::Closure {
            function,
            upvalues: rename_handles(upvalues, ids),
        },
    }
}

spec fn frame_view(frame: CallFrame, ids: Map<Handle, nat>) -> FrameView {
    FrameView {
        function: frame.function@,
        ip: frame.ip,
        fp: frame.fp,
        upvalues: rename_handles(frame.upvalues@, ids),
    }
}

spec fn frames_view(frames: Seq<CallFrame>, ids: Map<Handle, nat>) -> Seq<FrameView> {
    Seq::new(frames.len(), |i: int| frame_view(frames[i], ids))
}

spec fn cells_view(
    heap: Map<Handle, Value>,
    ids: Map<Handle, nat>,
    owners: Map<nat, Handle>,
) -> Map<nat, ValueView<nat>> {
    Map::new(
        |c: nat| owners.contains_key(c) && heap.contains_key(owners[c]),
        |c: nat| rename_value(heap[owners[c]]@, ids),
    )
}

spec fn globals_view(globals: Map<Seq<char>, Value>, ids: Map<Handle, nat>) -> Map<
    Seq<char>,
    ValueView<nat>,
> {
    Map::new(
        |name: Seq<char>| globals.contains_key(name),
        |name: Seq<char>| rename_value(globals[name]@, ids),
    )
}

/// The two ghost maps are inverse to each other, and no number is at or
/// above the next one.
spec fn numbering_ok(ids: Map<Handle, nat>, owners: Map<nat, Handle>, next_cell: nat) -> bool {
    &&& forall|h: Handle| #[trigger]
        ids.contains_key(h) ==> ids[h] < next_cell && owners.contains_key(ids[h]) && owners[ids[h]]
            == h
    &&& forall|c: nat| #[trigger]
        owners.contains_key(c) ==> ids.contains_key(owners[c]) && ids[owners[c]] == c
}

/// Every live cell has a number and holds a value whose handles have one;
/// every numbered cell that is gone is of an earlier generation.
spec fn heap_ok(heap: Map<Handle, Value>, ids: Map<Handle, nat>, generation: nat) -> bool {
    &&& forall|h: Handle| #[trigger]
        heap.contains_key(h) ==> ids.contains_key(h) && value_known(heap[h]@, ids)
    &&& forall|h: Handle|
        #[trigger] ids.contains_key(h) && !heap.contains_key(h) ==> h.generation < generation
}

spec fn frames_ok(frames: Seq<CallFrame>, ids: Map<Handle, nat>) -> bool {
    forall|i: int| 0 <= i < frames.len() ==> handles_known((#[trigger] frames[i]).upvalues@, ids)
}

spec fn globals_ok(globals: Map<Seq<char>, Value>, ids: Map<Handle, nat>) -> bool {
    forall|name: Seq<char>| #[trigger]
        globals.contains_key(name) ==> value_known(globals[name]@, ids)
}

proof fn lemma_handles_stable(handles: Seq<Handle>, ids: Map<Handle, nat>, later: Map<Handle, nat>)
    requires
        handles_known(handles, ids),
        agrees(ids, later),
    ensures
        handles_known(handles, later),
        rename_handles(handles, later) == rename_handles(handles, ids),
{
    assert forall|i: int| 0 <= i < handles.len() implies later.contains_key(
        #[trigger] handles[i],
    ) && later[handles[i]] == ids[handles[i]] by {
        assert(ids.contains_key(handles[i]));
    }
    assert(rename_handles(handles, later) =~= rename_handles(handles, ids));
}

proof fn lemma_value_stable(value: ValueView<Handle>, ids: Map<Handle, nat>, later: Map<Handle, nat>)
    requires
        value_known(value, ids),
        agrees(ids, later),
    ensures
        value_known(value, later),
        rename_value(value, later) == rename_value(value, ids),
{
    match value {
        ValueView::Closure { function, upvalues } => {
            lemma_handles_stable(upvalues, ids, later);
        },
        _ => {},
    }
}

impl View for VM {
    type V = VmView;

    closed spec fn view(&self) -> VmView {
        VmView {
            frames: frames_view(self.frames@, self.ids@),
            stack: rename_handles(self.stack@, self.ids@),
            cells: cells_view(arena_contents(self.heap), self.ids@, self.owners@),
            next_cell: self.next_cell@,
            globals: globals_view(self.globals@, self.ids@),
            released: self.released as nat,
        }
    }
}

impl VM {
    /// The bookkeeping of the machine is consistent.
    pub closed spec fn well_formed(&self) -> bool {
        &&& self.released == arena_generation(self.heap)
        &&& arena_in_order(self.heap)
        &&& numbering_ok(self.ids@, self.owners@, self.next_cell@)
        &&& heap_ok(arena_contents(self.heap), self.ids@, arena_generation(self.heap))
        &&& handles_known(self.stack@, self.ids@)
        &&& frames_ok(self.frames@, self.ids@)
        &&& globals_ok(self.globals@, self.ids@)
    }

    /// Puts `value` in a new cell on top of the stack, and returns the
    /// handle of the cell.
    fn push(&mut self, value: Value) -> (h: Handle)
        requires
            old(self).well_formed(),
            value_known(value@, old(self).ids@),
        ensures
            final(self).well_formed(),
            final(self)@ == push_value(old(self)@, rename_value(value@, old(self).ids@)),
            agrees(old(self).ids@, final(self).ids@),
            final(self).frames == old(self).frames,
            final(self).ids@.contains_key(h),
            final(self).ids@[h] == old(self)@.next_cell,
    {
        let ghost ids = self.ids@;
        let ghost owners = self.owners@;
        let ghost cell = self.next_cell@;
        let ghost heap = arena_contents(self.heap);
        let ghost shown = value@;
        let h = heap_insert(&mut self.heap, value);
        self.stack.push(h);
        proof {
            assert(!ids.contains_key(h)) by {
                if ids.contains_key(h) {
                    assert(!heap.contains_key(h));
                }
            }
            assert(!owners.contains_key(cell)) by {
                if owners.contains_key(cell) {
                    assert(ids.contains_key(owners[cell]));
                }
            }
        }
        self.ids = Ghost(ids.insert(h, cell));
        self.owners = Ghost(owners.insert(cell, h));
        self.next_cell = Ghost(cell + 1);
        proof {
            let later = self.ids@;
            let heap2 = arena_contents(self.heap);
            assert(agrees(ids, later));
            assert forall|i: int| 0 <= i < self.frames@.len() implies frame_view(
                self.frames@[i],
                later,
            ) == frame_view(self.frames@[i], ids) && handles_known(
                (#[trigger] self.frames@[i]).upvalues@,
                later,
            ) by {
                lemma_handles_stable(self.frames@[i].upvalues@, ids, later);
            }
            assert(self@.frames =~= old(self)@.frames);
            lemma_handles_stable(old(self).stack@, ids, later);
            assert(self@.stack =~= old(self)@.stack.push(cell));
            lemma_value_stable(shown, ids, later);
            assert forall|g: Handle| #[trigger] heap2.contains_key(g) implies later.contains_key(g)
                && value_known(heap2[g]@, later) && (g != h ==> rename_value(heap2[g]@, later)
                == rename_value(heap[g]@, ids)) by {
                if g != h {
                    assert(heap.contains_key(g));
                    lemma_value_stable(heap[g]@, ids, later);
                }
            }
            assert forall|c: nat| #[trigger] owners.contains_key(c) implies owners[c] != h by {
                assert(ids.contains_key(owners[c]));
            }
            assert(self@.cells =~= old(self)@.cells.insert(cell, rename_value(shown, ids)));
            assert forall|name: Seq<char>| #[trigger]
                self.globals@.contains_key(name) implies value_known(self.globals@[name]@, later)
                && rename_value(self.globals@[name]@, later) == rename_value(
                self.globals@[name]@,
                ids,
            ) by {
                lemma_value_stable(self.globals@[name]@, ids, later);
            }
            assert(self@.globals =~= old(self)@.globals);
            assert(handles_known(self.stack@, later)) by {
                assert forall|i: int| 0 <= i < self.stack@.len() implies later.contains_key(
                    #[trigger] self.stack@[i],
                ) by {
                    if i < old(self).stack@.len() {
                        assert(self.stack@[i] == old(self).stack@[i]);
                    }
                }
            }
        }
        h
    }

    /// Takes the top slot off the stack and releases its cell.
    fn pop(&mut self) -> (r: Result<Value, RuntimeError>)
        requires
            old(self).well_formed(),
        ensures
            final(self).well_formed(),
            final(self)@ == pop_value(old(self)@).0,
            final(self).ids@ == old(self).ids@,
            final(self).frames == old(self).frames,
            match r {
                Ok(v) => value_known(v@, final(self).ids@) && pop_value(old(self)@).1 == Ok::<
                    _,
                    RuntimeError,
                >(rename_value(v@, final(self).ids@)),
                Err(e) => pop_value(old(self)@).1 == Err::<ValueView<nat>, _>(e),
            },
    {
        if self.stack.len() == 0 {
            return Err(RuntimeError::StackUnderflow);
        }
        if self.released == u64::MAX {
            return Err(RuntimeError::HeapExhausted);
        }
        let ghost ids = self.ids@;
        let ghost owners = self.owners@;
        let ghost heap = arena_contents(self.heap);
        let h = self.stack.pop().unwrap();
        proof {
            assert(ids.contains_key(h)) by {
                assert(h == old(self).stack@[old(self).stack@.len() - 1]);
            }
            assert(self@.stack =~= old(self)@.stack.drop_last());
            assert(old(self)@.stack.last() == ids[h]);
        }
        match heap_remove(&mut self.heap, h) {
            Some(v) => {
                self.released = self.released + 1;
                proof {
                    assert forall|c: nat| #[trigger]
                        owners.contains_key(c) && c != ids[h] implies owners[c] != h by {}
                    assert(self@.cells =~= old(self)@.cells.remove(ids[h]));
                }
                Ok(v)
            },
            None => Err(RuntimeError::DanglingCell),
        }
    }

    /// The value in the cell that `h` names.
    fn cell(&self, h: Handle) -> (r: Result<&Value, RuntimeError>)
        requires
            self.well_formed(),
            self.ids@.contains_key(h),
        ensures
            match r {
                Ok(v) => value_known(v@, self.ids@) && read_cell(self@, self.ids@[h]) == Ok::<
                    _,
                    RuntimeError,
                >(rename_value(v@, self.ids@)),
                Err(e) => read_cell(self@, self.ids@[h]) == Err::<ValueView<nat>, _>(e),
            },
    {
        match heap_get(&self.heap, h) {
            Some(v) => Ok(v),
            None => Err(RuntimeError::DanglingCell),
        }
    }

    /// The value on top of the stack.
    fn peek(&self) -> (r: Result<&Value, RuntimeError>)
        requires
            self.well_formed(),
        ensures
            match r {
                Ok(v) => value_known(v@, self.ids@) && peek_value(self@) == Ok::<_, RuntimeError>(
                    rename_value(v@, self.ids@),
                ),
                Err(e) => peek_value(self@) == Err::<ValueView<nat>, _>(e),
            },
    {
        if self.stack.len() == 0 {
            return Err(RuntimeError::StackUnderflow);
        }
        let h = self.stack[self.stack.len() - 1];
        self.cell(h)
    }

    /// The handle in the slot `offset` above the frame pointer `fp`.
    fn slot(&self, fp: usize, offset: usize) -> (r: Option<Handle>)
        requires
            self.well_formed(),
        ensures
            match r {
                Some(h) => fp + offset < self@.stack.len() && self.ids@.contains_key(h)
                    && self@.stack[fp + offset] == self.ids@[h] && h == self.stack@[fp + offset],
                None => fp + offset >= self@.stack.len(),
            },
    {
        let len = self.stack.len();
        if offset < len && fp < len - offset {
            Some(self.stack[fp + offset])
        } else {
            None
        }
    }

    /// Overwrites the value in the cell that `h` names.
    fn store(&mut self, h: Handle, value: Value) -> (r: Result<(), RuntimeError>)
        requires
            old(self).well_formed(),
            old(self).ids@.contains_key(h),
            value_known(value@, old(self).ids@),
        ensures
            final(self).well_formed(),
            final(self).ids@ == old(self).ids@,
            final(self).frames == old(self).frames,
            final(self).stack == old(self).stack,
            final(self)@ == write_cell(
                old(self)@,
                old(self).ids@[h],
                rename_value(value@, old(self).ids@),
            ).0,
            r == write_cell(old(self)@, old(self).ids@[h], rename_value(value@, old(self).ids@)).1,
    {
        let ghost ids = self.ids@;
        let ghost owners = self.owners@;
        let ghost shown = value@;
        if heap_set(&mut self.heap, h, value) {
            proof {
                assert forall|c: nat| #[trigger]
                    owners.contains_key(c) && c != ids[h] implies owners[c] != h by {}
                assert(self@.cells =~= old(self)@.cells.insert(ids[h], rename_value(shown, ids)));
            }
            Ok(())
        } else {
            proof {
                assert(self@.cells =~= old(self)@.cells);
            }
            Err(RuntimeError::DanglingCell)
        }
    }

    /// Binds the global `name` to `value`.
    fn define(&mut self, name: String, value: Value)
        requires
            old(self).well_formed(),
            value_known(value@, old(self).ids@),
        ensures
            final(self).well_formed(),
            final(self).ids@ == old(self).ids@,
            final(self)@ == (VmView {
                globals: old(self)@.globals.insert(name@, rename_value(value@, old(self).ids@)),
                ..old(self)@
            }),
    {
        let ghost shown = value@;
        self.globals.insert(name, value);
        proof {
            assert(self@.globals =~= old(self)@.globals.insert(
                name@,
                rename_value(shown, self.ids@),
            ));
        }
    }

    /// Sets the instruction pointer of the top frame.
    fn jump(&mut self, ip: usize)
        requires
            old(self).well_formed(),
            old(self).frames@.len() > 0,
        ensures
            final(self).well_formed(),
            final(self).ids@ == old(self).ids@,
            final(self)@ == with_ip(old(self)@, ip),
            final(self).frames@.len() == old(self).frames@.len(),
    {
        let top = self.frames.len() - 1;
        let frame = &mut self.frames[top];
        frame.ip = ip;
        proof {
            assert(self.frames@[top as int].upvalues == old(self).frames@[top as int].upvalues);
            assert forall|i: int| 0 <= i < self.frames@.len() implies handles_known(
                (#[trigger] self.frames@[i]).upvalues@,
                self.ids@,
            ) by {
                if i != top {
                    assert(self.frames@[i] == old(self).frames@[i]);
                }
            }
            assert(self@.frames =~= with_ip(old(self)@, ip).frames);
        }
    }

    /// Leaves the current call with `value`.
    fn leave(&mut self, value: Value) -> (r: Result<ControlFlow, RuntimeError>)
        requires
            old(self).well_formed(),
            old(self).frames@.len() > 0,
            value_known(value@, old(self).ids@),
        ensures
            final(self).well_formed(),
            final(self)@ == finish_call(old(self)@, rename_value(value@, old(self).ids@)).vm,
            r == finish_call(old(self)@, rename_value(value@, old(self).ids@)).outcome,
    {
        let top = self.frames.len() - 1;
        let fp = self.frames[top].fp;
        if fp > self.stack.len() {
            return Err(RuntimeError::BadSlot);
        }
        self.frames.pop();
        self.stack.truncate(fp);
        proof {
            assert(self@.frames =~= old(self)@.frames.drop_last());
            assert(self@.stack =~= old(self)@.stack.take(fp as int));
            assert forall|i: int| 0 <= i < self.frames@.len() implies handles_known(
                (#[trigger] self.frames@[i]).upvalues@,
                self.ids@,
            ) by {
                assert(self.frames@[i] == old(self).frames@[i]);
            }
            assert forall|i: int| 0 <= i < self.stack@.len() implies self.ids@.contains_key(
                #[trigger] self.stack@[i],
            ) by {
                assert(self.stack@[i] == old(self).stack@[i]);
            }
        }
        self.push(value);
        if self.frames.len() == 0 {
            Ok(ControlFlow::Done)
        } else {
            Ok(ControlFlow::Next)
        }
    }

    /// What `value` is in this machine: its view, with the cells of a closure
    /// under their numbers.
    pub closed spec fn shown(&self, value: Value) -> ValueView<nat> {
        rename_value(value@, self.ids@)
    }

    /// How many calls are in progress.
    pub fn frame_count(&self) -> (r: usize)
        ensures
            r == self@.frames.len(),
    {
        self.frames.len()
    }

    /// The index of the next instruction of the call that is running.
    pub fn position(&self) -> (r: Option<usize>)
        ensures
            match r {
                Some(ip) => self@.frames.len() > 0 && self@.frames.last().ip == ip,
                None => self@.frames.len() == 0,
            },
    {
        if self.frames.len() == 0 {
            None
        } else {
            Some(self.frames[self.frames.len() - 1].ip)
        }
    }

    /// How many values the stack holds.
    pub fn stack_height(&self) -> (r: usize)
        ensures
            r == self@.stack.len(),
    {
        self.stack.len()
    }

    /// Copies of the values on the stack, from the bottom up.
    pub fn stack_values(&self) -> (r: Result<Vec<Value>, RuntimeError>)
        requires
            self.well_formed(),
        ensures
            match r {
                Ok(values) => {
                    &&& values@.len() == self@.stack.len()
                    &&& forall|i: int|
                        0 <= i < values@.len() ==> read_slot(self@, i) == Ok::<_, RuntimeError>(
                            self.shown(#[trigger] values@[i]),
                        )
                },
                Err(e) => e == RuntimeError::DanglingCell && exists|i: int|
                    0 <= i < self@.stack.len() && #[trigger] read_slot(self@, i) is Err,
            },
    {
        let mut values: Vec<Value> = Vec::new();
        let mut i: usize = 0;
        while i < self.stack.len()
            invariant
                self.well_formed(),
                i <= self.stack@.len(),
                values@.len() == i,
                forall|j: int|
                    0 <= j < i ==> read_slot(self@, j) == Ok::<_, RuntimeError>(
                        self.shown(#[trigger] values@[j]),
                    ),
            decreases self.stack@.len() - i,
        {
            let ghost before = values@;
            match self.cell(self.stack[i]) {
                Ok(v) => {
                    values.push(v.clone());
                    proof {
                        assert forall|j: int| 0 <= j < i + 1 implies read_slot(self@, j) == Ok::<
                            _,
                            RuntimeError,
                        >(self.shown(#[trigger] values@[j])) by {
                            if j < i {
                                assert(values@[j] == before[j]);
                            }
                        }
                    }
                },
                Err(e) => {
                    assert(read_slot(self@, i as int) is Err);
                    return Err(RuntimeError::DanglingCell);
                },
            }
            i += 1;
        }
        Ok(values)
    }

    /// Gives `function` a frame over the values on top of the stack.
    pub fn push_frame(&mut self, function: CompiledFunction) -> (r: Result<(), RuntimeError>)
        requires
            old(self).well_formed(),
        ensures
            final(self).well_formed(),
            final(self)@ == enter_function(old(self)@, function@).0,
            r == enter_function(old(self)@, function@).1,
    {
        let arity = function.arity;
        if arity >= self.stack.len() {
            return Err(RuntimeError::StackUnderflow);
        }
        let frame = CallFrame {
            function,
            ip: 0,
            fp: self.stack.len() - arity - 1,
            upvalues: Vec::new(),
        };
        self.frames.push(frame);
        proof {
            assert(rename_handles(frame.upvalues@, self.ids@) =~= Seq::<nat>::empty());
            assert forall|i: int| 0 <= i < self.frames@.len() implies handles_known(
                (#[trigger] self.frames@[i]).upvalues@,
                self.ids@,
            ) by {
                if i < old(self).frames@.len() {
                    assert(self.frames@[i] == old(self).frames@[i]);
                }
            }
            assert(self@.frames =~= enter_function(old(self)@, function@).0.frames);
        }
        Ok(())
    }

    /// A machine that is about to run `main` as the main program.
    pub fn new(main: CompiledFunction) -> (r: VM)
        ensures
            r.well_formed(),
            r@ == initial_state(main@),
    {
        let mut heap = heap_new();
        let closure = Value::Closure { function: clone_function(&main), upvalues: Vec::new() };
        let ghost shown = closure@;
        let h = heap_insert(&mut heap, closure);
        let mut frames: Vec<CallFrame> = Vec::new();
        frames.push(CallFrame { function: main, ip: 0, fp: 0, upvalues: Vec::new() });
        let mut stack: Vec<Handle> = Vec::new();
        stack.push(h);
        let vm = VM {
            frames,
            heap,
            stack,
            globals: Globals::new(),
            released: 0,
            ids: Ghost(Map::empty().insert(h, 0nat)),
            owners: Ghost(Map::empty().insert(0nat, h)),
            next_cell: Ghost(1nat),
        };
        proof {
            assert(vm@.frames =~= initial_state(main@).frames) by {
                assert(vm.frames@[0].upvalues@ =~= Seq::<Handle>::empty());
                assert(rename_handles(vm.frames@[0].upvalues@, vm.ids@) =~= Seq::<nat>::empty());
            }
            assert(vm@.stack =~= initial_state(main@).stack);
            assert(rename_value(shown, vm.ids@) == ValueView::<nat>::Closure {
                function: main@,
                upvalues: Seq::empty(),
            }) by {
                assert(shown->Closure_upvalues =~= Seq::<Handle>::empty());
                assert(rename_handles(shown->Closure_upvalues, vm.ids@) =~= Seq::<nat>::empty());
            }
            assert(vm@.cells =~= initial_state(main@).cells);
            assert(vm@.globals =~= initial_state(main@).globals);
        }
        vm
    }

    /// Pushes `value` as the whole effect of an instruction.
    fn load(&mut self, value: Value) -> (r: Result<ControlFlow, RuntimeError>)
        requires
            old(self).well_formed(),
            value_known(value@, old(self).ids@),
        ensures
            final(self).well_formed(),
            final(self)@ == proceed(
                push_value(old(self)@, rename_value(value@, old(self).ids@)),
            ).vm,
            r == Ok::<_, RuntimeError>(ControlFlow::Next),
    {
        self.push(value);
        Ok(ControlFlow::Next)
    }

    /// A two-operand instruction.
    fn binary(&mut self, code: &Code) -> (r: Result<ControlFlow, RuntimeError>)
        requires
            old(self).well_formed(),
        ensures
            final(self).well_formed(),
            final(self)@ == binary_step(old(self)@, code@).vm,
            r == binary_step(old(self)@, code@).outcome,
    {
        let b = match self.pop() {
            Ok(v) => v,
            Err(e) => {
                return Err(e);
            },
        };
        let a = match self.pop() {
            Ok(v) => v,
            Err(e) => {
                return Err(e);
            },
        };
        let computed = match code {
            Code::Add => a.add(&b),
            Code::Subtract => a.sub(&b),
            Code::Multiply => a.mul(&b),
            Code::Divide => a.div(&b),
            Code::Equal => Ok(Value::Boolean(a.equals(&b))),
            Code::NotEqual => Ok(Value::Boolean(!a.equals(&b))),
            Code::Greater => Ok(Value::Boolean(b.less(&a))),
            Code::GreaterEqual => Ok(Value::Boolean(b.at_most(&a))),
            Code::Less => Ok(Value::Boolean(a.less(&b))),
            Code::LessEqual => Ok(Value::Boolean(a.at_most(&b))),
            _ => Err(RuntimeError::TypeMismatch),
        };
        match computed {
            Ok(v) => self.load(v),
            Err(e) => Err(e),
        }
    }

    /// A one-operand instruction.
    fn unary(&mut self, code: &Code) -> (r: Result<ControlFlow, RuntimeError>)
        requires
            old(self).well_formed(),
        ensures
            final(self).well_formed(),
            final(self)@ == unary_step(old(self)@, code@).vm,
            r == unary_step(old(self)@, code@).outcome,
    {
        let a = match self.pop() {
            Ok(v) => v,
            Err(e) => {
                return Err(e);
            },
        };
        let computed = match code {
            Code::Negate => a.neg(),
            Code::Not => a.not(),
            _ => Err(RuntimeError::TypeMismatch),
        };
        match computed {
            Ok(v) => self.load(v),
            Err(e) => Err(e),
        }
    }

    /// `Call`: gives the closure below the arguments a frame of its own.
    fn call(&mut self, arity: usize) -> (r: Result<ControlFlow, RuntimeError>)
        requires
            old(self).well_formed(),
        ensures
            final(self).well_formed(),
            final(self)@ == call_step(old(self)@, arity).vm,
            r == call_step(old(self)@, arity).outcome,
    {
        let len = self.stack.len();
        if arity >= len {
            return Err(RuntimeError::StackUnderflow);
        }
        let fp = len - arity - 1;
        let h = self.stack[fp];
        let frame = match self.cell(h) {
            Err(e) => {
                return Err(e);
            },
            Ok(Value::Closure { function, upvalues }) => {
                let cells = upvalues.clone();
                assert(cells@ =~= upvalues@);
                CallFrame { function: clone_function(function), ip: 0, fp, upvalues: cells }
            },
            Ok(_) => {
                return Err(RuntimeError::NotCallable);
            },
        };
        self.frames.push(frame);
        proof {
            assert forall|i: int| 0 <= i < self.frames@.len() implies handles_known(
                (#[trigger] self.frames@[i]).upvalues@,
                self.ids@,
            ) by {
                if i < old(self).frames@.len() {
                    assert(self.frames@[i] == old(self).frames@[i]);
                }
            }
            assert(self@.frames =~= call_step(old(self)@, arity).vm.frames);
        }
        Ok(ControlFlow::Next)
    }

    /// The cell that one captured variable of a new closure refers to.
    fn resolve(&self, upvalue: Upvalue) -> (r: Option<Handle>)
        requires
            self.well_formed(),
            self.frames@.len() > 0,
        ensures
            match r {
                Some(h) => self.ids@.contains_key(h) && resolve_upvalue(self@, upvalue) == Some(
                    self.ids@[h],
                ),
                None => resolve_upvalue(self@, upvalue) is None,
            },
    {
        let top = self.frames.len() - 1;
        if upvalue.is_local {
            self.slot(self.frames[top].fp, upvalue.index)
        } else {
            if upvalue.index < self.frames[top].upvalues.len() {
                Some(self.frames[top].upvalues[upvalue.index])
            } else {
                None
            }
        }
    }

    /// The cells of all the captured variables of a new closure.
    fn resolve_all(&self, upvalues: &Vec<Upvalue>) -> (r: Option<Vec<Handle>>)
        requires
            self.well_formed(),
            self.frames@.len() > 0,
        ensures
            match r {
                Some(cells) => {
                    &&& upvalues_resolve(self@, upvalues@, upvalues@.len() as int)
                    &&& handles_known(cells@, self.ids@)
                    &&& rename_handles(cells@, self.ids@) == resolved_upvalues(
                        self@,
                        upvalues@,
                        upvalues@.len() as int,
                    )
                },
                None => !upvalues_resolve(self@, upvalues@, upvalues@.len() as int),
            },
    {
        let mut cells: Vec<Handle> = Vec::new();
        let mut i: usize = 0;
        assert(rename_handles(cells@, self.ids@) =~= resolved_upvalues(self@, upvalues@, 0));
        while i < upvalues.len()
            invariant
                self.well_formed(),
                self.frames@.len() > 0,
                i <= upvalues.len(),
                cells.len() == i,
                handles_known(cells@, self.ids@),
                upvalues_resolve(self@, upvalues@, i as int),
                rename_handles(cells@, self.ids@) == resolved_upvalues(self@, upvalues@, i as int),
            decreases upvalues.len() - i,
        {
            let ghost before = cells@;
            match self.resolve(upvalues[i]) {
                Some(cell) => {
                    cells.push(cell);
                    proof {
                        assert forall|j: int| 0 <= j < cells@.len() implies self.ids@.contains_key(
                            #[trigger] cells@[j],
                        ) by {
                            if j < i {
                                assert(cells@[j] == before[j]);
                            }
                        }
                        assert forall|j: int| 0 <= j < i + 1 implies rename_handles(
                            cells@,
                            self.ids@,
                        )[j] == resolved_upvalues(self@, upvalues@, i + 1)[j] by {
                            if j < i {
                                assert(cells@[j] == before[j]);
                                assert(rename_handles(before, self.ids@)[j] == resolved_upvalues(
                                    self@,
                                    upvalues@,
                                    i as int,
                                )[j]);
                            }
                        }
                        assert(rename_handles(cells@, self.ids@) =~= resolved_upvalues(
                            self@,
                            upvalues@,
                            i + 1,
                        ));
                    }
                },
                None => {
                    return None;
                },
            }
            i += 1;
        }
        Some(cells)
    }

    /// `Closure`: pushes a new closure over `function`.
    fn close_over(&mut self, function: CompiledFunction, upvalues: Vec<Upvalue>) -> (r: Result<
        ControlFlow,
        RuntimeError,
    >)
        requires
            old(self).well_formed(),
            old(self).frames@.len() > 0,
        ensures
            final(self).well_formed(),
            final(self)@ == closure_step(old(self)@, function@, upvalues@).vm,
            r == closure_step(old(self)@, function@, upvalues@).outcome,
    {
        let h = self.push(Value::Nil);
        match self.resolve_all(&upvalues) {
            Some(cells) => {
                let closure = Value::Closure { function, upvalues: cells };
                match self.store(h, closure) {
                    Ok(_) => Ok(ControlFlow::Next),
                    Err(e) => Err(e),
                }
            },
            None => Err(RuntimeError::BadUpvalue),
        }
    }

    /// `Return`.
    fn op_return(&mut self) -> (r: Result<ControlFlow, RuntimeError>)
        requires
            old(self).well_formed(),
            old(self).frames@.len() > 0,
        ensures
            final(self).well_formed(),
            final(self)@ == execute(old(self)@, CodeView::Return).vm,
            r == execute(old(self)@, CodeView::Return).outcome,
            execute(old(self)@, CodeView::Return).printed is None,
    {
        match self.pop() {
            Ok(v) => self.leave(v),
            Err(e) => Err(e),
        }
    }

    /// `Print`.
    fn op_print<K: Kernel>(&mut self, kernel: &mut K) -> (r: Result<ControlFlow, RuntimeError>)
        requires
            old(self).well_formed(),
        ensures
            final(self).well_formed(),
            final(self)@ == execute(old(self)@, CodeView::Print).vm,
            r == execute(old(self)@, CodeView::Print).outcome,
            final(kernel).output() == old(kernel).output() + printed_text(
                execute(old(self)@, CodeView::Print).printed,
            ),
    {
        match self.pop() {
            Ok(v) => {
                let line = v.to_text();
                kernel.print(line.as_str());
                assert(kernel.output() =~= old(kernel).output() + (line@ + seq!['\n']));
                Ok(ControlFlow::Next)
            },
            Err(e) => {
                assert(kernel.output() + Seq::<char>::empty() =~= kernel.output());
                Err(e)
            },
        }
    }

    /// `Pop`.
    fn op_pop(&mut self) -> (r: Result<ControlFlow, RuntimeError>)
        requires
            old(self).well_formed(),
        ensures
            final(self).well_formed(),
            final(self)@ == execute(old(self)@, CodeView::Pop).vm,
            r == execute(old(self)@, CodeView::Pop).outcome,
            execute(old(self)@, CodeView::Pop).printed is None,
    {
        match self.pop() {
            Ok(_) => Ok(ControlFlow::Next),
            Err(e) => Err(e),
        }
    }

    /// `GlobalVarDeclaration`.
    fn op_declare(&mut self, name: String) -> (r: Result<ControlFlow, RuntimeError>)
        requires
            old(self).well_formed(),
        ensures
            final(self).well_formed(),
            final(self)@ == execute(
                old(self)@,
                CodeView::GlobalVarDeclaration { name: name@ },
            ).vm,
            r == execute(old(self)@, CodeView::GlobalVarDeclaration { name: name@ }).outcome,
            execute(old(self)@, CodeView::GlobalVarDeclaration { name: name@ }).printed is None,
    {
        match self.pop() {
            Ok(v) => {
                self.define(name, v);
                Ok(ControlFlow::Next)
            },
            Err(e) => Err(e),
        }
    }

    /// `ReadGlobalVariable`.
    fn op_read_global(&mut self, name: String) -> (r: Result<ControlFlow, RuntimeError>)
        requires
            old(self).well_formed(),
        ensures
            final(self).well_formed(),
            final(self)@ == execute(old(self)@, CodeView::ReadGlobalVariable { name: name@ }).vm,
            r == execute(old(self)@, CodeView::ReadGlobalVariable { name: name@ }).outcome,
            execute(old(self)@, CodeView::ReadGlobalVariable { name: name@ }).printed is None,
    {
        let found = match self.globals.get(&name) {
            Some(v) => Some(v.clone()),
            None => None,
        };
        match found {
            Some(v) => self.load(v),
            None => Err(RuntimeError::UndefinedVariable),
        }
    }

    /// A copy of the value on top of the stack.
    fn top_value(&self) -> (r: Result<Value, RuntimeError>)
        requires
            self.well_formed(),
        ensures
            match r {
                Ok(v) => value_known(v@, self.ids@) && peek_value(self@) == Ok::<_, RuntimeError>(
                    rename_value(v@, self.ids@),
                ),
                Err(e) => peek_value(self@) == Err::<ValueView<nat>, _>(e),
            },
    {
        match self.peek() {
            Ok(v) => Ok(v.clone()),
            Err(e) => Err(e),
        }
    }

    /// `WriteGlobalVariable`.
    fn op_write_global(&mut self, name: String) -> (r: Result<ControlFlow, RuntimeError>)
        requires
            old(self).well_formed(),
        ensures
            final(self).well_formed(),
            final(self)@ == execute(old(self)@, CodeView::WriteGlobalVariable { name: name@ }).vm,
            r == execute(old(self)@, CodeView::WriteGlobalVariable { name: name@ }).outcome,
            execute(old(self)@, CodeView::WriteGlobalVariable { name: name@ }).printed is None,
    {
        match self.top_value() {
            Ok(v) => {
                self.define(name, v);
                Ok(ControlFlow::Next)
            },
            Err(e) => Err(e),
        }
    }

    /// `ReadLocalVariable`.
    fn op_read_local(&mut self, index_in_stack: usize) -> (r: Result<ControlFlow, RuntimeError>)
        requires
            old(self).well_formed(),
            old(self).frames@.len() > 0,
        ensures
            final(self).well_formed(),
            final(self)@ == execute(old(self)@, CodeView::ReadLocalVariable { index_in_stack }).vm,
            r == execute(old(self)@, CodeView::ReadLocalVariable { index_in_stack }).outcome,
            execute(old(self)@, CodeView::ReadLocalVariable { index_in_stack }).printed is None,
    {
        let top = self.frames.len() - 1;
        let read = match self.slot(self.frames[top].fp, index_in_stack) {
            Some(h) => match self.cell(h) {
                Ok(v) => Ok(v.clone()),
                Err(e) => Err(e),
            },
            None => Err(RuntimeError::BadSlot),
        };
        match read {
            Ok(v) => self.load(v),
            Err(e) => Err(e),
        }
    }

    /// `WriteLocalVariable`.
    fn op_write_local(&mut self, index_in_stack: usize) -> (r: Result<ControlFlow, RuntimeError>)
        requires
            old(self).well_formed(),
            old(self).frames@.len() > 0,
        ensures
            final(self).well_formed(),
            final(self)@ == execute(old(self)@, CodeView::WriteLocalVariable { index_in_stack }).vm,
            r == execute(old(self)@, CodeView::WriteLocalVariable { index_in_stack }).outcome,
            execute(old(self)@, CodeView::WriteLocalVariable { index_in_stack }).printed is None,
    {
        let top = self.frames.len() - 1;
        match self.top_value() {
            Ok(v) => match self.slot(self.frames[top].fp, index_in_stack) {
                Some(h) => match self.store(h, v) {
                    Ok(_) => Ok(ControlFlow::Next),
                    Err(e) => Err(e),
                },
                None => Err(RuntimeError::BadSlot),
            },
            Err(e) => Err(e),
        }
    }

    /// `JumpIfFalse`.
    fn op_jump_if_false(&mut self, target: usize) -> (r: Result<ControlFlow, RuntimeError>)
        requires
            old(self).well_formed(),
            old(self).frames@.len() > 0,
        ensures
            final(self).well_formed(),
            final(self)@ == execute(old(self)@, CodeView::JumpIfFalse(target)).vm,
            r == execute(old(self)@, CodeView::JumpIfFalse(target)).outcome,
            execute(old(self)@, CodeView::JumpIfFalse(target)).printed is None,
    {
        let taken = match self.peek() {
            Ok(v) => Ok(v.is_false()),
            Err(e) => Err(e),
        };
        match taken {
            Ok(true) => {
                self.jump(target);
                Ok(ControlFlow::Next)
            },
            Ok(false) => Ok(ControlFlow::Next),
            Err(e) => Err(e),
        }
    }

    /// `ReadUpvalue`.
    fn op_read_upvalue(&mut self, index: usize) -> (r: Result<ControlFlow, RuntimeError>)
        requires
            old(self).well_formed(),
            old(self).frames@.len() > 0,
        ensures
            final(self).well_formed(),
            final(self)@ == execute(old(self)@, CodeView::ReadUpvalue { index }).vm,
            r == execute(old(self)@, CodeView::ReadUpvalue { index }).outcome,
            execute(old(self)@, CodeView::ReadUpvalue { index }).printed is None,
    {
        let top = self.frames.len() - 1;
        if index < self.frames[top].upvalues.len() {
            let h = self.frames[top].upvalues[index];
            let read = match self.cell(h) {
                Ok(v) => Ok(v.clone()),
                Err(e) => Err(e),
            };
            match read {
                Ok(v) => self.load(v),
                Err(e) => Err(e),
            }
        } else {
            Err(RuntimeError::BadUpvalue)
        }
    }

    /// `WriteUpvalue`.
    fn op_write_upvalue(&mut self, index: usize) -> (r: Result<ControlFlow, RuntimeError>)
        requires
            old(self).well_formed(),
            old(self).frames@.len() > 0,
        ensures
            final(self).well_formed(),
            final(self)@ == execute(old(self)@, CodeView::WriteUpvalue { index }).vm,
            r == execute(old(self)@, CodeView::WriteUpvalue { index }).outcome,
            execute(old(self)@, CodeView::WriteUpvalue { index }).printed is None,
    {
        let top = self.frames.len() - 1;
        match self.top_value() {
            Ok(v) => {
                if index < self.frames[top].upvalues.len() {
                    let h = self.frames[top].upvalues[index];
                    match self.store(h, v) {
                        Ok(_) => Ok(ControlFlow::Next),
                        Err(e) => Err(e),
                    }
                } else {
                    Err(RuntimeError::BadUpvalue)
                }
            },
            Err(e) => Err(e),
        }
    }

    /// `CloseUpvalue`: the slot goes, its cell stays for the closures that
    /// captured it.
    fn op_close_upvalue(&mut self) -> (r: Result<ControlFlow, RuntimeError>)
        requires
            old(self).well_formed(),
        ensures
            final(self).well_formed(),
            final(self)@ == execute(old(self)@, CodeView::CloseUpvalue).vm,
            r == execute(old(self)@, CodeView::CloseUpvalue).outcome,
            execute(old(self)@, CodeView::CloseUpvalue).printed is None,
    {
        if self.stack.len() == 0 {
            Err(RuntimeError::StackUnderflow)
        } else {
            self.stack.pop();
            proof {
                assert(self@.stack =~= old(self)@.stack.drop_last());
                assert forall|i: int| 0 <= i < self.stack@.len() implies self.ids@.contains_key(
                    #[trigger] self.stack@[i],
                ) by {
                    assert(self.stack@[i] == old(self).stack@[i]);
                }
            }
            Ok(ControlFlow::Next)
        }
    }

    /// An instruction that works on the stack and the frames alone.
    fn execute_quiet(&mut self, code: Code) -> (r: Result<ControlFlow, RuntimeError>)
        requires
            old(self).well_formed(),
            old(self).frames@.len() > 0,
            !(code is Print),
        ensures
            final(self).well_formed(),
            final(self)@ == execute(old(self)@, code@).vm,
            r == execute(old(self)@, code@).outcome,
            execute(old(self)@, code@).printed is None,
    {
        match code {
            Code::Return => self.op_return(),
            Code::Constant(n) => self.load(Value::Number(n)),
            Code::True => self.load(Value::Boolean(true)),
            Code::False => self.load(Value::Boolean(false)),
            Code::Nil => self.load(Value::Nil),
            Code::String(s) => self.load(Value::String(s)),
            Code::Add
            | Code::Subtract
            | Code::Multiply
            | Code::Divide
            | Code::Equal
            | Code::NotEqual
            | Code::Greater
            | Code::GreaterEqual
            | Code::Less
            | Code::LessEqual => self.binary(&code),
            Code::Negate | Code::Not => self.unary(&code),
            Code::Print => Ok(ControlFlow::Next),
            Code::Pop => self.op_pop(),
            Code::GlobalVarDeclaration { name } => self.op_declare(name),
            Code::ReadGlobalVariable { name } => self.op_read_global(name),
            Code::WriteGlobalVariable { name } => self.op_write_global(name),
            Code::ReadLocalVariable { index_in_stack } => self.op_read_local(index_in_stack),
            Code::WriteLocalVariable { index_in_stack } => self.op_write_local(index_in_stack),
            Code::JumpIfFalse(target) => self.op_jump_if_false(target),
            Code::Jump(target) => {
                self.jump(target);
                Ok(ControlFlow::Next)
            },
            Code::Call { arity } => self.call(arity),
            Code::Closure { function, upvalues } => self.close_over(function, upvalues),
            Code::ReadUpvalue { index } => self.op_read_upvalue(index),
            Code::WriteUpvalue { index } => self.op_write_upvalue(index),
            Code::CloseUpvalue => self.op_close_upvalue(),
        }
    }

    /// Executes `code`, the instruction pointer having moved past it.
    fn execute<K: Kernel>(&mut self, code: Code, kernel: &mut K) -> (r: Result<
        ControlFlow,
        RuntimeError,
    >)
        requires
            old(self).well_formed(),
            old(self).frames@.len() > 0,
        ensures
            final(self).well_formed(),
            final(self)@ == execute(old(self)@, code@).vm,
            r == execute(old(self)@, code@).outcome,
            final(kernel).output() == old(kernel).output() + printed_text(
                execute(old(self)@, code@).printed,
            ),
    {
        match code {
            Code::Print => self.op_print(kernel),
            _ => {
                assert(kernel.output() + Seq::<char>::empty() =~= kernel.output());
                self.execute_quiet(code)
            },
        }
    }

    /// Executes one instruction of the top frame and says whether the
    /// program goes on. A printed line goes to `kernel`.
    pub fn step<K: Kernel>(&mut self, kernel: &mut K) -> (r: Result<ControlFlow, RuntimeError>)
        requires
            old(self).well_formed(),
        ensures
            final(self).well_formed(),
            final(self)@ == spec_step(old(self)@).vm,
            r == spec_step(old(self)@).outcome,
            final(kernel).output() == old(kernel).output() + printed_text(
                spec_step(old(self)@).printed,
            ),
    {
        assert(kernel.output() + Seq::<char>::empty() =~= kernel.output());
        if self.frames.len() == 0 {
            return Ok(ControlFlow::Done);
        }
        let top = self.frames.len() - 1;
        let ip = self.frames[top].ip;
        if ip >= self.frames[top].function.chunk.len() {
            return self.leave(Value::Nil);
        }
        let code = self.frames[top].function.chunk.read_byte(ip);
        self.jump(ip + 1);
        self.execute(code, kernel)
    }

    /// Steps until the program is done or fails, but at most `steps` times;
    /// `Ok(Next)` says that the steps ran out first.
    pub fn run<K: Kernel>(&mut self, kernel: &mut K, steps: u64) -> (r: Result<
        ControlFlow,
        RuntimeError,
    >)
        requires
            old(self).well_formed(),
        ensures
            final(self).well_formed(),
            final(self)@ == spec_run(old(self)@, steps as nat).vm,
            r == spec_run(old(self)@, steps as nat).outcome,
            final(kernel).output() == old(kernel).output() + spec_run(
                old(self)@,
                steps as nat,
            ).printed,
    {
        let mut left = steps;
        let ghost mut done: Seq<char> = Seq::empty();
        assert(kernel.output() + done =~= kernel.output());
        while left > 0
            invariant
                self.well_formed(),
                kernel.output() == old(kernel).output() + done,
                spec_run(old(self)@, steps as nat).vm == spec_run(self@, left as nat).vm,
                spec_run(old(self)@, steps as nat).outcome == spec_run(self@, left as nat).outcome,
                spec_run(old(self)@, steps as nat).printed == done + spec_run(
                    self@,
                    left as nat,
                ).printed,
            decreases left,
        {
            let ghost before = self@;
            let ghost shown = kernel.output();
            let outcome = self.step(kernel);
            proof {
                let step = spec_step(before);
                let text = printed_text(step.printed);
                assert(old(kernel).output() + done + text =~= old(kernel).output() + (done
                    + text));
                match step.outcome {
                    Ok(ControlFlow::Next) => {
                        assert(done + (text + spec_run(step.vm, (left - 1) as nat).printed) =~= (
                        done + text) + spec_run(step.vm, (left - 1) as nat).printed);
                    },
                    _ => {},
                }
                done = done + text;
            }
            match outcome {
                Ok(ControlFlow::Next) => {
                    left = left - 1;
                },
                Ok(ControlFlow::Done) => {
                    return Ok(ControlFlow::Done);
                },
                Err(e) => {
                    return Err(e);
                },
            }
        }
        proof {
            assert(done + Seq::<char>::empty() =~= done);
        }
        Ok(ControlFlow::Next)
    }
}

} // verus!
