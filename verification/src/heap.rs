//! The heap of the virtual machine: a generational arena of values.
//!
//! The arena is an outside collection. What it holds is named by
//! [`arena_contents`], and how many cells it has released by
//! [`arena_generation`]; the functions below state, without proof, what each
//! arena operation does to the two.
use crate::value::{Handle, Value};
use vstd::prelude::*;

verus! {

/// `generational_arena::Arena`. Nothing of what is inside it is known
/// here but what the two names below say.
#[verifier::external_type_specification]
#[verifier::external_body]
#[verifier::reject_recursive_types(T)]
pub struct ExArena<T>(generational_arena::Arena<T>);

/// The live cells of an arena, each under its handle.
pub uninterp spec fn arena_contents(arena: generational_arena::Arena<Value>) -> Map<Handle, Value>;

/// The generation counter of an arena: the number of cells it has released.
pub uninterp spec fn arena_generation(arena: generational_arena::Arena<Value>) -> nat;

/// No live handle is of a later generation than the arena itself.
pub open spec fn arena_in_order(arena: generational_arena::Arena<Value>) -> bool {
    forall|h: Handle| #[trigger]
        arena_contents(arena).contains_key(h) ==> h.generation <= arena_generation(arena)
}

/// `Arena::new`. Trusted: the new arena holds nothing and is of generation 0.
#[verifier::external_body]
pub(crate) fn heap_new() -> (arena: generational_arena::Arena<Value>)
    ensures
        forall|h: Handle| !arena_contents(arena).contains_key(h),
        arena_generation(arena) == 0,
        arena_in_order(arena),
{
    generational_arena::Arena::new()
}

/// `Arena::insert`. Trusted: the value is stored in a slot that was free, so
/// under a handle that names no live cell; the handle carries the arena's
/// current generation, which an insertion does not change.
#[verifier::external_body]
pub(crate) fn heap_insert(arena: &mut generational_arena::Arena<Value>, value: Value) -> (h: Handle)
    ensures
        !arena_contents(*old(arena)).contains_key(h),
        h.generation == arena_generation(*old(arena)),
        arena_contents(*final(arena)) == arena_contents(*old(arena)).insert(h, value),
        arena_generation(*final(arena)) == arena_generation(*old(arena)),
        arena_in_order(*old(arena)) ==> arena_in_order(*final(arena)),
{
    let (index, generation) = arena.insert(value).into_raw_parts();
    Handle { index, generation }
}

/// `Arena::remove`. Trusted: a live cell is taken out and returned, and the
/// generation counter goes up by one; for any other handle nothing changes.
/// The counter is a `u64` that the arena increments unchecked, hence the bound.
#[verifier::external_body]
pub(crate) fn heap_remove(arena: &mut generational_arena::Arena<Value>, h: Handle) -> (r: Option<
    Value,
>)
    requires
        arena_generation(*old(arena)) < u64::MAX,
    ensures
        match r {
            Some(value) => {
                &&& arena_contents(*old(arena)).contains_key(h)
                &&& arena_contents(*old(arena))[h] == value
                &&& arena_contents(*final(arena)) == arena_contents(*old(arena)).remove(h)
                &&& arena_generation(*final(arena)) == arena_generation(*old(arena)) + 1
            },
            None => {
                &&& !arena_contents(*old(arena)).contains_key(h)
                &&& arena_contents(*final(arena)) == arena_contents(*old(arena))
                &&& arena_generation(*final(arena)) == arena_generation(*old(arena))
            },
        },
        arena_in_order(*old(arena)) ==> arena_in_order(*final(arena)),
{
    arena.remove(generational_arena::Index::from_raw_parts(h.index, h.generation))
}

/// `Arena::get`. Trusted: the cell under a live handle, nothing otherwise.
#[verifier::external_body]
pub(crate) fn heap_get(arena: &generational_arena::Arena<Value>, h: Handle) -> (r: Option<&Value>)
    ensures
        match r {
            Some(value) => arena_contents(*arena).contains_key(h) && arena_contents(*arena)[h]
                == *value,
            None => !arena_contents(*arena).contains_key(h),
        },
{
    arena.get(generational_arena::Index::from_raw_parts(h.index, h.generation))
}

/// `Arena::get_mut`, used to overwrite a cell. Trusted: the value under a
/// live handle is replaced; for any other handle nothing changes. The
/// generation stays as it is.
#[verifier::external_body]
pub(crate) fn heap_set(arena: &mut generational_arena::Arena<Value>, h: Handle, value: Value) -> (r:
    bool)
    ensures
        r == arena_contents(*old(arena)).contains_key(h),
        r ==> arena_contents(*final(arena)) == arena_contents(*old(arena)).insert(h, value),
        !r ==> arena_contents(*final(arena)) == arena_contents(*old(arena)),
        arena_generation(*final(arena)) == arena_generation(*old(arena)),
        arena_in_order(*old(arena)) ==> arena_in_order(*final(arena)),
{
    match arena.get_mut(generational_arena::Index::from_raw_parts(h.index, h.generation)) {
        Some(slot) => {
            *slot = value;
            true
        },
        None => false,
    }
}

} // verus!
