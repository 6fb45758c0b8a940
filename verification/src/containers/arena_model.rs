//! The mathematical model of an arena: a sequence of slots, each with a generation
//! and an optional value, and the two transitions that every arena goes through.

use vstd::prelude::*;
use super::object_pool::ObjectPoolIndex;

verus! {

/// What one slot of an arena holds, seen from outside.
pub struct Slot<T> {
    pub generation: int,
    pub value: Option<T>,
}

/// The generation that no slot ever carries.
pub open spec fn invalid_index() -> ObjectPoolIndex {
    ObjectPoolIndex { index: 0, version: -1isize }
}

/// Generations start at one and fit the index type.
pub open spec fn valid_slots<T>(slots: Seq<Slot<T>>) -> bool {
    forall|p: int| 0 <= p < slots.len() ==> 1 <= (#[trigger] slots[p]).generation <= isize::MAX
}

/// A free slot can be handed out again as long as a fresh generation is left for it.
pub open spec fn reusable<T>(slot: Slot<T>) -> bool {
    slot.value is None && slot.generation < isize::MAX
}

/// `p` is the lowest position whose slot can be handed out again.
pub open spec fn is_lowest_reusable<T>(slots: Seq<Slot<T>>, p: int) -> bool {
    &&& 0 <= p < slots.len()
    &&& reusable(slots[p])
    &&& forall|q: int| 0 <= q < p ==> !reusable(#[trigger] slots[q])
}

/// The position that the next allocation takes: the lowest reusable one, or a new
/// slot at the end.
pub open spec fn next_position<T>(slots: Seq<Slot<T>>) -> int {
    if exists|p: int| is_lowest_reusable(slots, p) {
        choose|p: int| is_lowest_reusable(slots, p)
    } else {
        slots.len() as int
    }
}

/// The generation that the next allocation hands out.
pub open spec fn next_generation<T>(slots: Seq<Slot<T>>) -> int {
    let p = next_position(slots);
    if p < slots.len() {
        slots[p].generation + 1
    } else {
        1
    }
}

/// The slots after `value` was allocated.
pub open spec fn slots_after_create<T>(slots: Seq<Slot<T>>, value: T) -> Seq<Slot<T>> {
    let p = next_position(slots);
    let slot = Slot { generation: next_generation(slots), value: Some(value) };
    if p < slots.len() {
        slots.update(p, slot)
    } else {
        slots.push(slot)
    }
}

/// `index` names a slot that holds a value in the very generation the index carries.
pub open spec fn is_live<T>(slots: Seq<Slot<T>>, index: ObjectPoolIndex) -> bool {
    &&& index.index < slots.len()
    &&& slots[index.index as int].generation == index.version
    &&& slots[index.index as int].value is Some
}

/// The value that `index` gives access to, if it is live.
pub open spec fn value_of<T>(slots: Seq<Slot<T>>, index: ObjectPoolIndex) -> Option<T> {
    if is_live(slots, index) {
        slots[index.index as int].value
    } else {
        None
    }
}

/// The slot that a release leaves behind: empty, and one generation further
/// unless the last generation has been reached.
pub open spec fn vacated<T>(slot: Slot<T>) -> Slot<T> {
    Slot {
        generation: if slot.generation < isize::MAX {
            slot.generation + 1
        } else {
            slot.generation
        },
        value: None,
    }
}

/// The slots after `index` was released; nothing changes unless it is live.
pub open spec fn slots_after_release<T>(slots: Seq<Slot<T>>, index: ObjectPoolIndex) -> Seq<
    Slot<T>,
> {
    if is_live(slots, index) {
        slots.update(index.index as int, vacated(slots[index.index as int]))
    } else {
        slots
    }
}

/// The slots after every index of `indices` was released, first to last.
pub open spec fn slots_after_releases<T>(slots: Seq<Slot<T>>, indices: Seq<ObjectPoolIndex>) -> Seq<
    Slot<T>,
>
    decreases indices.len(),
{
    if indices.len() == 0 {
        slots
    } else {
        slots_after_releases(slots_after_release(slots, indices[0]), indices.drop_first())
    }
}

/// The values of the live slots, in slot order.
pub open spec fn live_values<T>(slots: Seq<Slot<T>>) -> Seq<T>
    decreases slots.len(),
{
    if slots.len() == 0 {
        Seq::empty()
    } else {
        match slots[0].value {
            Some(v) => seq![v] + live_values(slots.drop_first()),
            None => live_values(slots.drop_first()),
        }
    }
}

/// How many slots hold a value.
pub open spec fn live_count<T>(slots: Seq<Slot<T>>) -> nat {
    live_values(slots).len()
}

/// `index` names a slot that has moved on: whatever the index once gave access to
/// is gone, and the index will never be live again.
pub open spec fn is_spent<T>(slots: Seq<Slot<T>>, index: ObjectPoolIndex) -> bool {
    &&& index.index < slots.len()
    &&& {
        ||| index.version < slots[index.index as int].generation
        ||| (index.version == isize::MAX && slots[index.index as int].generation == isize::MAX
            && slots[index.index as int].value is None)
    }
}

/// One step in the life of an arena.
pub enum ArenaOp<T> {
    Create(T),
    Release(ObjectPoolIndex),
}

/// The slots after one step.
pub open spec fn slots_after_op<T>(slots: Seq<Slot<T>>, op: ArenaOp<T>) -> Seq<Slot<T>> {
    match op {
        ArenaOp::Create(value) => slots_after_create(slots, value),
        ArenaOp::Release(index) => slots_after_release(slots, index),
    }
}

/// The slots after a whole history of steps, first to last.
pub open spec fn slots_after_ops<T>(slots: Seq<Slot<T>>, ops: Seq<ArenaOp<T>>) -> Seq<Slot<T>>
    decreases ops.len(),
{
    if ops.len() == 0 {
        slots
    } else {
        slots_after_ops(slots_after_op(slots, ops[0]), ops.drop_first())
    }
}

/// The lowest reusable position is unique, so `next_position` is the one that any
/// search from the front finds.
pub proof fn lemma_next_position_is<T>(slots: Seq<Slot<T>>, p: int)
    requires
        is_lowest_reusable(slots, p),
    ensures
        next_position(slots) == p,
{
    let c = choose|c: int| is_lowest_reusable(slots, c);
    if c < p {
        assert(!reusable(slots[c]));
    } else if p < c {
        assert(!reusable(slots[p]));
    }
}

/// With no reusable slot the next allocation opens a new one at the end.
pub proof fn lemma_next_position_at_end<T>(slots: Seq<Slot<T>>)
    requires
        forall|q: int| 0 <= q < slots.len() ==> !reusable(#[trigger] slots[q]),
    ensures
        next_position(slots) == slots.len(),
{
    if exists|p: int| is_lowest_reusable(slots, p) {
        let c = choose|c: int| is_lowest_reusable(slots, c);
        assert(!reusable(slots[c]));
    }
}

/// The next position is in range or one past the end, and a position in range is
/// reusable.
pub proof fn lemma_next_position_bounds<T>(slots: Seq<Slot<T>>)
    ensures
        0 <= next_position(slots) <= slots.len(),
        next_position(slots) < slots.len() ==> is_lowest_reusable(slots, next_position(slots)),
{
}

/// Appending a slot appends its value, if it has one, to the live values.
pub proof fn lemma_live_values_push<T>(slots: Seq<Slot<T>>, slot: Slot<T>)
    ensures
        live_values(slots.push(slot)) == match slot.value {
            Some(v) => live_values(slots).push(v),
            None => live_values(slots),
        },
    decreases slots.len(),
{
    if slots.len() == 0 {
        assert(slots.push(slot).drop_first() =~= Seq::<Slot<T>>::empty());
        assert(live_values(slots.push(slot).drop_first()) =~= Seq::<T>::empty());
        match slot.value {
            Some(v) => {
                assert(seq![v] + Seq::<T>::empty() =~= Seq::<T>::empty().push(v));
            },
            None => {},
        }
    } else {
        lemma_live_values_push(slots.drop_first(), slot);
        assert(slots.push(slot).drop_first() =~= slots.drop_first().push(slot));
        let rest = live_values(slots.drop_first());
        match (slots[0].value, slot.value) {
            (Some(a), Some(v)) => {
                assert(seq![a] + rest.push(v) =~= (seq![a] + rest).push(v));
            },
            _ => {},
        }
    }
}

/// Replacing one slot changes the number of live slots by what that slot gains or
/// loses.
pub proof fn lemma_live_count_update<T>(slots: Seq<Slot<T>>, p: int, slot: Slot<T>)
    requires
        0 <= p < slots.len(),
    ensures
        live_count(slots.update(p, slot)) + (if slots[p].value is Some {
            1nat
        } else {
            0nat
        }) == live_count(slots) + (if slot.value is Some {
            1nat
        } else {
            0nat
        }),
    decreases slots.len(),
{
    if p == 0 {
        assert(slots.update(p, slot).drop_first() =~= slots.drop_first());
    } else {
        lemma_live_count_update(slots.drop_first(), p - 1, slot);
        assert(slots.update(p, slot).drop_first() =~= slots.drop_first().update(p - 1, slot));
    }
}

/// Releasing one index after another is the same as releasing all but the last and
/// then the last.
pub proof fn lemma_releases_push<T>(
    slots: Seq<Slot<T>>,
    indices: Seq<ObjectPoolIndex>,
    index: ObjectPoolIndex,
)
    ensures
        slots_after_releases(slots, indices.push(index)) == slots_after_release(
            slots_after_releases(slots, indices),
            index,
        ),
    decreases indices.len(),
{
    let all = indices.push(index);
    assert(all[0] == if indices.len() == 0 { index } else { indices[0] });
    if indices.len() == 0 {
        assert(all.drop_first() =~= Seq::<ObjectPoolIndex>::empty());
        let once = slots_after_release(slots, index);
        assert(slots_after_releases(once, all.drop_first()) == once);
    } else {
        assert(all.drop_first() =~= indices.drop_first().push(index));
        lemma_releases_push(slots_after_release(slots, indices[0]), indices.drop_first(), index);
    }
}

} // verus!
