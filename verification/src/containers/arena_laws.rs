//! What holds of every arena, whatever was created and released in it.

use vstd::prelude::*;
use super::arena_model::{
    invalid_index, is_live, is_lowest_reusable, is_spent, lemma_live_count_update,
    lemma_live_values_push, reusable,
    lemma_next_position_bounds, live_count, next_generation, next_position, slots_after_create,
    slots_after_op, slots_after_ops, slots_after_release, slots_after_releases, vacated,
    valid_slots, value_of, ArenaOp, Slot,
};
use super::object_pool::ObjectPoolIndex;

verus! {

/// The invalid index is live in no arena.
pub proof fn lemma_invalid_is_never_live<T>(slots: Seq<Slot<T>>)
    requires
        valid_slots(slots),
    ensures
        !is_live(slots, invalid_index()),
        value_of(slots, invalid_index()) is None,
{
}

/// Two live indices that differ name different slots: no slot is reached through
/// two indices at once.
pub proof fn lemma_live_indices_are_distinct<T>(
    slots: Seq<Slot<T>>,
    a: ObjectPoolIndex,
    b: ObjectPoolIndex,
)
    requires
        is_live(slots, a),
        is_live(slots, b),
        a != b,
    ensures
        a.index != b.index,
{
}

/// No more slots are live than there are slots, and an empty slot leaves room.
pub proof fn lemma_live_count_bound<T>(slots: Seq<Slot<T>>)
    ensures
        live_count(slots) <= slots.len(),
        (exists|p: int| 0 <= p < slots.len() && (#[trigger] slots[p]).value is None) ==> live_count(
            slots,
        ) < slots.len(),
    decreases slots.len(),
{
    if slots.len() > 0 {
        let rest = slots.drop_first();
        lemma_live_count_bound(rest);
        if exists|p: int| 0 <= p < slots.len() && (#[trigger] slots[p]).value is None {
            let p = choose|p: int| 0 <= p < slots.len() && (#[trigger] slots[p]).value is None;
            if p > 0 {
                assert(rest[p - 1].value is None);
            }
        }
    }
}

/// A spent index gives access to nothing.
pub proof fn lemma_spent_is_not_live<T>(slots: Seq<Slot<T>>, index: ObjectPoolIndex)
    requires
        is_spent(slots, index),
    ensures
        !is_live(slots, index),
        value_of(slots, index) is None,
{
}

/// Releasing a live index spends it, empties its slot and leaves every other live
/// index as it was.
pub proof fn lemma_release_spends<T>(slots: Seq<Slot<T>>, index: ObjectPoolIndex)
    requires
        valid_slots(slots),
        is_live(slots, index),
    ensures
        is_spent(slots_after_release(slots, index), index),
        valid_slots(slots_after_release(slots, index)),
        live_count(slots_after_release(slots, index)) + 1 == live_count(slots),
        forall|other: ObjectPoolIndex|
            other != index ==> value_of(slots_after_release(slots, index), other) == value_of(
                slots,
                other,
            ),
{
    let after = slots_after_release(slots, index);
    lemma_live_count_update(slots, index.index as int, vacated(slots[index.index as int]));
    assert forall|p: int| 0 <= p < after.len() implies 1 <= (#[trigger] after[p]).generation
        <= isize::MAX by {
        assert(1 <= slots[p].generation <= isize::MAX);
    }
}

/// Releasing an index that is not live changes nothing.
pub proof fn lemma_release_of_dead_index<T>(slots: Seq<Slot<T>>, index: ObjectPoolIndex)
    requires
        !is_live(slots, index),
    ensures
        slots_after_release(slots, index) == slots,
        value_of(slots, index) is None,
{
}

/// A created index is new: it was neither live nor spent before. Afterwards it
/// gives access to the value, and every index that was live still gives access to
/// what it did and differs from the new one.
pub proof fn lemma_created_index_is_fresh<T>(slots: Seq<Slot<T>>, value: T, id: ObjectPoolIndex)
    requires
        valid_slots(slots),
        id.index == next_position(slots),
        id.version == next_generation(slots),
    ensures
        !is_live(slots, id),
        !is_spent(slots, id),
        value_of(slots_after_create(slots, value), id) == Some(value),
        valid_slots(slots_after_create(slots, value)),
        live_count(slots_after_create(slots, value)) == live_count(slots) + 1,
        forall|other: ObjectPoolIndex|
            is_live(slots, other) ==> other != id && value_of(
                slots_after_create(slots, value),
                other,
            ) == value_of(slots, other),
{
    let after = slots_after_create(slots, value);
    let p = next_position(slots);
    let slot = Slot { generation: next_generation(slots), value: Some(value) };
    lemma_next_position_bounds(slots);
    if p < slots.len() {
        lemma_live_count_update(slots, p, slot);
    } else {
        lemma_live_values_push(slots, slot);
    }
    assert forall|q: int| 0 <= q < after.len() implies 1 <= (#[trigger] after[q]).generation
        <= isize::MAX by {
        if q < slots.len() {
            assert(1 <= slots[q].generation <= isize::MAX);
        }
    }
}

/// The lowest free slot is the one that is taken, and its generation moves on by
/// one; with no free slot a new one is opened in generation one.
pub proof fn lemma_create_reuses_lowest<T>(slots: Seq<Slot<T>>)
    ensures
        0 <= next_position(slots) <= slots.len(),
        forall|q: int|
            0 <= q < next_position(slots) ==> !reusable(#[trigger] slots[q]),
        next_position(slots) < slots.len() ==> slots[next_position(slots)].value is None
            && next_generation(slots) == slots[next_position(slots)].generation + 1,
        next_position(slots) == slots.len() ==> next_generation(slots) == 1,
{
    lemma_next_position_bounds(slots);
    let p = next_position(slots);
    if p == slots.len() {
        assert forall|q: int| 0 <= q < p implies !reusable(#[trigger] slots[q]) by {
            if reusable(slots[q]) {
                lemma_some_position_is_lowest(slots, q);
            }
        }
    }
}

/// Below any reusable position there is a lowest one.
proof fn lemma_some_position_is_lowest<T>(slots: Seq<Slot<T>>, q: int)
    requires
        0 <= q < slots.len(),
        reusable(slots[q]),
    ensures
        exists|p: int| is_lowest_reusable(slots, p),
    decreases q,
{
    if exists|r: int| 0 <= r < q && reusable(#[trigger] slots[r]) {
        let r = choose|r: int| 0 <= r < q && reusable(#[trigger] slots[r]);
        lemma_some_position_is_lowest(slots, r);
    } else {
        assert(is_lowest_reusable(slots, q));
    }
}

/// A spent index stays spent through whatever happens next.
pub proof fn lemma_spent_stays_spent<T>(slots: Seq<Slot<T>>, index: ObjectPoolIndex, op: ArenaOp<T>)
    requires
        is_spent(slots, index),
    ensures
        is_spent(slots_after_op(slots, op), index),
{
    lemma_next_position_bounds(slots);
}

/// A spent index stays spent through every history.
pub proof fn lemma_spent_stays_spent_forever<T>(
    slots: Seq<Slot<T>>,
    index: ObjectPoolIndex,
    ops: Seq<ArenaOp<T>>,
)
    requires
        is_spent(slots, index),
    ensures
        is_spent(slots_after_ops(slots, ops), index),
    decreases ops.len(),
{
    if ops.len() > 0 {
        lemma_spent_stays_spent(slots, index, ops[0]);
        lemma_spent_stays_spent_forever(slots_after_op(slots, ops[0]), index, ops.drop_first());
    }
}

/// Once a live index has been released, no history of creations and releases
/// makes it live again: an index into an older incarnation of a slot gives
/// access to nothing.
pub proof fn lemma_released_index_stays_dead<T>(
    slots: Seq<Slot<T>>,
    index: ObjectPoolIndex,
    ops: Seq<ArenaOp<T>>,
)
    requires
        valid_slots(slots),
        is_live(slots, index),
    ensures
        !is_live(slots_after_ops(slots_after_release(slots, index), ops), index),
        value_of(slots_after_ops(slots_after_release(slots, index), ops), index) is None,
{
    lemma_release_spends(slots, index);
    lemma_spent_stays_spent_forever(slots_after_release(slots, index), index, ops);
}

/// Every history keeps the slots valid, never shortens them, and never lets a
/// generation go back.
pub proof fn lemma_history_moves_forward<T>(slots: Seq<Slot<T>>, ops: Seq<ArenaOp<T>>)
    requires
        valid_slots(slots),
    ensures
        valid_slots(slots_after_ops(slots, ops)),
        slots.len() <= slots_after_ops(slots, ops).len(),
        forall|p: int|
            0 <= p < slots.len() ==> slots[p].generation <= (#[trigger] slots_after_ops(
                slots,
                ops,
            )[p]).generation,
    decreases ops.len(),
{
    if ops.len() > 0 {
        let next = slots_after_op(slots, ops[0]);
        lemma_next_position_bounds(slots);
        assert forall|p: int| 0 <= p < next.len() implies 1 <= (#[trigger] next[p]).generation
            <= isize::MAX by {
            if p < slots.len() {
                assert(1 <= slots[p].generation <= isize::MAX);
            }
        }
        lemma_history_moves_forward(next, ops.drop_first());
        let last = slots_after_ops(slots, ops);
        assert forall|p: int| 0 <= p < slots.len() implies slots[p].generation <= (
        #[trigger] last[p]).generation by {
            assert(slots[p].generation <= next[p].generation);
        }
    }
}

/// Releasing a batch of indices leaves none of them live.
pub proof fn lemma_releases_leave_none_live<T>(
    slots: Seq<Slot<T>>,
    indices: Seq<ObjectPoolIndex>,
    k: int,
)
    requires
        valid_slots(slots),
        0 <= k < indices.len(),
    ensures
        !is_live(slots_after_releases(slots, indices), indices[k]),
    decreases indices.len(),
{
    let next = slots_after_release(slots, indices[0]);
    let rest = indices.drop_first();
    assert(valid_slots(next)) by {
        if is_live(slots, indices[0]) {
            lemma_release_spends(slots, indices[0]);
        }
    }
    if k == 0 {
        if is_live(slots, indices[0]) {
            lemma_release_spends(slots, indices[0]);
            lemma_spent_survives_releases(next, indices[0], rest);
        } else {
            lemma_dead_survives_releases(next, indices[0], rest);
        }
    } else {
        assert(rest[k - 1] == indices[k]);
        lemma_releases_leave_none_live(next, rest, k - 1);
    }
}

/// A spent index stays spent through a batch of releases.
pub proof fn lemma_spent_survives_releases<T>(
    slots: Seq<Slot<T>>,
    index: ObjectPoolIndex,
    indices: Seq<ObjectPoolIndex>,
)
    requires
        is_spent(slots, index),
    ensures
        is_spent(slots_after_releases(slots, indices), index),
        !is_live(slots_after_releases(slots, indices), index),
    decreases indices.len(),
{
    if indices.len() > 0 {
        lemma_spent_survives_releases(
            slots_after_release(slots, indices[0]),
            index,
            indices.drop_first(),
        );
    }
}

/// An index that is not live does not become live through releases.
pub proof fn lemma_dead_survives_releases<T>(
    slots: Seq<Slot<T>>,
    index: ObjectPoolIndex,
    indices: Seq<ObjectPoolIndex>,
)
    requires
        !is_live(slots, index),
    ensures
        !is_live(slots_after_releases(slots, indices), index),
    decreases indices.len(),
{
    if indices.len() > 0 {
        lemma_dead_survives_releases(
            slots_after_release(slots, indices[0]),
            index,
            indices.drop_first(),
        );
    }
}

/// A batch of releases takes exactly its own indices out: a live index is live
/// afterwards, with the value it had, unless it is in the batch.
pub proof fn lemma_releases_spare_the_rest<T>(
    slots: Seq<Slot<T>>,
    indices: Seq<ObjectPoolIndex>,
    index: ObjectPoolIndex,
)
    requires
        valid_slots(slots),
        is_live(slots, index),
    ensures
        is_live(slots_after_releases(slots, indices), index) <==> !indices.contains(index),
        !indices.contains(index) ==> value_of(slots_after_releases(slots, indices), index)
            == value_of(slots, index),
    decreases indices.len(),
{
    if indices.len() > 0 {
        let first = indices[0];
        let rest = indices.drop_first();
        let next = slots_after_release(slots, first);
        if first == index {
            lemma_release_spends(slots, index);
            lemma_spent_survives_releases(next, index, rest);
        } else {
            if is_live(slots, first) {
                lemma_release_spends(slots, first);
            }
            assert(value_of(next, index) == value_of(slots, index));
            lemma_releases_spare_the_rest(next, rest, index);
            if rest.contains(index) {
                let k = choose|k: int| 0 <= k < rest.len() && rest[k] == index;
                assert(indices[k + 1] == index);
            }
            if indices.contains(index) {
                let k = choose|k: int| 0 <= k < indices.len() && indices[k] == index;
                assert(rest[k - 1] == index);
            }
        }
    }
}

/// A creation makes exactly one index live: afterwards the live indices are the
/// new one and those that were live before.
pub proof fn lemma_create_adds_one_live<T>(
    slots: Seq<Slot<T>>,
    value: T,
    id: ObjectPoolIndex,
    index: ObjectPoolIndex,
)
    requires
        valid_slots(slots),
        id.index == next_position(slots),
        id.version == next_generation(slots),
    ensures
        is_live(slots_after_create(slots, value), index) <==> (index == id || is_live(
            slots,
            index,
        )),
{
    lemma_next_position_bounds(slots);
    lemma_created_index_is_fresh(slots, value, id);
}

} // verus!
