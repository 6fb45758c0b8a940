//! An arena that remembers in which order its live values were created, so that
//! they can be visited in that order whatever slots they stand in.

use vstd::prelude::*;
use super::arena_laws::{
    lemma_create_adds_one_live, lemma_dead_survives_releases, lemma_releases_spare_the_rest,
};
use super::arena_model::{
    is_live, next_generation, next_position, slots_after_create, slots_after_releases,
    valid_slots, value_of, Slot,
};
use super::object_pool::{ObjectPool, ObjectPoolIndex};

verus! {

/// `order` without the indices that occur in `marked`; what is left keeps its
/// place relative to the rest.
pub open spec fn without(order: Seq<ObjectPoolIndex>, marked: Seq<ObjectPoolIndex>) -> Seq<
    ObjectPoolIndex,
>
    decreases order.len(),
{
    if order.len() == 0 {
        Seq::empty()
    } else {
        let rest = without(order.drop_last(), marked);
        if marked.contains(order.last()) {
            rest
        } else {
            rest.push(order.last())
        }
    }
}

/// `order` lists the live indices of `slots`, each once.
pub open spec fn lists_the_live<T>(order: Seq<ObjectPoolIndex>, slots: Seq<Slot<T>>) -> bool {
    &&& valid_slots(slots)
    &&& forall|k: int| 0 <= k < order.len() ==> is_live(slots, #[trigger] order[k])
    &&& forall|i: int, j: int| 0 <= i < j < order.len() ==> order[i] != order[j]
    &&& forall|index: ObjectPoolIndex| is_live(slots, index) ==> order.contains(index)
}

/// What is left of an order holds an index exactly if the order held it and it is
/// not marked.
pub proof fn lemma_without_holds(
    order: Seq<ObjectPoolIndex>,
    marked: Seq<ObjectPoolIndex>,
    index: ObjectPoolIndex,
)
    ensures
        without(order, marked).contains(index) <==> (order.contains(index) && !marked.contains(
            index,
        )),
    decreases order.len(),
{
    if order.len() > 0 {
        let rest = without(order.drop_last(), marked);
        lemma_without_holds(order.drop_last(), marked, index);
        if order.contains(index) {
            let k = choose|k: int| 0 <= k < order.len() && order[k] == index;
            if k < order.len() - 1 {
                assert(order.drop_last()[k] == index);
            }
        }
        if order.drop_last().contains(index) {
            let k = choose|k: int| 0 <= k < order.len() - 1 && order.drop_last()[k] == index;
            assert(order[k] == index);
        }
        if !marked.contains(order.last()) {
            let kept = rest.push(order.last());
            assert(kept[rest.len() as int] == order.last());
            if kept.contains(index) {
                let k = choose|k: int| 0 <= k < kept.len() && kept[k] == index;
                if k < rest.len() {
                    assert(rest[k] == index);
                }
            }
            if rest.contains(index) {
                let k = choose|k: int| 0 <= k < rest.len() && rest[k] == index;
                assert(kept[k] == index);
            }
        }
        assert(order[order.len() - 1] == order.last());
    }
}

/// With nothing marked the order stays what it is.
pub proof fn lemma_without_nothing(order: Seq<ObjectPoolIndex>)
    ensures
        without(order, Seq::empty()) == order,
    decreases order.len(),
{
    if order.len() > 0 {
        lemma_without_nothing(order.drop_last());
        assert(order.drop_last().push(order.last()) =~= order);
    } else {
        assert(order =~= Seq::empty());
    }
}

/// An index that comes after the whole order and is not marked comes after what is
/// left of the order: a later creation never moves in front of an earlier one.
pub proof fn lemma_without_keeps_the_last(
    order: Seq<ObjectPoolIndex>,
    marked: Seq<ObjectPoolIndex>,
    index: ObjectPoolIndex,
)
    ensures
        without(order.push(index), marked) == if marked.contains(index) {
            without(order, marked)
        } else {
            without(order, marked).push(index)
        },
{
    assert(order.push(index).drop_last() =~= order);
}

/// The arena with its order of creation.
pub struct OrderedPool<T> {
    objects: ObjectPool<T>,
    created: Vec<ObjectPoolIndex>,
}

impl<T> OrderedPool<T> {
    #[verifier::type_invariant]
    spec fn coherent(self) -> bool {
        lists_the_live(self.created@, self.objects@)
    }

    /// The live indices, in the order in which they were created.
    pub closed spec fn order(self) -> Seq<ObjectPoolIndex> {
        self.created@
    }

    /// The slots of the arena.
    pub closed spec fn slots(self) -> Seq<Slot<T>> {
        self.objects@
    }

    pub fn new() -> (pool: Self)
        ensures
            pool.order() == Seq::<ObjectPoolIndex>::empty(),
            pool.slots() == Seq::<Slot<T>>::empty(),
    {
        OrderedPool { objects: ObjectPool::new(), created: Vec::new() }
    }

    /// Stores `value` as an arena does, and puts its index last in the order.
    pub fn create_object(&mut self, value: T) -> (id: ObjectPoolIndex)
        ensures
            lists_the_live(old(self).order(), old(self).slots()),
            lists_the_live(final(self).order(), final(self).slots()),
            id.index == next_position(old(self).slots()),
            id.version == next_generation(old(self).slots()),
            final(self).slots() == slots_after_create(old(self).slots(), value),
            final(self).order() == old(self).order().push(id),
            !old(self).order().contains(id),
    {
        proof {
            use_type_invariant(&*self);
        }
        let mut taken = OrderedPool::new();
        std::mem::swap(self, &mut taken);
        let OrderedPool { mut objects, mut created } = taken;
        let ghost slots_before = objects@;
        let ghost order_before = created@;
        let id = objects.create_object(value);
        created.push(id);
        proof {
            let order = created@;
            let slots = objects@;
            assert(!order_before.contains(id)) by {
                if order_before.contains(id) {
                    let k = choose|k: int| 0 <= k < order_before.len() && order_before[k] == id;
                    assert(is_live(slots_before, order_before[k]));
                }
            }
            assert forall|k: int| 0 <= k < order.len() implies is_live(
                slots,
                #[trigger] order[k],
            ) by {
                lemma_create_adds_one_live(slots_before, value, id, order[k]);
                if k < order_before.len() {
                    assert(is_live(slots_before, order_before[k]));
                }
            }
            assert forall|i: int, j: int| 0 <= i < j < order.len() implies order[i] != order[j] by {
                if j == order_before.len() {
                    assert(order_before[i] == order[i]);
                    assert(order_before.contains(order[i]));
                } else {
                    assert(order_before[i] != order_before[j]);
                }
            }
            assert forall|index: ObjectPoolIndex| is_live(slots, index) implies order.contains(
                index,
            ) by {
                lemma_create_adds_one_live(slots_before, value, id, index);
                if index == id {
                    assert(order[order_before.len() as int] == id);
                } else {
                    assert(order_before.contains(index));
                    let k = choose|k: int|
                        0 <= k < order_before.len() && order_before[k] == index;
                    assert(order[k] == index);
                }
            }
        }
        *self = OrderedPool { objects, created };
        id
    }

    /// Releases every index of `marked` and empties the list. What stays live keeps
    /// its place in the order.
    pub fn release_objects(&mut self, marked: &mut Vec<ObjectPoolIndex>)
        ensures
            lists_the_live(old(self).order(), old(self).slots()),
            lists_the_live(final(self).order(), final(self).slots()),
            final(self).slots() == slots_after_releases(old(self).slots(), old(marked)@),
            final(self).order() == without(old(self).order(), old(marked)@),
            final(marked)@ == Seq::<ObjectPoolIndex>::empty(),
    {
        proof {
            use_type_invariant(&*self);
        }
        let mut taken = OrderedPool::new();
        std::mem::swap(self, &mut taken);
        let OrderedPool { mut objects, created } = taken;
        let ghost slots_before = objects@;
        let ghost gone = marked@;
        objects.release_objects(marked);
        let ghost slots = objects@;
        let count = created.len();
        let mut kept: Vec<ObjectPoolIndex> = Vec::new();
        let mut seen: usize = 0;
        while seen < count
            invariant
                seen <= count,
                count == created@.len(),
                lists_the_live(created@, slots_before),
                slots == slots_after_releases(slots_before, gone),
                slots == objects@,
                valid_slots(slots),
                kept@ == without(created@.take(seen as int), gone),
                forall|k: int| 0 <= k < kept@.len() ==> is_live(slots, #[trigger] kept@[k]),
                forall|index: ObjectPoolIndex|
                    kept@.contains(index) ==> created@.take(seen as int).contains(index),
                forall|k: int|
                    0 <= k < seen && is_live(slots, created@[k]) ==> kept@.contains(
                        #[trigger] created@[k],
                    ),
                forall|i: int, j: int| 0 <= i < j < kept@.len() ==> kept@[i] != kept@[j],
            decreases count - seen,
        {
            let index = created[seen];
            let ghost kept_before = kept@;
            let ghost part = created@.take(seen as int);
            let ghost more = created@.take(seen + 1);
            proof {
                assert(more.drop_last() =~= part);
                assert(more.last() == index);
                assert(is_live(slots_before, created@[seen as int]));
                lemma_releases_spare_the_rest(slots_before, gone, index);
                assert(!part.contains(index)) by {
                    if part.contains(index) {
                        let k = choose|k: int| 0 <= k < part.len() && part[k] == index;
                        assert(created@[k] != created@[seen as int]);
                    }
                }
            }
            if objects.get_ref(index).is_some() {
                kept.push(index);
                proof {
                    assert(kept@[kept_before.len() as int] == index);
                    assert forall|i: int, j: int| 0 <= i < j < kept@.len() implies kept@[i]
                        != kept@[j] by {
                        if j == kept_before.len() {
                            assert(kept_before[i] == kept@[i]);
                            assert(kept_before.contains(kept@[i]));
                        } else {
                            assert(kept_before[i] != kept_before[j]);
                        }
                    }
                }
            }
            proof {
                assert forall|other: ObjectPoolIndex| kept@.contains(other) implies more.contains(
                    other,
                ) by {
                    let k = choose|k: int| 0 <= k < kept@.len() && kept@[k] == other;
                    if k < kept_before.len() {
                        assert(kept_before[k] == other);
                        assert(kept_before.contains(other));
                        let at = choose|at: int| 0 <= at < part.len() && part[at] == other;
                        assert(more[at] == other);
                    } else {
                        assert(more[seen as int] == other);
                    }
                }
                assert forall|k: int|
                    0 <= k < seen + 1 && is_live(slots, created@[k]) implies kept@.contains(
                    #[trigger] created@[k],
                ) by {
                    if k < seen {
                        assert(kept_before.contains(created@[k]));
                        let at = choose|at: int|
                            0 <= at < kept_before.len() && kept_before[at] == created@[k];
                        assert(kept@[at] == created@[k]);
                    } else {
                        assert(kept@[kept_before.len() as int] == index);
                    }
                }
            }
            seen = seen + 1;
        }
        proof {
            assert(created@.take(seen as int) =~= created@);
            assert forall|index: ObjectPoolIndex| is_live(slots, index) implies kept@.contains(
                index,
            ) by {
                if !is_live(slots_before, index) {
                    lemma_dead_survives_releases(slots_before, index, gone);
                }
                assert(created@.contains(index));
                let k = choose|k: int| 0 <= k < created@.len() && created@[k] == index;
                assert(kept@.contains(created@[k]));
            }
        }
        *self = OrderedPool { objects, created: kept };
    }

    /// Number of live values.
    pub fn len(&self) -> (n: usize)
        ensures
            n == self.order().len(),
            lists_the_live(self.order(), self.slots()),
    {
        proof {
            use_type_invariant(self);
        }
        self.created.len()
    }

    /// The index of the value that was created as the `position`-th of those that
    /// are live.
    pub fn index_at(&self, position: usize) -> (index: Option<ObjectPoolIndex>)
        ensures
            index == if position < self.order().len() {
                Some(self.order()[position as int])
            } else {
                None::<ObjectPoolIndex>
            },
    {
        if position < self.created.len() {
            Some(self.created[position])
        } else {
            None
        }
    }

    /// Mutable access to the value that was created as the `position`-th of those
    /// that are live. Whatever is written through it stays in its slot and keeps
    /// its place in the order.
    pub fn get_mut_at(&mut self, position: usize) -> (value: Option<&mut T>)
        ensures
            final(self).order() == old(self).order(),
            lists_the_live(old(self).order(), old(self).slots()),
            match value {
                Some(v) => {
                    let index = old(self).order()[position as int];
                    &&& position < old(self).order().len()
                    &&& value_of(old(self).slots(), index) == Some(*v)
                    &&& final(self).slots() == old(self).slots().update(
                        index.index as int,
                        Slot { generation: index.version as int, value: Some(*final(v)) },
                    )
                },
                None => position >= old(self).order().len() && final(self).slots() == old(
                    self,
                ).slots(),
            },
    {
        proof {
            use_type_invariant(&*self);
        }
        if position < self.created.len() {
            let index = self.created[position];
            proof {
                let order = self.created@;
                let slots = self.objects@;
                assert(is_live(slots, order[position as int]));
                assert forall|v: T|
                    lists_the_live(
                        order,
                        #[trigger] slots.update(
                            index.index as int,
                            Slot { generation: index.version as int, value: Some(v) },
                        ),
                    ) by {
                    lemma_write_keeps_the_live(order, slots, index, v);
                }
            }
            self.objects.get_mut(index)
        } else {
            None
        }
    }
}

/// Writing to the value behind a live index leaves every index as live as it was.
proof fn lemma_write_keeps_the_live<T>(
    order: Seq<ObjectPoolIndex>,
    slots: Seq<Slot<T>>,
    index: ObjectPoolIndex,
    v: T,
)
    requires
        lists_the_live(order, slots),
        is_live(slots, index),
    ensures
        lists_the_live(
            order,
            slots.update(
                index.index as int,
                Slot { generation: index.version as int, value: Some(v) },
            ),
        ),
{
    let after = slots.update(
        index.index as int,
        Slot { generation: index.version as int, value: Some(v) },
    );
    assert forall|p: int| 0 <= p < after.len() implies 1 <= (#[trigger] after[p]).generation
        <= isize::MAX by {
        assert(1 <= slots[p].generation <= isize::MAX);
    }
    assert forall|other: ObjectPoolIndex| is_live(after, other) == is_live(slots, other) by {}
    assert forall|k: int| 0 <= k < order.len() implies is_live(after, #[trigger] order[k]) by {
        assert(is_live(slots, order[k]));
    }
}

} // verus!
