//! A slot arena whose indices carry a generation, so that an index into a slot that
//! was released or reused is told apart from a live one.

use vstd::prelude::*;
use super::arena_model::{
    invalid_index, is_live, is_lowest_reusable, lemma_next_position_at_end,
    lemma_next_position_is, lemma_releases_push, live_count, live_values, next_generation,
    next_position, reusable, slots_after_create, slots_after_release, slots_after_releases,
    valid_slots, value_of, Slot,
};
use super::arena_laws::lemma_created_index_is_fresh;
use super::free_slots::FreeSlots;

verus! {

/// A slot position together with the generation of the slot at the time the index
/// was handed out.
#[derive(Debug, Copy, Clone, Eq, PartialEq, Ord, PartialOrd, Structural)]
pub struct ObjectPoolIndex {
    pub index: usize,
    pub version: isize,
}

impl ObjectPoolIndex {
    /// An index that is live in no arena.
    pub fn invalid() -> (id: Self)
        ensures
            id == invalid_index(),
    {
        ObjectPoolIndex { index: 0, version: -1 }
    }

    /// Hands the index out and leaves the invalid one behind.
    pub fn invalidate(&mut self) -> (id: Self)
        ensures
            id == *old(self),
            *final(self) == invalid_index(),
    {
        let mut id = Self::invalid();
        std::mem::swap(&mut id, self);
        id
    }
}

struct ObjectWrapper<T> {
    version: isize,
    object: Option<T>,
}

/// The arena. Its view is the sequence of its slots.
///
/// A slot whose generation has reached the last value of its type is not handed
/// out again once it is released: no generation would be left to tell a new
/// occupant from the old one.
pub struct ObjectPool<T> {
    objects: Vec<ObjectWrapper<T>>,
    free_slots: FreeSlots,
    number_of_items: usize,
    occupied: Ghost<Seq<bool>>,
}

/// The slots as the contracts speak of them.
spec fn slots_of<T>(objects: Seq<ObjectWrapper<T>>) -> Seq<Slot<T>> {
    Seq::new(
        objects.len(),
        |p: int| Slot { generation: objects[p].version as int, value: objects[p].object },
    )
}

/// How many entries of `occupied` are set.
spec fn count_set(occupied: Seq<bool>) -> nat
    decreases occupied.len(),
{
    if occupied.len() == 0 {
        0
    } else {
        count_set(occupied.drop_first()) + if occupied[0] {
            1nat
        } else {
            0nat
        }
    }
}

/// `occupied` says of each slot whether it holds a value.
spec fn marks<T>(occupied: Seq<bool>, slots: Seq<Slot<T>>) -> bool {
    &&& occupied.len() == slots.len()
    &&& forall|p: int| 0 <= p < slots.len() ==> occupied[p] == (#[trigger] slots[p]).value is Some
}

/// What holds of the parts of an arena at all times: the generations are valid, the
/// free slots are exactly the reusable ones, and the count is that of the occupied
/// slots.
spec fn consistent<T>(
    objects: Seq<ObjectWrapper<T>>,
    free: FreeSlots,
    items: usize,
    occupied: Seq<bool>,
) -> bool {
    &&& valid_slots(slots_of(objects))
    &&& forall|p: usize|
        #![trigger free.has(p)]
        #![trigger slots_of(objects)[p as int]]
        free.has(p) <==> (p < objects.len() && reusable(slots_of(objects)[p as int]))
    &&& marks(occupied, slots_of(objects))
    &&& items == count_set(occupied)
}

proof fn lemma_count_set_update(occupied: Seq<bool>, p: int, mark: bool)
    requires
        0 <= p < occupied.len(),
    ensures
        count_set(occupied.update(p, mark)) + (if occupied[p] {
            1nat
        } else {
            0nat
        }) == count_set(occupied) + (if mark {
            1nat
        } else {
            0nat
        }),
    decreases occupied.len(),
{
    if p == 0 {
        assert(occupied.update(p, mark).drop_first() =~= occupied.drop_first());
    } else {
        lemma_count_set_update(occupied.drop_first(), p - 1, mark);
        assert(occupied.update(p, mark).drop_first() =~= occupied.drop_first().update(
            p - 1,
            mark,
        ));
    }
}

proof fn lemma_count_set_push(occupied: Seq<bool>, mark: bool)
    ensures
        count_set(occupied.push(mark)) == count_set(occupied) + (if mark {
            1nat
        } else {
            0nat
        }),
    decreases occupied.len(),
{
    let pushed = occupied.push(mark);
    if occupied.len() == 0 {
        assert(pushed.drop_first() =~= Seq::<bool>::empty());
        assert(count_set(pushed.drop_first()) == 0);
        assert(pushed[0] == mark);
    } else {
        lemma_count_set_push(occupied.drop_first(), mark);
        assert(pushed.drop_first() =~= occupied.drop_first().push(mark));
        assert(pushed[0] == occupied[0]);
    }
}

proof fn lemma_count_set_le(occupied: Seq<bool>)
    ensures
        count_set(occupied) <= occupied.len(),
    decreases occupied.len(),
{
    if occupied.len() > 0 {
        lemma_count_set_le(occupied.drop_first());
    }
}

/// An unset entry leaves room for one more.
proof fn lemma_count_set_bound(occupied: Seq<bool>, p: int)
    requires
        0 <= p < occupied.len(),
        !occupied[p],
    ensures
        count_set(occupied) < occupied.len(),
{
    lemma_count_set_update(occupied, p, true);
    lemma_count_set_le(occupied.update(p, true));
}

proof fn lemma_count_set_is_live_count<T>(occupied: Seq<bool>, slots: Seq<Slot<T>>)
    requires
        marks(occupied, slots),
    ensures
        count_set(occupied) == live_count(slots),
    decreases slots.len(),
{
    if slots.len() > 0 {
        assert(slots[0].value is Some == occupied[0]);
        let rest = slots.drop_first();
        assert forall|p: int| 0 <= p < rest.len() implies occupied.drop_first()[p] == (
        #[trigger] rest[p]).value is Some by {
            assert(rest[p] == slots[p + 1]);
        }
        lemma_count_set_is_live_count(occupied.drop_first(), slots.drop_first());
    }
}

/// `after` differs from `before` at most in the value that the slot at `at` holds:
/// every slot keeps its generation and stays occupied or empty as it was.
spec fn same_occupancy<T>(
    before: Seq<ObjectWrapper<T>>,
    after: Seq<ObjectWrapper<T>>,
    at: int,
) -> bool {
    &&& after.len() == before.len()
    &&& forall|p: int| 0 <= p < before.len() && p != at ==> #[trigger] after[p] == before[p]
    &&& 0 <= at < before.len() ==> after[at].version == before[at].version && (after[at].object
        is Some) == (before[at].object is Some)
}

proof fn lemma_same_occupancy_is_consistent<T>(
    before: Seq<ObjectWrapper<T>>,
    after: Seq<ObjectWrapper<T>>,
    at: int,
    free: FreeSlots,
    items: usize,
    occupied: Seq<bool>,
)
    requires
        consistent(before, free, items, occupied),
        same_occupancy(before, after, at),
    ensures
        consistent(after, free, items, occupied),
{
    let old_slots = slots_of(before);
    let new_slots = slots_of(after);
    assert forall|p: int| 0 <= p < new_slots.len() implies 1 <= (
    #[trigger] new_slots[p]).generation <= isize::MAX && occupied[p] == new_slots[p].value is Some
        && reusable(new_slots[p]) == reusable(old_slots[p]) by {
        assert(1 <= old_slots[p].generation <= isize::MAX);
        if p != at {
            assert(after[p] == before[p]);
        }
    }
    assert forall|p: usize|
        #![trigger free.has(p)]
        #![trigger new_slots[p as int]]
        free.has(p) <==> (p < after.len() && reusable(new_slots[p as int])) by {
        if p < after.len() {
            assert(reusable(new_slots[p as int]) == reusable(old_slots[p as int]));
        }
    }
}

/// Mutable access to the value of the slot at `index.index`, if the slot holds one
/// in generation `index.version`.
fn value_mut_in<T>(objects: &mut Vec<ObjectWrapper<T>>, index: ObjectPoolIndex) -> (value: Option<
    &mut T,
>)
    ensures
        same_occupancy(old(objects)@, final(objects)@, index.index as int),
        match value {
            Some(v) => {
                &&& index.index < old(objects)@.len()
                &&& old(objects)@[index.index as int].version == index.version
                &&& old(objects)@[index.index as int].object == Some(*v)
                &&& final(objects)@[index.index as int].object == Some(*final(v))
            },
            None => {
                &&& final(objects)@ == old(objects)@
                &&& !(index.index < old(objects)@.len() && old(objects)@[index.index as int].version
                    == index.version && old(objects)@[index.index as int].object is Some)
            },
        },
    no_unwind
{
    if index.index < objects.len() && objects[index.index].version == index.version {
        let obj = &mut objects[index.index];
        match &mut obj.object {
            Some(v) => Some(v),
            None => None,
        }
    } else {
        None
    }
}

impl<T> View for ObjectPool<T> {
    type V = Seq<Slot<T>>;

    closed spec fn view(&self) -> Seq<Slot<T>> {
        slots_of(self.objects@)
    }
}

impl<T> Default for ObjectPool<T> {
    fn default() -> (pool: Self)
        ensures
            pool@ == Seq::<Slot<T>>::empty(),
    {
        Self::new()
    }
}

impl<T> ObjectPool<T> {
    #[verifier::type_invariant]
    spec fn well_formed(self) -> bool {
        consistent(self.objects@, self.free_slots, self.number_of_items, self.occupied@)
    }

    pub fn new() -> (pool: Self)
        ensures
            pool@ == Seq::<Slot<T>>::empty(),
    {
        let pool = ObjectPool {
            objects: Vec::new(),
            free_slots: FreeSlots::new(),
            number_of_items: 0,
            occupied: Ghost(Seq::empty()),
        };
        assert(pool@ =~= Seq::<Slot<T>>::empty());
        pool
    }

    pub fn with_capacity(capacity: usize) -> (pool: Self)
        ensures
            pool@ == Seq::<Slot<T>>::empty(),
    {
        let pool = ObjectPool {
            objects: Vec::with_capacity(capacity),
            free_slots: FreeSlots::with_capacity(capacity),
            number_of_items: 0,
            occupied: Ghost(Seq::empty()),
        };
        assert(pool@ =~= Seq::<Slot<T>>::empty());
        pool
    }

    /// Stores `value` in the lowest reusable slot, or in a new slot at the end, and
    /// returns the index that gives access to it.
    pub fn create_object(&mut self, value: T) -> (id: ObjectPoolIndex)
        ensures
            valid_slots(old(self)@),
            valid_slots(final(self)@),
            id.index == next_position(old(self)@),
            id.version == next_generation(old(self)@),
            final(self)@ == slots_after_create(old(self)@, value),
            !is_live(old(self)@, id),
            value_of(final(self)@, id) == Some(value),
    {
        proof {
            use_type_invariant(&*self);
        }
        let mut taken = ObjectPool::new();
        std::mem::swap(self, &mut taken);
        let ObjectPool { mut objects, mut free_slots, mut number_of_items, occupied } = taken;
        let ghost before = slots_of(objects@);
        let ghost free_before = free_slots;
        match free_slots.pop_lowest() {
            Some(index) => {
                proof {
                    assert(free_before.has(index));
                    assert forall|q: int| 0 <= q < index implies !reusable(
                        #[trigger] before[q],
                    ) by {
                        if reusable(before[q]) {
                            assert(free_before.has(q as usize));
                        }
                    }
                    assert(is_lowest_reusable(before, index as int));
                    lemma_next_position_is(before, index as int);
                    assert(!occupied@[index as int]);
                    lemma_count_set_update(occupied@, index as int, true);
                    lemma_count_set_bound(occupied@, index as int);
                }
                let version = objects[index].version + 1;
                objects[index] = ObjectWrapper { version, object: Some(value) };
                assert(number_of_items < objects.len());
                number_of_items = number_of_items + 1;
                let occupied = Ghost(occupied@.update(index as int, true));
                proof {
                    assert(slots_of(objects@) =~= slots_after_create(before, value));
                    assert forall|p: usize|
                        #![trigger free_slots.has(p)]
                        #![trigger slots_of(objects@)[p as int]]
                        free_slots.has(p) <==> (p < objects.len() && reusable(
                            slots_of(objects@)[p as int],
                        )) by {
                        if p != index && p < objects.len() {
                            assert(slots_of(objects@)[p as int] == before[p as int]);
                            assert(free_before.has(p) == reusable(before[p as int]));
                        }
                        if p >= objects.len() {
                            assert(!free_before.has(p));
                        }
                    }
                }
                *self = ObjectPool { objects, free_slots, number_of_items, occupied };
                proof {
                    lemma_created_index_is_fresh(
                        before,
                        value,
                        ObjectPoolIndex { index, version },
                    );
                }
                ObjectPoolIndex { index, version }
            },
            None => {
                let index = objects.len();
                let version: isize = 1;
                proof {
                    assert forall|q: int| 0 <= q < before.len() implies !reusable(
                        #[trigger] before[q],
                    ) by {
                        if reusable(before[q]) {
                            assert(free_before.has(q as usize));
                        }
                    }
                    lemma_next_position_at_end(before);
                    lemma_count_set_push(occupied@, true);
                    lemma_count_set_le(occupied@);
                }
                objects.push(ObjectWrapper { version, object: Some(value) });
                assert(number_of_items < objects.len());
                number_of_items = number_of_items + 1;
                let occupied = Ghost(occupied@.push(true));
                proof {
                    assert(slots_of(objects@) =~= slots_after_create(before, value));
                    assert forall|p: usize|
                        #![trigger free_slots.has(p)]
                        #![trigger slots_of(objects@)[p as int]]
                        free_slots.has(p) <==> (p < objects.len() && reusable(
                            slots_of(objects@)[p as int],
                        )) by {
                        assert(!free_before.has(p));
                        if p < index {
                            assert(slots_of(objects@)[p as int] == before[p as int]);
                        }
                    }
                }
                *self = ObjectPool { objects, free_slots, number_of_items, occupied };
                proof {
                    lemma_created_index_is_fresh(
                        before,
                        value,
                        ObjectPoolIndex { index, version },
                    );
                }
                ObjectPoolIndex { index, version }
            },
        }
    }

    /// Takes the value of a live index out and makes the index stale; any other
    /// index changes nothing and gives nothing.
    pub fn release_object(&mut self, index: ObjectPoolIndex) -> (value: Option<T>)
        ensures
            valid_slots(old(self)@),
            valid_slots(final(self)@),
            value == value_of(old(self)@, index),
            final(self)@ == slots_after_release(old(self)@, index),
    {
        proof {
            use_type_invariant(&*self);
        }
        if index.index >= self.objects.len() {
            return None;
        }
        if self.objects[index.index].version != index.version
            || self.objects[index.index].object.is_none() {
            return None;
        }
        let mut taken = ObjectPool::new();
        std::mem::swap(self, &mut taken);
        let ObjectPool { mut objects, mut free_slots, mut number_of_items, occupied } = taken;
        let ghost before = slots_of(objects@);
        let ghost free_before = free_slots;
        let at = index.index;
        let version = if index.version < isize::MAX {
            index.version + 1
        } else {
            index.version
        };
        let mut wrapper = ObjectWrapper { version, object: None };
        proof {
            assert(is_live(before, index));
            assert(!reusable(before[at as int]));
            assert(!free_before.has(at));
            lemma_count_set_update(occupied@, at as int, false);
        }
        assert(occupied@[at as int]);
        std::mem::swap(&mut objects[at], &mut wrapper);
        if version < isize::MAX {
            free_slots.push(at);
        }
        number_of_items = number_of_items - 1;
        let occupied = Ghost(occupied@.update(at as int, false));
        proof {
            assert(slots_of(objects@) =~= slots_after_release(before, index));
            assert forall|p: usize|
                #![trigger free_slots.has(p)]
                #![trigger slots_of(objects@)[p as int]]
                free_slots.has(p) <==> (p < objects.len() && reusable(
                    slots_of(objects@)[p as int],
                )) by {
                if p != at && p < objects.len() {
                    assert(slots_of(objects@)[p as int] == before[p as int]);
                    assert(free_before.has(p) == reusable(before[p as int]));
                }
                if p >= objects.len() {
                    assert(!free_before.has(p));
                }
            }
        }
        *self = ObjectPool { objects, free_slots, number_of_items, occupied };
        wrapper.object
    }

    /// Releases every index of `indices`, first to last, and empties the list. An
    /// index that is not live, or occurs a second time, changes nothing.
    pub fn release_objects(&mut self, indices: &mut Vec<ObjectPoolIndex>)
        ensures
            valid_slots(old(self)@),
            valid_slots(final(self)@),
            final(self)@ == slots_after_releases(old(self)@, old(indices)@),
            final(indices)@ == Seq::<ObjectPoolIndex>::empty(),
    {
        proof {
            use_type_invariant(&*self);
        }
        let mut done: usize = 0;
        while done < indices.len()
            invariant
                done <= indices@.len(),
                indices@ == old(indices)@,
                valid_slots(old(self)@),
                valid_slots(self@),
                self@ == slots_after_releases(old(self)@, old(indices)@.take(done as int)),
            decreases indices@.len() - done,
        {
            let index = indices[done];
            proof {
                lemma_releases_push(old(self)@, old(indices)@.take(done as int), index);
                assert(old(indices)@.take(done as int).push(index) =~= old(indices)@.take(
                    done + 1,
                ));
            }
            self.release_object(index);
            done = done + 1;
        }
        assert(old(indices)@.take(done as int) =~= old(indices)@);
        indices.clear();
    }

    /// The value behind a live index.
    pub fn get_ref(&self, index: ObjectPoolIndex) -> (value: Option<&T>)
        ensures
            valid_slots(self@),
            match value {
                Some(v) => value_of(self@, index) == Some(*v),
                None => value_of(self@, index) is None,
            },
    {
        proof {
            use_type_invariant(self);
        }
        if index.index < self.objects.len() {
            let obj = &self.objects[index.index];
            if obj.version == index.version {
                return obj.object.as_ref();
            }
        }
        None
    }

    /// Mutable access to the value behind a live index. Whatever is written through
    /// it stays in the same slot under the same generation.
    pub fn get_mut(&mut self, index: ObjectPoolIndex) -> (value: Option<&mut T>)
        ensures
            valid_slots(old(self)@),
            match value {
                Some(v) => {
                    &&& value_of(old(self)@, index) == Some(*v)
                    &&& final(self)@ =~= old(self)@.update(
                        index.index as int,
                        Slot { generation: index.version as int, value: Some(*final(v)) },
                    )
                },
                None => {
                    &&& value_of(old(self)@, index) is None
                    &&& final(self)@ =~= old(self)@
                },
            },
        no_unwind
    {
        proof {
            use_type_invariant(&*self);
        }
        proof {
            let before = self.objects@;
            assert forall|after: Seq<ObjectWrapper<T>>| #[trigger]
                same_occupancy(before, after, index.index as int) implies consistent(
                after,
                self.free_slots,
                self.number_of_items,
                self.occupied@,
            ) by {
                lemma_same_occupancy_is_consistent(
                    before,
                    after,
                    index.index as int,
                    self.free_slots,
                    self.number_of_items,
                    self.occupied@,
                );
            }
        }
        value_mut_in(&mut self.objects, index)
    }

    /// Number of live slots.
    pub fn len(&self) -> (n: usize)
        ensures
            n == live_count(self@),
    {
        proof {
            use_type_invariant(self);
            lemma_count_set_is_live_count(self.occupied@, self@);
        }
        self.number_of_items
    }

    pub fn is_empty(&self) -> (empty: bool)
        ensures
            empty == (live_count(self@) == 0),
    {
        proof {
            use_type_invariant(self);
            lemma_count_set_is_live_count(self.occupied@, self@);
        }
        self.number_of_items == 0
    }

    /// Walks over the values of the live slots, in slot order.
    pub fn iter(&self) -> (walk: ObjectPoolIter<'_, T>)
        ensures
            walk@ == live_values(self@),
    {
        let walk = ObjectPoolIter { objects: &self.objects, position: 0 };
        assert(self@.subrange(0, self@.len() as int) =~= self@);
        walk
    }

    /// Walks over the values of the live slots, in slot order, with the right to
    /// change each.
    pub fn iter_mut(&mut self) -> (walk: ObjectPoolIterMut<'_, T>)
        ensures
            walk.slots() == old(self)@,
            walk.position() == 0,
            *final(self) == *final(walk.pool),
    {
        ObjectPoolIterMut { pool: self, position: 0 }
    }

    /// The index of the first live slot, in slot order, whose value `pred` accepts.
    pub fn first_index(&self, pred: impl Fn(&T) -> bool) -> (found: Option<ObjectPoolIndex>)
        requires
            forall|p: int|
                0 <= p < self@.len() && (#[trigger] self@[p]).value is Some ==> call_requires(
                    pred,
                    (&self@[p].value->0,),
                ),
        ensures
            match found {
                Some(id) => {
                    &&& is_live(self@, id)
                    &&& call_ensures(pred, (&self@[id.index as int].value->0,), true)
                    &&& forall|p: int|
                        0 <= p < id.index && (#[trigger] self@[p]).value is Some ==> call_ensures(
                            pred,
                            (&self@[p].value->0,),
                            false,
                        )
                },
                None => forall|p: int|
                    0 <= p < self@.len() && (#[trigger] self@[p]).value is Some ==> call_ensures(
                        pred,
                        (&self@[p].value->0,),
                        false,
                    ),
            },
    {
        let mut position: usize = 0;
        while position < self.objects.len()
            invariant
                position <= self.objects@.len(),
                forall|p: int|
                    0 <= p < self@.len() && (#[trigger] self@[p]).value is Some ==> call_requires(
                        pred,
                        (&self@[p].value->0,),
                    ),
                forall|p: int|
                    0 <= p < position && (#[trigger] self@[p]).value is Some ==> call_ensures(
                        pred,
                        (&self@[p].value->0,),
                        false,
                    ),
            decreases self.objects@.len() - position,
        {
            let wrapper = &self.objects[position];
            assert(self@[position as int].value == wrapper.object);
            match &wrapper.object {
                Some(object) => {
                    if pred(object) {
                        return Some(ObjectPoolIndex { index: position, version: wrapper.version });
                    }
                },
                None => {},
            }
            position = position + 1;
        }
        None
    }

    /// Number of slots, live or not.
    pub(crate) fn slot_count(&self) -> (n: usize)
        ensures
            n == self@.len(),
    {
        self.objects.len()
    }

    /// Whether the slot at `position` holds a value.
    pub(crate) fn is_occupied(&self, position: usize) -> (occupied: bool)
        ensures
            occupied == (position < self@.len() && self@[position as int].value is Some),
    {
        position < self.objects.len() && self.objects[position].object.is_some()
    }

    /// The index under which the slot at `position` is live now, if it is.
    pub(crate) fn index_at(&self, position: usize) -> (id: Option<ObjectPoolIndex>)
        ensures
            match id {
                Some(id) => id.index == position && is_live(self@, id),
                None => !(position < self@.len() && self@[position as int].value is Some),
            },
    {
        if position < self.objects.len() && self.objects[position].object.is_some() {
            Some(ObjectPoolIndex { index: position, version: self.objects[position].version })
        } else {
            None
        }
    }

    /// Mutable access to the value of the slot at `position`, whatever its
    /// generation.
    fn value_mut_at(&mut self, position: usize) -> (value: Option<&mut T>)
        ensures
            match value {
                Some(v) => {
                    &&& position < old(self)@.len()
                    &&& old(self)@[position as int].value == Some(*v)
                    &&& final(self)@ =~= old(self)@.update(
                        position as int,
                        Slot {
                            generation: old(self)@[position as int].generation,
                            value: Some(*final(v)),
                        },
                    )
                },
                None => {
                    &&& !(position < old(self)@.len() && old(self)@[position as int].value is Some)
                    &&& final(self)@ =~= old(self)@
                },
            },
    {
        if position < self.objects.len() {
            let version = self.objects[position].version;
            let index = ObjectPoolIndex { index: position, version };
            self.get_mut(index)
        } else {
            None
        }
    }
}

/// A walk over the live values of an arena. Its view is what is still to come.
pub struct ObjectPoolIter<'a, T> {
    objects: &'a Vec<ObjectWrapper<T>>,
    position: usize,
}

impl<'a, T> View for ObjectPoolIter<'a, T> {
    type V = Seq<T>;

    closed spec fn view(&self) -> Seq<T> {
        let slots = slots_of(self.objects@);
        live_values(slots.subrange(self.position as int, slots.len() as int))
    }
}

impl<'a, T> ObjectPoolIter<'a, T> {
    #[verifier::type_invariant]
    spec fn in_range(self) -> bool {
        self.position <= self.objects@.len()
    }

    /// The next live value, if any is left.
    pub fn next(&mut self) -> (value: Option<&'a T>)
        ensures
            match value {
                Some(v) => {
                    &&& old(self)@.len() > 0
                    &&& *v == old(self)@[0]
                    &&& final(self)@ == old(self)@.drop_first()
                },
                None => old(self)@.len() == 0 && final(self)@ == old(self)@,
            },
    {
        proof {
            use_type_invariant(&*self);
        }
        let objects = self.objects;
        let ghost slots = slots_of(objects@);
        let mut position = self.position;
        while position < objects.len()
            invariant
                position <= objects@.len(),
                *self == *old(self),
                objects == self.objects,
                slots == slots_of(objects@),
                live_values(slots.subrange(position as int, slots.len() as int)) == old(self)@,
            decreases objects@.len() - position,
        {
            let ghost rest = slots.subrange(position as int, slots.len() as int);
            assert(rest.drop_first() =~= slots.subrange(position + 1, slots.len() as int));
            assert(rest[0] == slots[position as int]);
            match &objects[position].object {
                Some(object) => {
                    self.position = position + 1;
                    assert(old(self)@ =~= seq![*object] + self@);
                    assert(self@ =~= old(self)@.drop_first());
                    return Some(object);
                },
                None => {},
            }
            position = position + 1;
        }
        self.position = position;
        assert(slots.subrange(position as int, slots.len() as int) =~= Seq::<Slot<T>>::empty());
        None
    }
}

/// A walk over the live values of an arena that lets each be changed. It shows the
/// slots as they are now and the position at which the search for the next value
/// starts. When the walk ends the arena holds what the walk shows.
pub struct ObjectPoolIterMut<'a, T> {
    pub pool: &'a mut ObjectPool<T>,
    pub position: usize,
}

impl<'a, T> ObjectPoolIterMut<'a, T> {
    /// The slots of the arena, with what was written through the walk so far.
    pub open spec fn slots(self) -> Seq<Slot<T>> {
        self.pool@
    }

    /// Where the search for the next live slot starts.
    pub open spec fn position(self) -> int {
        self.position as int
    }

    /// The next live value, if any is left: the value of the first live slot at or
    /// after the position. The walk moves on past that slot.
    pub fn next(&mut self) -> (value: Option<&mut T>)
        ensures
            *final(final(self).pool) == *final(old(self).pool),
            match value {
                Some(v) => {
                    let at = final(self).position() - 1;
                    &&& old(self).position() <= at < old(self).slots().len()
                    &&& old(self).slots()[at].value == Some(*v)
                    &&& forall|p: int|
                        old(self).position() <= p < at ==> (#[trigger] old(self).slots()[p]).value
                            is None
                    &&& final(self).slots() == old(self).slots().update(
                        at,
                        Slot {
                            generation: old(self).slots()[at].generation,
                            value: Some(*final(v)),
                        },
                    )
                },
                None => {
                    &&& forall|p: int|
                        old(self).position() <= p < old(self).slots().len() ==> (
                        #[trigger] old(self).slots()[p]).value is None
                    &&& final(self).slots() == old(self).slots()
                },
            },
    {
        let count = self.pool.slot_count();
        let mut at = self.position;
        while at < count && !self.pool.is_occupied(at)
            invariant
                count == self.pool@.len(),
                *self == *old(self),
                self.position <= at,
                forall|p: int|
                    self.position <= p < at && p < count ==> (#[trigger] self.pool@[p]).value
                        is None,
            decreases count - at,
        {
            at = at + 1;
        }
        if at < count {
            self.position = at + 1;
            self.pool.value_mut_at(at)
        } else {
            self.position = at;
            None
        }
    }
}

} // verus!
