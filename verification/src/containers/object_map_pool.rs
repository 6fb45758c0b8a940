//! An arena of key and value pairs with a second way in: an ordered map from each
//! key to the index of the slot that was created for it last.

use std::collections::BTreeMap;
use vstd::prelude::*;
use super::arena_model::{
    is_live, live_count, live_values, next_generation, next_position, slots_after_create,
    slots_after_release, valid_slots, value_of, Slot,
};
use super::object_pool::{ObjectPool, ObjectPoolIndex};

verus! {

/// The index of a slot of a keyed arena.
#[derive(Debug, Copy, Clone, Eq, PartialEq, Ord, PartialOrd, Structural)]
pub struct ObjectMapPoolIndex(pub ObjectPoolIndex);

impl ObjectMapPoolIndex {
    /// An index that is live in no arena.
    pub fn invalid() -> (id: Self)
        ensures
            id.0 == super::arena_model::invalid_index(),
    {
        ObjectMapPoolIndex(ObjectPoolIndex::invalid())
    }

    /// Hands the index out and leaves the invalid one behind.
    pub fn invalidate(&mut self) -> (id: Self)
        ensures
            id == *old(self),
            final(self).0 == super::arena_model::invalid_index(),
    {
        let mut id = Self::invalid();
        std::mem::swap(&mut id, self);
        id
    }
}

/// What a keyed arena holds: the slots, and for each key the index it leads to.
#[verifier::reject_recursive_types(K)]
pub struct KeyedSlots<K, V> {
    pub slots: Seq<Slot<(K, V)>>,
    pub indices: Map<K, ObjectMapPoolIndex>,
}

/// The contracts of a keyed arena speak of keys whose order is a total order that
/// agrees with equality, and whose clones equal what was cloned.
pub open spec fn well_behaved_key<K: Clone + Ord>() -> bool {
    &&& vstd::laws_cmp::obeys_cmp::<K>()
    &&& forall|a: K, b: K| #[trigger] cloned(a, b) ==> a == b
}

/// The integer types are well-behaved keys.
pub proof fn lemma_integer_keys_are_well_behaved()
    ensures
        well_behaved_key::<u8>(),
        well_behaved_key::<u16>(),
        well_behaved_key::<u32>(),
        well_behaved_key::<u64>(),
        well_behaved_key::<u128>(),
        well_behaved_key::<usize>(),
        well_behaved_key::<i8>(),
        well_behaved_key::<i16>(),
        well_behaved_key::<i32>(),
        well_behaved_key::<i64>(),
        well_behaved_key::<i128>(),
        well_behaved_key::<isize>(),
{
    broadcast use vstd::laws_cmp::group_laws_cmp;

}

/// The key that an occupied slot holds.
pub open spec fn key_in<K, V>(slot: Slot<(K, V)>) -> K {
    let pair = slot.value.unwrap();
    pair.0
}

/// The second part of the pair that an occupied slot holds.
pub open spec fn value_in<K, V>(slot: Slot<(K, V)>) -> V {
    let pair = slot.value.unwrap();
    pair.1
}

/// The key of a pair.
pub open spec fn key_of<K, V>(pair: Option<(K, V)>) -> K {
    let inner = pair.unwrap();
    inner.0
}

/// Every key leads to a live slot, and that slot holds the key.
pub open spec fn keys_lead_home<K, V>(state: KeyedSlots<K, V>) -> bool {
    &&& valid_slots(state.slots)
    &&& forall|k: K| #[trigger]
        state.indices.contains_key(k) ==> is_live(state.slots, state.indices[k].0)
            && key_in(state.slots[state.indices[k].0.index as int]) == k
}

/// The pair behind `index`, if it is live.
pub open spec fn pair_at<K, V>(state: KeyedSlots<K, V>, index: ObjectMapPoolIndex) -> Option<
    (K, V),
> {
    value_of(state.slots, index.0)
}

/// The pair that `key` leads to, if it leads anywhere.
pub open spec fn pair_of<K, V>(state: KeyedSlots<K, V>, key: K) -> Option<(K, V)> {
    if state.indices.contains_key(key) {
        value_of(state.slots, state.indices[key].0)
    } else {
        None
    }
}

/// `id` is the index that the next creation hands out.
pub open spec fn is_next_index<K, V>(state: KeyedSlots<K, V>, id: ObjectMapPoolIndex) -> bool {
    &&& id.0.index == next_position(state.slots)
    &&& id.0.version == next_generation(state.slots)
}

/// The arena after a pair was created under the index `id`: a slot is taken as in
/// any arena, and the key leads to it from now on, wherever it led before.
pub open spec fn after_create<K, V>(
    state: KeyedSlots<K, V>,
    key: K,
    value: V,
    id: ObjectMapPoolIndex,
) -> KeyedSlots<K, V> {
    KeyedSlots {
        slots: slots_after_create(state.slots, (key, value)),
        indices: state.indices.insert(key, id),
    }
}

/// The arena after `index` was released: if it was live its slot is vacated and
/// the key that the slot held leads nowhere.
pub open spec fn after_release_by_index<K, V>(
    state: KeyedSlots<K, V>,
    index: ObjectMapPoolIndex,
) -> KeyedSlots<K, V> {
    match value_of(state.slots, index.0) {
        Some(pair) => KeyedSlots {
            slots: slots_after_release(state.slots, index.0),
            indices: state.indices.remove(pair.0),
        },
        None => state,
    }
}

/// The arena after the slot that `key` leads to was released.
pub open spec fn after_release_by_key<K, V>(state: KeyedSlots<K, V>, key: K) -> KeyedSlots<K, V> {
    if state.indices.contains_key(key) {
        after_release_by_index(state, state.indices[key])
    } else {
        state
    }
}

/// `after` holds what `before` holds, but for the second part of some pairs.
pub open spec fn same_keys<K, V>(before: Seq<Slot<(K, V)>>, after: Seq<Slot<(K, V)>>) -> bool {
    &&& after.len() == before.len()
    &&& forall|p: int|
        0 <= p < before.len() ==> {
            &&& (#[trigger] after[p]).generation == before[p].generation
            &&& after[p].value is Some == before[p].value is Some
            &&& after[p].value is Some ==> key_in(after[p]) == key_in(before[p])
        }
}

/// Releasing the slot that a key leads to is the same through the key and through
/// the index, and afterwards neither leads anywhere.
pub proof fn lemma_release_by_key_is_by_index<K, V>(state: KeyedSlots<K, V>, key: K)
    requires
        keys_lead_home(state),
        state.indices.contains_key(key),
    ensures
        after_release_by_key(state, key) == after_release_by_index(state, state.indices[key]),
        pair_of(state, key) == pair_at(state, state.indices[key]),
        pair_of(state, key) is Some,
        key_of(pair_of(state, key)) == key,
        pair_of(after_release_by_key(state, key), key) is None,
        pair_at(after_release_by_key(state, key), state.indices[key]) is None,
        keys_lead_home(after_release_by_key(state, key)),
{
    lemma_release_keeps_keys_home(state, state.indices[key]);
}

/// Releasing an index keeps every remaining key leading to its own live slot, and
/// leaves nothing behind the index.
pub proof fn lemma_release_keeps_keys_home<K, V>(
    state: KeyedSlots<K, V>,
    index: ObjectMapPoolIndex,
)
    requires
        keys_lead_home(state),
    ensures
        keys_lead_home(after_release_by_index(state, index)),
        pair_at(after_release_by_index(state, index), index) is None,
        pair_at(state, index) is Some ==> pair_of(
            after_release_by_index(state, index),
            key_of(pair_at(state, index)),
        ) is None,
{
    let after = after_release_by_index(state, index);
    if is_live(state.slots, index.0) {
        super::arena_laws::lemma_release_spends(state.slots, index.0);
        let gone = key_in(state.slots[index.0.index as int]);
        assert forall|k: K| #[trigger] after.indices.contains_key(k) implies is_live(
            after.slots,
            after.indices[k].0,
        ) && key_in(after.slots[after.indices[k].0.index as int]) == k by {
            assert(state.indices.contains_key(k));
            assert(k != gone);
            assert(state.indices[k].0 != index.0);
            assert(value_of(after.slots, state.indices[k].0) == value_of(
                state.slots,
                state.indices[k].0,
            ));
        }
    }
}

/// Creating a pair keeps every key leading to its own live slot, and the new key
/// leads to the new pair.
pub proof fn lemma_create_keeps_keys_home<K, V>(
    state: KeyedSlots<K, V>,
    key: K,
    value: V,
    id: ObjectMapPoolIndex,
)
    requires
        keys_lead_home(state),
        is_next_index(state, id),
    ensures
        keys_lead_home(after_create(state, key, value, id)),
        pair_of(after_create(state, key, value, id), key) == Some((key, value)),
        pair_at(after_create(state, key, value, id), id) == Some((key, value)),
        pair_at(state, id) is None,
{
    let after = after_create(state, key, value, id);
    super::arena_laws::lemma_created_index_is_fresh(state.slots, (key, value), id.0);
    assert forall|k: K| #[trigger] after.indices.contains_key(k) implies is_live(
        after.slots,
        after.indices[k].0,
    ) && key_in(after.slots[after.indices[k].0.index as int]) == k by {
        if k != key {
            assert(state.indices.contains_key(k));
            assert(value_of(after.slots, state.indices[k].0) == value_of(
                state.slots,
                state.indices[k].0,
            ));
        }
    }
}

/// Writing to the second part of pairs keeps every key leading to its own slot.
pub proof fn lemma_same_keys_keep_keys_home<K, V>(
    state: KeyedSlots<K, V>,
    slots: Seq<Slot<(K, V)>>,
)
    requires
        keys_lead_home(state),
        same_keys(state.slots, slots),
    ensures
        keys_lead_home(KeyedSlots { slots, indices: state.indices }),
{
    assert forall|p: int| 0 <= p < slots.len() implies 1 <= (#[trigger] slots[p]).generation
        <= isize::MAX by {
        assert(1 <= state.slots[p].generation <= isize::MAX);
    }
}


/// The keyed arena. Creating a pair under a key that already leads somewhere makes
/// the key lead to the new slot and leaves the earlier slot occupied: it can still
/// be reached and released through its index, never again through the key.
pub struct ObjectMapPool<KeyType, ValueType> where KeyType: Clone + Ord {
    object_pool: ObjectPool<(KeyType, ValueType)>,
    map_of_indices: BTreeMap<KeyType, ObjectMapPoolIndex>,
}

impl<KeyType, ValueType> View for ObjectMapPool<KeyType, ValueType> where KeyType: Clone + Ord {
    type V = KeyedSlots<KeyType, ValueType>;

    closed spec fn view(&self) -> KeyedSlots<KeyType, ValueType> {
        KeyedSlots { slots: self.object_pool@, indices: self.map_of_indices@ }
    }
}

/// Mutable access to the second part of the pair behind a live index.
fn pair_mut_in<K, V>(pool: &mut ObjectPool<(K, V)>, index: ObjectPoolIndex) -> (pair: Option<
    (&K, &mut V),
>)
    ensures
        same_keys(old(pool)@, final(pool)@),
        match pair {
            Some((k, v)) => {
                &&& value_of(old(pool)@, index) == Some((*k, *v))
                &&& final(pool)@ == old(pool)@.update(
                    index.index as int,
                    Slot { generation: index.version as int, value: Some((*k, *final(v))) },
                )
            },
            None => value_of(old(pool)@, index) is None && final(pool)@ == old(pool)@,
        },
    no_unwind
{
    match pool.get_mut(index) {
        Some(pair) => Some((&pair.0, &mut pair.1)),
        None => None,
    }
}

impl<KeyType, ValueType> ObjectMapPool<KeyType, ValueType> where KeyType: Clone + Ord {
    #[verifier::type_invariant]
    spec fn well_formed(self) -> bool {
        well_behaved_key::<KeyType>() ==> keys_lead_home(self@)
    }

    pub fn new() -> (pool: Self)
        ensures
            pool@.slots == Seq::<Slot<(KeyType, ValueType)>>::empty(),
            pool@.indices == Map::<KeyType, ObjectMapPoolIndex>::empty(),
    {
        ObjectMapPool { object_pool: ObjectPool::new(), map_of_indices: BTreeMap::new() }
    }

    pub fn with_capacity(capacity: usize) -> (pool: Self)
        ensures
            pool@.slots == Seq::<Slot<(KeyType, ValueType)>>::empty(),
            pool@.indices == Map::<KeyType, ObjectMapPoolIndex>::empty(),
    {
        ObjectMapPool {
            object_pool: ObjectPool::with_capacity(capacity),
            map_of_indices: BTreeMap::new(),
        }
    }

    /// Stores the pair in a slot of its own and makes `key` lead to it.
    pub fn create_object(&mut self, key: KeyType, value: ValueType) -> (id: ObjectMapPoolIndex)
        ensures
            is_next_index(old(self)@, id),
            exists|stored: KeyType|
                cloned(key, stored) && final(self)@.slots == slots_after_create(
                    old(self)@.slots,
                    (stored, value),
                ),
            well_behaved_key::<KeyType>() ==> {
                &&& keys_lead_home(old(self)@)
                &&& final(self)@ == after_create(old(self)@, key, value, id)
                &&& keys_lead_home(final(self)@)
            },
    {
        proof {
            use_type_invariant(&*self);
        }
        let mut taken = ObjectMapPool::new();
        std::mem::swap(self, &mut taken);
        let ObjectMapPool { mut object_pool, mut map_of_indices } = taken;
        let stored = key.clone();
        let index = object_pool.create_object((stored, value));
        let id = ObjectMapPoolIndex(index);
        map_of_indices.insert(key, id);
        proof {
            if well_behaved_key::<KeyType>() {
                assert(cloned(key, stored));
                lemma_create_keeps_keys_home(old(self)@, key, value, id);
            }
        }
        *self = ObjectMapPool { object_pool, map_of_indices };
        assert(cloned(key, stored) && self@.slots == slots_after_create(
            old(self)@.slots,
            (stored, value),
        ));
        id
    }

    /// Takes the pair behind a live index out; the key that it held leads nowhere
    /// afterwards.
    pub fn release_object_by_index(&mut self, index: ObjectMapPoolIndex) -> (pair: Option<
        (KeyType, ValueType),
    >)
        ensures
            pair == pair_at(old(self)@, index),
            final(self)@.slots == slots_after_release(old(self)@.slots, index.0),
            well_behaved_key::<KeyType>() ==> {
                &&& keys_lead_home(old(self)@)
                &&& final(self)@ == after_release_by_index(old(self)@, index)
                &&& keys_lead_home(final(self)@)
            },
    {
        proof {
            use_type_invariant(&*self);
        }
        let mut taken = ObjectMapPool::new();
        std::mem::swap(self, &mut taken);
        let ObjectMapPool { mut object_pool, mut map_of_indices } = taken;
        let pair = match object_pool.release_object(index.0) {
            Some(object) => {
                map_of_indices.remove(&object.0);
                Some(object)
            },
            None => None,
        };
        proof {
            if well_behaved_key::<KeyType>() {
                lemma_release_keeps_keys_home(old(self)@, index);
            }
        }
        *self = ObjectMapPool { object_pool, map_of_indices };
        pair
    }

    /// Takes the pair that `key` leads to out. Whatever the keys are like, the pair
    /// is the one behind some index, and the slot of that index is the only one
    /// that changes.
    pub fn release_object_by_key(&mut self, key: &KeyType) -> (pair: Option<(KeyType, ValueType)>)
        ensures
            (pair is None && final(self)@ == old(self)@) || exists|index: ObjectMapPoolIndex|
                pair == pair_at(old(self)@, index) && final(self)@.slots == slots_after_release(
                    old(self)@.slots,
                    index.0,
                ),
            well_behaved_key::<KeyType>() ==> {
                &&& keys_lead_home(old(self)@)
                &&& pair == pair_of(old(self)@, *key)
                &&& final(self)@ == after_release_by_key(old(self)@, *key)
                &&& keys_lead_home(final(self)@)
            },
    {
        proof {
            use_type_invariant(&*self);
        }
        let found = match self.map_of_indices.get(key) {
            Some(index) => Some(*index),
            None => None,
        };
        match found {
            Some(index) => self.release_object_by_index(index),
            None => None,
        }
    }

    /// The pair behind a live index.
    pub fn get_ref_by_index(&self, index: ObjectMapPoolIndex) -> (pair: Option<
        (&KeyType, &ValueType),
    >)
        ensures
            match pair {
                Some((k, v)) => pair_at(self@, index) == Some((*k, *v)),
                None => pair_at(self@, index) is None,
            },
    {
        match self.object_pool.get_ref(index.0) {
            Some(pair) => Some((&pair.0, &pair.1)),
            None => None,
        }
    }

    /// The pair that `key` leads to. Whatever the keys are like, a pair that is
    /// returned is the one behind some live index.
    pub fn get_ref_by_key(&self, key: &KeyType) -> (pair: Option<(&KeyType, &ValueType)>)
        ensures
            match pair {
                Some((k, v)) => exists|index: ObjectMapPoolIndex|
                    pair_at(self@, index) == Some((*k, *v)),
                None => true,
            },
            well_behaved_key::<KeyType>() ==> match pair {
                Some((k, v)) => pair_of(self@, *key) == Some((*k, *v)),
                None => pair_of(self@, *key) is None,
            },
    {
        proof {
            use_type_invariant(self);
        }
        match self.map_of_indices.get(key) {
            Some(index) => self.get_ref_by_index(*index),
            None => None,
        }
    }

    /// The pair behind a live index, with the right to change its second part.
    pub fn get_mut_by_index(&mut self, index: ObjectMapPoolIndex) -> (pair: Option<
        (&KeyType, &mut ValueType),
    >)
        ensures
            final(self)@.indices == old(self)@.indices,
            well_behaved_key::<KeyType>() ==> keys_lead_home(old(self)@) && keys_lead_home(
                final(self)@,
            ),
            match pair {
                Some((k, v)) => {
                    &&& pair_at(old(self)@, index) == Some((*k, *v))
                    &&& final(self)@.slots == old(self)@.slots.update(
                        index.0.index as int,
                        Slot { generation: index.0.version as int, value: Some((*k, *final(v))) },
                    )
                },
                None => pair_at(old(self)@, index) is None && final(self)@.slots == old(
                    self,
                )@.slots,
            },
    {
        proof {
            use_type_invariant(&*self);
            let before = self@;
            if well_behaved_key::<KeyType>() {
                assert forall|after: Seq<Slot<(KeyType, ValueType)>>| #[trigger]
                    same_keys(before.slots, after) implies keys_lead_home(
                    KeyedSlots { slots: after, indices: before.indices },
                ) by {
                    lemma_same_keys_keep_keys_home(before, after);
                }
            }
        }
        pair_mut_in(&mut self.object_pool, index.0)
    }

    /// The pair that `key` leads to, with the right to change its second part.
    /// Whatever the keys are like, a pair that is returned is the one behind some
    /// live index, and its slot is the only one that changes.
    pub fn get_mut_by_key(&mut self, key: &KeyType) -> (pair: Option<(&KeyType, &mut ValueType)>)
        ensures
            final(self)@.indices == old(self)@.indices,
            match pair {
                Some((k, v)) => exists|index: ObjectMapPoolIndex|
                    {
                        &&& #[trigger] pair_at(old(self)@, index) == Some((*k, *v))
                        &&& final(self)@.slots == old(self)@.slots.update(
                            index.0.index as int,
                            Slot {
                                generation: index.0.version as int,
                                value: Some((*k, *final(v))),
                            },
                        )
                    },
                None => final(self)@.slots == old(self)@.slots,
            },
            well_behaved_key::<KeyType>() ==> keys_lead_home(old(self)@) && keys_lead_home(
                final(self)@,
            ),
            well_behaved_key::<KeyType>() ==> match pair {
                Some((k, v)) => {
                    let index = old(self)@.indices[*key];
                    &&& pair_of(old(self)@, *key) == Some((*k, *v))
                    &&& final(self)@.slots == old(self)@.slots.update(
                        index.0.index as int,
                        Slot { generation: index.0.version as int, value: Some((*k, *final(v))) },
                    )
                },
                None => pair_of(old(self)@, *key) is None && final(self)@.slots == old(
                    self,
                )@.slots,
            },
    {
        proof {
            use_type_invariant(&*self);
        }
        let found = match self.map_of_indices.get(key) {
            Some(index) => Some(*index),
            None => None,
        };
        match found {
            Some(index) => self.get_mut_by_index(index),
            None => None,
        }
    }

    /// Number of live slots.
    pub fn len(&self) -> (n: usize)
        ensures
            n == live_count(self@.slots),
    {
        self.object_pool.len()
    }

    pub fn is_empty(&self) -> (empty: bool)
        ensures
            empty == (live_count(self@.slots) == 0),
    {
        self.object_pool.is_empty()
    }

    /// Walks over the live pairs, in slot order.
    pub fn iter(&self) -> (walk: ObjectMapPoolIter<'_, KeyType, ValueType>)
        ensures
            walk@ == live_values(self@.slots),
    {
        ObjectMapPoolIter { inner_iterator: self.object_pool.iter() }
    }

    /// Walks over the live pairs, in slot order, with the right to change the
    /// second part of each.
    pub fn iter_mut(&mut self) -> (walk: ObjectMapPoolIterMut<'_, KeyType, ValueType>)
        ensures
            walk.pool@ == old(self)@,
            walk.position() == 0,
            *final(self) == *final(walk.pool),
    {
        ObjectMapPoolIterMut { pool: self, position: 0 }
    }

    /// The index of the first live slot, in slot order, whose pair `pred` accepts.
    pub fn first_index(&self, pred: impl Fn(&KeyType, &ValueType) -> bool) -> (found: Option<
        ObjectMapPoolIndex,
    >)
        requires
            forall|p: int|
                0 <= p < self@.slots.len() && (#[trigger] self@.slots[p]).value is Some
                    ==> call_requires(pred, (&key_in(self@.slots[p]), &value_in(self@.slots[p]))),
        ensures
            match found {
                Some(id) => {
                    &&& is_live(self@.slots, id.0)
                    &&& call_ensures(
                        pred,
                        (
                            &key_in(self@.slots[id.0.index as int]),
                            &value_in(self@.slots[id.0.index as int]),
                        ),
                        true,
                    )
                    &&& forall|p: int|
                        0 <= p < id.0.index && (#[trigger] self@.slots[p]).value is Some
                            ==> call_ensures(
                            pred,
                            (&key_in(self@.slots[p]), &value_in(self@.slots[p])),
                            false,
                        )
                },
                None => forall|p: int|
                    0 <= p < self@.slots.len() && (#[trigger] self@.slots[p]).value is Some
                        ==> call_ensures(
                        pred,
                        (&key_in(self@.slots[p]), &value_in(self@.slots[p])),
                        false,
                    ),
            },
    {
        let count = self.object_pool.slot_count();
        let mut position: usize = 0;
        while position < count
            invariant
                count == self@.slots.len(),
                forall|p: int|
                    0 <= p < self@.slots.len() && (#[trigger] self@.slots[p]).value is Some
                        ==> call_requires(
                        pred,
                        (&key_in(self@.slots[p]), &value_in(self@.slots[p])),
                    ),
                forall|p: int|
                    0 <= p < position && (#[trigger] self@.slots[p]).value is Some ==> call_ensures(
                        pred,
                        (&key_in(self@.slots[p]), &value_in(self@.slots[p])),
                        false,
                    ),
            decreases count - position,
        {
            match self.object_pool.index_at(position) {
                Some(id) => {
                    match self.object_pool.get_ref(id) {
                        Some(pair) => {
                            assert(self@.slots[position as int].value == Some(*pair));
                            if pred(&pair.0, &pair.1) {
                                return Some(ObjectMapPoolIndex(id));
                            }
                        },
                        None => {},
                    }
                },
                None => {},
            }
            position = position + 1;
        }
        None
    }

    /// Mutable access to the second part of the pair in the slot at `position`.
    fn pair_mut_at(&mut self, position: usize) -> (pair: Option<(&KeyType, &mut ValueType)>)
        ensures
            final(self)@.indices == old(self)@.indices,
            match pair {
                Some((k, v)) => {
                    &&& position < old(self)@.slots.len()
                    &&& old(self)@.slots[position as int].value == Some((*k, *v))
                    &&& final(self)@.slots == old(self)@.slots.update(
                        position as int,
                        Slot {
                            generation: old(self)@.slots[position as int].generation,
                            value: Some((*k, *final(v))),
                        },
                    )
                },
                None => {
                    &&& !(position < old(self)@.slots.len() && old(
                        self,
                    )@.slots[position as int].value is Some)
                    &&& final(self)@.slots == old(self)@.slots
                },
            },
    {
        match self.object_pool.index_at(position) {
            Some(id) => self.get_mut_by_index(ObjectMapPoolIndex(id)),
            None => None,
        }
    }
}

impl<KeyType, ValueType> Default for ObjectMapPool<KeyType, ValueType> where KeyType: Clone + Ord {
    fn default() -> (pool: Self)
        ensures
            pool@.slots == Seq::<Slot<(KeyType, ValueType)>>::empty(),
            pool@.indices == Map::<KeyType, ObjectMapPoolIndex>::empty(),
    {
        Self::new()
    }
}

/// A walk over the live pairs of a keyed arena. Its view is what is still to come.
pub struct ObjectMapPoolIter<'a, KeyType, ValueType> {
    inner_iterator: super::object_pool::ObjectPoolIter<'a, (KeyType, ValueType)>,
}

impl<'a, KeyType, ValueType> View for ObjectMapPoolIter<'a, KeyType, ValueType> {
    type V = Seq<(KeyType, ValueType)>;

    closed spec fn view(&self) -> Seq<(KeyType, ValueType)> {
        self.inner_iterator@
    }
}

impl<'a, KeyType, ValueType> ObjectMapPoolIter<'a, KeyType, ValueType> {
    /// The next live pair, if any is left.
    pub fn next(&mut self) -> (pair: Option<(&'a KeyType, &'a ValueType)>)
        ensures
            match pair {
                Some((k, v)) => {
                    &&& old(self)@.len() > 0
                    &&& (*k, *v) == old(self)@[0]
                    &&& final(self)@ == old(self)@.drop_first()
                },
                None => old(self)@.len() == 0 && final(self)@ == old(self)@,
            },
    {
        match self.inner_iterator.next() {
            Some(pair) => Some((&pair.0, &pair.1)),
            None => None,
        }
    }
}

/// A walk over the live pairs of a keyed arena that lets the second part of each
/// be changed. It shows the slots as they are now and the position at which the
/// search for the next pair starts. When the walk ends the arena holds what the
/// walk shows.
pub struct ObjectMapPoolIterMut<'a, KeyType, ValueType> where KeyType: Clone + Ord {
    pub pool: &'a mut ObjectMapPool<KeyType, ValueType>,
    pub position: usize,
}

impl<'a, KeyType, ValueType> ObjectMapPoolIterMut<'a, KeyType, ValueType> where
    KeyType: Clone + Ord,
 {
    /// The slots of the arena, with what was written through the walk so far.
    pub open spec fn slots(self) -> Seq<Slot<(KeyType, ValueType)>> {
        self.pool@.slots
    }

    /// Where the search for the next live slot starts.
    pub open spec fn position(self) -> int {
        self.position as int
    }

    /// The next live pair, if any is left: the pair of the first live slot at or
    /// after the position. The walk moves on past that slot.
    pub fn next(&mut self) -> (pair: Option<(&KeyType, &mut ValueType)>)
        ensures
            *final(final(self).pool) == *final(old(self).pool),
            final(self).pool@.indices == old(self).pool@.indices,
            match pair {
                Some((k, v)) => {
                    let at = final(self).position() - 1;
                    &&& old(self).position() <= at < old(self).slots().len()
                    &&& old(self).slots()[at].value == Some((*k, *v))
                    &&& forall|p: int|
                        old(self).position() <= p < at ==> (#[trigger] old(self).slots()[p]).value
                            is None
                    &&& final(self).slots() == old(self).slots().update(
                        at,
                        Slot {
                            generation: old(self).slots()[at].generation,
                            value: Some((*k, *final(v))),
                        },
                    )
                },
                None => {
                    &&& forall|p: int|
                        old(self).position() <= p < old(self).slots().len() ==> (
                        #[trigger] old(self).slots()[p]).value is None
                    &&& final(self).slots() == old(self).slots()
                },
            },
    {
        let count = self.pool.object_pool.slot_count();
        let mut at = self.position;
        while at < count && !self.pool.object_pool.is_occupied(at)
            invariant
                count == self.pool@.slots.len(),
                *self == *old(self),
                self.position <= at,
                forall|p: int|
                    self.position <= p < at && p < count ==> (#[trigger] self.pool@.slots[p]).value
                        is None,
            decreases count - at,
        {
            at = at + 1;
        }
        if at < count {
            self.position = at + 1;
            self.pool.pair_mut_at(at)
        } else {
            self.position = at;
            None
        }
    }
}

} // verus!
