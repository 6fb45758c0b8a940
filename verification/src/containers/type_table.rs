//! A small table with one entry per type identity, in the order in which the
//! identities came in.

use std::any::TypeId;
use vstd::prelude::*;

verus! {

/// `std::any::TypeId`: the identity of a type. Declared so that it can be named;
/// nothing is stated of it.
#[verifier::external_type_specification]
#[verifier::external_body]
pub struct ExTypeId(TypeId);

/// `TypeId::of`: the identity of `T`. Two calls for one type give one identity; of
/// which identity it is nothing can be said here.
#[verifier::external_body]
pub(crate) fn type_id_of<T: 'static>() -> (type_id: TypeId) {
    TypeId::of::<T>()
}

/// `PartialEq::eq` of `TypeId`: whether two identities are the same.
#[verifier::external_body]
pub(crate) fn same_type(a: &TypeId, b: &TypeId) -> (same: bool)
    ensures
        same == (*a == *b),
{
    a == b
}

struct TypeEntry<V> {
    type_id: TypeId,
    value: V,
}

/// The table. Its view maps each identity that has an entry to the value of the
/// entry.
pub struct TypeTable<V> {
    entries: Vec<TypeEntry<V>>,
}

spec fn ids_of<V>(entries: Seq<TypeEntry<V>>) -> Seq<TypeId> {
    Seq::new(entries.len(), |i: int| entries[i].type_id)
}

spec fn map_of<V>(entries: Seq<TypeEntry<V>>) -> Map<TypeId, V> {
    Map::new(
        |id: TypeId| exists|i: int| 0 <= i < entries.len() && entries[i].type_id == id,
        |id: TypeId|
            entries[choose|i: int| 0 <= i < entries.len() && entries[i].type_id == id].value,
    )
}

/// No identity occurs twice.
pub open spec fn distinct(ids: Seq<TypeId>) -> bool {
    forall|i: int, j: int| 0 <= i < j < ids.len() ==> ids[i] != ids[j]
}

proof fn lemma_map_of_at<V>(entries: Seq<TypeEntry<V>>, i: int)
    requires
        distinct(ids_of(entries)),
        0 <= i < entries.len(),
    ensures
        map_of(entries).contains_key(entries[i].type_id),
        map_of(entries)[entries[i].type_id] == entries[i].value,
{
    let id = entries[i].type_id;
    let c = choose|c: int| 0 <= c < entries.len() && entries[c].type_id == id;
    assert(ids_of(entries)[i] == id);
    assert(ids_of(entries)[c] == id);
}

impl<V> View for TypeTable<V> {
    type V = Map<TypeId, V>;

    closed spec fn view(&self) -> Map<TypeId, V> {
        map_of(self.entries@)
    }
}

impl<V> TypeTable<V> {
    #[verifier::type_invariant]
    spec fn well_formed(self) -> bool {
        distinct(ids_of(self.entries@))
    }

    /// The identities that have an entry, in the order in which they came in.
    pub closed spec fn order(self) -> Seq<TypeId> {
        ids_of(self.entries@)
    }

    pub fn new() -> (table: Self)
        ensures
            table@ == Map::<TypeId, V>::empty(),
            table.order() == Seq::<TypeId>::empty(),
    {
        let table = TypeTable { entries: Vec::new() };
        assert(table@ =~= Map::<TypeId, V>::empty());
        assert(table.order() =~= Seq::<TypeId>::empty());
        table
    }

    /// Number of entries.
    pub fn len(&self) -> (n: usize)
        ensures
            n == self.order().len(),
            distinct(self.order()),
            forall|i: int| 0 <= i < n ==> self@.contains_key(#[trigger] self.order()[i]),
            forall|id: TypeId| self@.contains_key(id) ==> self.order().contains(id),
    {
        proof {
            use_type_invariant(self);
            assert forall|i: int| 0 <= i < self.entries@.len() implies self@.contains_key(
                #[trigger] self.order()[i],
            ) by {
                lemma_map_of_at(self.entries@, i);
            }
            assert forall|id: TypeId| self@.contains_key(id) implies self.order().contains(id) by {
                let i = choose|i: int|
                    0 <= i < self.entries@.len() && self.entries@[i].type_id == id;
                assert(self.order()[i] == id);
            }
        }
        self.entries.len()
    }

    /// The identity of the entry at `position`.
    pub fn id_at(&self, position: usize) -> (type_id: TypeId)
        requires
            position < self.order().len(),
        ensures
            type_id == self.order()[position as int],
    {
        self.entries[position].type_id
    }

    /// The value of the entry at `position`.
    pub fn value_at(&self, position: usize) -> (value: &V)
        requires
            position < self.order().len(),
        ensures
            self@.contains_key(self.order()[position as int]),
            *value == self@[self.order()[position as int]],
    {
        proof {
            use_type_invariant(self);
            lemma_map_of_at(self.entries@, position as int);
        }
        &self.entries[position].value
    }

    /// Where the entry of `type_id` stands.
    fn position(&self, type_id: TypeId) -> (found: Option<usize>)
        ensures
            match found {
                Some(i) => i < self.entries@.len() && self.entries@[i as int].type_id == type_id,
                None => forall|i: int|
                    0 <= i < self.entries@.len() ==> self.entries@[i].type_id != type_id,
            },
    {
        let mut i: usize = 0;
        while i < self.entries.len()
            invariant
                i <= self.entries@.len(),
                forall|k: int| 0 <= k < i ==> self.entries@[k].type_id != type_id,
            decreases self.entries@.len() - i,
        {
            if same_type(&self.entries[i].type_id, &type_id) {
                return Some(i);
            }
            i = i + 1;
        }
        None
    }

    /// The value of the entry of `type_id`.
    pub fn get(&self, type_id: TypeId) -> (value: Option<&V>)
        ensures
            match value {
                Some(v) => self@.contains_key(type_id) && self@[type_id] == *v,
                None => !self@.contains_key(type_id),
            },
    {
        proof {
            use_type_invariant(self);
        }
        match self.position(type_id) {
            Some(i) => {
                proof {
                    lemma_map_of_at(self.entries@, i as int);
                }
                Some(&self.entries[i].value)
            },
            None => None,
        }
    }

    /// Puts `value` in the entry of `type_id` and hands out what the entry held
    /// before. A new entry goes to the end; an entry that is there keeps its place.
    pub fn insert(&mut self, type_id: TypeId, value: V) -> (before: Option<V>)
        ensures
            final(self)@ == old(self)@.insert(type_id, value),
            before == if old(self)@.contains_key(type_id) {
                Some(old(self)@[type_id])
            } else {
                None::<V>
            },
            final(self).order() == if old(self)@.contains_key(type_id) {
                old(self).order()
            } else {
                old(self).order().push(type_id)
            },
    {
        proof {
            use_type_invariant(&*self);
        }
        let found = self.position(type_id);
        let mut entries = Vec::new();
        std::mem::swap(&mut entries, &mut self.entries);
        let ghost old_entries = entries@;
        let before = match found {
            Some(i) => {
                proof {
                    lemma_map_of_at(old_entries, i as int);
                }
                let mut entry = TypeEntry { type_id, value };
                std::mem::swap(&mut entries[i], &mut entry);
                proof {
                    assert(ids_of(entries@) =~= ids_of(old_entries));
                    assert forall|k: int| 0 <= k < entries@.len() implies map_of(
                        entries@,
                    ).contains_key(#[trigger] entries@[k].type_id) && map_of(
                        entries@,
                    )[entries@[k].type_id] == entries@[k].value && map_of(
                        old_entries,
                    ).contains_key(old_entries[k].type_id) && map_of(
                        old_entries,
                    )[old_entries[k].type_id] == old_entries[k].value by {
                        lemma_map_of_at(entries@, k);
                        lemma_map_of_at(old_entries, k);
                    }
                    assert forall|id: TypeId|
                        map_of(old_entries).insert(type_id, value).contains_key(
                            id,
                        ) implies exists|k: int|
                        0 <= k < entries@.len() && entries@[k].type_id == id by {
                        if id == type_id {
                            assert(entries@[i as int].type_id == id);
                        } else {
                            let k = choose|k: int|
                                0 <= k < old_entries.len() && old_entries[k].type_id == id;
                            assert(entries@[k].type_id == id);
                        }
                    }
                    lemma_same_maps(
                        map_of(entries@),
                        map_of(old_entries).insert(type_id, value),
                        entries@,
                        old_entries,
                    );
                }
                Some(entry.value)
            },
            None => {
                entries.push(TypeEntry { type_id, value });
                proof {
                    assert(ids_of(entries@) =~= ids_of(old_entries).push(type_id));
                    assert(!map_of(old_entries).contains_key(type_id));
                    assert forall|k: int| 0 <= k < entries@.len() implies map_of(
                        entries@,
                    ).contains_key(#[trigger] entries@[k].type_id) && map_of(
                        entries@,
                    )[entries@[k].type_id] == entries@[k].value by {
                        lemma_map_of_at(entries@, k);
                    }
                    assert forall|k: int| 0 <= k < old_entries.len() implies map_of(
                        old_entries,
                    ).contains_key(#[trigger] old_entries[k].type_id) && map_of(
                        old_entries,
                    )[old_entries[k].type_id] == old_entries[k].value by {
                        lemma_map_of_at(old_entries, k);
                    }
                    assert(map_of(entries@) =~= map_of(old_entries).insert(type_id, value)) by {
                        assert forall|id: TypeId|
                            map_of(entries@).contains_key(id) <==> map_of(old_entries).insert(
                                type_id,
                                value,
                            ).contains_key(id) by {
                            if map_of(entries@).contains_key(id) {
                                let k = choose|k: int|
                                    0 <= k < entries@.len() && entries@[k].type_id == id;
                                if k < old_entries.len() {
                                    assert(old_entries[k].type_id == id);
                                }
                            }
                            if map_of(old_entries).contains_key(id) {
                                let k = choose|k: int|
                                    0 <= k < old_entries.len() && old_entries[k].type_id == id;
                                assert(entries@[k].type_id == id);
                            }
                            if id == type_id {
                                assert(entries@[old_entries.len() as int].type_id == id);
                            }
                        }
                        assert forall|id: TypeId| map_of(entries@).contains_key(id) implies map_of(
                            entries@,
                        )[id] == map_of(old_entries).insert(type_id, value)[id] by {
                            let k = choose|k: int|
                                0 <= k < entries@.len() && entries@[k].type_id == id;
                            if k < old_entries.len() {
                                assert(old_entries[k].type_id == id);
                                assert(entries@[k] == old_entries[k]);
                            }
                        }
                    }
                }
                None
            },
        };
        self.entries = entries;
        before
    }

    /// Takes the entry of `type_id` out. The entries behind it move up.
    pub fn remove(&mut self, type_id: TypeId) -> (before: Option<V>)
        ensures
            final(self)@ == old(self)@.remove(type_id),
            before == if old(self)@.contains_key(type_id) {
                Some(old(self)@[type_id])
            } else {
                None::<V>
            },
            final(self).order() == if old(self)@.contains_key(type_id) {
                old(self).order().remove(old(self).order().index_of(type_id))
            } else {
                old(self).order()
            },
    {
        proof {
            use_type_invariant(&*self);
        }
        let found = self.position(type_id);
        match found {
            Some(i) => {
                let mut entries = Vec::new();
                std::mem::swap(&mut entries, &mut self.entries);
                let ghost old_entries = entries@;
                let entry = entries.remove(i);
                proof {
                    lemma_map_of_at(old_entries, i as int);
                    assert(ids_of(entries@) =~= ids_of(old_entries).remove(i as int));
                    assert forall|a: int, b: int| 0 <= a < b < entries@.len() implies ids_of(
                        entries@,
                    )[a] != ids_of(entries@)[b] by {
                        let oa = if a < i { a } else { a + 1 };
                        let ob = if b < i { b } else { b + 1 };
                        assert(ids_of(old_entries)[oa] != ids_of(old_entries)[ob]);
                    }
                    assert(ids_of(old_entries).index_of(type_id) == i) by {
                        let ids = ids_of(old_entries);
                        assert(ids[i as int] == type_id);
                        let c = ids.index_of(type_id);
                        assert(0 <= c < ids.len() && ids[c] == type_id);
                        if c < i {
                            assert(ids[c] != ids[i as int]);
                        } else if i < c {
                            assert(ids[i as int] != ids[c]);
                        }
                    }
                    assert forall|k: int| 0 <= k < entries@.len() implies map_of(
                        entries@,
                    ).contains_key(#[trigger] entries@[k].type_id) && map_of(
                        entries@,
                    )[entries@[k].type_id] == entries@[k].value by {
                        lemma_map_of_at(entries@, k);
                    }
                    assert forall|k: int| 0 <= k < old_entries.len() implies map_of(
                        old_entries,
                    ).contains_key(#[trigger] old_entries[k].type_id) && map_of(
                        old_entries,
                    )[old_entries[k].type_id] == old_entries[k].value by {
                        lemma_map_of_at(old_entries, k);
                    }
                    assert(map_of(entries@) =~= map_of(old_entries).remove(type_id)) by {
                        assert forall|id: TypeId|
                            map_of(entries@).contains_key(id) <==> map_of(old_entries).remove(
                                type_id,
                            ).contains_key(id) by {
                            if map_of(entries@).contains_key(id) {
                                let k = choose|k: int|
                                    0 <= k < entries@.len() && entries@[k].type_id == id;
                                let ok = if k < i { k } else { k + 1 };
                                assert(old_entries[ok].type_id == id);
                                assert(ids_of(old_entries)[ok] == id);
                                assert(ids_of(old_entries)[i as int] == type_id);
                            }
                            if map_of(old_entries).contains_key(id) && id != type_id {
                                let k = choose|k: int|
                                    0 <= k < old_entries.len() && old_entries[k].type_id == id;
                                let nk = if k < i { k } else { k - 1 };
                                assert(entries@[nk].type_id == id);
                            }
                        }
                        assert forall|id: TypeId| map_of(entries@).contains_key(id) implies map_of(
                            entries@,
                        )[id] == map_of(old_entries).remove(type_id)[id] by {
                            let k = choose|k: int|
                                0 <= k < entries@.len() && entries@[k].type_id == id;
                            let ok = if k < i { k } else { k + 1 };
                            assert(old_entries[ok].type_id == id);
                            assert(entries@[k] == old_entries[ok]);
                        }
                    }
                }
                self.entries = entries;
                Some(entry.value)
            },
            None => {
                proof {
                    assert(self@ =~= old(self)@.remove(type_id));
                }
                None
            },
        }
    }
}

/// A table whose entries all agree with a map, and which has no other identity, is
/// that map.
proof fn lemma_same_maps<V>(
    now: Map<TypeId, V>,
    wanted: Map<TypeId, V>,
    entries: Seq<TypeEntry<V>>,
    old_entries: Seq<TypeEntry<V>>,
)
    requires
        now == map_of(entries),
        entries.len() == old_entries.len(),
        forall|k: int| 0 <= k < entries.len() ==> entries[k].type_id == old_entries[k].type_id,
        forall|k: int|
            0 <= k < entries.len() ==> now.contains_key(#[trigger] entries[k].type_id)
                && now[entries[k].type_id] == entries[k].value,
        forall|k: int|
            0 <= k < entries.len() ==> wanted.contains_key(#[trigger] entries[k].type_id)
                && wanted[entries[k].type_id] == entries[k].value,
        forall|id: TypeId|
            wanted.contains_key(id) ==> exists|k: int|
                0 <= k < entries.len() && entries[k].type_id == id,
    ensures
        now == wanted,
{
    assert forall|id: TypeId| now.contains_key(id) <==> wanted.contains_key(id) by {
        if now.contains_key(id) {
            let k = choose|k: int| 0 <= k < entries.len() && entries[k].type_id == id;
            assert(wanted.contains_key(entries[k].type_id));
        }
        if wanted.contains_key(id) {
            let k = choose|k: int| 0 <= k < entries.len() && entries[k].type_id == id;
            assert(now.contains_key(entries[k].type_id));
        }
    }
    assert forall|id: TypeId| now.contains_key(id) implies now[id] == wanted[id] by {
        let k = choose|k: int| 0 <= k < entries.len() && entries[k].type_id == id;
        assert(now[entries[k].type_id] == entries[k].value);
        assert(wanted[entries[k].type_id] == entries[k].value);
    }
    assert(now =~= wanted);
}

} // verus!
