//! A registry that holds at most one shared value per type. A value goes in under
//! the identity of its type and comes out the same way, as a handle of that type
//! or as a handle that has forgotten the type and can be asked for it.

use std::any::Any;
use std::any::TypeId;
use std::ops::Deref;
use std::sync::Arc;
use vstd::prelude::*;
use super::type_table::{distinct, type_id_of, TypeTable};

verus! {

/// A shared value whose type has been forgotten. It holds a boxed `dyn Any`, a
/// type that cannot be written here; what is in the box is the `Arc` that was
/// handed in.
#[verifier::external_body]
pub struct AnyValue {
    boxed: Box<dyn Any>,
}

impl AnyValue {
    /// `Box::new` around `item`, with the type forgotten.
    #[verifier::external_body]
    pub(crate) fn new<ItemType: 'static>(item: Arc<ItemType>) -> (value: Self) {
        AnyValue { boxed: Box::new(item) }
    }

    /// `<dyn Any>::downcast_ref`: the `Arc` in the box, if it is an `Arc` of
    /// `CastType`; nothing if the box holds another type.
    #[verifier::external_body]
    pub(crate) fn downcast_ref<CastType: 'static>(&self) -> (item: Option<&Arc<CastType>>) {
        self.boxed.downcast_ref::<Arc<CastType>>()
    }
}

/// A handle to a value of the registry, with the identity under which it went in.
pub struct MultiTypeDictItem<ItemType> {
    type_id: TypeId,
    item: Arc<ItemType>,
}

impl<ItemType> Clone for MultiTypeDictItem<ItemType> {
    fn clone(&self) -> (copy: Self)
        ensures
            copy == *self,
    {
        MultiTypeDictItem { type_id: self.type_id, item: self.item.clone() }
    }
}

/// What `insert` hands back: the handle of the value that went in, and the handle
/// of the value that it replaced.
pub struct MultiTypeDictInsertResult<ItemType> {
    pub new_item: MultiTypeDictItem<ItemType>,
    pub old_item: Option<MultiTypeDictItem<ItemType>>,
}

impl<ItemType> MultiTypeDictItem<ItemType> {
    /// The identity under which the value went in.
    pub closed spec fn identity(self) -> TypeId {
        self.type_id
    }

    /// The value.
    pub closed spec fn value(self) -> ItemType {
        *self.item
    }

    pub fn as_arc_ref(&self) -> (item: &Arc<ItemType>)
        ensures
            **item == self.value(),
    {
        &self.item
    }

    pub fn type_id(&self) -> (type_id: TypeId)
        ensures
            type_id == self.identity(),
    {
        self.type_id
    }
}

impl<ItemType> Deref for MultiTypeDictItem<ItemType> {
    type Target = ItemType;

    fn deref(&self) -> (value: &ItemType)
        ensures
            *value == self.value(),
    {
        &self.item
    }
}

impl MultiTypeDictItem<AnyValue> {
    /// A handle that forgets the type of `item`.
    fn erase<ItemType: 'static>(item: Arc<ItemType>, type_id: TypeId) -> (erased: Self)
        ensures
            erased.identity() == type_id,
    {
        MultiTypeDictItem { type_id, item: Arc::new(AnyValue::new(item)) }
    }

    /// The handle of type `CastType` to the same value, if the value is of that
    /// type; nothing if it is of another. Whether it is of that type is asked of
    /// the box, and `with_identity` makes the handle of what the box gives.
    pub fn downcast<CastType>(&self) -> (typed: Option<MultiTypeDictItem<CastType>>) where
        CastType: 'static,

        ensures
            typed is Some ==> typed->0.identity() == self.identity(),
    {
        with_identity(self.type_id, self.item.downcast_ref::<CastType>())
    }
}

/// The handle that carries `type_id` and shares the value of `found`, if anything
/// was found.
pub fn with_identity<ItemType>(type_id: TypeId, found: Option<&Arc<ItemType>>) -> (typed: Option<
    MultiTypeDictItem<ItemType>,
>)
    ensures
        match found {
            Some(item) => typed is Some && typed->0.identity() == type_id && typed->0.value()
                == **item,
            None => typed is None,
        },
{
    match found {
        Some(item) => Some(MultiTypeDictItem { type_id, item: item.clone() }),
        None => None,
    }
}

/// The registry. Its view maps each identity that has a value to the handle of
/// the value, with the type forgotten.
pub struct MultiTypeDict {
    storage: TypeTable<MultiTypeDictItem<AnyValue>>,
}

impl View for MultiTypeDict {
    type V = Map<TypeId, MultiTypeDictItem<AnyValue>>;

    closed spec fn view(&self) -> Map<TypeId, MultiTypeDictItem<AnyValue>> {
        self.storage@
    }
}

/// Every handle stands under the identity that it carries.
pub open spec fn keyed_by_identity(dict: Map<TypeId, MultiTypeDictItem<AnyValue>>) -> bool {
    forall|type_id: TypeId| #[trigger]
        dict.contains_key(type_id) ==> dict[type_id].identity() == type_id
}

impl MultiTypeDict {
    #[verifier::type_invariant]
    spec fn well_formed(self) -> bool {
        keyed_by_identity(self@)
    }

    /// The identities that have a value, in the order in which they came in.
    pub closed spec fn order(self) -> Seq<TypeId> {
        self.storage.order()
    }

    pub fn new() -> (dict: Self)
        ensures
            dict@ == Map::<TypeId, MultiTypeDictItem<AnyValue>>::empty(),
            dict.order() == Seq::<TypeId>::empty(),
    {
        MultiTypeDict { storage: TypeTable::new() }
    }

    /// Puts `item` in under the identity of its type, in place of whatever was
    /// there, and hands back handles to both.
    pub fn insert<ItemType>(&mut self, item: ItemType) -> (result: MultiTypeDictInsertResult<
        ItemType,
    >) where ItemType: 'static
        ensures
            result.new_item.value() == item,
            final(self)@.contains_key(result.new_item.identity()),
            final(self)@[result.new_item.identity()].identity() == result.new_item.identity(),
            final(self).order() == if old(self)@.contains_key(result.new_item.identity()) {
                old(self).order()
            } else {
                old(self).order().push(result.new_item.identity())
            },
            final(self)@.remove(result.new_item.identity()) == old(self)@.remove(
                result.new_item.identity(),
            ),
            result.old_item is Some ==> old(self)@.contains_key(result.new_item.identity())
                && result.old_item->0.identity() == old(
                self,
            )@[result.new_item.identity()].identity(),
    {
        let type_id = type_id_of::<ItemType>();
        let shared = Arc::new(item);
        let replaced = self.store(shared.clone(), type_id);
        let old_item = match replaced.old_item {
            Some(erased) => erased.downcast::<ItemType>(),
            None => None,
        };
        proof {
            assert(final(self)@.remove(type_id) =~= old(self)@.remove(type_id));
        }
        let new_item = MultiTypeDictItem { type_id, item: shared };
        MultiTypeDictInsertResult { new_item, old_item }
    }

    /// Puts `item` in under `type_id`, in place of whatever was there, and hands
    /// back handles to both.
    pub fn insert_any<ItemType>(&mut self, item: ItemType, type_id: TypeId) -> (result:
        MultiTypeDictInsertResult<AnyValue>) where ItemType: 'static
        ensures
            keyed_by_identity(old(self)@),
            keyed_by_identity(final(self)@),
            result.new_item.identity() == type_id,
            final(self)@ == old(self)@.insert(type_id, result.new_item),
            final(self).order() == if old(self)@.contains_key(type_id) {
                old(self).order()
            } else {
                old(self).order().push(type_id)
            },
            result.old_item == if old(self)@.contains_key(type_id) {
                Some(old(self)@[type_id])
            } else {
                None::<MultiTypeDictItem<AnyValue>>
            },
    {
        self.store(Arc::new(item), type_id)
    }

    fn store<ItemType>(&mut self, item: Arc<ItemType>, type_id: TypeId) -> (result:
        MultiTypeDictInsertResult<AnyValue>) where ItemType: 'static
        ensures
            keyed_by_identity(old(self)@),
            keyed_by_identity(final(self)@),
            result.new_item.identity() == type_id,
            final(self)@ == old(self)@.insert(type_id, result.new_item),
            final(self).order() == if old(self)@.contains_key(type_id) {
                old(self).order()
            } else {
                old(self).order().push(type_id)
            },
            result.old_item == if old(self)@.contains_key(type_id) {
                Some(old(self)@[type_id])
            } else {
                None::<MultiTypeDictItem<AnyValue>>
            },
    {
        proof {
            use_type_invariant(&*self);
        }
        let new_item = MultiTypeDictItem::erase(item, type_id);
        let mut storage = TypeTable::new();
        std::mem::swap(&mut storage, &mut self.storage);
        let old_item = storage.insert(type_id, new_item.clone());
        self.storage = storage;
        MultiTypeDictInsertResult { new_item, old_item }
    }

    /// The handle of the value of type `ItemType`.
    pub fn get_item_ref<ItemType>(&self) -> (item: Option<MultiTypeDictItem<ItemType>>) where
        ItemType: 'static,

        ensures
            item is Some ==> self@.contains_key(item->0.identity()),
            item is Some ==> self@[item->0.identity()].identity() == item->0.identity(),
    {
        let type_id = type_id_of::<ItemType>();
        match self.get_item_ref_any(type_id) {
            Some(erased) => erased.downcast::<ItemType>(),
            None => None,
        }
    }

    /// The handle of the value of type `ItemType`. If there is none, or the value
    /// under that identity is of another type, `item_creator` makes one, which
    /// goes in. What is found is asked of the registry and of the box;
    /// `existing_or_created` decides on the answer.
    pub fn get_or_insert_item_ref<ItemType>(
        &mut self,
        item_creator: impl FnOnce() -> ItemType,
    ) -> (item: MultiTypeDictItem<ItemType>) where ItemType: 'static
        requires
            call_requires(item_creator, ()),
        ensures
            final(self)@.contains_key(item.identity()),
            final(self)@[item.identity()].identity() == item.identity(),
            final(self)@.remove(item.identity()) == old(self)@.remove(item.identity()),
            final(self)@ == old(self)@ || call_ensures(item_creator, (), item.value()),
            final(self).order() == old(self).order() || final(self).order() == old(
                self,
            ).order().push(item.identity()),
    {
        let type_id = type_id_of::<ItemType>();
        let found = match self.get_item_ref_any(type_id) {
            Some(erased) => erased.downcast::<ItemType>(),
            None => None,
        };
        self.existing_or_created(type_id, found, item_creator)
    }

    /// `found` if it is a handle, and then nothing is made and nothing changes; else
    /// the handle of what `item_creator` makes, which goes in under `type_id` in
    /// place of whatever was there.
    pub fn existing_or_created<ItemType>(
        &mut self,
        type_id: TypeId,
        found: Option<MultiTypeDictItem<ItemType>>,
        item_creator: impl FnOnce() -> ItemType,
    ) -> (item: MultiTypeDictItem<ItemType>) where ItemType: 'static
        requires
            call_requires(item_creator, ()),
        ensures
            match found {
                Some(existing) => {
                    &&& item == existing
                    &&& final(self)@ == old(self)@
                    &&& final(self).order() == old(self).order()
                },
                None => {
                    &&& call_ensures(item_creator, (), item.value())
                    &&& item.identity() == type_id
                    &&& final(self)@.contains_key(type_id)
                    &&& final(self)@[type_id].identity() == type_id
                    &&& final(self)@.remove(type_id) == old(self)@.remove(type_id)
                    &&& final(self).order() == if old(self)@.contains_key(type_id) {
                        old(self).order()
                    } else {
                        old(self).order().push(type_id)
                    }
                },
            },
    {
        match found {
            Some(existing) => existing,
            None => {
                let shared = Arc::new(item_creator());
                self.store(shared.clone(), type_id);
                proof {
                    assert(final(self)@.remove(type_id) =~= old(self)@.remove(type_id));
                }
                MultiTypeDictItem { type_id, item: shared }
            },
        }
    }

    /// The handle of the value under `type_id`.
    pub fn get_item_ref_any(&self, type_id: TypeId) -> (item: Option<MultiTypeDictItem<AnyValue>>)
        ensures
            keyed_by_identity(self@),
            item == if self@.contains_key(type_id) {
                Some(self@[type_id])
            } else {
                None::<MultiTypeDictItem<AnyValue>>
            },
    {
        proof {
            use_type_invariant(self);
        }
        match self.storage.get(type_id) {
            Some(item) => Some(item.clone()),
            None => None,
        }
    }

    /// Takes the value of type `ItemType` out.
    pub fn remove<ItemType>(&mut self) -> (item: Option<Arc<ItemType>>) where ItemType: 'static
        ensures
            exists|type_id: TypeId|
                {
                    &&& final(self)@ == old(self)@.remove(type_id)
                    &&& item is Some ==> old(self)@.contains_key(type_id)
                    &&& final(self).order() == if old(self)@.contains_key(type_id) {
                        old(self).order().remove(old(self).order().index_of(type_id))
                    } else {
                        old(self).order()
                    }
                },
    {
        let type_id = type_id_of::<ItemType>();
        match self.remove_by_type_id(type_id) {
            Some(erased) => match erased.downcast::<ItemType>() {
                Some(typed) => Some(typed.as_arc_ref().clone()),
                None => None,
            },
            None => None,
        }
    }

    /// Takes the value under `type_id` out.
    pub fn remove_by_type_id(&mut self, type_id: TypeId) -> (item: Option<
        MultiTypeDictItem<AnyValue>,
    >)
        ensures
            keyed_by_identity(old(self)@),
            keyed_by_identity(final(self)@),
            final(self)@ == old(self)@.remove(type_id),
            final(self).order() == if old(self)@.contains_key(type_id) {
                old(self).order().remove(old(self).order().index_of(type_id))
            } else {
                old(self).order()
            },
            item == if old(self)@.contains_key(type_id) {
                Some(old(self)@[type_id])
            } else {
                None::<MultiTypeDictItem<AnyValue>>
            },
    {
        proof {
            use_type_invariant(&*self);
        }
        let mut storage = TypeTable::new();
        std::mem::swap(&mut storage, &mut self.storage);
        let item = storage.remove(type_id);
        self.storage = storage;
        item
    }

    /// Walks over the handles of all values: one handle for each identity that has
    /// a value, none twice, in the order in which the identities came in.
    pub fn iter(&self) -> (walk: MultiTypeDictIterator<'_>)
        ensures
            walk.dict() == self@,
            walk@ == self.order(),
            distinct(self.order()),
            forall|type_id: TypeId| self@.contains_key(type_id) <==> self.order().contains(type_id),
    {
        let count = self.storage.len();
        let walk = MultiTypeDictIterator { storage: &self.storage, position: 0, count };
        assert(self.storage.order().subrange(0, self.storage.order().len() as int)
            =~= self.storage.order());
        assert forall|type_id: TypeId| self.order().contains(type_id) implies self@.contains_key(
            type_id,
        ) by {
            let k = choose|k: int| 0 <= k < self.order().len() && self.order()[k] == type_id;
            assert(self@.contains_key(self.order()[k]));
        }
        walk
    }
}

impl Default for MultiTypeDict {
    fn default() -> (dict: Self)
        ensures
            dict@ == Map::<TypeId, MultiTypeDictItem<AnyValue>>::empty(),
            dict.order() == Seq::<TypeId>::empty(),
    {
        Self::new()
    }
}

/// A walk over the handles of a registry. Its view is the identities that are
/// still to come.
pub struct MultiTypeDictIterator<'a> {
    storage: &'a TypeTable<MultiTypeDictItem<AnyValue>>,
    position: usize,
    count: usize,
}

impl<'a> View for MultiTypeDictIterator<'a> {
    type V = Seq<TypeId>;

    closed spec fn view(&self) -> Seq<TypeId> {
        if self.position <= self.storage.order().len() {
            self.storage.order().subrange(self.position as int, self.storage.order().len() as int)
        } else {
            Seq::empty()
        }
    }
}

impl<'a> MultiTypeDictIterator<'a> {
    #[verifier::type_invariant]
    spec fn counted(self) -> bool {
        self.count == self.storage.order().len()
    }

    /// The registry that is walked over.
    pub closed spec fn dict(self) -> Map<TypeId, MultiTypeDictItem<AnyValue>> {
        self.storage@
    }

    /// The handle of the next value, if any is left.
    pub fn next(&mut self) -> (item: Option<MultiTypeDictItem<AnyValue>>)
        ensures
            final(self).dict() == old(self).dict(),
            match item {
                Some(handle) => {
                    &&& old(self)@.len() > 0
                    &&& old(self).dict().contains_key(old(self)@[0])
                    &&& handle == old(self).dict()[old(self)@[0]]
                    &&& final(self)@ == old(self)@.drop_first()
                },
                None => old(self)@.len() == 0 && final(self)@ == old(self)@,
            },
    {
        proof {
            use_type_invariant(&*self);
        }
        if self.position < self.count {
            let item = self.storage.value_at(self.position).clone();
            self.position = self.position + 1;
            assert(final(self)@ =~= old(self)@.drop_first());
            Some(item)
        } else {
            None
        }
    }
}

} // verus!
