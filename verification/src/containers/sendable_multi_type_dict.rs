//! A registry that holds at most one shared value per type, for values that may
//! cross threads. Whoever asks for the value of a type that may have to be made
//! first holds the lock of that type meanwhile, so that it is made once; the lock
//! of one type never waits for the lock of another.

use std::any::Any;
use std::any::TypeId;
use std::ops::Deref;
use std::sync::Arc;
use vstd::prelude::*;
use crate::sync::types::{
    arc_mutex_new, condvar_new, lock, strong_count, ArcMutex,
};
use super::type_table::{distinct, type_id_of, TypeTable};

verus! {

/// A shared value whose type has been forgotten. It holds a boxed
/// `dyn Any + Send + Sync`, a type that cannot be written here; what is in the box
/// is the `Arc` that was handed in.
#[verifier::external_body]
pub struct SendableAnyValue {
    boxed: Box<dyn Any + Send + Sync>,
}

impl SendableAnyValue {
    /// `Box::new` around `item`, with the type forgotten.
    #[verifier::external_body]
    pub(crate) fn new<ItemType: Send + Sync + 'static>(item: Arc<ItemType>) -> (value: Self) {
        SendableAnyValue { boxed: Box::new(item) }
    }

    /// `<dyn Any>::downcast_ref`: the `Arc` in the box, if it is an `Arc` of
    /// `CastType`; nothing if the box holds another type.
    #[verifier::external_body]
    pub(crate) fn downcast_ref<CastType>(&self) -> (item: Option<&Arc<CastType>>) where
        CastType: Send + Sync + 'static,
     {
        self.boxed.downcast_ref::<Arc<CastType>>()
    }
}

/// A handle to a value of the registry, with the identity under which it went in.
pub struct SendableMultiTypeDictItem<ItemType> {
    type_id: TypeId,
    item: Arc<ItemType>,
}

impl<ItemType> Clone for SendableMultiTypeDictItem<ItemType> {
    fn clone(&self) -> (copy: Self)
        ensures
            copy == *self,
    {
        SendableMultiTypeDictItem { type_id: self.type_id, item: self.item.clone() }
    }
}

/// What `insert` hands back: the handle of the value that went in, and the handle
/// of the value that it replaced.
pub struct SendableMultiTypeDictInsertResult<ItemType> {
    pub new_item: SendableMultiTypeDictItem<ItemType>,
    pub old_item: Option<SendableMultiTypeDictItem<ItemType>>,
}

impl<ItemType> SendableMultiTypeDictItem<ItemType> {
    /// The identity under which the value went in.
    pub closed spec fn identity(self) -> TypeId {
        self.type_id
    }

    /// The value.
    pub closed spec fn value(self) -> ItemType {
        *self.item
    }

    pub fn as_arc_ref(&self) -> (item: &Arc<ItemType>)
        ensures
            **item == self.value(),
    {
        &self.item
    }

    pub fn type_id(&self) -> (type_id: TypeId)
        ensures
            type_id == self.identity(),
    {
        self.type_id
    }
}

impl<ItemType> Deref for SendableMultiTypeDictItem<ItemType> {
    type Target = ItemType;

    fn deref(&self) -> (value: &ItemType)
        ensures
            *value == self.value(),
    {
        &self.item
    }
}

impl SendableMultiTypeDictItem<SendableAnyValue> {
    /// A handle that forgets the type of `item`.
    fn erase<ItemType>(item: Arc<ItemType>, type_id: TypeId) -> (erased: Self) where
        ItemType: Send + Sync + 'static,

        ensures
            erased.identity() == type_id,
    {
        SendableMultiTypeDictItem { type_id, item: Arc::new(SendableAnyValue::new(item)) }
    }

    /// The handle of type `CastType` to the same value, if the value is of that
    /// type; nothing if it is of another. Whether it is of that type is asked of
    /// the box, and `with_identity` makes the handle of what the box gives.
    pub fn downcast<CastType>(&self) -> (typed: Option<SendableMultiTypeDictItem<CastType>>) where
        CastType: Send + Sync + 'static,

        ensures
            typed is Some ==> typed->0.identity() == self.identity(),
    {
        with_identity(self.type_id, self.item.downcast_ref::<CastType>())
    }
}

/// The handle that carries `type_id` and shares the value of `found`, if anything
/// was found.
pub fn with_identity<ItemType>(type_id: TypeId, found: Option<&Arc<ItemType>>) -> (typed: Option<
    SendableMultiTypeDictItem<ItemType>,
>)
    ensures
        match found {
            Some(item) => typed is Some && typed->0.identity() == type_id && typed->0.value()
                == **item,
            None => typed is None,
        },
{
    match found {
        Some(item) => Some(SendableMultiTypeDictItem { type_id, item: item.clone() }),
        None => None,
    }
}

/// The registry. Its view maps each identity that has a value to the handle of
/// the value, with the type forgotten.
pub struct SendableMultiTypeDict {
    storage: TypeTable<SendableMultiTypeDictItem<SendableAnyValue>>,
    item_type_locks: ArcMutex<TypeTable<ItemTypeLock>>,
}

/// The lock of one type: whether somebody holds it, and the signal on which the
/// others wait.
pub struct TypeLock {
    flag: ArcMutex<bool>,
    signal: parking_lot::Condvar,
}

pub type ItemTypeLock = Arc<TypeLock>;

/// Holds the lock of one type until it is dropped.
pub struct ItemTypeGuard {
    item_type_locks: ArcMutex<TypeTable<ItemTypeLock>>,
    type_id: TypeId,
    lock: ItemTypeLock,
}

/// The lock of `type_id` in `locks`, which is made first if there is none.
pub fn fetch_or_create_lock(locks: &mut TypeTable<ItemTypeLock>, type_id: TypeId) -> (entry:
    ItemTypeLock)
    ensures
        final(locks)@.contains_key(type_id),
        final(locks)@[type_id] == entry,
        final(locks)@ == if old(locks)@.contains_key(type_id) {
            old(locks)@
        } else {
            old(locks)@.insert(type_id, entry)
        },
{
    let found = match locks.get(type_id) {
        Some(entry) => Some(entry.clone()),
        None => None,
    };
    match found {
        Some(entry) => entry,
        None => {
            let entry = Arc::new(TypeLock::new());
            locks.insert(type_id, entry.clone());
            entry
        },
    }
}

/// What the holder of a type lock does with the table when it lets go: with
/// `holders` at two, the table and the holder itself, nobody waits and the lock
/// is taken out of the table; with more, the lock stays and has to be handed on.
/// Says whether the lock stays.
pub fn retire_lock(locks: &mut TypeTable<ItemTypeLock>, type_id: TypeId, holders: usize) -> (stays:
    bool)
    ensures
        stays == (holders != 2),
        final(locks)@ == if holders == 2 {
            old(locks)@.remove(type_id)
        } else {
            old(locks)@
        },
{
    if holders == 2 {
        locks.remove(type_id);
        false
    } else {
        true
    }
}

/// The right to read and write the flag of a type lock, together with the signal
/// of the same lock, so that nobody waits on a signal with the flag of another. It
/// holds a `parking_lot::MutexGuard`, whose declaration names a trait that cannot
/// be declared here.
#[verifier::external_body]
pub struct FlagGuard<'a> {
    guard: parking_lot::MutexGuard<'a, bool>,
    signal: &'a parking_lot::Condvar,
}

impl<'a> FlagGuard<'a> {
    /// `parking_lot::Condvar::wait_while` on the signal of the lock with the guard
    /// of its flag: waits for as long as the flag is set.
    #[verifier::external_body]
    fn wait_while_set(&mut self) {
        self.signal.wait_while(&mut self.guard, |set| *set)
    }

    /// `DerefMut::deref_mut` of the guard: writes the flag.
    #[verifier::external_body]
    fn set(&mut self, value: bool) {
        *self.guard = value
    }
}

impl TypeLock {
    pub fn new() -> Self {
        TypeLock { flag: arc_mutex_new(false), signal: condvar_new() }
    }

    /// `parking_lot::Mutex::lock` of the flag: waits until the flag can be looked at
    /// and written, and hands out the right to do so beside the signal of this
    /// lock.
    #[verifier::external_body]
    fn lock_flag(&self) -> (held: FlagGuard<'_>) {
        FlagGuard { guard: self.flag.lock(), signal: &self.signal }
    }

    /// `parking_lot::Condvar::notify_one`: wakes one of those who wait on the signal,
    /// if there is one.
    #[verifier::external_body]
    fn notify_one(&self) {
        self.signal.notify_one();
    }

    /// Waits until nobody holds the lock, and takes it.
    fn acquire(&self) {
        let mut held = self.lock_flag();
        held.wait_while_set();
        held.set(true);
    }

    /// Lets the lock go and wakes one of those who wait for it.
    fn hand_on(&self) {
        let mut held = self.lock_flag();
        held.set(false);
        self.notify_one();
    }
}

impl ItemTypeGuard {
    /// Whether the lock that this guard holds is in the table of `dict`.
    pub closed spec fn guards(self, dict: SendableMultiTypeDict) -> bool {
        self.item_type_locks == dict.item_type_locks
    }

    /// Lets the lock of the type go: out of the table if nobody waits for it, on to
    /// one of those who wait otherwise.
    fn release(&self) {
        let mut locks = lock(&self.item_type_locks);
        let holders = strong_count(&self.lock);
        if retire_lock(locks.get_mut(), self.type_id, holders) {
            self.lock.hand_on();
        }
    }
}

impl Drop for ItemTypeGuard {
    /// Runs `release`.
    #[verifier::external_body]
    fn drop(&mut self)
        opens_invariants none
        no_unwind
    {
        self.release();
    }
}

impl View for SendableMultiTypeDict {
    type V = Map<TypeId, SendableMultiTypeDictItem<SendableAnyValue>>;

    closed spec fn view(&self) -> Map<TypeId, SendableMultiTypeDictItem<SendableAnyValue>> {
        self.storage@
    }
}

/// Every handle stands under the identity that it carries.
pub open spec fn keyed_by_identity(
    dict: Map<TypeId, SendableMultiTypeDictItem<SendableAnyValue>>,
) -> bool {
    forall|type_id: TypeId| #[trigger]
        dict.contains_key(type_id) ==> dict[type_id].identity() == type_id
}

impl SendableMultiTypeDict {
    #[verifier::type_invariant]
    spec fn well_formed(self) -> bool {
        keyed_by_identity(self@)
    }

    /// The identities that have a value, in the order in which they came in.
    pub closed spec fn order(self) -> Seq<TypeId> {
        self.storage.order()
    }

    pub fn new() -> (dict: Self)
        ensures
            dict@ == Map::<TypeId, SendableMultiTypeDictItem<SendableAnyValue>>::empty(),
            dict.order() == Seq::<TypeId>::empty(),
    {
        SendableMultiTypeDict {
            storage: TypeTable::new(),
            item_type_locks: arc_mutex_new(TypeTable::new()),
        }
    }

    /// Puts `item` in under the identity of its type, in place of whatever was
    /// there, and hands back handles to both.
    pub fn insert<ItemType>(&mut self, item: ItemType) -> (result:
        SendableMultiTypeDictInsertResult<ItemType>) where ItemType: Send + Sync + 'static
        ensures
            result.new_item.value() == item,
            final(self)@.contains_key(result.new_item.identity()),
            final(self)@[result.new_item.identity()].identity() == result.new_item.identity(),
            final(self).order() == if old(self)@.contains_key(result.new_item.identity()) {
                old(self).order()
            } else {
                old(self).order().push(result.new_item.identity())
            },
            final(self)@.remove(result.new_item.identity()) == old(self)@.remove(
                result.new_item.identity(),
            ),
            result.old_item is Some ==> old(self)@.contains_key(result.new_item.identity())
                && result.old_item->0.identity() == old(
                self,
            )@[result.new_item.identity()].identity(),
    {
        let type_id = type_id_of::<ItemType>();
        let shared = Arc::new(item);
        let replaced = self.store(shared.clone(), type_id);
        let old_item = match replaced.old_item {
            Some(erased) => erased.downcast::<ItemType>(),
            None => None,
        };
        proof {
            assert(final(self)@.remove(type_id) =~= old(self)@.remove(type_id));
        }
        let new_item = SendableMultiTypeDictItem { type_id, item: shared };
        SendableMultiTypeDictInsertResult { new_item, old_item }
    }

    /// Puts `item` in under `type_id`, in place of whatever was there, and hands
    /// back handles to both.
    pub fn insert_any<ItemType>(&mut self, item: ItemType, type_id: TypeId) -> (result:
        SendableMultiTypeDictInsertResult<SendableAnyValue>) where ItemType: Send + Sync + 'static
        ensures
            keyed_by_identity(old(self)@),
            keyed_by_identity(final(self)@),
            result.new_item.identity() == type_id,
            final(self)@ == old(self)@.insert(type_id, result.new_item),
            final(self).order() == if old(self)@.contains_key(type_id) {
                old(self).order()
            } else {
                old(self).order().push(type_id)
            },
            result.old_item == if old(self)@.contains_key(type_id) {
                Some(old(self)@[type_id])
            } else {
                None::<SendableMultiTypeDictItem<SendableAnyValue>>
            },
    {
        self.store(Arc::new(item), type_id)
    }

    fn store<ItemType>(&mut self, item: Arc<ItemType>, type_id: TypeId) -> (result:
        SendableMultiTypeDictInsertResult<SendableAnyValue>) where ItemType: Send + Sync + 'static
        ensures
            keyed_by_identity(old(self)@),
            keyed_by_identity(final(self)@),
            result.new_item.identity() == type_id,
            final(self)@ == old(self)@.insert(type_id, result.new_item),
            final(self).order() == if old(self)@.contains_key(type_id) {
                old(self).order()
            } else {
                old(self).order().push(type_id)
            },
            result.old_item == if old(self)@.contains_key(type_id) {
                Some(old(self)@[type_id])
            } else {
                None::<SendableMultiTypeDictItem<SendableAnyValue>>
            },
    {
        proof {
            use_type_invariant(&*self);
        }
        let new_item = SendableMultiTypeDictItem::erase(item, type_id);
        let mut storage = TypeTable::new();
        std::mem::swap(&mut storage, &mut self.storage);
        let old_item = storage.insert(type_id, new_item.clone());
        self.storage = storage;
        SendableMultiTypeDictInsertResult { new_item, old_item }
    }

    /// The handle of the value of type `ItemType`.
    pub fn get_item_ref<ItemType>(&self) -> (item: Option<
        SendableMultiTypeDictItem<ItemType>,
    >) where ItemType: Send + Sync + 'static

        ensures
            item is Some ==> self@.contains_key(item->0.identity()),
            item is Some ==> self@[item->0.identity()].identity() == item->0.identity(),
    {
        let type_id = type_id_of::<ItemType>();
        match self.get_item_ref_any(type_id) {
            Some(erased) => erased.downcast::<ItemType>(),
            None => None,
        }
    }

    /// The handle of the value of type `ItemType`. If there is none, or the value
    /// under that identity is of another type, `item_creator` makes one, which
    /// goes in. What is found is asked of the registry and of the box;
    /// `existing_or_created` decides on the answer. The lock of the type is held
    /// meanwhile.
    pub fn get_or_insert_item_ref<ItemType>(
        &mut self,
        item_creator: impl FnOnce() -> ItemType,
    ) -> (item: SendableMultiTypeDictItem<ItemType>) where ItemType: Send + Sync + 'static
        requires
            call_requires(item_creator, ()),
        ensures
            final(self)@.contains_key(item.identity()),
            final(self)@[item.identity()].identity() == item.identity(),
            final(self)@.remove(item.identity()) == old(self)@.remove(item.identity()),
            final(self)@ == old(self)@ || call_ensures(item_creator, (), item.value()),
            final(self).order() == old(self).order() || final(self).order() == old(
                self,
            ).order().push(item.identity()),
    {
        let _item_type_guard = self.lock_item_type::<ItemType>();
        let type_id = type_id_of::<ItemType>();
        let found = match self.get_item_ref_any(type_id) {
            Some(erased) => erased.downcast::<ItemType>(),
            None => None,
        };
        self.existing_or_created(type_id, found, item_creator)
    }

    /// `found` if it is a handle, and then nothing is made and nothing changes; else
    /// the handle of what `item_creator` makes, which goes in under `type_id` in
    /// place of whatever was there.
    pub fn existing_or_created<ItemType>(
        &mut self,
        type_id: TypeId,
        found: Option<SendableMultiTypeDictItem<ItemType>>,
        item_creator: impl FnOnce() -> ItemType,
    ) -> (item: SendableMultiTypeDictItem<ItemType>) where ItemType: Send + Sync + 'static
        requires
            call_requires(item_creator, ()),
        ensures
            match found {
                Some(existing) => {
                    &&& item == existing
                    &&& final(self)@ == old(self)@
                    &&& final(self).order() == old(self).order()
                },
                None => {
                    &&& call_ensures(item_creator, (), item.value())
                    &&& item.identity() == type_id
                    &&& final(self)@.contains_key(type_id)
                    &&& final(self)@[type_id].identity() == type_id
                    &&& final(self)@.remove(type_id) == old(self)@.remove(type_id)
                    &&& final(self).order() == if old(self)@.contains_key(type_id) {
                        old(self).order()
                    } else {
                        old(self).order().push(type_id)
                    }
                },
            },
    {
        match found {
            Some(existing) => existing,
            None => {
                let shared = Arc::new(item_creator());
                self.store(shared.clone(), type_id);
                proof {
                    assert(final(self)@.remove(type_id) =~= old(self)@.remove(type_id));
                }
                SendableMultiTypeDictItem { type_id, item: shared }
            },
        }
    }

    /// The handle of the value under `type_id`.
    pub fn get_item_ref_any(&self, type_id: TypeId) -> (item: Option<
        SendableMultiTypeDictItem<SendableAnyValue>,
    >)
        ensures
            keyed_by_identity(self@),
            item == if self@.contains_key(type_id) {
                Some(self@[type_id])
            } else {
                None::<SendableMultiTypeDictItem<SendableAnyValue>>
            },
    {
        proof {
            use_type_invariant(self);
        }
        match self.storage.get(type_id) {
            Some(item) => Some(item.clone()),
            None => None,
        }
    }

    /// Takes the value of type `ItemType` out.
    pub fn remove<ItemType>(&mut self) -> (item: Option<Arc<ItemType>>) where
        ItemType: Send + Sync + 'static,

        ensures
            exists|type_id: TypeId|
                {
                    &&& final(self)@ == old(self)@.remove(type_id)
                    &&& item is Some ==> old(self)@.contains_key(type_id)
                    &&& final(self).order() == if old(self)@.contains_key(type_id) {
                        old(self).order().remove(old(self).order().index_of(type_id))
                    } else {
                        old(self).order()
                    }
                },
    {
        let type_id = type_id_of::<ItemType>();
        match self.remove_by_type_id(type_id) {
            Some(erased) => match erased.downcast::<ItemType>() {
                Some(typed) => Some(typed.as_arc_ref().clone()),
                None => None,
            },
            None => None,
        }
    }

    /// Takes the value under `type_id` out.
    pub fn remove_by_type_id(&mut self, type_id: TypeId) -> (item: Option<
        SendableMultiTypeDictItem<SendableAnyValue>,
    >)
        ensures
            keyed_by_identity(old(self)@),
            keyed_by_identity(final(self)@),
            final(self)@ == old(self)@.remove(type_id),
            final(self).order() == if old(self)@.contains_key(type_id) {
                old(self).order().remove(old(self).order().index_of(type_id))
            } else {
                old(self).order()
            },
            item == if old(self)@.contains_key(type_id) {
                Some(old(self)@[type_id])
            } else {
                None::<SendableMultiTypeDictItem<SendableAnyValue>>
            },
    {
        proof {
            use_type_invariant(&*self);
        }
        let mut storage = TypeTable::new();
        std::mem::swap(&mut storage, &mut self.storage);
        let item = storage.remove(type_id);
        self.storage = storage;
        item
    }

    /// Takes the lock of the type `ItemType`. The table of locks is held only to
    /// look the lock up, never while waiting for it. The guard holds a lock of the
    /// table of this registry, and gives it back there.
    fn lock_item_type<ItemType>(&self) -> (guard: ItemTypeGuard) where
        ItemType: Send + Sync + 'static,

        ensures
            guard.guards(*self),
    {
        let type_id = type_id_of::<ItemType>();
        let entry = {
            let mut locks = lock(&self.item_type_locks);
            fetch_or_create_lock(locks.get_mut(), type_id)
        };
        entry.acquire();
        ItemTypeGuard { item_type_locks: self.item_type_locks.clone(), type_id, lock: entry }
    }

    /// How many type locks are in the table at the moment of the call.
    pub fn number_of_type_locks(&self) -> usize {
        let locks = lock(&self.item_type_locks);
        locks.get().len()
    }

    /// Walks over the handles of all values: one handle for each identity that has
    /// a value, none twice, in the order in which the identities came in.
    pub fn iter(&self) -> (walk: SendableMultiTypeDictIterator<'_>)
        ensures
            walk.dict() == self@,
            walk@ == self.order(),
            distinct(self.order()),
            forall|type_id: TypeId| self@.contains_key(type_id) <==> self.order().contains(type_id),
    {
        let count = self.storage.len();
        let walk = SendableMultiTypeDictIterator { storage: &self.storage, position: 0, count };
        assert(self.storage.order().subrange(0, self.storage.order().len() as int)
            =~= self.storage.order());
        assert forall|type_id: TypeId| self.order().contains(type_id) implies self@.contains_key(
            type_id,
        ) by {
            let k = choose|k: int| 0 <= k < self.order().len() && self.order()[k] == type_id;
            assert(self@.contains_key(self.order()[k]));
        }
        walk
    }
}

impl Default for SendableMultiTypeDict {
    fn default() -> (dict: Self)
        ensures
            dict@ == Map::<TypeId, SendableMultiTypeDictItem<SendableAnyValue>>::empty(),
            dict.order() == Seq::<TypeId>::empty(),
    {
        Self::new()
    }
}

/// A walk over the handles of a registry. Its view is the identities that are
/// still to come.
pub struct SendableMultiTypeDictIterator<'a> {
    storage: &'a TypeTable<SendableMultiTypeDictItem<SendableAnyValue>>,
    position: usize,
    count: usize,
}

impl<'a> View for SendableMultiTypeDictIterator<'a> {
    type V = Seq<TypeId>;

    closed spec fn view(&self) -> Seq<TypeId> {
        if self.position <= self.storage.order().len() {
            self.storage.order().subrange(self.position as int, self.storage.order().len() as int)
        } else {
            Seq::empty()
        }
    }
}

impl<'a> SendableMultiTypeDictIterator<'a> {
    #[verifier::type_invariant]
    spec fn counted(self) -> bool {
        self.count == self.storage.order().len()
    }

    /// The registry that is walked over.
    pub closed spec fn dict(self) -> Map<TypeId, SendableMultiTypeDictItem<SendableAnyValue>> {
        self.storage@
    }

    /// The handle of the next value, if any is left.
    pub fn next(&mut self) -> (item: Option<SendableMultiTypeDictItem<SendableAnyValue>>)
        ensures
            final(self).dict() == old(self).dict(),
            match item {
                Some(handle) => {
                    &&& old(self)@.len() > 0
                    &&& old(self).dict().contains_key(old(self)@[0])
                    &&& handle == old(self).dict()[old(self)@[0]]
                    &&& final(self)@ == old(self)@.drop_first()
                },
                None => old(self)@.len() == 0 && final(self)@ == old(self)@,
            },
    {
        proof {
            use_type_invariant(&*self);
        }
        if self.position < self.count {
            let item = self.storage.value_at(self.position).clone();
            self.position = self.position + 1;
            assert(final(self)@ =~= old(self)@.drop_first());
            Some(item)
        } else {
            None
        }
    }
}

} // verus!
