//! A registry of callbacks that a sender runs, in the order in which they were
//! subscribed, whatever slots of the arena they stand in. A dropped subscription is
//! only marked; the next `trigger` removes its callback before it runs the others.

use vstd::prelude::*;
use crate::containers::arena_model::{invalid_index, is_live};
use crate::containers::object_pool::ObjectPoolIndex;
use crate::containers::ordered_pool::OrderedPool;
use super::types::{arc_mutex_new, lock, ArcMutex};

verus! {

/// A callback that takes an event by reference. It holds a boxed `FnMut`, a type
/// that cannot be written here, so nothing is known of what a call does.
#[verifier::external_body]
#[verifier::reject_recursive_types(T)]
pub struct BoxedCallback<T> {
    function: Box<dyn FnMut(&T) + Send>,
}

impl<T> BoxedCallback<T> {
    /// `Box::new` around `f`.
    #[verifier::external_body]
    pub(crate) fn new(f: impl FnMut(&T) + Send + 'static) -> (callback: Self) {
        BoxedCallback { function: Box::new(f) }
    }

    /// `FnMut::call_mut` of the boxed function with `obj`. What the function does is
    /// its own business; it gets no more than the reference.
    #[verifier::external_body]
    pub(crate) fn call(&mut self, obj: &T) {
        (self.function)(obj)
    }
}

/// Runs the callbacks of `callbacks` with `obj`, one after the other in the order in
/// which they were registered: the first call goes to the callback behind the
/// first index of the order, the next to the one behind the second, and so on to
/// the last. None is added, removed or moved meanwhile.
pub fn run_in_order<T>(callbacks: &mut OrderedPool<BoxedCallback<T>>, obj: &T)
    ensures
        final(callbacks).order() == old(callbacks).order(),
        final(callbacks).slots().len() == old(callbacks).slots().len(),
        forall|index: ObjectPoolIndex|
            is_live(final(callbacks).slots(), index) == is_live(old(callbacks).slots(), index),
{
    let count = callbacks.len();
    let mut position: usize = 0;
    while position < count
        invariant
            count == callbacks.order().len(),
            callbacks.order() == old(callbacks).order(),
            callbacks.slots().len() == old(callbacks).slots().len(),
            forall|index: ObjectPoolIndex|
                is_live(callbacks.slots(), index) == is_live(old(callbacks).slots(), index),
        decreases count - position,
    {
        let ghost slots_before = callbacks.slots();
        let ghost at = callbacks.order()[position as int];
        match callbacks.get_mut_at(position) {
            Some(callback) => {
                callback.call(obj);
            },
            None => {},
        }
        proof {
            assert(is_live(slots_before, at));
            assert forall|index: ObjectPoolIndex|
                is_live(callbacks.slots(), index) == is_live(slots_before, index) by {}
        }
        position = position + 1;
    }
}

#[verifier::reject_recursive_types(T)]
struct Callbacks<T> {
    registered: ArcMutex<OrderedPool<BoxedCallback<T>>>,
    to_be_removed: ArcMutex<Vec<ObjectPoolIndex>>,
}

impl<T> Callbacks<T> {
    fn new() -> Self {
        Callbacks {
            registered: arc_mutex_new(OrderedPool::new()),
            to_be_removed: arc_mutex_new(Vec::new()),
        }
    }

    /// One more handle to the same registry and the same list of marked callbacks.
    fn share(&self) -> (shared: Self)
        ensures
            shared == *self,
    {
        Callbacks { registered: self.registered.clone(), to_be_removed: self.to_be_removed.clone() }
    }
}

/// Keeps a callback subscribed for as long as it lives.
#[verifier::reject_recursive_types(T)]
pub struct Subscription<T> {
    callback_index: ObjectPoolIndex,
    callbacks: Callbacks<T>,
}

/// Runs the subscribed callbacks.
#[verifier::reject_recursive_types(T)]
pub struct Sender<T> {
    callbacks: Callbacks<T>,
}

/// Subscribes callbacks.
#[verifier::reject_recursive_types(T)]
pub struct Subscriber<T> {
    callbacks: Callbacks<T>,
}

impl<T> Default for Sender<T> {
    fn default() -> Self {
        Self::new()
    }
}

impl<T> Clone for Sender<T> {
    /// One more sender of the same registry.
    fn clone(&self) -> (copy: Self)
        ensures
            copy == *self,
    {
        Sender { callbacks: self.callbacks.share() }
    }
}

impl<T> Sender<T> {
    pub fn new() -> Self {
        Sender { callbacks: Callbacks::new() }
    }

    /// A subscriber whose callbacks this sender runs.
    pub fn create_subscriber(&self) -> (subscriber: Subscriber<T>)
        ensures
            subscriber.subscribes_to(*self),
    {
        Subscriber { callbacks: self.callbacks.share() }
    }

    /// Removes the callbacks whose subscriptions were dropped, then runs every
    /// callback that is left with `obj`, in the order in which they were
    /// subscribed.
    pub fn trigger(&self, obj: &T) {
        let mut registered = lock(&self.callbacks.registered);
        let pool = registered.get_mut();
        {
            let mut marked = lock(&self.callbacks.to_be_removed);
            pool.release_objects(marked.get_mut());
        }
        run_in_order(pool, obj);
    }

    /// How many callbacks are registered at the moment of the call. The callback of
    /// a dropped subscription counts until the next `trigger`.
    pub fn number_of_callbacks(&self) -> usize {
        let registered = lock(&self.callbacks.registered);
        registered.get().len()
    }
}

impl<T> Subscriber<T> {
    /// Whether the callbacks of this subscriber are run by `sender`.
    pub closed spec fn subscribes_to(self, sender: Sender<T>) -> bool {
        self.callbacks == sender.callbacks
    }

    /// Registers `f`. It runs at every `trigger` until the subscription is dropped.
    /// The subscription belongs to the registry of this subscriber and holds the
    /// index under which `f` was registered, a valid one.
    pub fn subscribe(&self, f: impl FnMut(&T) + Send + 'static) -> (subscription: Subscription<T>)
        ensures
            subscription.made_by(*self),
            subscription.index().version >= 1,
    {
        let index = {
            let mut registered = lock(&self.callbacks.registered);
            registered.get_mut().create_object(BoxedCallback::new(f))
        };
        Subscription { callback_index: index, callbacks: self.callbacks.share() }
    }
}

impl<T> Subscription<T> {
    /// Whether the callback of this subscription is in the registry of
    /// `subscriber`.
    pub closed spec fn made_by(self, subscriber: Subscriber<T>) -> bool {
        self.callbacks == subscriber.callbacks
    }

    /// The index under which the callback is registered.
    pub closed spec fn index(self) -> ObjectPoolIndex {
        self.callback_index
    }

    /// Marks the callback for removal by the next `trigger`, and forgets its index:
    /// the subscription is left with the invalid one, in the same registry.
    fn mark_for_removal(&mut self)
        ensures
            final(self).index() == invalid_index(),
            forall|subscriber: Subscriber<T>|
                final(self).made_by(subscriber) == old(self).made_by(subscriber),
    {
        let index = self.callback_index.invalidate();
        let mut marked = lock(&self.callbacks.to_be_removed);
        marked.get_mut().push(index);
    }
}

impl<T> Drop for Subscription<T> {
    /// Runs `mark_for_removal`.
    #[verifier::external_body]
    fn drop(&mut self)
        opens_invariants none
        no_unwind
    {
        self.mark_for_removal();
    }
}

} // verus!
