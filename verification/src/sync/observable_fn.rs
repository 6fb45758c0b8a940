//! A value that tells its observers whenever it was set or changed. A dropped
//! observer is only marked; the next notification removes it before it calls the
//! others.

use std::marker::PhantomData;
use std::ops::Deref;
use std::ops::DerefMut;
use vstd::prelude::*;
use crate::containers::arena_model::{slots_after_releases, Slot};
use crate::containers::object_pool::{ObjectPool, ObjectPoolIndex};
use super::types::{arc_mutex_new, lock, ArcMutex};

verus! {

/// A function that is shown the value by reference. It holds a boxed `Fn`, a type
/// that cannot be written here, so nothing is known of what a call does.
#[verifier::external_body]
#[verifier::reject_recursive_types(T)]
pub struct ObserverFunction<T> {
    function: Box<dyn Fn(&T)>,
}

impl<T> ObserverFunction<T> {
    /// `Box::new` around `function`.
    #[verifier::external_body]
    pub(crate) fn new(function: impl Fn(&T) + 'static) -> (observer: Self) {
        ObserverFunction { function: Box::new(function) }
    }

    /// `Fn::call` of the boxed function with `value`. What the function does is its
    /// own business; it gets no more than the reference.
    #[verifier::external_body]
    pub(crate) fn call(&self, value: &T) {
        (self.function)(value)
    }
}

/// The observed value. Its view is the value.
#[verifier::reject_recursive_types(T)]
pub struct Observable<T> {
    value: T,
    observers: ObjectPool<ObserverFunction<T>>,
    to_be_deleted_observers: ArcMutex<Vec<ObjectPoolIndex>>,
}

/// The right to change the value in place. The observers are told once, when the
/// borrower goes out of scope, whatever was written through it and however often;
/// the observers that were dropped meanwhile are removed then.
#[verifier::reject_recursive_types(T)]
pub struct ObservableBorrower<'a, T> {
    pub observable: &'a mut Observable<T>,
}

/// Keeps an observer registered for as long as it lives.
#[verifier::reject_recursive_types(T)]
pub struct Observer<T> {
    observer_index: ObjectPoolIndex,
    to_be_deleted_observers: ArcMutex<Vec<ObjectPoolIndex>>,
    _phantom: PhantomData<T>,
}

impl<T> View for Observable<T> {
    type V = T;

    closed spec fn view(&self) -> T {
        self.value
    }
}

impl<T> Observable<T> {
    /// The slots in which the observers are registered.
    pub closed spec fn observers(self) -> Seq<Slot<ObserverFunction<T>>> {
        self.observers@
    }

    pub fn new(initial_value: T) -> (observable: Self)
        ensures
            observable@ == initial_value,
            observable.observers() == Seq::<Slot<ObserverFunction<T>>>::empty(),
    {
        Observable {
            value: initial_value,
            observers: ObjectPool::new(),
            to_be_deleted_observers: arc_mutex_new(Vec::new()),
        }
    }

    /// Replaces the value and tells the observers.
    pub fn set(&mut self, value: T)
        ensures
            final(self)@ == value,
            final(self).observers().len() == old(self).observers().len(),
            exists|marked: Seq<ObjectPoolIndex>|
                final(self).observers() == slots_after_releases(old(self).observers(), marked),
    {
        self.value = value;
        self.trigger_observers();
    }

    pub fn get_ref(&self) -> (value: &T)
        ensures
            *value == self@,
    {
        &self.value
    }

    /// Lends the value out for changes in place.
    pub fn borrow_mut(&mut self) -> (borrower: ObservableBorrower<'_, T>)
        ensures
            borrower.value() == old(self)@,
            final(self)@ == final(borrower.observable)@,
    {
        ObservableBorrower { observable: self }
    }

    /// Registers `function`. It is called at every notification until the observer
    /// is dropped.
    pub fn observe(&mut self, function: impl Fn(&T) + 'static) -> (observer: Observer<T>)
        ensures
            final(self)@ == old(self)@,
            observer.index().index == crate::containers::arena_model::next_position(
                old(self).observers(),
            ),
            observer.index().version == crate::containers::arena_model::next_generation(
                old(self).observers(),
            ),
            crate::containers::arena_model::is_live(final(self).observers(), observer.index()),
    {
        let observer_index = self.observers.create_object(ObserverFunction::new(function));
        proof {
            crate::containers::arena_laws::lemma_created_index_is_fresh(
                old(self).observers(),
                crate::containers::arena_model::value_of(self.observers(), observer_index)->0,
                observer_index,
            );
        }
        Observer {
            observer_index,
            to_be_deleted_observers: self.to_be_deleted_observers.clone(),
            _phantom: PhantomData,
        }
    }

    /// Removes the observers that were dropped since the last time, then calls
    /// every observer that is left with the value, in the order of their slots.
    fn trigger_observers(&mut self)
        ensures
            final(self)@ == old(self)@,
            final(self).observers().len() == old(self).observers().len(),
            exists|marked: Seq<ObjectPoolIndex>|
                final(self).observers() == slots_after_releases(old(self).observers(), marked),
    {
        let ghost marked_now: Seq<ObjectPoolIndex>;
        {
            let mut marked = lock(&self.to_be_deleted_observers);
            let list = marked.get_mut();
            proof {
                marked_now = list@;
            }
            self.observers.release_objects(list);
        }
        proof {
            lemma_releases_keep_len(old(self).observers(), marked_now);
        }
        let mut walk = self.observers.iter();
        loop
            decreases walk@.len(),
        {
            match walk.next() {
                Some(observer) => {
                    observer.call(&self.value);
                },
                None => {
                    break ;
                },
            }
        }
    }
}

/// Releases change no slot count.
proof fn lemma_releases_keep_len<T>(slots: Seq<Slot<T>>, indices: Seq<ObjectPoolIndex>)
    ensures
        slots_after_releases(slots, indices).len() == slots.len(),
    decreases indices.len(),
{
    if indices.len() > 0 {
        lemma_releases_keep_len(
            crate::containers::arena_model::slots_after_release(slots, indices[0]),
            indices.drop_first(),
        );
    }
}

impl<T> Deref for Observable<T> {
    type Target = T;

    fn deref(&self) -> (value: &T)
        ensures
            *value == self@,
    {
        &self.value
    }
}

impl<T> Observer<T> {
    /// The index under which the observer is registered.
    pub closed spec fn index(self) -> ObjectPoolIndex {
        self.observer_index
    }

    /// Marks the observer for removal by the next notification.
    fn mark_for_removal(&self) {
        let mut marked = lock(&self.to_be_deleted_observers);
        marked.get_mut().push(self.observer_index);
    }
}

impl<T> Drop for Observer<T> {
    /// Runs `mark_for_removal`.
    #[verifier::external_body]
    fn drop(&mut self)
        opens_invariants none
        no_unwind
    {
        self.mark_for_removal();
    }
}

impl<'a, T> ObservableBorrower<'a, T> {
    /// The value as it is now.
    pub open spec fn value(self) -> T {
        self.observable@
    }

    /// The slots in which the observers of the value are registered.
    pub open spec fn observers(self) -> Seq<Slot<ObserverFunction<T>>> {
        self.observable.observers()
    }

    /// Removes the observers that were dropped since the last time and tells the
    /// others of the value as it is now. The value stays what it is.
    fn release(&mut self)
        ensures
            final(self).value() == old(self).value(),
            final(self).observers().len() == old(self).observers().len(),
            exists|marked: Seq<ObjectPoolIndex>|
                final(self).observers() == slots_after_releases(old(self).observers(), marked),
    {
        self.observable.trigger_observers();
    }
}

impl<T> Drop for ObservableBorrower<'_, T> {
    /// Runs `release`.
    #[verifier::external_body]
    fn drop(&mut self)
        opens_invariants none
        no_unwind
    {
        self.release();
    }
}

impl<T> Deref for ObservableBorrower<'_, T> {
    type Target = T;

    fn deref(&self) -> (value: &T)
        ensures
            *value == self.value(),
    {
        &self.observable.value
    }
}

impl<T> DerefMut for ObservableBorrower<'_, T> {
    fn deref_mut(&mut self) -> (value: &mut T)
        ensures
            *value == old(self).value(),
            final(self).value() == *final(value),
            *final(final(self).observable) == *final(old(self).observable),
    {
        &mut self.observable.value
    }
}

} // verus!
