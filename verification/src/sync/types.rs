//! The locks and wake-up signals that the channels and registries share, as far as
//! this library uses them. Nothing is known here of what a lock protects at any
//! moment: another holder may have changed it since the last look.

use std::sync::Arc;
use vstd::prelude::*;

verus! {

/// `lock_api::Mutex`, the lock behind `parking_lot::Mutex`. Declared so that it can
/// be named; nothing is stated of it.
#[verifier::external_type_specification]
#[verifier::external_body]
#[verifier::reject_recursive_types(R)]
#[verifier::reject_recursive_types(T)]
pub struct ExMutex<R, T: ?Sized>(parking_lot::lock_api::Mutex<R, T>);

/// `parking_lot::RawMutex`. Declared so that it can be named; nothing is stated of
/// it.
#[verifier::external_type_specification]
#[verifier::external_body]
pub struct ExRawMutex(parking_lot::RawMutex);

/// `parking_lot::Condvar`. Declared so that it can be named; nothing is stated of
/// it.
#[verifier::external_type_specification]
#[verifier::external_body]
pub struct ExCondvar(parking_lot::Condvar);

/// `tokio::sync::Notify`. Declared so that it can be named; nothing is stated of
/// it.
#[verifier::external_type_specification]
#[verifier::external_body]
pub struct ExNotify(tokio::sync::Notify);

/// The raising end of a signal that carries no more than that something changed.
/// It holds the sending half of a `tokio::sync::watch` channel of the unit value.
#[verifier::external_body]
pub struct ChangeSignal {
    pub sender: tokio::sync::watch::Sender<()>,
}

/// The watching end of a change signal. It holds a receiving half of the same
/// `tokio::sync::watch` channel, on which a task can wait for the next change.
#[verifier::external_body]
pub struct ChangeWatcher {
    pub receiver: tokio::sync::watch::Receiver<()>,
}

pub type ArcMutex<T> = Arc<parking_lot::Mutex<T>>;

/// The right to read and write what a lock protects, held until the guard goes out
/// of scope. It holds a `parking_lot::MutexGuard`, whose declaration names a trait
/// that cannot be declared here.
#[verifier::external_body]
#[verifier::reject_recursive_types(T)]
pub struct MutexGuard<'a, T> {
    guard: parking_lot::MutexGuard<'a, T>,
}

/// `parking_lot::Mutex::new` inside `Arc::new`: a new shared lock around `object`.
#[verifier::external_body]
pub fn arc_mutex_new<T>(object: T) -> (lock: ArcMutex<T>) {
    Arc::new(parking_lot::Mutex::new(object))
}

/// `parking_lot::Mutex::lock`: waits until the lock is free and takes it. Nothing is
/// claimed of what the lock protects. The lock is not reentrant: no function of
/// this library asks for a lock that it holds already.
#[verifier::external_body]
pub(crate) fn lock<'a, T>(mutex: &'a parking_lot::Mutex<T>) -> (guard: MutexGuard<'a, T>) {
    MutexGuard { guard: mutex.lock() }
}

impl<'a, T> MutexGuard<'a, T> {
    /// `Deref::deref` of the guard: what the lock protects.
    #[verifier::external_body]
    pub(crate) fn get(&self) -> (value: &T) {
        &*self.guard
    }

    /// `DerefMut::deref_mut` of the guard: what the lock protects, with the right to
    /// change it.
    #[verifier::external_body]
    pub(crate) fn get_mut(&mut self) -> (value: &mut T) {
        &mut *self.guard
    }
}

/// `Arc::strong_count`: how many hold `shared` at the moment of the call. The one
/// who asks is one of them.
#[verifier::external_body]
pub(crate) fn strong_count<T>(shared: &Arc<T>) -> (holders: usize)
    ensures
        holders >= 1,
{
    Arc::strong_count(shared)
}

/// `parking_lot::Condvar::new`.
#[verifier::external_body]
pub(crate) fn condvar_new() -> (signal: parking_lot::Condvar) {
    parking_lot::Condvar::new()
}

/// `tokio::sync::Notify::new`.
#[verifier::external_body]
pub(crate) fn notify_new() -> (signal: tokio::sync::Notify) {
    tokio::sync::Notify::new()
}

/// `tokio::sync::Notify::notify_waiters`: wakes every task that waits now.
#[verifier::external_body]
pub(crate) fn notify_waiters(signal: &tokio::sync::Notify) {
    signal.notify_waiters()
}

/// `tokio::sync::watch::channel` with the unit value: a new signal with one
/// watcher.
#[verifier::external_body]
pub(crate) fn change_signal() -> (ends: (ChangeSignal, ChangeWatcher)) {
    let (sender, receiver) = tokio::sync::watch::channel(());
    (ChangeSignal { sender }, ChangeWatcher { receiver })
}

impl ChangeSignal {
    /// `tokio::sync::watch::Sender::send` of the unit value: every watcher sees a
    /// change. That no watcher is left to see it is not reported.
    #[verifier::external_body]
    pub(crate) fn raise(&self) {
        let _ = self.sender.send(());
    }

    /// `tokio::sync::watch::Sender::receiver_count`: how many watchers exist at the
    /// moment of the call.
    #[verifier::external_body]
    pub(crate) fn watcher_count(&self) -> (count: usize) {
        self.sender.receiver_count()
    }
}

impl ChangeWatcher {
    /// `tokio::sync::watch::Receiver::has_changed`: whether a change was raised that
    /// this watcher has not seen; nothing if the raising end is gone.
    #[verifier::external_body]
    pub(crate) fn has_changed(&self) -> (changed: Option<bool>) {
        self.receiver.has_changed().ok()
    }
}

impl Clone for ChangeWatcher {
    /// `Clone::clone` of `tokio::sync::watch::Receiver`: one more watcher of the same
    /// signal, which has seen what this one has seen.
    #[verifier::external_body]
    fn clone(&self) -> (copy: Self) {
        ChangeWatcher { receiver: self.receiver.clone() }
    }
}

} // verus!
