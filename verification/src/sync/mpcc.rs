//! A channel of many producers whose every message is received once, by whichever
//! of its receivers asks first.

use std::collections::VecDeque;
use std::sync::atomic::AtomicUsize;
use std::sync::atomic::Ordering;
use std::sync::Arc;
use vstd::prelude::*;
use super::types::{arc_mutex_new, change_signal, lock, ArcMutex, ChangeSignal, ChangeWatcher};

verus! {

#[derive(Debug, PartialEq, Eq, Structural)]
pub enum SendError {
    Disconnected,
}

#[derive(Debug, PartialEq, Eq, Structural)]
pub enum RecvError {
    Disconnected,
}

#[derive(Debug, PartialEq, Eq, Structural)]
pub enum TryRecvError {
    Empty,
    Disconnected,
}

/// Why nothing can be had from an empty queue: for good when no sender is left,
/// for now otherwise.
pub open spec fn idle_reason(sender_count: usize) -> TryRecvError {
    if sender_count == 0 {
        TryRecvError::Disconnected
    } else {
        TryRecvError::Empty
    }
}

/// Whether a message is taken in: only while a receiver exists.
pub open spec fn admitted(receiver_count: usize) -> Result<(), SendError> {
    if receiver_count != 0 {
        Ok(())
    } else {
        Err(SendError::Disconnected)
    }
}

/// What a receiver learns without looking at the queue, from whether a change was
/// signalled since it looked last: nothing if one was, so that it has to look;
/// that the channel is disconnected if the signal itself is gone; else why an
/// idle queue has nothing.
pub open spec fn known_without_looking(changed: Option<bool>, sender_count: usize) -> Option<
    TryRecvError,
> {
    match changed {
        Some(true) => None,
        Some(false) => Some(idle_reason(sender_count)),
        None => Some(TryRecvError::Disconnected),
    }
}

/// What asking a queue for a message gives: the oldest one, or the reason why
/// there is none.
pub open spec fn popped<T>(queue: Seq<T>, sender_count: usize) -> Result<T, TryRecvError> {
    if queue.len() > 0 {
        Ok(queue[0])
    } else {
        Err(idle_reason(sender_count))
    }
}

/// The queue after it was asked for a message.
pub open spec fn after_pop<T>(queue: Seq<T>) -> Seq<T> {
    if queue.len() > 0 {
        queue.drop_first()
    } else {
        queue
    }
}

/// The queue after it was asked for a message `times` times.
pub open spec fn after_pops<T>(queue: Seq<T>, times: nat) -> Seq<T>
    decreases times,
{
    if times == 0 {
        queue
    } else {
        after_pops(after_pop(queue), (times - 1) as nat)
    }
}

/// What one round of waiting ends with once the wake-up has come: the message, the
/// news that the channel is disconnected, or nothing yet.
pub open spec fn wakeup_outcome<T>(popped: Result<T, TryRecvError>) -> Option<
    Result<T, RecvError>,
> {
    match popped {
        Ok(msg) => Some(Ok(msg)),
        Err(TryRecvError::Disconnected) => Some(Err(RecvError::Disconnected)),
        Err(TryRecvError::Empty) => None,
    }
}

/// Whoever asks, and however many ask: the messages of a queue are handed out one
/// by one, oldest first, each to the one request that reaches it, and every
/// request after the last message gets none.
pub proof fn lemma_each_message_is_taken_once<T>(queue: Seq<T>, times: nat, sender_count: usize)
    ensures
        times < queue.len() ==> popped(after_pops(queue, times), sender_count) == Ok::<
            T,
            TryRecvError,
        >(queue[times as int]),
        times >= queue.len() ==> popped(after_pops(queue, times), sender_count) == Err::<
            T,
            TryRecvError,
        >(idle_reason(sender_count)),
        after_pops(queue, times).len() == if times < queue.len() {
            queue.len() - times
        } else {
            0
        },
    decreases times,
{
    if times > 0 {
        lemma_each_message_is_taken_once(after_pop(queue), (times - 1) as nat, sender_count);
    }
}

/// With no sender left an empty queue is disconnected, and it stays so.
pub proof fn lemma_empty_queue_without_sender<T>(queue: Seq<T>)
    requires
        queue.len() == 0,
    ensures
        popped(queue, 0) == Err::<T, TryRecvError>(TryRecvError::Disconnected),
        wakeup_outcome(popped(queue, 0)) == Some(Err::<T, RecvError>(RecvError::Disconnected)),
        after_pop(queue) == queue,
{
}

/// Whether a message is taken in, given how many receivers exist.
pub fn take_in(receiver_count: usize) -> (result: Result<(), SendError>)
    ensures
        result == admitted(receiver_count),
{
    if receiver_count != 0 {
        Ok(())
    } else {
        Err(SendError::Disconnected)
    }
}

/// What a receiver learns without looking at the queue.
pub fn learn_without_looking(changed: Option<bool>, sender_count: usize) -> (known: Option<
    TryRecvError,
>)
    ensures
        known == known_without_looking(changed, sender_count),
{
    match changed {
        Some(true) => None,
        Some(false) => Some(classify_idle(sender_count)),
        None => Some(TryRecvError::Disconnected),
    }
}

/// Why nothing can be had from an empty queue.
pub fn classify_idle(sender_count: usize) -> (reason: TryRecvError)
    ensures
        reason == idle_reason(sender_count),
{
    if sender_count == 0 {
        TryRecvError::Disconnected
    } else {
        TryRecvError::Empty
    }
}

/// Takes the oldest message out of `queue`, or says why there is none.
pub fn pop_message<T>(queue: &mut VecDeque<T>, sender_count: usize) -> (result: Result<
    T,
    TryRecvError,
>)
    ensures
        result == popped(old(queue)@, sender_count),
        final(queue)@ == after_pop(old(queue)@),
{
    match queue.pop_front() {
        Some(msg) => {
            assert(queue@ =~= old(queue)@.drop_first());
            Ok(msg)
        },
        None => Err(classify_idle(sender_count)),
    }
}

/// Throws away whatever waits in `queue`, and says whether anything did.
pub fn discard_messages<T>(queue: &mut VecDeque<T>) -> (discarded: bool)
    ensures
        discarded == (old(queue)@.len() > 0),
        final(queue)@ == Seq::<T>::empty(),
{
    if queue.len() > 0 {
        queue.clear();
        true
    } else {
        assert(queue@ =~= Seq::<T>::empty());
        false
    }
}

/// What one round of waiting ends with once the wake-up has come.
pub fn wakeup_result<T>(popped: Result<T, TryRecvError>) -> (outcome: Option<Result<T, RecvError>>)
    ensures
        outcome == wakeup_outcome(popped),
{
    match popped {
        Ok(msg) => Some(Ok(msg)),
        Err(TryRecvError::Disconnected) => Some(Err(RecvError::Disconnected)),
        Err(TryRecvError::Empty) => None,
    }
}

#[verifier::reject_recursive_types(T)]
struct Shared<T: Send> {
    queue: ArcMutex<VecDeque<T>>,
    sender_count: Arc<AtomicUsize>,
    queue_watcher_sender: Arc<ChangeSignal>,
}

#[verifier::reject_recursive_types(T)]
pub struct Sender<T: Send> {
    shared: Shared<T>,
}

#[verifier::reject_recursive_types(T)]
pub struct Receiver<T: Send> {
    shared: Shared<T>,
    queue_watcher_receiver: ChangeWatcher,
}

/// A new channel with one sender and one receiver, which share one queue, one
/// count of senders and one change signal.
pub fn channel<T: Send>() -> (ends: (Sender<T>, Receiver<T>))
    ensures
        ends.0.reaches(ends.1),
{
    let (sender, receiver) = change_signal();
    let shared = Shared {
        queue: arc_mutex_new(VecDeque::new()),
        sender_count: Arc::new(AtomicUsize::new(1)),
        queue_watcher_sender: Arc::new(sender),
    };
    (Sender { shared: shared.clone() }, Receiver { shared, queue_watcher_receiver: receiver })
}

impl<T: Send> Shared<T> {
    fn senders(&self) -> usize {
        self.sender_count.load(Ordering::SeqCst)
    }

    fn add_sender(&self) {
        self.sender_count.fetch_add(1, Ordering::SeqCst);
    }

    fn remove_sender(&self) {
        self.sender_count.fetch_sub(1, Ordering::SeqCst);
    }
}

impl<T: Send> Sender<T> {
    /// Whether what this sender sends goes to the queue from which `receiver`
    /// takes: the two are ends of one channel.
    pub closed spec fn reaches(self, receiver: Receiver<T>) -> bool {
        self.shared == receiver.shared
    }

    /// Appends `msg` and wakes the receivers; with no receiver in existence the
    /// message is refused. Whether one exists is asked of the change signal at
    /// the moment of the call, and `take_in` decides on the answer.
    pub fn send(&self, msg: T) -> (result: Result<(), SendError>) {
        match take_in(self.shared.queue_watcher_sender.watcher_count()) {
            Ok(()) => {
                {
                    let mut queue = lock(&self.shared.queue);
                    queue.get_mut().push_back(msg);
                }
                self.shared.queue_watcher_sender.raise();
                Ok(())
            },
            Err(refused) => Err(refused),
        }
    }

    /// Counts this sender out and wakes the receivers, so that they see it.
    fn leave(&self) {
        self.shared.remove_sender();
        self.shared.queue_watcher_sender.raise();
    }
}

impl<T: Send> Receiver<T> {
    /// The oldest message, if something was signalled since this receiver looked
    /// last; else `Empty` while a sender is left and `Disconnected` when none is.
    pub fn try_recv(&self) -> (result: Result<T, TryRecvError>) {
        let changed = self.queue_watcher_receiver.has_changed();
        match learn_without_looking(changed, self.shared.senders()) {
            Some(reason) => Err(reason),
            None => self.try_pop(),
        }
    }

    /// The oldest message, whether or not anything was signalled; with none
    /// waiting, `Empty` while a sender is left and `Disconnected` when none is.
    /// Taking a message wakes the other receivers.
    pub fn try_pop(&self) -> (result: Result<T, TryRecvError>) {
        let mut queue = lock(&self.shared.queue);
        let senders = self.shared.senders();
        let result = pop_message(queue.get_mut(), senders);
        if result.is_ok() {
            self.shared.queue_watcher_sender.raise();
        }
        result
    }

    /// The watching end of the change signal, as this receiver holds it.
    pub closed spec fn watcher(self) -> ChangeWatcher {
        self.queue_watcher_receiver
    }

    /// The signal on which a receiver waits for the next change: the watching end
    /// that this receiver holds. What is done to it is done to the receiver, which
    /// stays an end of the same channel.
    pub fn wake_signal(&mut self) -> (signal: &mut ChangeWatcher)
        ensures
            *signal == old(self).watcher(),
            final(self).watcher() == *final(signal),
            forall|sender: Sender<T>| sender.reaches(*final(self)) == sender.reaches(*old(self)),
    {
        &mut self.queue_watcher_receiver
    }

    /// If this is the last receiver, throws away what waits and wakes whoever
    /// waits.
    fn leave(&self) {
        if self.shared.queue_watcher_sender.watcher_count() == 1 {
            let mut queue = lock(&self.shared.queue);
            if discard_messages(queue.get_mut()) {
                self.shared.queue_watcher_sender.raise();
            }
        }
    }
}

impl<T: Send> Clone for Shared<T> {
    /// One more handle to the same queue, count and signal.
    fn clone(&self) -> (copy: Self)
        ensures
            copy == *self,
    {
        Shared {
            queue: self.queue.clone(),
            sender_count: self.sender_count.clone(),
            queue_watcher_sender: self.queue_watcher_sender.clone(),
        }
    }
}

impl<T: Send> Clone for Sender<T> {
    /// One more sender of the same channel, counted in.
    fn clone(&self) -> (copy: Self)
        ensures
            forall|receiver: Receiver<T>| copy.reaches(receiver) == self.reaches(receiver),
    {
        self.shared.add_sender();
        Sender { shared: self.shared.clone() }
    }
}

impl<T: Send> Drop for Sender<T> {
    /// Runs `leave`.
    #[verifier::external_body]
    fn drop(&mut self)
        opens_invariants none
        no_unwind
    {
        self.leave();
    }
}

impl<T: Send> Clone for Receiver<T> {
    /// One more receiver of the same channel.
    fn clone(&self) -> (copy: Self)
        ensures
            forall|sender: Sender<T>| sender.reaches(copy) == sender.reaches(*self),
    {
        Receiver {
            shared: self.shared.clone(),
            queue_watcher_receiver: self.queue_watcher_receiver.clone(),
        }
    }
}

impl<T: Send> Drop for Receiver<T> {
    /// Runs `leave`.
    #[verifier::external_body]
    fn drop(&mut self)
        opens_invariants none
        no_unwind
    {
        self.leave();
    }
}

} // verus!
