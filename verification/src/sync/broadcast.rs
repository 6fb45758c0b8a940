//! A fan-out channel: every message goes to every receiver that exists and is not
//! stopped when it is sent. A dropped receiver is only marked; the next `send`
//! removes it before it hands the message out.

use std::collections::VecDeque;
use std::sync::Arc;
use vstd::prelude::*;
use crate::containers::object_pool::{ObjectPool, ObjectPoolIndex};
use super::types::{arc_mutex_new, lock, notify_new, notify_waiters, ArcMutex};
use super::usage_counter::{UsageCounter, UsageCounterWatcher};

verus! {

/// What waits in a queue after `object` was sent to it: a stopped queue turns the
/// message away, any other appends it.
pub open spec fn pending_after_send<T>(pending: Seq<T>, stopped: bool, object: T) -> Seq<T> {
    if stopped {
        pending
    } else {
        pending.push(object)
    }
}

/// What waits in a queue after every message of `objects` was sent to it, first to
/// last, with no stop or resume in between.
pub open spec fn pending_after_sends<T>(pending: Seq<T>, stopped: bool, objects: Seq<T>) -> Seq<T>
    decreases objects.len(),
{
    if objects.len() == 0 {
        pending
    } else {
        pending_after_sends(
            pending_after_send(pending, stopped, objects[0]),
            stopped,
            objects.drop_first(),
        )
    }
}

/// What waits in a queue after `times` messages were taken out of it.
pub open spec fn pending_after_pops<T>(pending: Seq<T>, times: nat) -> Seq<T>
    decreases times,
{
    if times == 0 {
        pending
    } else if pending.len() == 0 {
        pending
    } else {
        pending_after_pops(pending.drop_first(), (times - 1) as nat)
    }
}

/// A queue that is not stopped takes in whatever is sent to it, behind what waits
/// already and in the order of sending.
pub proof fn lemma_active_queue_takes_all_in_order<T>(pending: Seq<T>, objects: Seq<T>)
    ensures
        pending_after_sends(pending, false, objects) == pending + objects,
    decreases objects.len(),
{
    if objects.len() == 0 {
        assert(pending + objects =~= pending);
    } else {
        lemma_active_queue_takes_all_in_order(pending.push(objects[0]), objects.drop_first());
        assert(pending.push(objects[0]) + objects.drop_first() =~= pending + objects);
    }
}

/// A stopped queue takes in nothing of what is sent to it: what waits stays as it
/// is, however much is sent before the queue is resumed.
pub proof fn lemma_stopped_queue_takes_none<T>(pending: Seq<T>, objects: Seq<T>)
    ensures
        pending_after_sends(pending, true, objects) == pending,
    decreases objects.len(),
{
    if objects.len() > 0 {
        lemma_stopped_queue_takes_none(pending, objects.drop_first());
    }
}

/// What waits comes out oldest first, each message once: after `times` takings the
/// next one gives the message that stood at place `times`, and after as many
/// takings as messages waited nothing is left.
pub proof fn lemma_queue_gives_in_order<T>(pending: Seq<T>, times: nat)
    ensures
        times < pending.len() ==> pending_after_pops(pending, times).len() > 0
            && pending_after_pops(pending, times)[0] == pending[times as int],
        pending_after_pops(pending, times).len() == if times < pending.len() {
            pending.len() - times
        } else {
            0
        },
    decreases times,
{
    if times > 0 && pending.len() > 0 {
        lemma_queue_gives_in_order(pending.drop_first(), (times - 1) as nat);
    }
}

/// A receiver that was active while `before` was sent, stopped while `during` was
/// sent and active again while `after` was sent finds exactly `before` and then
/// `after` behind what waited, and nothing of `during`.
pub proof fn lemma_stop_suppresses_only_what_is_sent_meanwhile<T>(
    pending: Seq<T>,
    before: Seq<T>,
    during: Seq<T>,
    after: Seq<T>,
)
    ensures
        pending_after_sends(
            pending_after_sends(pending_after_sends(pending, false, before), true, during),
            false,
            after,
        ) == pending + before + after,
{
    lemma_active_queue_takes_all_in_order(pending, before);
    lemma_stopped_queue_takes_none(pending + before, during);
    lemma_active_queue_takes_all_in_order(pending + before, after);
}

/// What one receiver has waiting, and whether it takes messages at all.
pub struct QueueState<T> {
    queue: VecDeque<T>,
    is_stopped: bool,
}

impl<T> QueueState<T> {
    /// The messages that wait, oldest first.
    pub closed spec fn pending(self) -> Seq<T> {
        self.queue@
    }

    /// Whether messages are turned away.
    pub closed spec fn stopped(self) -> bool {
        self.is_stopped
    }

    pub fn new() -> (state: Self)
        ensures
            state.pending() == Seq::<T>::empty(),
            !state.stopped(),
    {
        QueueState { queue: VecDeque::new(), is_stopped: false }
    }

    /// Appends `object` unless the receiver is stopped, and says whether it did.
    pub fn add_object_if_not_stopped(&mut self, object: T) -> (added: bool)
        ensures
            added == !old(self).stopped(),
            final(self).stopped() == old(self).stopped(),
            final(self).pending() == pending_after_send(
                old(self).pending(),
                old(self).stopped(),
                object,
            ),
    {
        if !self.is_stopped {
            self.queue.push_back(object);
            true
        } else {
            false
        }
    }

    /// Turns away whatever is sent from now on. What waits already stays.
    pub fn stop(&mut self)
        ensures
            final(self).stopped(),
            final(self).pending() == old(self).pending(),
    {
        self.is_stopped = true;
    }

    /// Takes messages again.
    pub fn resume(&mut self)
        ensures
            !final(self).stopped(),
            final(self).pending() == old(self).pending(),
    {
        self.is_stopped = false;
    }

    /// Takes the oldest waiting message out.
    pub fn pop(&mut self) -> (object: Option<T>)
        ensures
            final(self).stopped() == old(self).stopped(),
            final(self).pending() == pending_after_pops(old(self).pending(), 1),
            match object {
                Some(o) => old(self).pending().len() > 0 && o == old(self).pending()[0]
                    && final(self).pending() == old(self).pending().drop_first(),
                None => old(self).pending().len() == 0 && final(self).pending() == old(
                    self,
                ).pending(),
            },
    {
        let object = self.queue.pop_front();
        proof {
            let before = old(self).queue@;
            if before.len() > 0 {
                assert(pending_after_pops(before.drop_first(), 0) == before.drop_first());
            }
            assert(pending_after_pops(before, 1) == if before.len() == 0 {
                before
            } else {
                before.drop_first()
            });
            if object is Some {
                assert(self.queue@ =~= old(self).queue@.drop_first());
            }
        }
        object
    }
}

/// Nothing waits and no sender is left that could send.
#[derive(Debug, PartialEq, Eq, Structural)]
pub struct SenderDropped;

/// What a receiver gets when it asks for a message: the oldest waiting one; with
/// none waiting, the news that no sender is left, or else nothing for now.
pub fn pop_result<T>(object: Option<T>, sender_dropped: bool) -> (result: Result<
    Option<T>,
    SenderDropped,
>)
    ensures
        result == match object {
            Some(o) => Ok::<Option<T>, SenderDropped>(Some(o)),
            None => if sender_dropped {
                Err(SenderDropped)
            } else {
                Ok(None)
            },
        },
{
    match object {
        Some(o) => Ok(Some(o)),
        None => if sender_dropped {
            Err(SenderDropped)
        } else {
            Ok(None)
        },
    }
}

#[verifier::reject_recursive_types(T)]
struct ReceiverQueue<T> where T: Clone {
    state: ArcMutex<QueueState<T>>,
    notify: Arc<tokio::sync::Notify>,
}

#[verifier::reject_recursive_types(T)]
struct ReceiverQueueList<T> where T: Clone {
    receiver_queues: ArcMutex<ObjectPool<ReceiverQueue<T>>>,
    to_be_removed: ArcMutex<Vec<ObjectPoolIndex>>,
}

impl<T> Clone for ReceiverQueue<T> where T: Clone {
    /// One more handle to the same queue and the same signal.
    fn clone(&self) -> (copy: Self)
        ensures
            copy == *self,
    {
        ReceiverQueue { state: self.state.clone(), notify: self.notify.clone() }
    }
}

impl<T> Clone for ReceiverQueueList<T> where T: Clone {
    /// One more handle to the same registry and the same list of marked queues.
    fn clone(&self) -> (copy: Self)
        ensures
            copy == *self,
    {
        ReceiverQueueList {
            receiver_queues: self.receiver_queues.clone(),
            to_be_removed: self.to_be_removed.clone(),
        }
    }
}

impl<T> ReceiverQueue<T> where T: Clone {
    pub fn new() -> Self {
        ReceiverQueue { state: arc_mutex_new(QueueState::new()), notify: Arc::new(notify_new()) }
    }

    fn add_object_if_not_stopped(&self, object: T) {
        let mut guard = lock(&self.state);
        if guard.get_mut().add_object_if_not_stopped(object) {
            notify_waiters(&self.notify);
        }
    }
}

impl<T> ReceiverQueueList<T> where T: Clone {
    pub fn new() -> Self {
        ReceiverQueueList {
            receiver_queues: arc_mutex_new(ObjectPool::new()),
            to_be_removed: arc_mutex_new(Vec::new()),
        }
    }

    /// Removes the queues of the receivers that were dropped since the last time.
    fn handle_to_be_removed(&self) {
        let mut queues = lock(&self.receiver_queues);
        let mut marked = lock(&self.to_be_removed);
        queues.get_mut().release_objects(marked.get_mut());
    }

    /// Registers a new, empty queue and returns it with its index. The index is one
    /// that an arena hands out: its generation is at least one.
    fn register(&self) -> (registered: (ObjectPoolIndex, ReceiverQueue<T>))
        ensures
            registered.0.version >= 1,
    {
        let queue = ReceiverQueue::<T>::new();
        let mut queues = lock(&self.receiver_queues);
        let queue_id = queues.get_mut().create_object(queue.clone());
        (queue_id, queue)
    }
}

/// The sending side. Its clones send to the same receivers.
#[derive(Clone)]
#[verifier::reject_recursive_types(T)]
pub struct Sender<T> where T: Clone {
    receiver_queues: ReceiverQueueList<T>,
    usage_counter: UsageCounter,
}

/// One receiver with a queue of its own.
#[verifier::reject_recursive_types(T)]
pub struct Receiver<T> where T: Clone {
    receiver_queues: ReceiverQueueList<T>,
    queue_id: ObjectPoolIndex,
    queue: ReceiverQueue<T>,
    usage_counter_watcher: UsageCounterWatcher,
}

impl<T> Default for Sender<T> where T: Clone {
    fn default() -> Self {
        Self::new()
    }
}

impl<T> Sender<T> where T: Clone {
    pub fn new() -> Self {
        Sender { receiver_queues: ReceiverQueueList::new(), usage_counter: UsageCounter::new() }
    }

    /// Removes the queues of dropped receivers, then appends a copy of `object` to
    /// the queue of every receiver that is not stopped, and wakes it.
    pub fn send(&self, object: T) {
        self.receiver_queues.handle_to_be_removed();
        let queues = lock(&self.receiver_queues.receiver_queues);
        let mut walk = queues.get().iter();
        loop
            decreases walk@.len(),
        {
            match walk.next() {
                Some(queue) => {
                    queue.add_object_if_not_stopped(object.clone());
                },
                None => {
                    break ;
                },
            }
        }
    }

    /// Appends `object` to the queue of `receiver` alone, unless it is stopped.
    pub fn send_directly(&self, object: T, receiver: &Receiver<T>) {
        receiver.queue.add_object_if_not_stopped(object);
    }

    /// A new receiver of this channel, with an empty queue of its own, registered
    /// under a valid index.
    pub fn create_receiver(&self) -> (receiver: Receiver<T>)
        ensures
            receiver.listens_to(*self),
            receiver.index().version >= 1,
    {
        let (queue_id, queue) = self.receiver_queues.register();
        Receiver {
            receiver_queues: self.receiver_queues.clone(),
            queue_id,
            queue,
            usage_counter_watcher: self.usage_counter.watcher(),
        }
    }

    /// How many receiver queues are registered at the moment of the call. A dropped
    /// receiver counts until the next `send`.
    pub fn number_of_receivers(&self) -> usize {
        let queues = lock(&self.receiver_queues.receiver_queues);
        queues.get().len()
    }
}

impl<T> Receiver<T> where T: Clone {
    /// Whether this receiver is registered with the channel of `sender`.
    pub closed spec fn listens_to(self, sender: Sender<T>) -> bool {
        self.receiver_queues == sender.receiver_queues
    }

    /// Whether this receiver and `other` are registered with one channel.
    pub closed spec fn shares_channel_with(self, other: Receiver<T>) -> bool {
        self.receiver_queues == other.receiver_queues
    }

    /// The index under which the queue of this receiver is registered.
    pub closed spec fn index(self) -> ObjectPoolIndex {
        self.queue_id
    }

    /// The signal that belongs to the queue of this receiver.
    pub closed spec fn signal(self) -> tokio::sync::Notify {
        *self.queue.notify
    }

    /// From now on what is sent does not reach this receiver. What waits already
    /// stays. The receiver itself stays what it is: the flag is in its queue.
    pub fn stop(&mut self)
        ensures
            *final(self) == *old(self),
    {
        let mut guard = lock(&self.queue.state);
        guard.get_mut().stop();
    }

    /// From now on what is sent reaches this receiver again. The receiver itself
    /// stays what it is: the flag is in its queue.
    pub fn resume(&mut self)
        ensures
            *final(self) == *old(self),
    {
        let mut guard = lock(&self.queue.state);
        guard.get_mut().resume();
    }

    /// The oldest waiting message; with none waiting, `SenderDropped` if no sender
    /// is left, or else nothing for now.
    pub fn try_pop(&self) -> Result<Option<T>, SenderDropped> {
        let object = self.take_oldest();
        if object.is_some() {
            pop_result(object, false)
        } else {
            pop_result(object, self.usage_counter_watcher.is_observed_dropped())
        }
    }

    fn take_oldest(&self) -> Option<T> {
        let mut guard = lock(&self.queue.state);
        guard.get_mut().pop()
    }

    /// A new receiver of the same channel, with an empty queue of its own,
    /// registered under a valid index.
    pub fn create_receiver(&self) -> (receiver: Receiver<T>)
        ensures
            receiver.shares_channel_with(*self),
            forall|sender: Sender<T>| self.listens_to(sender) ==> receiver.listens_to(sender),
            receiver.index().version >= 1,
    {
        let (queue_id, queue) = self.receiver_queues.register();
        Receiver {
            receiver_queues: self.receiver_queues.clone(),
            queue_id,
            queue,
            usage_counter_watcher: self.usage_counter_watcher.clone(),
        }
    }

    /// The signal that is raised whenever a message is appended to the queue of
    /// this receiver.
    pub fn wake_signal(&self) -> (signal: &tokio::sync::Notify)
        ensures
            *signal == self.signal(),
    {
        &self.queue.notify
    }

    /// Marks the queue of this receiver for removal by the next `send`.
    fn mark_for_removal(&self) {
        let mut marked = lock(&self.receiver_queues.to_be_removed);
        marked.get_mut().push(self.queue_id);
    }
}

impl<T> Clone for Receiver<T> where T: Clone {
    fn clone(&self) -> Self {
        self.create_receiver()
    }
}

impl<T> Drop for Receiver<T> where T: Clone {
    /// Runs `mark_for_removal`.
    #[verifier::external_body]
    fn drop(&mut self)
        opens_invariants none
        no_unwind
    {
        self.mark_for_removal();
    }
}

} // verus!
