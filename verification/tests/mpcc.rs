use std::collections::VecDeque;

use bytifex_utils::sync::mpcc::{
    channel, classify_idle, discard_messages, learn_without_looking, pop_message, take_in,
    wakeup_result, RecvError, SendError, TryRecvError,
};

#[derive(Debug, Clone, Copy, Eq, PartialEq)]
struct Msg(usize);

#[test]
fn single_message_is_received_by_one_receiver_only() {
    for number_of_receivers in [1, 10] {
        let (sender, receiver) = channel();
        let mut receivers = Vec::new();
        for _ in 0..number_of_receivers {
            receivers.push(receiver.clone());
        }
        drop(receiver);

        sender.send(Msg(7)).unwrap();

        let mut received = Vec::new();
        for receiver in receivers.iter() {
            match receiver.try_pop() {
                Ok(msg) => received.push(msg),
                Err(error) => assert_eq!(error, TryRecvError::Empty),
            }
        }
        assert_eq!(received, vec![Msg(7)]);

        drop(sender);
        for receiver in receivers.iter() {
            assert_eq!(receiver.try_pop(), Err(TryRecvError::Disconnected));
        }
    }
}

#[test]
fn messages_come_out_in_the_order_they_went_in() {
    let (sender, receiver) = channel();
    let other_sender = sender.clone();
    sender.send(1).unwrap();
    other_sender.send(2).unwrap();
    sender.send(3).unwrap();
    assert_eq!(receiver.try_recv(), Ok(1));
    assert_eq!(receiver.try_pop(), Ok(2));
    assert_eq!(receiver.try_pop(), Ok(3));
    assert_eq!(receiver.try_pop(), Err(TryRecvError::Empty));
    drop(sender);
    assert_eq!(receiver.try_pop(), Err(TryRecvError::Empty));
    drop(other_sender);
    assert_eq!(receiver.try_pop(), Err(TryRecvError::Disconnected));
}

#[test]
fn buffered_message_outlives_the_sender() {
    let (sender, receiver) = channel();
    sender.send(Msg(1)).unwrap();
    drop(sender);
    assert_eq!(receiver.try_pop(), Ok(Msg(1)));
    assert_eq!(receiver.try_pop(), Err(TryRecvError::Disconnected));
    assert_eq!(receiver.try_recv(), Err(TryRecvError::Disconnected));
}

#[test]
fn send_without_receiver_is_refused() {
    let (sender, receiver) = channel::<Msg>();
    drop(receiver);
    assert_eq!(sender.send(Msg(1)), Err(SendError::Disconnected));
}

#[test]
fn last_receiver_clears_the_queue() {
    let (sender, receiver) = channel();
    let second = receiver.clone();
    sender.send(Msg(1)).unwrap();
    drop(receiver);
    assert_eq!(second.try_pop(), Ok(Msg(1)));
    sender.send(Msg(2)).unwrap();
    drop(second);
    assert_eq!(sender.send(Msg(3)), Err(SendError::Disconnected));
}

#[test]
fn try_recv_without_news_reports_empty() {
    let (_sender, receiver) = channel::<Msg>();
    assert_eq!(receiver.try_recv(), Err(TryRecvError::Empty));
}

#[test]
fn pop_message_takes_the_oldest() {
    let mut queue = VecDeque::from(vec![1, 2]);
    assert_eq!(pop_message(&mut queue, 0), Ok(1));
    assert_eq!(queue, VecDeque::from(vec![2]));
    assert_eq!(pop_message(&mut queue, 1), Ok(2));
    assert_eq!(pop_message(&mut queue, 1), Err(TryRecvError::Empty));
    assert_eq!(pop_message(&mut queue, 0), Err(TryRecvError::Disconnected));
    assert!(queue.is_empty());
}

#[test]
fn idle_queue_is_classified_by_the_sender_count() {
    assert_eq!(classify_idle(0), TryRecvError::Disconnected);
    assert_eq!(classify_idle(1), TryRecvError::Empty);
    assert_eq!(classify_idle(usize::MAX), TryRecvError::Empty);
}

#[test]
fn discard_messages_says_whether_anything_waited() {
    let mut queue = VecDeque::from(vec![1, 2]);
    assert!(discard_messages(&mut queue));
    assert!(queue.is_empty());
    assert!(!discard_messages(&mut queue));
}

#[test]
fn wakeup_ends_the_wait_unless_the_queue_is_only_empty() {
    assert_eq!(wakeup_result(Ok(5)), Some(Ok(5)));
    assert_eq!(
        wakeup_result::<u8>(Err(TryRecvError::Disconnected)),
        Some(Err(RecvError::Disconnected))
    );
    assert_eq!(wakeup_result::<u8>(Err(TryRecvError::Empty)), None);
}

#[test]
fn message_is_taken_in_while_a_receiver_exists() {
    assert_eq!(take_in(0), Err(SendError::Disconnected));
    assert_eq!(take_in(1), Ok(()));
    assert_eq!(take_in(usize::MAX), Ok(()));
}

#[test]
fn receiver_looks_at_the_queue_only_after_a_change() {
    assert_eq!(learn_without_looking(Some(true), 0), None);
    assert_eq!(learn_without_looking(Some(true), 3), None);
    assert_eq!(
        learn_without_looking(Some(false), 0),
        Some(TryRecvError::Disconnected)
    );
    assert_eq!(learn_without_looking(Some(false), 2), Some(TryRecvError::Empty));
    assert_eq!(learn_without_looking(None, 2), Some(TryRecvError::Disconnected));
    assert_eq!(learn_without_looking(None, 0), Some(TryRecvError::Disconnected));
}

#[test]
fn try_recv_sees_each_change_once() {
    let (sender, receiver) = channel();
    sender.send(Msg(1)).unwrap();
    sender.send(Msg(2)).unwrap();
    assert_eq!(receiver.try_recv(), Ok(Msg(1)));
    assert_eq!(receiver.try_recv(), Ok(Msg(2)));
    assert_eq!(receiver.try_recv(), Err(TryRecvError::Empty));
    drop(sender);
    assert_eq!(receiver.try_recv(), Err(TryRecvError::Disconnected));
}
