use std::sync::atomic::{AtomicUsize, Ordering};
use std::sync::Arc;

use bytifex_utils::sync::callback_event::Sender;

#[test]
fn subscribe_and_trigger() {
    let sender = Sender::<usize>::new();
    let subscriber = sender.create_subscriber();

    let counter0 = Arc::new(AtomicUsize::new(0));
    let counter1 = Arc::new(AtomicUsize::new(0));

    let counter0_clone = counter0.clone();
    let _subscription0 = subscriber.subscribe(move |obj_ref| {
        assert_eq!(counter0_clone.fetch_add(1, Ordering::Relaxed), *obj_ref)
    });

    let counter1_clone = counter1.clone();
    let _subscription1 = subscriber.subscribe(move |obj_ref| {
        assert_eq!(counter1_clone.fetch_add(1, Ordering::Relaxed), *obj_ref)
    });

    counter0.store(0, Ordering::Relaxed);
    counter1.store(0, Ordering::Relaxed);
    {
        sender.trigger(&0);
        sender.trigger(&1);
        sender.trigger(&2);
        sender.trigger(&3);
        sender.trigger(&4);
    }
    assert_eq!(counter0.load(Ordering::Relaxed), 5);
    assert_eq!(counter1.load(Ordering::Relaxed), 5);
}

#[test]
fn drop_subscription() {
    let sender = Sender::<usize>::new();
    let subscriber = sender.create_subscriber();

    let counter = Arc::new(AtomicUsize::new(0));

    let counter_clone = counter.clone();
    let subscription = subscriber.subscribe(move |obj_ref| {
        assert_eq!(counter_clone.fetch_add(1, Ordering::Relaxed), *obj_ref)
    });

    // all events have to reach the subscribed function
    counter.store(0, Ordering::Relaxed);
    {
        sender.trigger(&0);
        sender.trigger(&1);
        sender.trigger(&2);
        sender.trigger(&3);
        sender.trigger(&4);
    }
    assert_eq!(counter.load(Ordering::Relaxed), 5);

    // drop subscription
    std::mem::drop(subscription);

    // none of the events should reach the subscribed function
    counter.store(0, Ordering::Relaxed);
    {
        sender.trigger(&0);
        sender.trigger(&1);
        sender.trigger(&2);
        sender.trigger(&3);
        sender.trigger(&4);
    }
    assert_eq!(counter.load(Ordering::Relaxed), 0);
}

#[test]
fn dropped_subscription_is_removed_by_the_next_trigger() {
    let sender = Sender::<u8>::new();
    let subscriber = sender.create_subscriber();
    let kept = subscriber.subscribe(|_| {});
    let dropped = subscriber.subscribe(|_| {});
    assert_eq!(sender.number_of_callbacks(), 2);
    drop(dropped);
    assert_eq!(sender.number_of_callbacks(), 2);
    sender.clone().trigger(&1);
    assert_eq!(sender.number_of_callbacks(), 1);
    drop(kept);
    sender.trigger(&2);
    assert_eq!(sender.number_of_callbacks(), 0);
}

#[test]
fn callbacks_run_in_the_order_of_subscription() {
    let sender = Sender::<u8>::default();
    let subscriber = sender.create_subscriber();
    let seen = Arc::new(std::sync::Mutex::new(Vec::new()));
    let seen0 = seen.clone();
    let _first = subscriber.subscribe(move |event| seen0.lock().unwrap().push((0, *event)));
    let seen1 = seen.clone();
    let _second = subscriber.subscribe(move |event| seen1.lock().unwrap().push((1, *event)));
    sender.trigger(&7);
    sender.trigger(&8);
    assert_eq!(*seen.lock().unwrap(), vec![(0, 7), (1, 7), (0, 8), (1, 8)]);
}

#[test]
fn later_subscription_runs_later_even_in_an_earlier_slot() {
    let sender = Sender::<u8>::new();
    let subscriber = sender.create_subscriber();
    let seen = Arc::new(std::sync::Mutex::new(Vec::new()));

    let seen1 = seen.clone();
    let first = subscriber.subscribe(move |event| seen1.lock().unwrap().push((1, *event)));
    let seen2 = seen.clone();
    let _second = subscriber.subscribe(move |event| seen2.lock().unwrap().push((2, *event)));

    drop(first);
    sender.trigger(&10);
    assert_eq!(*seen.lock().unwrap(), vec![(2, 10)]);

    let seen3 = seen.clone();
    let _third = subscriber.subscribe(move |event| seen3.lock().unwrap().push((3, *event)));
    seen.lock().unwrap().clear();
    sender.trigger(&11);
    assert_eq!(*seen.lock().unwrap(), vec![(2, 11), (3, 11)]);
    assert_eq!(sender.number_of_callbacks(), 2);
}
