use std::sync::Arc;

use parking_lot::RwLock;

use bytifex_utils::sync::observable_fn::Observable;

#[test]
fn observable_borrow() {
    let observer_value_received = Arc::new(RwLock::new(None));

    let mut observable = Observable::new(0);

    let received = observer_value_received.clone();
    let _observer = observable.observe(move |new_value| {
        *received.write() = Some(*new_value);
    });

    {
        let mut borrower = observable.borrow_mut();
        assert_eq!(*borrower, 0);
        *borrower = 1;
    }
    assert_eq!(*observable.get_ref(), 1);
    assert_eq!(*observer_value_received.read(), Some(1));
}

#[test]
fn observable_set() {
    let observer0_value_received = Arc::new(RwLock::new(None));
    let observer1_value_received = Arc::new(RwLock::new(None));

    let mut observable = Observable::new(0);

    let received0 = observer0_value_received.clone();
    let _observer0 = observable.observe(move |new_value| {
        *received0.write() = Some(*new_value);
    });

    observable.set(1);
    assert_eq!(*observable.get_ref(), 1);
    assert_eq!(*observer0_value_received.read(), Some(1));
    assert_eq!(*observer1_value_received.read(), None);

    {
        let received1 = observer1_value_received.clone();
        let _observer1 = observable.observe(move |new_value| {
            *received1.write() = Some(*new_value);
        });

        observable.set(2);
        assert_eq!(*observable.get_ref(), 2);
        assert_eq!(*observer0_value_received.read(), Some(2));
        assert_eq!(*observer1_value_received.read(), Some(2));
    }

    observable.set(3);
    assert_eq!(*observable.get_ref(), 3);
    assert_eq!(*observer0_value_received.read(), Some(3));
    assert_eq!(*observer1_value_received.read(), Some(2));
}

#[test]
fn borrower_tells_the_observers_once_with_the_last_value() {
    let calls = Arc::new(RwLock::new(Vec::new()));
    let mut observable = Observable::new(0);
    let seen = calls.clone();
    let _observer = observable.observe(move |new_value| {
        seen.write().push(*new_value);
    });
    {
        let mut borrower = observable.borrow_mut();
        *borrower = 1;
        *borrower = 2;
        *borrower += 5;
        assert_eq!(*borrower, 7);
        assert!(calls.read().is_empty());
    }
    assert_eq!(*calls.read(), vec![7]);
    assert_eq!(*observable, 7);
}

#[test]
fn borrower_tells_the_observers_even_if_nothing_was_written() {
    let calls = Arc::new(RwLock::new(Vec::new()));
    let mut observable = Observable::new(4);
    let seen = calls.clone();
    let _observer = observable.observe(move |new_value| {
        seen.write().push(*new_value);
    });
    drop(observable.borrow_mut());
    assert_eq!(*calls.read(), vec![4]);
}
