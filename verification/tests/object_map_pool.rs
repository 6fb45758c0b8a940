use bytifex_utils::containers::object_map_pool::{ObjectMapPool, ObjectMapPoolIndex};

#[test]
fn object_map_pool_create_release_create() {
    let mut pool = ObjectMapPool::<isize, String>::new();

    let index0 = pool.create_object(0, "item0".to_string());
    let _index1 = pool.create_object(1, "item1".to_string());
    let index2 = pool.create_object(2, "item2".to_string());
    let _index3 = pool.create_object(3, "item3".to_string());
    let index4 = pool.create_object(4, "item4".to_string());

    assert_eq!(
        pool.get_ref_by_index(index0),
        Some((&0, &"item0".to_string()))
    );
    assert_eq!(pool.get_ref_by_key(&1), Some((&1, &"item1".to_string())));
    assert_eq!(
        pool.get_ref_by_index(index2),
        Some((&2, &"item2".to_string()))
    );
    assert_eq!(pool.get_ref_by_key(&3), Some((&3, &"item3".to_string())));
    assert_eq!(
        pool.get_ref_by_index(index4),
        Some((&4, &"item4".to_string()))
    );

    assert_eq!(
        pool.release_object_by_index(index2),
        Some((2, "item2".to_string()))
    );
    assert_eq!(
        pool.release_object_by_key(&1),
        Some((1, "item1".to_string()))
    );
    assert_eq!(
        pool.release_object_by_index(index4),
        Some((4, "item4".to_string()))
    );

    let index5 = pool.create_object(5, "item5".to_string());
    assert_eq!(
        pool.get_ref_by_index(index5),
        Some((&5, &"item5".to_string()))
    );
}

#[test]
fn object_map_pool_accessing_released_object() {
    let mut pool = ObjectMapPool::<isize, String>::new();

    let _index0 = pool.create_object(0, "item0".to_string());
    let index1 = pool.create_object(1, "item1".to_string());
    let index2 = pool.create_object(2, "item2".to_string());
    let _index3 = pool.create_object(3, "item3".to_string());
    let _index4 = pool.create_object(4, "item4".to_string());

    assert_eq!(pool.len(), 5);

    assert_eq!(
        pool.release_object_by_key(&2),
        Some((2, "item2".to_string()))
    );
    assert_eq!(
        pool.release_object_by_index(index1),
        Some((1, "item1".to_string()))
    );
    assert_eq!(
        pool.release_object_by_key(&4),
        Some((4, "item4".to_string()))
    );

    assert_eq!(pool.len(), 2);

    assert_eq!(pool.get_ref_by_key(&1), None);
    assert_eq!(pool.get_ref_by_index(index2), None);
    assert_eq!(pool.get_ref_by_key(&4), None);

    assert_eq!(pool.get_mut_by_key(&1), None);
    assert_eq!(pool.get_mut_by_index(index2), None);
    assert_eq!(pool.get_mut_by_key(&4), None);
}

#[test]
fn object_map_pool_releasing_invalid_index() {
    let mut pool = ObjectMapPool::<isize, String>::new();

    let _index0 = pool.create_object(0, "item0".to_string());
    let _index1 = pool.create_object(1, "item1".to_string());
    let index2 = pool.create_object(2, "item2".to_string());
    let _index3 = pool.create_object(3, "item3".to_string());
    let _index4 = pool.create_object(4, "item4".to_string());

    assert_eq!(
        pool.release_object_by_index(index2),
        Some((2, "item2".to_string()))
    );
    assert!(pool.release_object_by_index(index2).is_none());
}

#[test]
fn object_map_pool_iterate_ref_on_empty() {
    let pool = ObjectMapPool::<isize, String>::new();
    let mut counter = 0;
        let mut walk = pool.iter();
        while let Some(_) = walk.next() {
        counter += 1;
    }
    assert_eq!(counter, 0);
}

#[test]
fn object_map_pool_iterate_mut_on_empty() {
    let mut pool = ObjectMapPool::<isize, String>::new();
    let mut counter = 0;
        let mut walk = pool.iter_mut();
        while let Some(_) = walk.next() {
        counter += 1;
    }
    assert_eq!(counter, 0);
}

#[test]
fn object_map_pool_iterate_ref() {
    let mut pool = ObjectMapPool::<isize, String>::new();

    let _index0 = pool.create_object(0, "item0".to_string());
    let index1 = pool.create_object(1, "item1".to_string());
    let _index2 = pool.create_object(2, "item2".to_string());
    let _index3 = pool.create_object(3, "item3".to_string());
    let index4 = pool.create_object(4, "item4".to_string());

    {
        let mut counter = 0;
        let mut walk = pool.iter();
        while let Some(item) = walk.next() {
            match counter {
                0 => assert_eq!(item, (&0, &"item0".to_string())),
                1 => assert_eq!(item, (&1, &"item1".to_string())),
                2 => assert_eq!(item, (&2, &"item2".to_string())),
                3 => assert_eq!(item, (&3, &"item3".to_string())),
                4 => assert_eq!(item, (&4, &"item4".to_string())),
                _ => (),
            };

            counter += 1;
        }
        assert_eq!(counter, 5);
    }

    assert_eq!(
        pool.release_object_by_index(index1),
        Some((1, "item1".to_string()))
    );
    assert_eq!(
        pool.release_object_by_key(&3),
        Some((3, "item3".to_string()))
    );
    assert_eq!(
        pool.release_object_by_index(index4),
        Some((4, "item4".to_string()))
    );

    {
        let mut counter = 0;
        let mut walk = pool.iter();
        while let Some(item) = walk.next() {
            match counter {
                0 => assert_eq!(item, (&0, &"item0".to_string())),
                1 => assert_eq!(item, (&2, &"item2".to_string())),
                _ => (),
            };

            counter += 1;
        }
        assert_eq!(counter, 2);
    }
}

#[test]
fn object_map_pool_iterate_mut() {
    let mut pool = ObjectMapPool::<isize, String>::new();

    let index0 = pool.create_object(0, "item0".to_string());
    let _index1 = pool.create_object(1, "item1".to_string());
    let _index2 = pool.create_object(2, "item2".to_string());
    let index3 = pool.create_object(3, "item3".to_string());
    let _index4 = pool.create_object(4, "item4".to_string());

    {
        let mut counter = 0;
        let mut walk = pool.iter_mut();
        while let Some(item) = walk.next() {
            match counter {
                0 => assert_eq!(item, (&0, &mut "item0".to_string())),
                1 => assert_eq!(item, (&1, &mut "item1".to_string())),
                2 => assert_eq!(item, (&2, &mut "item2".to_string())),
                3 => assert_eq!(item, (&3, &mut "item3".to_string())),
                4 => assert_eq!(item, (&4, &mut "item4".to_string())),
                _ => (),
            };

            counter += 1;
        }
        assert_eq!(counter, 5);
    }

    assert_eq!(
        pool.release_object_by_key(&1),
        Some((1, "item1".to_string()))
    );
    assert_eq!(
        pool.release_object_by_index(index3),
        Some((3, "item3".to_string()))
    );
    assert_eq!(
        pool.release_object_by_key(&4),
        Some((4, "item4".to_string()))
    );

    {
        let mut counter = 0;
        let mut walk = pool.iter_mut();
        while let Some(item) = walk.next() {
            match counter {
                0 => assert_eq!(item, (&0, &mut "item0".to_string())),
                1 => assert_eq!(item, (&2, &mut "item2".to_string())),
                _ => (),
            };

            *item.1 = "new value".to_string();

            counter += 1;
        }
        assert_eq!(counter, 2);
    }

    assert_eq!(
        pool.get_ref_by_index(index0),
        Some((&0, &"new value".to_string()))
    );
    assert_eq!(
        pool.get_ref_by_key(&2),
        Some((&2, &"new value".to_string()))
    );
}

#[test]
fn object_map_pool_first_index() {
    let mut pool = ObjectMapPool::<isize, String>::new();

    let index0 = pool.create_object(0, "item0".to_string());
    let index1 = pool.create_object(1, "item1".to_string());
    let _index2 = pool.create_object(2, "item1".to_string());
    let index3 = pool.create_object(3, "item2".to_string());
    let _index4 = pool.create_object(4, "item2".to_string());
    let _index5 = pool.create_object(5, "item2".to_string());

    assert_eq!(
        pool.first_index(|_key, value| value == "item0"),
        Some(index0)
    );
    assert_eq!(
        pool.first_index(|_key, value| value == "item1"),
        Some(index1)
    );
    assert_eq!(
        pool.first_index(|_key, value| value == "item2"),
        Some(index3)
    );
    assert_eq!(pool.first_index(|_key, value| value == "item3"), None);
}

#[test]
fn object_map_pool_second_pair_under_a_key_takes_the_key_over() {
    let mut pool = ObjectMapPool::<isize, String>::new();

    let first = pool.create_object(7, "first".to_string());
    let second = pool.create_object(7, "second".to_string());

    assert_ne!(first, second);
    assert_eq!(pool.len(), 2);
    assert_eq!(pool.get_ref_by_key(&7), Some((&7, &"second".to_string())));
    assert_eq!(
        pool.get_ref_by_index(first),
        Some((&7, &"first".to_string()))
    );

    assert_eq!(
        pool.release_object_by_key(&7),
        Some((7, "second".to_string()))
    );
    assert_eq!(pool.get_ref_by_key(&7), None);
    assert_eq!(pool.get_ref_by_index(second), None);
    assert_eq!(
        pool.get_ref_by_index(first),
        Some((&7, &"first".to_string()))
    );
    assert_eq!(
        pool.release_object_by_index(first),
        Some((7, "first".to_string()))
    );
    assert!(pool.is_empty());
}

#[test]
fn object_map_pool_release_by_key_and_by_index_leave_the_same_behind() {
    let mut by_key = ObjectMapPool::<isize, String>::with_capacity(4);
    let mut by_index = ObjectMapPool::<isize, String>::default();

    let _ = by_key.create_object(1, "a".to_string());
    let key_index = by_key.create_object(2, "b".to_string());
    let _ = by_index.create_object(1, "a".to_string());
    let index = by_index.create_object(2, "b".to_string());
    assert_eq!(key_index, index);

    assert_eq!(
        by_key.release_object_by_key(&2),
        by_index.release_object_by_index(index)
    );
    for pool in [&by_key, &by_index] {
        assert_eq!(pool.len(), 1);
        assert_eq!(pool.get_ref_by_key(&2), None);
        assert_eq!(pool.get_ref_by_index(index), None);
        assert_eq!(pool.get_ref_by_key(&1), Some((&1, &"a".to_string())));
    }
    assert_eq!(by_key.release_object_by_key(&2), None);
    assert_eq!(by_index.release_object_by_index(index), None);
    assert_eq!(
        by_key.create_object(3, "c".to_string()),
        by_index.create_object(3, "c".to_string())
    );
}

#[test]
fn object_map_pool_get_mut_changes_the_value_in_place() {
    let mut pool = ObjectMapPool::<isize, String>::new();
    let index = pool.create_object(1, "a".to_string());
    if let Some((key, value)) = pool.get_mut_by_key(&1) {
        assert_eq!(*key, 1);
        value.push('b');
    }
    if let Some((_, value)) = pool.get_mut_by_index(index) {
        value.push('c');
    }
    assert_eq!(pool.get_ref_by_key(&1), Some((&1, &"abc".to_string())));
    assert_eq!(pool.get_mut_by_key(&2), None);
}

#[test]
fn object_map_pool_invalid_index_is_never_live() {
    let mut pool = ObjectMapPool::<isize, String>::new();
    let mut index = pool.create_object(1, "a".to_string());
    assert_eq!(pool.get_ref_by_index(ObjectMapPoolIndex::invalid()), None);
    let taken = index.invalidate();
    assert_eq!(index, ObjectMapPoolIndex::invalid());
    assert_eq!(pool.get_ref_by_index(index), None);
    assert_eq!(
        pool.release_object_by_index(taken),
        Some((1, "a".to_string()))
    );
}
