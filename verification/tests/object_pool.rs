use bytifex_utils::containers::free_slots::FreeSlots;
use bytifex_utils::containers::object_pool::{ObjectPool, ObjectPoolIndex};

#[test]
fn object_pool_create_release_create() {
    let mut pool = ObjectPool::<String>::new();

    let index0 = pool.create_object("item0".to_string());
    let index1 = pool.create_object("item1".to_string());
    let index2 = pool.create_object("item2".to_string());
    let index3 = pool.create_object("item3".to_string());
    let index4 = pool.create_object("item4".to_string());

    assert_eq!(
        index0,
        ObjectPoolIndex {
            index: 0,
            version: 1
        }
    );
    assert_eq!(
        index1,
        ObjectPoolIndex {
            index: 1,
            version: 1
        }
    );
    assert_eq!(
        index2,
        ObjectPoolIndex {
            index: 2,
            version: 1
        }
    );
    assert_eq!(
        index3,
        ObjectPoolIndex {
            index: 3,
            version: 1
        }
    );
    assert_eq!(
        index4,
        ObjectPoolIndex {
            index: 4,
            version: 1
        }
    );

    assert_eq!(pool.get_ref(index0).cloned(), Some("item0".to_string()));
    assert_eq!(pool.get_ref(index1).cloned(), Some("item1".to_string()));
    assert_eq!(pool.get_ref(index2).cloned(), Some("item2".to_string()));
    assert_eq!(pool.get_ref(index3).cloned(), Some("item3".to_string()));
    assert_eq!(pool.get_ref(index4).cloned(), Some("item4".to_string()));

    assert_eq!(pool.release_object(index2), Some("item2".to_string()));
    assert_eq!(pool.release_object(index1), Some("item1".to_string()));
    assert_eq!(pool.release_object(index4), Some("item4".to_string()));

    let index5 = pool.create_object("item5".to_string());
    assert_eq!(
        index5,
        ObjectPoolIndex {
            index: 1,
            version: 3
        }
    );
    assert_eq!(pool.get_ref(index5).cloned(), Some("item5".to_string()));
}

#[test]
fn object_pool_accessing_released_object() {
    let mut pool = ObjectPool::<String>::new();

    let _index0 = pool.create_object("item0".to_string());
    let index1 = pool.create_object("item1".to_string());
    let index2 = pool.create_object("item2".to_string());
    let _index3 = pool.create_object("item3".to_string());
    let index4 = pool.create_object("item4".to_string());

    assert_eq!(pool.len(), 5);

    assert_eq!(pool.release_object(index2), Some("item2".to_string()));
    assert_eq!(pool.release_object(index1), Some("item1".to_string()));
    assert_eq!(pool.release_object(index4), Some("item4".to_string()));

    assert_eq!(pool.len(), 2);

    assert_eq!(pool.get_ref(index1), None);
    assert_eq!(pool.get_ref(index2), None);
    assert_eq!(pool.get_ref(index4), None);

    assert_eq!(pool.get_mut(index1), None);
    assert_eq!(pool.get_mut(index2), None);
    assert_eq!(pool.get_mut(index4), None);
}

#[test]
fn object_pool_releasing_invalid_index() {
    let mut pool = ObjectPool::<String>::new();

    let _index0 = pool.create_object("item0".to_string());
    let _index1 = pool.create_object("item1".to_string());
    let index2 = pool.create_object("item2".to_string());
    let _index3 = pool.create_object("item3".to_string());
    let _index4 = pool.create_object("item4".to_string());

    assert_eq!(pool.release_object(index2), Some("item2".to_string()));
    assert!(pool.release_object(index2).is_none());
}

#[test]
fn object_pool_iterate_ref_on_empty() {
    let pool = ObjectPool::<String>::new();
    let mut counter = 0;
    let mut walk = pool.iter();
    while let Some(_) = walk.next() {
        counter += 1;
    }
    assert_eq!(counter, 0);
}

#[test]
fn object_pool_iterate_mut_on_empty() {
    let mut pool = ObjectPool::<String>::new();
    let mut counter = 0;
    let mut walk = pool.iter_mut();
    while let Some(_) = walk.next() {
        counter += 1;
    }
    assert_eq!(counter, 0);
}

#[test]
fn object_pool_iterate_ref() {
    let mut pool = ObjectPool::<String>::new();

    let _index0 = pool.create_object("item0".to_string());
    let index1 = pool.create_object("item1".to_string());
    let _index2 = pool.create_object("item2".to_string());
    let index3 = pool.create_object("item3".to_string());
    let index4 = pool.create_object("item4".to_string());

    {
        let mut counter = 0;
        let mut walk = pool.iter();
        while let Some(item) = walk.next() {
            match counter {
                0 => assert_eq!(item, "item0"),
                1 => assert_eq!(item, "item1"),
                2 => assert_eq!(item, "item2"),
                3 => assert_eq!(item, "item3"),
                4 => assert_eq!(item, "item4"),
                _ => (),
            };

            counter += 1;
        }
        assert_eq!(counter, 5);
    }

    assert_eq!(pool.release_object(index1), Some("item1".to_string()));
    assert_eq!(pool.release_object(index3), Some("item3".to_string()));
    assert_eq!(pool.release_object(index4), Some("item4".to_string()));

    {
        let mut counter = 0;
        let mut walk = pool.iter();
        while let Some(item) = walk.next() {
            match counter {
                0 => assert_eq!(item, "item0"),
                1 => assert_eq!(item, "item2"),
                _ => (),
            };

            counter += 1;
        }
        assert_eq!(counter, 2);
    }
}

#[test]
fn object_pool_iterate_mut() {
    let mut pool = ObjectPool::<String>::new();

    let index0 = pool.create_object("item0".to_string());
    let index1 = pool.create_object("item1".to_string());
    let index2 = pool.create_object("item2".to_string());
    let index3 = pool.create_object("item3".to_string());
    let index4 = pool.create_object("item4".to_string());

    {
        let mut counter = 0;
        let mut walk = pool.iter_mut();
        while let Some(item) = walk.next() {
            match counter {
                0 => assert_eq!(item, "item0"),
                1 => assert_eq!(item, "item1"),
                2 => assert_eq!(item, "item2"),
                3 => assert_eq!(item, "item3"),
                4 => assert_eq!(item, "item4"),
                _ => (),
            };

            counter += 1;
        }
        assert_eq!(counter, 5);
    }

    assert_eq!(pool.release_object(index1), Some("item1".to_string()));
    assert_eq!(pool.release_object(index3), Some("item3".to_string()));
    assert_eq!(pool.release_object(index4), Some("item4".to_string()));

    {
        let mut counter = 0;
        let mut walk = pool.iter_mut();
        while let Some(item) = walk.next() {
            match counter {
                0 => assert_eq!(item, "item0"),
                1 => assert_eq!(item, "item2"),
                _ => (),
            };

            *item = "new value".to_string();

            counter += 1;
        }
        assert_eq!(counter, 2);
    }

    assert_eq!(pool.get_ref(index0).cloned(), Some("new value".to_string()));
    assert_eq!(pool.get_ref(index2).cloned(), Some("new value".to_string()));
}

#[test]
fn object_pool_first_index() {
    let mut pool = ObjectPool::<String>::new();

    let index0 = pool.create_object("item0".to_string());
    let index1 = pool.create_object("item1".to_string());
    let _index2 = pool.create_object("item1".to_string());
    let index3 = pool.create_object("item2".to_string());
    let _index4 = pool.create_object("item2".to_string());
    let _index5 = pool.create_object("item2".to_string());

    assert_eq!(pool.first_index(|item| item == "item0"), Some(index0));
    assert_eq!(pool.first_index(|item| item == "item1"), Some(index1));
    assert_eq!(pool.first_index(|item| item == "item2"), Some(index3));
    assert_eq!(pool.first_index(|item| item == "item3"), None);
}

#[test]
fn object_pool_stale_index_stays_dead_after_reuse() {
    let mut pool = ObjectPool::<u32>::new();
    let first = pool.create_object(1);
    assert_eq!(pool.release_object(first), Some(1));
    let second = pool.create_object(2);
    assert_eq!(second.index, first.index);
    assert_eq!(second.version, first.version + 2);
    assert_eq!(pool.get_ref(first), None);
    assert_eq!(pool.get_mut(first), None);
    assert_eq!(pool.release_object(first), None);
    assert_eq!(pool.get_ref(second), Some(&2));
    assert_eq!(pool.len(), 1);
}

#[test]
fn object_pool_index_of_a_free_slot_gives_nothing() {
    let mut pool = ObjectPool::<u32>::new();
    let first = pool.create_object(1);
    assert_eq!(pool.release_object(first), Some(1));
    let forged = ObjectPoolIndex {
        index: first.index,
        version: first.version + 1,
    };
    assert_eq!(pool.get_ref(forged), None);
    assert_eq!(pool.release_object(forged), None);
    assert_eq!(pool.len(), 0);
    assert!(pool.is_empty());
    let next = pool.create_object(3);
    assert_eq!(
        next,
        ObjectPoolIndex {
            index: 0,
            version: 3
        }
    );
}

#[test]
fn object_pool_out_of_range_and_invalid_indices_give_nothing() {
    let mut pool = ObjectPool::<u32>::with_capacity(2);
    let live = pool.create_object(1);
    let beyond = ObjectPoolIndex {
        index: 5,
        version: 1,
    };
    assert_eq!(pool.get_ref(beyond), None);
    assert_eq!(pool.get_mut(beyond), None);
    assert_eq!(pool.release_object(beyond), None);
    assert_eq!(pool.get_ref(ObjectPoolIndex::invalid()), None);
    assert_eq!(pool.release_object(ObjectPoolIndex::invalid()), None);
    assert_eq!(
        ObjectPoolIndex::invalid(),
        ObjectPoolIndex {
            index: 0,
            version: -1
        }
    );
    assert_eq!(pool.get_ref(live), Some(&1));
}

#[test]
fn object_pool_invalidate_hands_the_index_out() {
    let mut pool = ObjectPool::<u32>::default();
    let mut index = pool.create_object(1);
    let taken = index.invalidate();
    assert_eq!(index, ObjectPoolIndex::invalid());
    assert_eq!(pool.get_ref(index), None);
    assert_eq!(pool.get_ref(taken), Some(&1));
}

#[test]
fn object_pool_get_mut_writes_in_place() {
    let mut pool = ObjectPool::<u32>::new();
    let a = pool.create_object(1);
    let b = pool.create_object(2);
    *pool.get_mut(a).unwrap() = 10;
    assert_eq!(pool.get_ref(a), Some(&10));
    assert_eq!(pool.get_ref(b), Some(&2));
    assert_eq!(pool.len(), 2);
}

#[test]
fn object_pool_release_objects_releases_each_once() {
    let mut pool = ObjectPool::<u32>::new();
    let a = pool.create_object(1);
    let b = pool.create_object(2);
    let c = pool.create_object(3);
    let mut marked = vec![c, a, c, ObjectPoolIndex::invalid()];
    pool.release_objects(&mut marked);
    assert!(marked.is_empty());
    assert_eq!(pool.len(), 1);
    assert_eq!(pool.get_ref(a), None);
    assert_eq!(pool.get_ref(c), None);
    assert_eq!(pool.get_ref(b), Some(&2));
    assert_eq!(
        pool.create_object(4),
        ObjectPoolIndex {
            index: 0,
            version: 3
        }
    );
    assert_eq!(
        pool.create_object(5),
        ObjectPoolIndex {
            index: 2,
            version: 3
        }
    );
    assert_eq!(
        pool.create_object(6),
        ObjectPoolIndex {
            index: 3,
            version: 1
        }
    );
}

#[test]
fn free_slots_hand_out_the_lowest_first() {
    let mut free = FreeSlots::new();
    assert_eq!(free.pop_lowest(), None);
    free.push(4);
    free.push(1);
    free.push(9);
    free.push(2);
    assert_eq!(free.len(), 4);
    assert_eq!(free.pop_lowest(), Some(1));
    assert_eq!(free.pop_lowest(), Some(2));
    free.push(0);
    assert_eq!(free.pop_lowest(), Some(0));
    assert_eq!(free.pop_lowest(), Some(4));
    assert_eq!(free.pop_lowest(), Some(9));
    assert_eq!(free.pop_lowest(), None);
    assert_eq!(FreeSlots::with_capacity(3).len(), 0);
}

#[test]
fn free_slots_hand_out_any_order_of_arrivals_lowest_first() {
    let mut free = FreeSlots::new();
    let count = 211;
    for i in 0..count {
        free.push((i * 37) % count);
    }
    assert_eq!(free.len(), count);
    for expected in 0..count {
        assert_eq!(free.pop_lowest(), Some(expected));
    }
    assert_eq!(free.pop_lowest(), None);
    for i in (0..10).rev() {
        free.push(i);
    }
    assert_eq!(free.pop_lowest(), Some(0));
    free.push(usize::MAX);
    free.push(0);
    for expected in [0, 1, 2, 3, 4, 5, 6, 7, 8, 9, usize::MAX] {
        assert_eq!(free.pop_lowest(), Some(expected));
    }
}

#[test]
fn object_pool_reuses_the_lowest_of_many_free_slots() {
    let mut pool = ObjectPool::<usize>::new();
    let mut indices = Vec::new();
    for i in 0..50 {
        indices.push(pool.create_object(i));
    }
    for i in [40, 3, 17, 49, 0, 25] {
        assert_eq!(pool.release_object(indices[i]), Some(i));
    }
    assert_eq!(pool.len(), 44);
    for expected in [0, 3, 17, 25, 40, 49] {
        let index = pool.create_object(100 + expected);
        assert_eq!(
            index,
            ObjectPoolIndex {
                index: expected,
                version: 3
            }
        );
    }
    assert_eq!(
        pool.create_object(7),
        ObjectPoolIndex {
            index: 50,
            version: 1
        }
    );
    assert_eq!(pool.len(), 51);
}
