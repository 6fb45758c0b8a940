use bytifex_utils::containers::object_pool::ObjectPoolIndex;
use bytifex_utils::containers::ordered_pool::OrderedPool;

#[test]
fn ordered_pool_keeps_the_order_of_creation_across_reuse() {
    let mut pool = OrderedPool::<&str>::new();
    let a = pool.create_object("a");
    let b = pool.create_object("b");
    let c = pool.create_object("c");
    assert_eq!(pool.len(), 3);

    let mut marked = vec![a, ObjectPoolIndex::invalid(), a];
    pool.release_objects(&mut marked);
    assert!(marked.is_empty());
    assert_eq!(pool.len(), 2);
    assert_eq!(pool.index_at(0), Some(b));
    assert_eq!(pool.index_at(1), Some(c));
    assert_eq!(pool.index_at(2), None);

    let d = pool.create_object("d");
    assert_eq!(
        d,
        ObjectPoolIndex {
            index: 0,
            version: 3
        }
    );
    assert_eq!(pool.index_at(0), Some(b));
    assert_eq!(pool.index_at(1), Some(c));
    assert_eq!(pool.index_at(2), Some(d));
    assert_eq!(pool.get_mut_at(0), Some(&mut "b"));
    assert_eq!(pool.get_mut_at(2), Some(&mut "d"));
    assert_eq!(pool.get_mut_at(3), None);

    *pool.get_mut_at(1).unwrap() = "C";
    assert_eq!(pool.get_mut_at(1), Some(&mut "C"));

    let mut marked = vec![c, b, d];
    pool.release_objects(&mut marked);
    assert_eq!(pool.len(), 0);
    assert_eq!(pool.index_at(0), None);
    assert_eq!(pool.get_mut_at(0), None);
}
