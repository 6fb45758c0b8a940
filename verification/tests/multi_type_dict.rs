use std::any::TypeId;
use std::sync::Arc;

use bytifex_utils::containers::multi_type_dict::{
    with_identity, AnyValue, MultiTypeDict, MultiTypeDictItem,
};

#[derive(Debug, Eq, PartialEq)]
struct A {
    value: String,
}

#[derive(Debug, Eq, PartialEq)]
struct B {
    value: String,
}

#[test]
fn multi_type_dict_store_and_remove() {
    let mut dict = MultiTypeDict::new();

    assert!(
        dict.insert(A {
            value: "A0".to_string(),
        })
        .old_item
        .is_none()
    );

    assert_eq!(
        *dict
            .insert(A {
                value: "A1".to_string(),
            })
            .old_item
            .unwrap()
            .as_arc_ref(),
        Arc::new(A {
            value: "A0".to_string(),
        })
    );

    assert!(
        dict.insert(B {
            value: "B".to_string(),
        })
        .old_item
        .is_none()
    );

    assert_eq!(
        *dict.get_item_ref::<A>().unwrap().as_arc_ref(),
        Arc::new(A {
            value: "A1".to_string(),
        })
    );

    assert_eq!(
        *dict.get_item_ref::<B>().unwrap().as_arc_ref(),
        Arc::new(B {
            value: "B".to_string(),
        })
    );

    let mut systems: Vec<MultiTypeDictItem<AnyValue>> = Vec::new();
    let mut walk = dict.iter();
    while let Some(item) = walk.next() {
        systems.push(item);
    }
    assert_eq!(systems.len(), 2);
    if systems[0].downcast::<A>().is_some() {
        assert!(systems[0].downcast::<A>().is_some());
        assert!(systems[1].downcast::<B>().is_some());
    } else {
        assert!(systems[0].downcast::<B>().is_some());
        assert!(systems[1].downcast::<A>().is_some());
    }

    assert_eq!(
        *dict.remove::<A>().unwrap(),
        A {
            value: "A1".to_string(),
        }
    );

    assert!(dict.get_item_ref::<A>().is_none());

    assert_eq!(
        *dict.remove::<B>().unwrap(),
        B {
            value: "B".to_string(),
        }
    );

    assert!(dict.get_item_ref::<B>().is_none());
}

#[test]
fn multi_type_dict_downcast_to_another_type_gives_nothing() {
    let mut dict = MultiTypeDict::new();
    dict.insert(A {
        value: "A".to_string(),
    });
    let erased = dict.get_item_ref_any(TypeId::of::<A>()).unwrap();
    assert!(erased.downcast::<B>().is_none());
    assert_eq!(erased.downcast::<A>().unwrap().value, "A");
    assert_eq!(erased.type_id(), TypeId::of::<A>());
    assert!(dict.get_item_ref_any(TypeId::of::<B>()).is_none());
}

#[test]
fn multi_type_dict_get_or_insert_makes_the_value_once() {
    let mut dict = MultiTypeDict::new();
    let mut made = 0;
    let first = dict.get_or_insert_item_ref(|| {
        made += 1;
        A {
            value: "first".to_string(),
        }
    });
    let second = dict.get_or_insert_item_ref(|| {
        made += 1;
        A {
            value: "second".to_string(),
        }
    });
    assert_eq!(made, 1);
    assert_eq!(first.value, "first");
    assert_eq!(second.value, "first");
    assert!(Arc::ptr_eq(first.as_arc_ref(), second.as_arc_ref()));
    assert_eq!(first.type_id(), TypeId::of::<A>());
}

#[test]
fn multi_type_dict_handles_share_the_stored_value() {
    let mut dict = MultiTypeDict::default();
    let inserted = dict.insert(B {
        value: "B".to_string(),
    });
    let found = dict.get_item_ref::<B>().unwrap();
    assert!(Arc::ptr_eq(inserted.new_item.as_arc_ref(), found.as_arc_ref()));
    let copy = found.clone();
    assert!(Arc::ptr_eq(copy.as_arc_ref(), found.as_arc_ref()));
    assert_eq!(copy.value, "B");
}

#[test]
fn multi_type_dict_insert_any_and_remove_by_type_id() {
    let mut dict = MultiTypeDict::new();
    let result = dict.insert_any(
        A {
            value: "A".to_string(),
        },
        TypeId::of::<A>(),
    );
    assert!(result.old_item.is_none());
    assert_eq!(result.new_item.type_id(), TypeId::of::<A>());
    let replaced = dict.insert_any(
        A {
            value: "again".to_string(),
        },
        TypeId::of::<A>(),
    );
    assert_eq!(
        replaced.old_item.unwrap().downcast::<A>().unwrap().value,
        "A"
    );
    assert!(dict.remove_by_type_id(TypeId::of::<B>()).is_none());
    let removed = dict.remove_by_type_id(TypeId::of::<A>()).unwrap();
    assert_eq!(removed.downcast::<A>().unwrap().value, "again");
    assert!(dict.get_item_ref::<A>().is_none());
    assert!(dict.iter().next().is_none());
}

#[test]
fn multi_type_dict_value_under_a_foreign_identity_is_not_found() {
    let mut dict = MultiTypeDict::new();
    dict.insert_any(
        A {
            value: "A".to_string(),
        },
        TypeId::of::<B>(),
    );
    assert!(dict.get_item_ref::<B>().is_none());
    assert!(dict.get_item_ref::<A>().is_none());
    let made = dict.get_or_insert_item_ref(|| B {
        value: "B".to_string(),
    });
    assert_eq!(made.value, "B");
    assert_eq!(dict.get_item_ref::<B>().unwrap().value, "B");
    let replaced = dict.insert(B {
        value: "B2".to_string(),
    });
    assert_eq!(replaced.old_item.unwrap().value, "B");
}

#[test]
fn multi_type_dict_typed_handle_shares_what_was_found() {
    let shared = Arc::new(A {
        value: "A".to_string(),
    });
    let typed = with_identity(TypeId::of::<A>(), Some(&shared)).unwrap();
    assert!(Arc::ptr_eq(typed.as_arc_ref(), &shared));
    assert_eq!(typed.type_id(), TypeId::of::<A>());
    assert_eq!(typed.value, "A");
    assert!(with_identity::<B>(TypeId::of::<B>(), None).is_none());
}

#[test]
fn multi_type_dict_existing_handle_is_returned_and_nothing_is_made() {
    let mut dict = MultiTypeDict::new();
    let inserted = dict.insert(A {
        value: "kept".to_string(),
    });
    let found = dict.get_item_ref::<A>();
    let mut made = 0;
    let item = dict.existing_or_created(TypeId::of::<A>(), found, || {
        made += 1;
        A {
            value: "made".to_string(),
        }
    });
    assert_eq!(made, 0);
    assert!(Arc::ptr_eq(item.as_arc_ref(), inserted.new_item.as_arc_ref()));
    assert_eq!(dict.get_item_ref::<A>().unwrap().value, "kept");

    let mut made = 0;
    let item = dict.existing_or_created(TypeId::of::<B>(), None, || {
        made += 1;
        B {
            value: "made".to_string(),
        }
    });
    assert_eq!(made, 1);
    assert_eq!(item.value, "made");
    assert_eq!(item.type_id(), TypeId::of::<B>());
    assert!(Arc::ptr_eq(
        dict.get_item_ref::<B>().unwrap().as_arc_ref(),
        item.as_arc_ref()
    ));
    assert_eq!(dict.get_item_ref::<A>().unwrap().value, "kept");
}

#[test]
fn multi_type_dict_walk_yields_each_type_once_in_order_of_arrival() {
    let mut dict = MultiTypeDict::new();
    assert!(dict.iter().next().is_none());
    dict.insert(B {
        value: "B0".to_string(),
    });
    dict.insert(A {
        value: "A0".to_string(),
    });
    dict.insert(B {
        value: "B1".to_string(),
    });
    let mut walk = dict.iter();
    let first = walk.next().unwrap();
    let second = walk.next().unwrap();
    assert!(walk.next().is_none());
    assert!(walk.next().is_none());
    assert_eq!(first.downcast::<B>().unwrap().value, "B1");
    assert_eq!(second.downcast::<A>().unwrap().value, "A0");
    dict.remove::<B>();
    let mut walk = dict.iter();
    assert_eq!(walk.next().unwrap().type_id(), TypeId::of::<A>());
    assert!(walk.next().is_none());
}
