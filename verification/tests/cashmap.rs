use secret_staking::cashmap::CashMap;
use secret_staking::errors::ContractError;

#[derive(Eq, PartialEq, Debug, Clone)]
struct Foo {
    string: String,
    number: i32,
}

#[test]
fn test_hashmap_perf_insert() {
    let total_items: u32 = 10000;
    let mut cashmap: CashMap<u32> = CashMap::attach();
    for i in 0..total_items {
        cashmap.insert(&(i as i32).to_be_bytes(), i).unwrap();
    }
    assert_eq!(cashmap.len(), 10000);
}

#[test]
fn test_hashmap_perf_insert_remove() {
    let total_items: u32 = 10000;
    let mut cashmap: CashMap<u32> = CashMap::attach();
    for i in 0..total_items {
        cashmap.insert(&(i as i32).to_be_bytes(), i).unwrap();
    }
    for i in 0..total_items {
        cashmap.remove(&(i as i32).to_be_bytes()).unwrap();
    }
    assert_eq!(cashmap.len(), 0);
}

#[test]
fn test_hashmap_paging() {
    let page_size: u32 = 50;
    let total_items: u32 = 10000;
    let mut cashmap: CashMap<u32> = CashMap::attach();
    for i in 0..total_items {
        cashmap.insert(&(i as i32).to_be_bytes(), i).unwrap();
    }
    for i in 0..((total_items / page_size) - 1) {
        let start_page = i;
        let values = cashmap.paging(start_page, page_size).unwrap();
        assert_eq!(values.len(), page_size as usize);
        for (index, value) in values.iter().enumerate() {
            assert_eq!(*value, &(page_size * start_page + index as u32))
        }
    }
}

#[test]
fn test_hashmap_insert_multiple() {
    let mut typed_store_mut = CashMap::attach();
    let foo1 = Foo { string: "string one".to_string(), number: 1111 };
    let foo2 = Foo { string: "string two".to_string(), number: 1111 };

    typed_store_mut.insert(b"key1", foo1.clone()).unwrap();
    typed_store_mut.insert(b"key2", foo2.clone()).unwrap();

    let read_foo1 = typed_store_mut.load(b"key1").unwrap();
    let read_foo2 = typed_store_mut.load(b"key2").unwrap();

    assert_eq!(&foo1, read_foo1);
    assert_eq!(&foo2, read_foo2);
}

#[test]
fn test_hashmap_insert_get() {
    let mut typed_store_mut = CashMap::attach();
    let foo1 = Foo { string: "string one".to_string(), number: 1111 };

    typed_store_mut.insert(b"key1", foo1.clone()).unwrap();
    let read_foo1 = typed_store_mut.get(b"key1").unwrap();
    assert_eq!(&foo1, read_foo1);
}

#[test]
fn test_hashmap_insert_contains() {
    let mut typed_store_mut = CashMap::attach();
    let foo1 = Foo { string: "string one".to_string(), number: 1111 };

    typed_store_mut.insert(b"key1", foo1.clone()).unwrap();
    let contains_k1 = typed_store_mut.contains(b"key1");

    assert_eq!(contains_k1, true);
}

#[test]
fn test_hashmap_insert_remove() {
    let mut typed_store_mut = CashMap::attach();
    let foo1 = Foo { string: "string one".to_string(), number: 1111 };

    typed_store_mut.insert(b"key1", foo1.clone()).unwrap();
    let before_remove_foo1 = typed_store_mut.get(b"key1");

    assert!(before_remove_foo1.is_some());
    assert_eq!(&foo1, before_remove_foo1.unwrap());

    typed_store_mut.remove(b"key1").unwrap();

    let result = typed_store_mut.get(b"key1");
    assert!(result.is_none());
}

#[test]
fn test_hashmap_iter() {
    let mut hashmap = CashMap::attach();
    let foo1 = Foo { string: "string one".to_string(), number: 1111 };
    let foo2 = Foo { string: "string two".to_string(), number: 1111 };

    hashmap.insert(b"key1", foo1.clone()).unwrap();
    hashmap.insert(b"key2", foo2.clone()).unwrap();

    let len = hashmap.len();
    assert_eq!(len, 2);

    assert_eq!(hashmap.get_at(0).unwrap(), &foo1);

    assert_eq!(hashmap.get_at(1).unwrap(), &foo2);

    assert!(hashmap.get_at(2).is_none());

    let all = hashmap.iter();
    assert_eq!(all, vec![&foo1, &foo2]);
}

#[test]
fn test_hashmap_overwrite() {
    let mut hashmap = CashMap::attach();
    let foo1 = Foo { string: "string one".to_string(), number: 1111 };
    let foo2 = Foo { string: "string two".to_string(), number: 2222 };

    hashmap.insert(b"key1", foo1.clone()).unwrap();
    hashmap.insert(b"key1", foo2.clone()).unwrap();

    let foo3 = hashmap.get(b"key1").unwrap();

    assert_eq!(foo3, &foo2);
}

#[test]
fn cashmap_test_typed_store() {
    let mut typed_store_mut = CashMap::attach();
    let foo1 = Foo { string: "string one".to_string(), number: 1111 };
    let foo2 = Foo { string: "string one".to_string(), number: 1111 };
    typed_store_mut.insert(b"key1", foo1.clone()).unwrap();
    typed_store_mut.insert(b"key2", foo2.clone()).unwrap();

    let read_foo1 = typed_store_mut.get(b"key1").unwrap();
    let read_foo2 = typed_store_mut.get(b"key2").unwrap();

    assert_eq!(&foo1, read_foo1);
    assert_eq!(&foo2, read_foo2);

    // show that it loads foo1 before removal
    let before_remove_foo1 = typed_store_mut.get(b"key1");
    assert!(before_remove_foo1.is_some());
    assert_eq!(&foo1, before_remove_foo1.unwrap());
    // and returns None after removal
    typed_store_mut.remove(b"key1").unwrap();
    let removed_foo1 = typed_store_mut.get(b"key1");
    assert!(removed_foo1.is_none());

    // show what happens when reading from keys that have not been set yet.
    assert!(typed_store_mut.get(b"key3").is_none());
}

#[test]
fn hashmap_test_typed_store() {
    let mut typed_store_mut = CashMap::attach();
    let foo1 = Foo { string: "string one".to_string(), number: 1111 };
    let foo2 = Foo { string: "string one".to_string(), number: 1111 };
    typed_store_mut.insert(b"key1", foo1.clone()).unwrap();
    typed_store_mut.insert(b"key2", foo2.clone()).unwrap();

    let read_foo1 = typed_store_mut.load(b"key1").unwrap();
    let read_foo2 = typed_store_mut.load(b"key2").unwrap();

    assert_eq!(&foo1, read_foo1);
    assert_eq!(&foo2, read_foo2);

    // show that it loads foo1 before removal
    let before_remove_foo1 = typed_store_mut.get(b"key1");
    assert!(before_remove_foo1.is_some());
    assert_eq!(&foo1, before_remove_foo1.unwrap());
    // and returns None after removal
    typed_store_mut.remove(b"key1").unwrap();
    let removed_foo1 = typed_store_mut.get(b"key1");
    assert!(removed_foo1.is_none());

    // show what happens when reading from keys that have not been set yet.
    assert!(typed_store_mut.load(b"key3").is_err());
    assert!(typed_store_mut.get(b"key3").is_none());
}

#[test]
fn remove_of_absent_key_is_not_found() {
    let mut store: CashMap<u32> = CashMap::attach();
    store.insert(b"a", 1).unwrap();
    assert_eq!(store.remove(b"b"), Err(ContractError::NotFound));
    assert_eq!(store.len(), 1);
    assert_eq!(store.get(b"a"), Some(&1));
}

#[test]
fn remove_moves_last_entry_into_the_gap() {
    let mut store: CashMap<u32> = CashMap::attach();
    for i in 0..5u32 {
        store.insert(&i.to_be_bytes(), i * 10).unwrap();
    }
    store.remove(&1u32.to_be_bytes()).unwrap();
    assert_eq!(store.len(), 4);
    assert_eq!(store.get_position(&4u32.to_be_bytes()), Some(1));
    assert_eq!(store.get_at(1), Some(&40));
    assert_eq!(store.get_at(0), Some(&0));
    assert_eq!(store.get_at(2), Some(&20));
    assert_eq!(store.get_at(3), Some(&30));
    assert_eq!(store.get_at(4), None);
    assert_eq!(store.get(&1u32.to_be_bytes()), None);
}

#[test]
fn overwrite_keeps_position_and_length() {
    let mut store: CashMap<u32> = CashMap::attach();
    store.insert(b"a", 1).unwrap();
    store.insert(b"b", 2).unwrap();
    store.insert(b"a", 3).unwrap();
    assert_eq!(store.len(), 2);
    assert_eq!(store.get_position(b"a"), Some(0));
    assert_eq!(store.get(b"a"), Some(&3));
}

#[test]
fn paging_shows_a_partial_last_page_and_rejects_pages_beyond_it() {
    let mut store: CashMap<u32> = CashMap::attach();
    for i in 0..250u32 {
        store.insert(&i.to_be_bytes(), i).unwrap();
    }
    let last = store.paging(2, 100).unwrap();
    assert_eq!(last.len(), 50);
    assert_eq!(*last[0], 200);
    assert_eq!(*last[49], 249);
    assert_eq!(store.paging(5, 50).unwrap().len(), 0);
    assert_eq!(store.paging(3, 100).err(), Some(ContractError::OutOfBounds));
    assert_eq!(store.paging(0, 0).unwrap().len(), 0);
    assert_eq!(store.paging(u32::MAX, u32::MAX).err(), Some(ContractError::OutOfBounds));
}

#[test]
fn full_scan_yields_every_item_once() {
    let mut store: CashMap<u32> = CashMap::attach();
    for i in 0..1234u32 {
        store.insert(&i.to_be_bytes(), i).unwrap();
    }
    for i in (0..1234u32).step_by(3) {
        store.remove(&i.to_be_bytes()).unwrap();
    }
    let len = store.len();
    let mut seen: Vec<u32> = Vec::new();
    let mut page = 0;
    while page * 70 < len {
        for item in store.paging(page, 70).unwrap() {
            seen.push(*item);
        }
        page += 1;
    }
    assert_eq!(seen.len() as u32, len);
    seen.sort();
    seen.dedup();
    assert_eq!(seen.len() as u32, len);
    assert_eq!(len, 1234 - 412);
}

#[test]
fn index_pages_hold_hashes_in_position_order() {
    let mut store: CashMap<u32> = CashMap::init(b"votes");
    for i in 0..150u32 {
        store.insert(&i.to_be_bytes(), i).unwrap();
    }
    assert_eq!(store.get_indexes(0).len(), 100);
    assert_eq!(store.get_indexes(1).len(), 50);
    assert_eq!(store.get_indexes(2).len(), 0);
    assert_eq!(store.prefix(), &Some(b"votes".to_vec()));
    assert_eq!(secret_staking::cashmap::page_from_position(199), 1);
}
