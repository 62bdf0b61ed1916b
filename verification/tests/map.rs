use multi_type_map::MultiTypeMap;

#[derive(PartialEq, Eq, Hash, Debug, Clone, Copy)]
struct Token(u32);

#[derive(PartialEq, Eq, Hash, Debug, Clone, Copy)]
struct Ticket(u32);

#[test]
fn test_insert_and_remove() {
    let mut map = MultiTypeMap::new();

    map.insert(false, 2);
    map.insert(1, 1);
    map.insert("hey", 3);

    assert_eq!(map.remove(&false), Some(2));
    assert_eq!(map.remove(&1), Some(1));
    assert_eq!(map.remove(&"hey"), Some(3));
}

#[test]
fn test_get_mut() {
    let mut map = MultiTypeMap::new();

    map.insert(false, 0);
    map.insert("hey", 3);

    assert_eq!(map.get_mut(&false), Some(&mut 0));
    map.get_mut(&false).map(|v| *v = 1);
    assert_eq!(map.get_mut(&false), Some(&mut 1));

    assert_eq!(map.get_mut(&"hey"), Some(&mut 3));
    map.get_mut(&"hey").map(|v| *v = 4);
    assert_eq!(map.get_mut(&"hey"), Some(&mut 4));
}

#[test]
fn test_strings() {
    let mut map = MultiTypeMap::new();

    // First we insert a `&str` key.
    assert_eq!(map.insert("foo", 1), None);
    assert_eq!(map.insert("foo", 2), Some(1));

    // When we insert a `String` key with the 'same' value, it's a different type, so it's a different entry.
    assert_eq!(map.insert("foo".to_owned(), 3), None);
    assert_eq!(map.insert("foo".to_owned(), 4), Some(3));

    // We can still get the `&str` key.
    assert_eq!(map.get(&"foo"), Some(&2));
    assert_eq!(map.get(&"foo".to_owned()), Some(&4));
}

#[test]
fn new_map_is_empty() {
    let map: MultiTypeMap<i32> = MultiTypeMap::new();
    assert_eq!(map.len(), 0);
    assert!(map.is_empty());
    assert_eq!(map.get(&1u8), None);
    assert_eq!(map.get(&"none"), None);
}

#[test]
fn default_map_is_empty() {
    let mut map: MultiTypeMap<String> = MultiTypeMap::default();
    assert_eq!(map.len(), 0);
    assert!(map.is_empty());
    assert_eq!(map.insert(7u64, "seven".to_owned()), None);
    assert_eq!(map.len(), 1);
}

#[test]
fn three_key_types_then_remove_each() {
    let mut map = MultiTypeMap::new();

    assert_eq!(map.insert(false, 2), None);
    assert_eq!(map.insert(1, 1), None);
    assert_eq!(map.insert("hey", 3), None);
    assert_eq!(map.len(), 3);
    assert!(!map.is_empty());

    assert_eq!(map.remove(&false), Some(2));
    assert_eq!(map.len(), 2);
    assert_eq!(map.remove(&1), Some(1));
    assert_eq!(map.len(), 1);
    assert_eq!(map.remove(&"hey"), Some(3));
    assert_eq!(map.len(), 0);
    assert!(map.is_empty());
}

#[test]
fn literal_and_owned_keys_coexist() {
    let mut map = MultiTypeMap::new();

    assert_eq!(map.insert("foo", 1), None);
    assert_eq!(map.len(), 1);
    assert_eq!(map.insert("foo", 2), Some(1));
    assert_eq!(map.len(), 1);
    assert_eq!(map.insert("foo".to_owned(), 3), None);
    assert_eq!(map.len(), 2);
    assert_eq!(map.insert("foo".to_owned(), 4), Some(3));
    assert_eq!(map.len(), 2);

    assert_eq!(map.get(&"foo"), Some(&2));
    assert_eq!(map.get(&"foo".to_owned()), Some(&4));
}

#[test]
fn literal_and_owned_keys_do_not_affect_each_other() {
    let mut map = MultiTypeMap::new();
    map.insert("foo", 1);
    map.insert("foo".to_owned(), 2);

    assert_eq!(map.remove(&"foo"), Some(1));
    assert_eq!(map.get(&"foo"), None);
    assert_eq!(map.get(&"foo".to_owned()), Some(&2));
    assert_eq!(map.len(), 1);

    map.get_mut(&"foo".to_owned()).map(|v| *v = 20);
    assert_eq!(map.insert("foo", 10), None);
    assert_eq!(map.get(&"foo".to_owned()), Some(&20));
    assert_eq!(map.get(&"foo"), Some(&10));
    assert_eq!(map.len(), 2);

    assert_eq!(map.remove(&"foo".to_owned()), Some(20));
    assert_eq!(map.get(&"foo"), Some(&10));
    assert_eq!(map.len(), 1);
}

#[test]
fn insert_then_get_returns_the_value() {
    let mut map = MultiTypeMap::new();
    map.insert(42u64, "answer");
    map.insert('x', "letter");
    map.insert((1u8, 2u8), "pair");
    map.insert(Token(9), "token");

    assert_eq!(map.get(&42u64), Some(&"answer"));
    assert_eq!(map.get(&'x'), Some(&"letter"));
    assert_eq!(map.get(&(1u8, 2u8)), Some(&"pair"));
    assert_eq!(map.get(&Token(9)), Some(&"token"));
    assert_eq!(map.len(), 4);
}

#[test]
fn insert_on_absent_key_grows_len_by_one() {
    let mut map = MultiTypeMap::new();
    for i in 0u32..10 {
        let before = map.len();
        assert_eq!(map.insert(i, i * 2), None);
        assert_eq!(map.len(), before + 1);
    }
    assert_eq!(map.len(), 10);
}

#[test]
fn insert_on_present_key_returns_old_value_and_keeps_len() {
    let mut map = MultiTypeMap::new();
    assert_eq!(map.insert(5u8, 'a'), None);
    assert_eq!(map.insert(true, 'b'), None);
    assert_eq!(map.len(), 2);

    assert_eq!(map.insert(5u8, 'c'), Some('a'));
    assert_eq!(map.len(), 2);
    assert_eq!(map.insert(5u8, 'd'), Some('c'));
    assert_eq!(map.len(), 2);
    assert_eq!(map.get(&5u8), Some(&'d'));
    assert_eq!(map.get(&true), Some(&'b'));
}

#[test]
fn remove_on_present_key_shrinks_len_by_one() {
    let mut map = MultiTypeMap::new();
    map.insert(1i64, 10);
    map.insert(2i64, 20);
    map.insert("two", 200);
    assert_eq!(map.len(), 3);

    assert_eq!(map.remove(&2i64), Some(20));
    assert_eq!(map.len(), 2);
    assert_eq!(map.get(&2i64), None);
    assert_eq!(map.get(&1i64), Some(&10));
    assert_eq!(map.get(&"two"), Some(&200));
}

#[test]
fn remove_on_absent_key_changes_nothing() {
    let mut map = MultiTypeMap::new();
    map.insert(1i64, 10);

    assert_eq!(map.remove(&2i64), None);
    assert_eq!(map.len(), 1);
    assert_eq!(map.remove(&1i64), Some(10));
    assert_eq!(map.remove(&1i64), None);
    assert_eq!(map.len(), 0);
}

#[test]
fn remove_on_unseen_key_type_changes_nothing() {
    let mut map = MultiTypeMap::new();
    map.insert(1i64, 10);

    assert_eq!(map.remove(&1u8), None);
    assert_eq!(map.remove(&"one"), None);
    assert_eq!(map.remove(&Token(1)), None);
    assert_eq!(map.len(), 1);
    assert_eq!(map.get(&1i64), Some(&10));
}

#[test]
fn get_on_unseen_key_type_is_none() {
    let mut map = MultiTypeMap::new();
    map.insert(1u32, 'a');

    assert_eq!(map.get(&1u64), None);
    assert_eq!(map.get(&1i32), None);
    assert_eq!(map.get(&true), None);
    assert_eq!(map.len(), 1);
}

#[test]
fn get_mut_on_a_miss_is_none_and_changes_nothing() {
    let mut map = MultiTypeMap::new();
    map.insert(1u32, 'a');

    assert_eq!(map.get_mut(&2u32), None);
    assert_eq!(map.get_mut(&1u64), None);
    assert_eq!(map.get_mut(&"one"), None);
    assert_eq!(map.len(), 1);
    assert_eq!(map.get(&1u32), Some(&'a'));
}

#[test]
fn write_through_get_mut_is_seen_by_get() {
    let mut map = MultiTypeMap::new();
    map.insert(Token(1), vec![1, 2]);
    map.insert(Ticket(1), vec![9]);

    match map.get_mut(&Token(1)) {
        Some(values) => values.push(3),
        None => panic!("the key was inserted"),
    }

    assert_eq!(map.get(&Token(1)), Some(&vec![1, 2, 3]));
    assert_eq!(map.get(&Ticket(1)), Some(&vec![9]));
    assert_eq!(map.len(), 2);
}

#[test]
fn keys_with_equal_fields_and_different_types_are_different_entries() {
    let mut map = MultiTypeMap::new();
    assert_eq!(map.insert(Token(7), "token"), None);
    assert_eq!(map.insert(Ticket(7), "ticket"), None);
    assert_eq!(map.insert(7u32, "number"), None);
    assert_eq!(map.len(), 3);

    assert_eq!(map.remove(&Ticket(7)), Some("ticket"));
    assert_eq!(map.get(&Token(7)), Some(&"token"));
    assert_eq!(map.get(&7u32), Some(&"number"));
    assert_eq!(map.get(&Ticket(7)), None);
    assert_eq!(map.len(), 2);
}

#[test]
fn integers_of_different_width_are_different_key_types() {
    let mut map = MultiTypeMap::new();
    assert_eq!(map.insert(1u8, "u8"), None);
    assert_eq!(map.insert(1u16, "u16"), None);
    assert_eq!(map.insert(1i8, "i8"), None);
    assert_eq!(map.insert(1usize, "usize"), None);
    assert_eq!(map.len(), 4);

    assert_eq!(map.get(&1u8), Some(&"u8"));
    assert_eq!(map.get(&1u16), Some(&"u16"));
    assert_eq!(map.get(&1i8), Some(&"i8"));
    assert_eq!(map.get(&1usize), Some(&"usize"));
    assert_eq!(map.get(&1u32), None);
}

#[test]
fn len_counts_the_entries_of_every_key_type() {
    let mut map = MultiTypeMap::new();
    for i in 0u8..5 {
        map.insert(i, ());
    }
    for i in 0u16..7 {
        map.insert(i, ());
    }
    map.insert("one", ());
    assert_eq!(map.len(), 13);

    for i in 0u8..5 {
        assert_eq!(map.remove(&i), Some(()));
    }
    assert_eq!(map.len(), 8);
    assert!(!map.is_empty());
}

#[test]
fn is_empty_exactly_when_len_is_zero() {
    let mut map = MultiTypeMap::new();
    assert_eq!(map.is_empty(), map.len() == 0);
    map.insert(1u8, 1);
    assert_eq!(map.is_empty(), map.len() == 0);
    assert!(!map.is_empty());
    map.insert("a", 2);
    assert_eq!(map.is_empty(), map.len() == 0);
    map.remove(&1u8);
    assert!(!map.is_empty());
    map.remove(&"a");
    assert_eq!(map.is_empty(), map.len() == 0);
    assert!(map.is_empty());
}

#[test]
fn an_emptied_key_type_can_be_used_again() {
    let mut map = MultiTypeMap::new();
    for round in 0u32..20 {
        assert_eq!(map.insert("key", round), None);
        assert_eq!(map.insert(round, round), None);
        assert_eq!(map.len(), 2);
        assert_eq!(map.remove(&"key"), Some(round));
        assert_eq!(map.remove(&round), Some(round));
        assert_eq!(map.len(), 0);
    }
    assert!(map.is_empty());
    assert_eq!(map.get(&"key"), None);
}

#[test]
fn many_keys_of_one_type() {
    let mut map = MultiTypeMap::new();
    for i in 0u64..1000 {
        assert_eq!(map.insert(i, i + 1), None);
    }
    map.insert("other", 0);
    assert_eq!(map.len(), 1001);
    for i in 0u64..1000 {
        assert_eq!(map.get(&i), Some(&(i + 1)));
    }
    for i in (0u64..1000).step_by(2) {
        assert_eq!(map.remove(&i), Some(i + 1));
    }
    assert_eq!(map.len(), 501);
    assert_eq!(map.get(&0u64), None);
    assert_eq!(map.get(&1u64), Some(&2));
}

#[test]
fn values_need_not_be_copy() {
    let mut map: MultiTypeMap<String> = MultiTypeMap::new();
    assert_eq!(map.insert(1u8, "one".to_owned()), None);
    assert_eq!(map.insert(1u8, "uno".to_owned()), Some("one".to_owned()));
    match map.get_mut(&1u8) {
        Some(value) => value.push_str("!"),
        None => panic!("the key was inserted"),
    }
    assert_eq!(map.remove(&1u8), Some("uno!".to_owned()));
    assert_eq!(map.remove(&1u8), None);
}
