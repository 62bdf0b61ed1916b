use multi_type_map::Bucket;

#[test]
fn new_bucket_has_no_entries() {
    let bucket: Bucket<u32, char> = Bucket::new();
    assert_eq!(bucket.get(&0), None);
}

#[test]
fn bucket_insert_returns_previous_value() {
    let mut bucket = Bucket::new();
    assert_eq!(bucket.insert("a", 1), None);
    assert_eq!(bucket.insert("b", 2), None);
    assert_eq!(bucket.insert("a", 3), Some(1));
    assert_eq!(bucket.get(&"a"), Some(&3));
    assert_eq!(bucket.get(&"b"), Some(&2));
}

#[test]
fn bucket_remove_returns_removed_value() {
    let mut bucket = Bucket::new();
    bucket.insert(1u8, 'x');
    bucket.insert(2u8, 'y');
    assert_eq!(bucket.remove(&1u8), Some('x'));
    assert_eq!(bucket.remove(&1u8), None);
    assert_eq!(bucket.remove(&3u8), None);
    assert_eq!(bucket.get(&2u8), Some(&'y'));
}

#[test]
fn bucket_get_mut_changes_the_value_in_place() {
    let mut bucket = Bucket::new();
    bucket.insert(1u8, 10);
    bucket.insert(2u8, 20);
    assert_eq!(bucket.get_mut(&3u8), None);
    match bucket.get_mut(&1u8) {
        Some(value) => {
            assert_eq!(*value, 10);
            *value += 5;
        }
        None => panic!("the key was inserted"),
    }
    assert_eq!(bucket.get(&1u8), Some(&15));
    assert_eq!(bucket.get(&2u8), Some(&20));
}
