use jotihunt::keys::{copy_bytes, key_order, same_bytes, starts_with, KeyOrder};

#[test]
fn keys_are_ordered_byte_by_byte() {
    assert_eq!(key_order(&vec![], &vec![]), KeyOrder::Same);
    assert_eq!(key_order(&vec![], &vec![0]), KeyOrder::Before);
    assert_eq!(key_order(&vec![0], &vec![]), KeyOrder::After);
    assert_eq!(key_order(&vec![1, 2, 3], &vec![1, 2, 3]), KeyOrder::Same);
    assert_eq!(key_order(&vec![1, 2], &vec![1, 2, 0]), KeyOrder::Before);
    assert_eq!(key_order(&vec![1, 3], &vec![1, 2, 9]), KeyOrder::After);
    assert_eq!(key_order(&vec![1, 255], &vec![2]), KeyOrder::Before);
}

#[test]
fn key_order_agrees_with_the_order_of_slices() {
    let keys: Vec<Vec<u8>> = vec![vec![], vec![0], vec![0, 0], vec![0, 1], vec![1], vec![1, 0], vec![255], vec![3, 4, 5]];
    for a in &keys {
        for b in &keys {
            let expected = match a.cmp(b) {
                std::cmp::Ordering::Less => KeyOrder::Before,
                std::cmp::Ordering::Equal => KeyOrder::Same,
                std::cmp::Ordering::Greater => KeyOrder::After,
            };
            assert_eq!(key_order(a, b), expected);
            assert_eq!(same_bytes(a, b), a == b);
        }
    }
}

#[test]
fn a_copy_holds_the_same_bytes() {
    assert_eq!(copy_bytes(&vec![4, 5, 6]), vec![4, 5, 6]);
    assert_eq!(copy_bytes(&vec![]), Vec::<u8>::new());
}

#[test]
fn a_key_begins_with_its_prefixes() {
    assert!(starts_with(&vec![1, 2, 3], &vec![]));
    assert!(starts_with(&vec![1, 2, 3], &vec![1]));
    assert!(starts_with(&vec![1, 2, 3], &vec![1, 2, 3]));
    assert!(!starts_with(&vec![1, 2, 3], &vec![1, 2, 3, 4]));
    assert!(!starts_with(&vec![1, 2, 3], &vec![2]));
    assert!(!starts_with(&vec![1, 2, 3], &vec![1, 3]));
    assert!(starts_with(&vec![], &vec![]));
    assert!(!starts_with(&vec![], &vec![0]));
}
