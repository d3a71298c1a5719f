use jotihunt::store::Store;
use jotihunt::Broadcast;

fn change(key: &[u8], value: &[u8]) -> Broadcast {
    Broadcast { key: key.to_vec(), value: value.to_vec() }
}

fn drain(store: &mut Store, watcher: usize) -> Vec<Broadcast> {
    let mut seen = Vec::new();
    while let Some(event) = store.next_event(watcher) {
        seen.push(event);
    }
    seen
}

#[test]
fn empty_store_holds_nothing() {
    let store = Store::new();
    assert_eq!(store.get(&vec![1u8]), None);
    assert!(store.scan_all().is_empty());
}

#[test]
fn first_writer_wins_and_the_stale_writer_is_ignored() {
    let mut store = Store::new();
    let a = store.watch();
    let b = store.watch();
    let k = b"K".to_vec();

    assert!(store.compare_and_swap(k.clone(), None, Some(b"V1".to_vec())));
    assert_eq!(drain(&mut store, a), vec![change(b"K", b"V1")]);
    assert_eq!(drain(&mut store, b), vec![change(b"K", b"V1")]);

    assert!(!store.compare_and_swap(k.clone(), None, Some(b"V2".to_vec())));
    assert_eq!(drain(&mut store, a), vec![]);
    assert_eq!(drain(&mut store, b), vec![]);
    assert_eq!(store.get(&k), Some(b"V1".to_vec()));

    assert!(store.compare_and_swap(k.clone(), Some(b"V1".to_vec()), Some(b"V2".to_vec())));
    assert_eq!(drain(&mut store, a), vec![change(b"K", b"V2")]);
    assert_eq!(drain(&mut store, b), vec![change(b"K", b"V2")]);
    assert_eq!(store.get(&k), Some(b"V2".to_vec()));
}

#[test]
fn compare_and_swap_applies_only_on_the_stored_value() {
    let mut store = Store::new();
    let w = store.watch();
    let k = vec![7u8];
    assert!(!store.compare_and_swap(k.clone(), Some(vec![1]), Some(vec![2])));
    assert_eq!(store.get(&k), None);
    assert!(store.compare_and_swap(k.clone(), None, Some(vec![1])));
    assert!(!store.compare_and_swap(k.clone(), Some(vec![9]), Some(vec![2])));
    assert!(!store.compare_and_swap(k.clone(), None, Some(vec![2])));
    assert_eq!(store.get(&k), Some(vec![1]));
    assert!(store.compare_and_swap(k.clone(), Some(vec![1]), Some(vec![2])));
    assert_eq!(store.get(&k), Some(vec![2]));
    assert_eq!(drain(&mut store, w), vec![change(&[7], &[1]), change(&[7], &[2])]);
}

#[test]
fn an_empty_expectation_means_absent() {
    let mut store = Store::new();
    let k = vec![1u8];
    assert!(store.compare_and_swap(k.clone(), Some(vec![]), Some(vec![5])));
    assert!(!store.compare_and_swap(k.clone(), Some(vec![]), Some(vec![6])));
    assert_eq!(store.get(&k), Some(vec![5]));
}

#[test]
fn an_empty_new_value_deletes() {
    let mut store = Store::new();
    let w = store.watch();
    let k = vec![1u8];
    assert!(store.compare_and_swap(k.clone(), None, Some(vec![5])));
    assert!(store.compare_and_swap(k.clone(), Some(vec![5]), Some(vec![])));
    assert_eq!(store.get(&k), None);
    assert!(store.scan_all().is_empty());
    assert_eq!(drain(&mut store, w), vec![change(&[1], &[5]), change(&[1], &[])]);
}

#[test]
fn two_writers_race_on_the_same_old_value() {
    let mut store = Store::new();
    let k = b"fox".to_vec();
    assert!(store.compare_and_swap(k.clone(), None, Some(b"V".to_vec())));
    let loser = store.watch();
    let first = store.compare_and_swap(k.clone(), Some(b"V".to_vec()), Some(b"A".to_vec()));
    let second = store.compare_and_swap(k.clone(), Some(b"V".to_vec()), Some(b"B".to_vec()));
    assert!(first);
    assert!(!second);
    assert_eq!(drain(&mut store, loser), vec![change(b"fox", b"A")]);
    assert_eq!(store.get(&k), Some(b"A".to_vec()));
}

#[test]
fn deleting_an_absent_key_with_a_stale_expectation_does_nothing() {
    let mut store = Store::new();
    let w = store.watch();
    let k = vec![3u8];
    assert!(!store.compare_and_swap(k.clone(), Some(vec![1]), None));
    assert_eq!(drain(&mut store, w), vec![]);
    assert_eq!(store.get(&k), None);
}

#[test]
fn deleting_an_absent_key_that_is_expected_absent_changes_no_value() {
    let mut store = Store::new();
    let w = store.watch();
    let k = vec![3u8];
    assert!(store.compare_and_swap(k.clone(), None, None));
    assert_eq!(store.get(&k), None);
    assert!(store.scan_all().is_empty());
    assert_eq!(drain(&mut store, w), vec![change(&[3], &[])]);
}

#[test]
fn delete_then_reinsert_gives_two_events() {
    let mut store = Store::new();
    let k = vec![3u8];
    assert!(store.compare_and_swap(k.clone(), None, Some(vec![8])));
    let w = store.watch();
    assert!(store.compare_and_swap(k.clone(), Some(vec![8]), None));
    assert!(store.compare_and_swap(k.clone(), None, Some(vec![8])));
    let seen = drain(&mut store, w);
    assert_eq!(seen, vec![change(&[3], &[]), change(&[3], &[8])]);
    assert_ne!(seen[0], seen[1]);
    assert_eq!(store.get(&k), Some(vec![8]));
}

#[test]
fn scan_is_in_key_order() {
    let mut store = Store::new();
    for key in [&b"b"[..], b"abc", b"", b"ab", b"a\xff", b"c", b"a"] {
        assert!(store.compare_and_swap(key.to_vec(), None, Some(key.len().to_string().into_bytes())));
    }
    let keys: Vec<Vec<u8>> = store.scan_all().into_iter().map(|b| b.key).collect();
    let expected: Vec<Vec<u8>> =
        [&b""[..], b"a", b"ab", b"abc", b"a\xff", b"b", b"c"].iter().map(|k| k.to_vec()).collect();
    assert_eq!(keys, expected);
    assert_eq!(store.get(&b"abc".to_vec()), Some(b"3".to_vec()));
    assert_eq!(store.get(&b"abd".to_vec()), None);
}

#[test]
fn the_latest_entry_of_a_prefix_is_the_last_one_scanned() {
    let mut store = Store::new();
    for (key, value) in [("alpha/2", "red"), ("alpha/1", "green"), ("bravo/1", "orange"), ("alpha/3", "green")] {
        assert!(store.compare_and_swap(key.as_bytes().to_vec(), None, Some(value.as_bytes().to_vec())));
    }
    let last = store
        .scan_all()
        .into_iter()
        .filter(|b| b.key.starts_with(b"alpha/"))
        .last()
        .unwrap();
    assert_eq!(last, change(b"alpha/3", b"green"));
}

#[test]
fn a_watcher_hears_only_of_what_is_committed_after_it_registered() {
    let mut store = Store::new();
    assert!(store.compare_and_swap(vec![1], None, Some(vec![1])));
    let early = store.watch();
    assert!(store.compare_and_swap(vec![2], None, Some(vec![2])));
    let late = store.watch();
    assert!(store.compare_and_swap(vec![3], None, Some(vec![3])));
    assert_eq!(drain(&mut store, early), vec![change(&[2], &[2]), change(&[3], &[3])]);
    assert_eq!(drain(&mut store, late), vec![change(&[3], &[3])]);
}

#[test]
fn a_cancelled_watcher_hears_nothing() {
    let mut store = Store::new();
    let w = store.watch();
    assert!(store.is_watching(w));
    assert!(store.compare_and_swap(vec![1], None, Some(vec![1])));
    store.unwatch(w);
    assert!(!store.is_watching(w));
    assert!(store.compare_and_swap(vec![2], None, Some(vec![2])));
    assert_eq!(store.next_event(w), None);
    assert!(!store.is_watching(w + 1));
    assert_eq!(store.next_event(w + 1), None);
}

#[test]
fn a_restored_store_holds_what_the_entries_add_up_to() {
    let entries = vec![
        change(b"b", b"2"),
        change(b"a", b"1"),
        change(b"b", b"3"),
        change(b"c", b"4"),
        change(b"c", b""),
        change(b"never", b""),
    ];
    let mut store = Store::restore(&entries);
    assert_eq!(store.scan_all(), vec![change(b"a", b"1"), change(b"b", b"3")]);
    assert!(!store.is_watching(0));
    assert_eq!(store.watch(), 0);
    assert!(Store::restore(&vec![]).scan_all().is_empty());
}

#[test]
fn the_number_of_a_cancelled_watcher_goes_to_the_next_one() {
    let mut store = Store::new();
    let a = store.watch();
    let b = store.watch();
    let c = store.watch();
    assert_eq!((a, b, c), (0, 1, 2));
    assert!(store.compare_and_swap(vec![1], None, Some(vec![1])));
    store.unwatch(b);
    store.unwatch(a);
    let d = store.watch();
    assert_eq!(d, 0);
    assert_eq!(store.next_event(d), None);
    assert!(store.compare_and_swap(vec![2], None, Some(vec![2])));
    assert_eq!(drain(&mut store, d), vec![change(&[2], &[2])]);
    assert_eq!(drain(&mut store, c), vec![change(&[1], &[1]), change(&[2], &[2])]);
    assert_eq!(store.watch(), 1);
    assert_eq!(store.watch(), 3);
}

#[test]
fn a_prefix_scan_gives_the_entries_under_a_name_in_key_order() {
    let mut store = Store::new();
    for (key, value) in [
        ("alpha/2", "red"),
        ("alpha/1", "green"),
        ("alphabet/1", "x"),
        ("bravo/1", "orange"),
        ("alpha/3", "green"),
        ("alph", "y"),
    ] {
        assert!(store.upsert(key.as_bytes().to_vec(), value.as_bytes().to_vec()));
    }
    assert_eq!(
        store.scan_prefix(&b"alpha/".to_vec()),
        vec![change(b"alpha/1", b"green"), change(b"alpha/2", b"red"), change(b"alpha/3", b"green")]
    );
    assert_eq!(store.scan_prefix(&b"alpha/".to_vec()).last(), Some(&change(b"alpha/3", b"green")));
    assert_eq!(store.scan_prefix(&b"charlie".to_vec()), vec![]);
    assert_eq!(store.scan_prefix(&vec![]), store.scan_all());
    assert_eq!(store.scan_prefix(&b"alph".to_vec()).len(), 5);
}
