use jotihunt::polls::{
    article_entry, status_entry, update_single_article, update_single_status, Area, Article,
};
use jotihunt::store::Store;
use jotihunt::wire::{
    encode_article, encode_article_key, encode_fox, encode_fox_key, encode_status_key, encode_text,
};
use jotihunt::domain::{ArticleKey, Fox, FoxKey, SavedArticle, StatusKey};
use jotihunt::Broadcast;

fn area(name: &str, status: &str, updated_at: &str) -> Area {
    Area { name: name.into(), status: status.into(), updated_at: updated_at.into() }
}

#[test]
fn a_status_is_stored_once() {
    let mut store = Store::new();
    let watcher = store.watch();
    assert!(update_single_status(&mut store, &area("Alpha", "red", "2023-10-21T10:00")));
    assert!(!update_single_status(&mut store, &area("Alpha", "red", "2023-10-21T10:00")));
    let key = postcard::to_stdvec(&("2023-10-21T10:00", "Alpha")).unwrap();
    let value = postcard::to_stdvec("red").unwrap();
    assert_eq!(store.get(&key), Some(value.clone()));
    assert_eq!(store.next_event(watcher), Some(Broadcast { key, value }));
    assert_eq!(store.next_event(watcher), None);
}

#[test]
fn a_changed_status_is_written_over_the_old_one() {
    let mut store = Store::new();
    assert!(update_single_status(&mut store, &area("Alpha", "red", "t1")));
    let watcher = store.watch();
    assert!(update_single_status(&mut store, &area("Alpha", "green", "t1")));
    assert!(update_single_status(&mut store, &area("Alpha", "green", "t2")));
    let key = postcard::to_stdvec(&("t1", "Alpha")).unwrap();
    assert_eq!(store.get(&key), Some(postcard::to_stdvec("green").unwrap()));
    assert_eq!(store.scan_all().len(), 2);
    assert_eq!(store.next_event(watcher).unwrap().key, key);
}

#[test]
fn an_article_is_stored_under_its_time_and_number() {
    let mut store = Store::new();
    let article = Article {
        id: 300,
        title: "Hint 1".into(),
        kind: "hint".into(),
        publish_at: "2023-10-21T09:00".into(),
        content: "<p>zoek</p>".into(),
    };
    assert!(update_single_article(&mut store, &article));
    assert!(!update_single_article(&mut store, &article));
    let key = postcard::to_stdvec(&("2023-10-21T09:00", 300usize)).unwrap();
    let value = postcard::to_stdvec(&("Hint 1", "hint", "<p>zoek</p>")).unwrap();
    assert_eq!(store.scan_all(), vec![Broadcast { key, value }]);
}

#[test]
fn upsert_writes_only_what_differs() {
    let mut store = Store::new();
    let watcher = store.watch();
    assert!(store.upsert(vec![1], vec![2]));
    assert!(!store.upsert(vec![1], vec![2]));
    assert!(store.upsert(vec![1], vec![3]));
    assert!(!store.upsert(vec![9], vec![]));
    assert!(store.upsert(vec![1], vec![]));
    assert_eq!(store.get(&vec![1]), None);
    let mut seen = Vec::new();
    while let Some(event) = store.next_event(watcher) {
        seen.push(event.value);
    }
    assert_eq!(seen, vec![vec![2], vec![3], vec![]]);
}

#[test]
fn keys_and_values_are_framed_as_postcard_frames_them() {
    let key = FoxKey { day: "2023-10-21".into(), time: "10:30".into(), fox_name: "Écho".into() };
    assert_eq!(
        encode_fox_key(&key),
        postcard::to_stdvec(&("2023-10-21", "10:30", "Écho")).unwrap()
    );
    let fox = Fox { latitude: "1234".into(), longitude: "".into() };
    assert_eq!(encode_fox(&fox), vec![4, b'1', b'2', b'3', b'4', 0]);
    let status = StatusKey { date_time: "t".into(), fox_name: "Alpha".into() };
    assert_eq!(encode_status_key(&status), postcard::to_stdvec(&("t", "Alpha")).unwrap());
    assert_eq!(encode_text("orange"), postcard::to_stdvec("orange").unwrap());
    let saved = SavedArticle { title: "a".into(), kind: "news".into(), content: "c".repeat(200) };
    assert_eq!(
        encode_article(&saved),
        postcard::to_stdvec(&("a", "news", "c".repeat(200))).unwrap()
    );
}

#[test]
fn the_number_of_an_article_is_framed_in_groups_of_seven_bits() {
    for id in [0usize, 1, 127, 128, 129, 255, 300, 16383, 16384, 1 << 21, usize::MAX - 1, usize::MAX] {
        let key = ArticleKey { publish_at: "t".into(), id };
        assert_eq!(encode_article_key(&key), postcard::to_stdvec(&("t", id)).unwrap(), "{id}");
    }
    let key = ArticleKey { publish_at: "".into(), id: 300 };
    assert_eq!(encode_article_key(&key), vec![0, 0xac, 0x02]);
}

#[test]
fn an_entry_is_what_the_topic_stores_for_what_was_fetched() {
    let entry = status_entry(&area("Alpha", "red", "t1"));
    assert_eq!(entry.key, postcard::to_stdvec(&("t1", "Alpha")).unwrap());
    assert_eq!(entry.value, postcard::to_stdvec("red").unwrap());
    let article = Article {
        id: 7,
        title: "T".into(),
        kind: "news".into(),
        publish_at: "t2".into(),
        content: "C".into(),
    };
    let entry = article_entry(&article);
    assert_eq!(entry.key, postcard::to_stdvec(&("t2", 7usize)).unwrap());
    assert_eq!(entry.value, postcard::to_stdvec(&("T", "news", "C")).unwrap());
}

#[test]
fn a_store_tells_what_would_be_written() {
    let mut store = Store::new();
    assert!(store.would_upsert(&vec![1], &vec![2]));
    assert!(!store.would_upsert(&vec![1], &vec![]));
    assert!(store.would_apply(&vec![1], &None));
    assert!(store.would_apply(&vec![1], &Some(vec![])));
    assert!(!store.would_apply(&vec![1], &Some(vec![2])));
    assert!(store.upsert(vec![1], vec![2]));
    assert!(!store.would_upsert(&vec![1], &vec![2]));
    assert!(store.would_upsert(&vec![1], &vec![3]));
    assert!(store.would_upsert(&vec![1], &vec![]));
    assert!(store.would_apply(&vec![1], &Some(vec![2])));
    assert!(!store.would_apply(&vec![1], &None));
    assert_eq!(store.get(&vec![1]), Some(vec![2]));
}
