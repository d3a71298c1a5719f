use jotihunt::domain::{ArticleKey, Fox, FoxKey, SavedArticle, StatusKey};
use jotihunt::typed::{
    decode_articles, decode_locations, decode_reports, place, sorted_by_key, TypedKey,
};
use jotihunt::wire::{
    decode_article, decode_article_key, decode_fox, decode_fox_key, decode_status_key,
    decode_text, encode_article, encode_article_key, encode_fox, encode_fox_key,
    encode_status_key, encode_text, WireError,
};
use jotihunt::Broadcast;

fn fox_key(day: &str, time: &str, fox: &str) -> FoxKey {
    FoxKey { day: day.into(), time: time.into(), fox_name: fox.into() }
}

fn fox(at: &str) -> Fox {
    Fox { latitude: at.into(), longitude: format!("-{at}") }
}

#[test]
fn keys_and_values_are_read_back_from_their_frames() {
    let key = fox_key("2023-10-21", "10:30", "Écho");
    assert_eq!(decode_fox_key(&encode_fox_key(&key)), Ok(key));
    assert_eq!(decode_fox(&encode_fox(&fox("12"))), Ok(fox("12")));
    let status = StatusKey { date_time: "t".into(), fox_name: "Alpha".into() };
    assert_eq!(decode_status_key(&encode_status_key(&status)), Ok(status));
    assert_eq!(decode_text(&encode_text("rood")), Ok("rood".to_string()));
    let saved = SavedArticle { title: "a".into(), kind: "news".into(), content: "c".repeat(200) };
    assert_eq!(decode_article(&encode_article(&saved)), Ok(saved));
    for id in [0usize, 1, 127, 128, 300, 16384, 1 << 40, usize::MAX] {
        let key = ArticleKey { publish_at: "2023".into(), id };
        assert_eq!(decode_article_key(&encode_article_key(&key)), Ok(key), "{id}");
    }
}

#[test]
fn typed_frames_are_read_as_postcard_reads_them() {
    let frame = postcard::to_stdvec(&("d", "t", "f")).unwrap();
    assert_eq!(decode_fox_key(&frame), Ok(fox_key("d", "t", "f")));
    let frame = postcard::to_stdvec(&("2023", 70000usize)).unwrap();
    assert_eq!(
        decode_article_key(&frame),
        Ok(ArticleKey { publish_at: "2023".into(), id: 70000 })
    );
    assert_eq!(
        decode_article_key(&vec![1, b't', 0x80, 0x01]),
        Ok(ArticleKey { publish_at: "t".into(), id: 128 })
    );
}

#[test]
fn a_frame_that_holds_no_key_or_value_is_malformed() {
    assert_eq!(decode_fox_key(&vec![1, b'd', 1, b't']), Err(WireError::Malformed));
    assert_eq!(decode_fox_key(&vec![1, 0xff, 1, b't', 1, b'f']), Err(WireError::Malformed));
    assert_eq!(decode_fox(&vec![]), Err(WireError::Malformed));
    assert_eq!(decode_status_key(&vec![1, b't']), Err(WireError::Malformed));
    assert_eq!(decode_text(&vec![2, b't']), Err(WireError::Malformed));
    assert_eq!(decode_article(&vec![0, 0]), Err(WireError::Malformed));
    assert_eq!(decode_article_key(&vec![1, b't']), Err(WireError::Malformed));
    assert_eq!(decode_article_key(&vec![1, b't', 0x80]), Err(WireError::Malformed));
    let too_big = [vec![1, b't'], vec![0xff; 9], vec![0x7f]].concat();
    assert_eq!(decode_article_key(&too_big), Err(WireError::Malformed));
}

#[test]
fn keys_are_ordered_field_by_field() {
    let keys = [
        fox_key("2023-10-20", "10:00", "Bravo"),
        fox_key("2023-10-21", "09:00", "Bravo"),
        fox_key("2023-10-21", "09:00", "Charlie"),
        fox_key("2023-10-21", "10:00", "Alpha"),
        fox_key("2023-10-21", "9:00", "Alpha"),
    ];
    for a in &keys {
        for b in &keys {
            assert_eq!(a.is_before(b), a < b);
        }
    }
    let status = |at: &str, area: &str| StatusKey { date_time: at.into(), fox_name: area.into() };
    assert!(status("1", "b").is_before(&status("2", "a")));
    assert!(status("1", "a").is_before(&status("1", "b")));
    assert!(!status("1", "b").is_before(&status("1", "b")));
    assert!(!status("2", "a").is_before(&status("1", "b")));
    let article = |at: &str, id: usize| ArticleKey { publish_at: at.into(), id };
    assert!(article("1", 300).is_before(&article("2", 1)));
    assert!(article("1", 127).is_before(&article("1", 128)));
    assert!(!article("1", 128).is_before(&article("1", 127)));
    assert!(!article("1", 5).is_before(&article("1", 5)));
}

#[test]
fn a_list_is_sorted_by_its_keys_and_the_later_entry_stays() {
    let list = vec![
        (fox_key("d", "10:00", "b"), 1),
        (fox_key("d", "09:00", "b"), 2),
        (fox_key("c", "11:00", "z"), 3),
        (fox_key("d", "10:00", "a"), 4),
        (fox_key("d", "09:00", "b"), 5),
    ];
    assert_eq!(
        sorted_by_key(list),
        vec![
            (fox_key("c", "11:00", "z"), 3),
            (fox_key("d", "09:00", "b"), 5),
            (fox_key("d", "10:00", "a"), 4),
            (fox_key("d", "10:00", "b"), 1),
        ]
    );
    let mut list = vec![(fox_key("a", "", ""), 1), (fox_key("c", "", ""), 3)];
    place(&mut list, fox_key("b", "", ""), 2);
    place(&mut list, fox_key("d", "", ""), 4);
    place(&mut list, fox_key("a", "", ""), 0);
    let found: Vec<i32> = list.iter().map(|entry| entry.1).collect();
    assert_eq!(found, vec![0, 2, 3, 4]);
    assert_eq!(sorted_by_key(Vec::<(FoxKey, u8)>::new()), vec![]);
}

#[test]
fn the_order_of_the_keys_is_not_the_order_of_their_bytes() {
    let long = ArticleKey { publish_at: "t".into(), id: 300 };
    let short = ArticleKey { publish_at: "t".into(), id: 200 };
    let entries = vec![
        Broadcast { key: encode_article_key(&long), value: encode_article(&saved("late")) },
        Broadcast { key: encode_article_key(&short), value: encode_article(&saved("early")) },
    ];
    assert!(entries[0].key < entries[1].key);
    let list = sorted_by_key(decode_articles(&entries).unwrap());
    assert_eq!(list, vec![(short, saved("early")), (long, saved("late"))]);
}

fn saved(title: &str) -> SavedArticle {
    SavedArticle { title: title.into(), kind: "hint".into(), content: "".into() }
}

#[test]
fn the_entries_of_a_copy_are_read_as_what_they_hold() {
    let locations = vec![
        Broadcast { key: encode_fox_key(&fox_key("d", "t", "f")), value: encode_fox(&fox("1")) },
        Broadcast { key: encode_fox_key(&fox_key("d", "s", "g")), value: encode_fox(&fox("2")) },
    ];
    assert_eq!(
        decode_locations(&locations),
        Ok(vec![(fox_key("d", "t", "f"), fox("1")), (fox_key("d", "s", "g"), fox("2"))])
    );
    let status = StatusKey { date_time: "t".into(), fox_name: "Alpha".into() };
    let reports = vec![Broadcast { key: encode_status_key(&status), value: encode_text("red") }];
    assert_eq!(decode_reports(&reports), Ok(vec![(status, "red".to_string())]));
    assert_eq!(decode_locations(&vec![]), Ok(vec![]));
    let broken = vec![
        Broadcast { key: encode_fox_key(&fox_key("d", "t", "f")), value: vec![1] },
    ];
    assert_eq!(decode_locations(&broken), Err(WireError::Malformed));
    assert_eq!(decode_reports(&broken), Err(WireError::Malformed));
    assert_eq!(decode_articles(&broken), Err(WireError::Malformed));
}
