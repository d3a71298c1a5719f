use jotihunt::wire::{
    decode_broadcast, decode_edit, decode_point, encode_broadcast, encode_edit, encode_point,
    WireError,
};
use jotihunt::{AtomicEdit, Broadcast, Traccar};

#[test]
fn a_change_is_framed_as_its_two_byte_strings() {
    let change = Broadcast { key: vec![1, 2], value: vec![3] };
    assert_eq!(encode_broadcast(&change), vec![2, 1, 2, 1, 3]);
    let tombstone = Broadcast { key: vec![9], value: vec![] };
    assert_eq!(encode_broadcast(&tombstone), vec![1, 9, 0]);
}

#[test]
fn an_edit_is_framed_as_its_three_byte_strings() {
    let edit = AtomicEdit { key: b"k".to_vec(), old: vec![], new: b"new".to_vec() };
    assert_eq!(encode_edit(&edit), vec![1, b'k', 0, 3, b'n', b'e', b'w']);
}

#[test]
fn a_point_is_framed_as_its_three_texts() {
    let point = Traccar { id: "t1".to_string(), lat: "52.1".to_string(), lon: "é".to_string() };
    assert_eq!(
        encode_point(&point),
        vec![2, b't', b'1', 4, b'5', b'2', b'.', b'1', 2, 0xc3, 0xa9]
    );
}

#[test]
fn frames_are_what_postcard_writes_for_the_messages() {
    let edit = AtomicEdit { key: vec![0; 200], old: vec![1, 2, 3], new: vec![] };
    let expected = postcard::to_stdvec(&(edit.key.clone(), edit.old.clone(), edit.new.clone())).unwrap();
    assert_eq!(encode_edit(&edit), expected);

    let change = Broadcast { key: vec![7; 130], value: vec![8; 300] };
    let expected = postcard::to_stdvec(&(change.key.clone(), change.value.clone())).unwrap();
    assert_eq!(encode_broadcast(&change), expected);

    let point = Traccar { id: "fox".to_string(), lat: "51.98".to_string(), lon: "5.91".to_string() };
    let expected = postcard::to_stdvec(&("fox", "51.98", "5.91")).unwrap();
    assert_eq!(encode_point(&point), expected);
}

#[test]
fn an_edit_is_read_back_from_its_frame() {
    let edit = AtomicEdit { key: vec![5; 300], old: vec![], new: vec![1, 2, 3] };
    let frame = encode_edit(&edit);
    assert_eq!(decode_edit(&frame), Ok(edit));
    assert_eq!(
        decode_edit(&vec![1, b'k', 0, 1, b'v']),
        Ok(AtomicEdit { key: b"k".to_vec(), old: vec![], new: b"v".to_vec() })
    );
}

#[test]
fn a_change_is_read_back_from_its_frame() {
    let change = Broadcast { key: vec![1, 2, 3], value: vec![] };
    let frame = encode_broadcast(&change);
    assert_eq!(decode_broadcast(&frame), Ok(change));
    assert_eq!(
        decode_broadcast(&vec![2, 1, 2, 1, 3]),
        Ok(Broadcast { key: vec![1, 2], value: vec![3] })
    );
}

#[test]
fn what_follows_the_fields_is_ignored() {
    assert_eq!(
        decode_broadcast(&vec![1, 7, 1, 8, 99, 99]),
        Ok(Broadcast { key: vec![7], value: vec![8] })
    );
}

#[test]
fn a_frame_that_ends_early_is_malformed() {
    assert_eq!(decode_edit(&vec![]), Err(WireError::Malformed));
    assert_eq!(decode_edit(&vec![5, 1]), Err(WireError::Malformed));
    assert_eq!(decode_edit(&vec![1, b'k', 0]), Err(WireError::Malformed));
    assert_eq!(decode_broadcast(&vec![1, b'k']), Err(WireError::Malformed));
    assert_eq!(decode_broadcast(&vec![1, b'k', 2, 0]), Err(WireError::Malformed));
}

#[test]
fn a_point_is_read_back_from_its_frame() {
    let point = Traccar { id: "vos-é".to_string(), lat: "51.98".to_string(), lon: "".to_string() };
    let frame = encode_point(&point);
    assert_eq!(decode_point(&frame), Ok(point));
    assert_eq!(
        decode_point(&postcard::to_stdvec(&("a", "b", "c")).unwrap()),
        Ok(Traccar { id: "a".into(), lat: "b".into(), lon: "c".into() })
    );
}

#[test]
fn a_point_needs_three_texts() {
    assert_eq!(decode_point(&vec![1, b'a', 1, b'b']), Err(WireError::Malformed));
    assert_eq!(decode_point(&vec![1, 0xff, 1, b'b', 1, b'c']), Err(WireError::Malformed));
    assert_eq!(decode_point(&vec![1, b'a', 2, 0xc3, 0x28, 0]), Err(WireError::Malformed));
    assert_eq!(decode_point(&vec![1, b'a', 0, 1, 0x80]), Err(WireError::Malformed));
}
