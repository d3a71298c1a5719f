use jotihunt::domain::{Fox, FoxKey};
use jotihunt::locations::{
    add_location, entries_at, find_location, grid_position, location_edit, make_value,
    move_location, remove_location, slice_names, today_by_fox, track_of, EditError,
};
use jotihunt::AtomicEdit;

fn key_bytes(day: &str, time: &str, fox: &str) -> Vec<u8> {
    postcard::to_stdvec(&(day, time, fox)).unwrap()
}

fn fox_bytes(latitude: &str, longitude: &str) -> Vec<u8> {
    postcard::to_stdvec(&(latitude, longitude)).unwrap()
}

#[test]
fn a_grid_value_is_a_number_of_four_characters() {
    assert_eq!(make_value("1234"), Some(123400));
    assert_eq!(make_value("0000"), Some(0));
    assert_eq!(make_value("9999"), Some(999900));
    assert_eq!(make_value("0042"), Some(4200));
    assert_eq!(make_value("+123"), Some(12300));
    assert_eq!(make_value("123"), None);
    assert_eq!(make_value("12345"), None);
    assert_eq!(make_value(""), None);
    assert_eq!(make_value("12a4"), None);
    assert_eq!(make_value("-123"), None);
    assert_eq!(make_value(" 123"), None);
    assert_eq!(make_value("12.3"), None);
    assert_eq!(make_value("1+23"), None);
    assert_eq!(make_value("é12"), None);
}

#[test]
fn a_grid_value_is_what_parsing_gives() {
    for text in ["1234", "+123", "0007", "+000", "12 4", "++12", "1e10", "٣٤٥٦"] {
        let expected = match text.parse::<u32>() {
            Ok(n) if text.len() == 4 => Some(n * 100),
            _ => None,
        };
        assert_eq!(make_value(text), expected, "{text}");
    }
}

#[test]
fn a_position_on_the_grid_needs_both_coordinates() {
    let fox = |latitude: &str, longitude: &str| Fox {
        latitude: latitude.to_string(),
        longitude: longitude.to_string(),
    };
    assert_eq!(grid_position(&fox("1234", "5678")), Some((123400, 567800)));
    assert_eq!(grid_position(&fox("51.98", "5.91")), None);
    assert_eq!(grid_position(&fox("1234", "5.91")), None);
    assert_eq!(grid_position(&fox("", "5678")), None);
}

#[test]
fn a_location_is_added_from_what_was_typed() {
    let edit = add_location("2023-10-21", "10:00", "Alpha", " 1234 ,5678\t").unwrap();
    assert_eq!(
        edit,
        AtomicEdit {
            key: key_bytes("2023-10-21", "10:00", "Alpha"),
            old: vec![],
            new: fox_bytes("1234", "5678"),
        }
    );
    let edit = add_location("d", "t", "f", "51.98, 5.91, extra").unwrap();
    assert_eq!(edit.new, fox_bytes("51.98", "5.91, extra"));
    let edit = add_location("", "t", "f", ",").unwrap();
    assert_eq!(edit.key, key_bytes("", "t", "f"));
    assert_eq!(edit.new, fox_bytes("", ""));
}

#[test]
fn adding_a_location_says_what_is_missing() {
    assert_eq!(add_location("d", "", "", "nothing"), Err(EditError::NoTime));
    assert_eq!(add_location("d", "", "f", "1,2"), Err(EditError::NoTime));
    assert_eq!(add_location("d", "t", "", "nothing"), Err(EditError::NoFox));
    assert_eq!(add_location("d", "t", "f", "1234 5678"), Err(EditError::NoComma));
    assert_eq!(add_location("d", "t", "f", ""), Err(EditError::NoComma));
}

#[test]
fn a_location_is_moved_from_what_was_seen() {
    let key = FoxKey { day: "d".into(), time: "t".into(), fox_name: "Bravo".into() };
    let seen = Fox { latitude: "1234".into(), longitude: "5678".into() };
    let edit = move_location(&key, &seen, " 1235", "5678 ");
    assert_eq!(
        edit,
        AtomicEdit {
            key: key_bytes("d", "t", "Bravo"),
            old: fox_bytes("1234", "5678"),
            new: fox_bytes("1235", "5678"),
        }
    );
}

#[test]
fn an_edit_takes_the_coordinates_as_they_are() {
    let key = FoxKey { day: "d".into(), time: "t".into(), fox_name: "f".into() };
    let old = Fox { latitude: " 1 ".into(), longitude: "2".into() };
    let new = Fox { latitude: "3".into(), longitude: " 4".into() };
    assert_eq!(
        location_edit(&key, Some(&old), Some(&new)),
        AtomicEdit {
            key: key_bytes("d", "t", "f"),
            old: fox_bytes(" 1 ", "2"),
            new: fox_bytes("3", " 4"),
        }
    );
    assert_eq!(
        location_edit(&key, None, None),
        AtomicEdit { key: key_bytes("d", "t", "f"), old: vec![], new: vec![] }
    );
}

#[test]
fn only_an_empty_location_is_removed() {
    let held = |latitude: &str, longitude: &str| {
        vec![
            located("d", "s", "f", ""),
            (
                FoxKey { day: "d".into(), time: "t".into(), fox_name: "f".into() },
                Fox { latitude: latitude.into(), longitude: longitude.into() },
            ),
        ]
    };
    assert_eq!(
        remove_location(&held("", ""), "d", "t", "f"),
        Ok(AtomicEdit { key: key_bytes("d", "t", "f"), old: vec![0, 0], new: vec![] })
    );
    assert_eq!(remove_location(&held("", ""), "d", "", "f"), Err(EditError::NoTime));
    assert_eq!(remove_location(&vec![], "d", "", "f"), Err(EditError::NoTime));
    assert_eq!(remove_location(&vec![], "d", "t", "f"), Err(EditError::NoLocation));
    assert_eq!(remove_location(&held("", ""), "d", "t", "g"), Err(EditError::NoLocation));
    assert_eq!(remove_location(&held("", ""), "e", "t", "f"), Err(EditError::NoLocation));
    assert_eq!(remove_location(&held("1", ""), "d", "t", "f"), Err(EditError::NotEmpty));
    assert_eq!(remove_location(&held("", "2"), "d", "t", "f"), Err(EditError::NotEmpty));
}

#[test]
fn a_location_is_found_by_day_time_and_fox() {
    assert_eq!(find_location(&seen(), "2023-10-21", "10:00", "Bravo"), Some(3));
    assert_eq!(find_location(&seen(), "2023-10-20", "10:00", "Alpha"), Some(0));
    assert_eq!(find_location(&seen(), "2023-10-21", "10:00", "Charlie"), None);
    assert_eq!(find_location(&vec![], "2023-10-21", "10:00", "Alpha"), None);
}

fn located(day: &str, time: &str, fox: &str, at: &str) -> (FoxKey, Fox) {
    (
        FoxKey { day: day.into(), time: time.into(), fox_name: fox.into() },
        Fox { latitude: at.into(), longitude: at.into() },
    )
}

fn seen() -> Vec<(FoxKey, Fox)> {
    vec![
        located("2023-10-20", "10:00", "Alpha", "1"),
        located("2023-10-21", "09:00", "Bravo", "2"),
        located("2023-10-21", "10:00", "Alpha", "3"),
        located("2023-10-21", "10:00", "Bravo", "4"),
        located("2023-10-21", "11:00", "Alpha", "5"),
        located("2023-10-22", "08:00", "Charlie", "6"),
    ]
}

#[test]
fn the_editor_offers_the_locations_of_the_selected_time() {
    assert_eq!(
        entries_at(&seen(), "2023-10-21", "10:00"),
        vec![
            located("2023-10-21", "10:00", "Alpha", "3"),
            located("2023-10-21", "10:00", "Bravo", "4"),
        ]
    );
    assert_eq!(entries_at(&seen(), "2023-10-21", "12:00"), vec![]);
    assert_eq!(entries_at(&seen(), "2023-10-23", "10:00"), vec![]);
}

#[test]
fn the_editor_offers_the_times_of_the_day_and_the_selected_one() {
    assert_eq!(slice_names(&seen(), "2023-10-21", "10:30"), vec!["09:00", "10:00", "10:30", "11:00"]);
    assert_eq!(slice_names(&seen(), "2023-10-21", "10:00"), vec!["09:00", "10:00", "11:00"]);
    assert_eq!(slice_names(&seen(), "2023-10-21", ""), vec!["", "09:00", "10:00", "11:00"]);
    assert_eq!(slice_names(&seen(), "2023-10-23", "07:00"), vec!["07:00"]);
    assert_eq!(slice_names(&vec![], "2023-10-21", ""), vec![""]);
}

#[test]
fn the_track_of_a_fox_is_where_it_was_seen_that_day() {
    let at = |time: &str, place: &str| {
        (time.to_string(), Fox { latitude: place.into(), longitude: place.into() })
    };
    assert_eq!(track_of(&seen(), "2023-10-21", "Alpha"), vec![at("10:00", "3"), at("11:00", "5")]);
    assert_eq!(track_of(&seen(), "2023-10-21", "Charlie"), vec![]);
    assert_eq!(
        today_by_fox(&seen(), "2023-10-21"),
        vec![
            ("Alpha".to_string(), vec![at("10:00", "3"), at("11:00", "5")]),
            ("Bravo".to_string(), vec![at("09:00", "2"), at("10:00", "4")]),
        ]
    );
    assert_eq!(today_by_fox(&seen(), "2023-10-19"), vec![]);
}
