//! The edits that a client makes to the locations of the foxes, and the check
//! of a coordinate that is typed as four digits of the national grid.

use vstd::prelude::*;
use vstd::utf8::encode_utf8;
use crate::domain::{Fox, FoxKey};
use crate::text::{insert_sorted, same_text, strictly_rising, texts_of};
use crate::wire::{encode_fox, encode_fox_key, fox_frame, fox_key_frame};
use crate::AtomicEdit;

verus! {

/// `text` without the white space at its beginning and at its end.
pub uninterp spec fn trimmed(text: Seq<char>) -> Seq<char>;

/// Takes the white space off both ends of a text.
///
/// Wraps `str::trim`. What it returns is given a name, `trimmed`.
#[verifier::external_body]
fn trim(text: &str) -> (r: &str)
    ensures
        r@ == trimmed(text@),
{
    text.trim()
}

/// The place of the first comma in `text`, if it holds one.
pub open spec fn first_comma(text: Seq<char>) -> Option<int>
    decreases text.len(),
{
    if text.len() == 0 {
        None
    } else if text[0] == ',' {
        Some(0)
    } else {
        match first_comma(text.drop_first()) {
            Some(i) => Some(i + 1),
            None => None,
        }
    }
}

/// Splits a text at its first comma.
///
/// Wraps `str::split_once` with a comma as the delimiter: it returns what
/// stands before the first comma and what stands after it, or nothing where
/// the text holds no comma.
#[verifier::external_body]
fn split_at_comma(text: &str) -> (r: Option<(&str, &str)>)
    ensures
        match r {
            Some((before, after)) => {
                &&& first_comma(text@) == Some(before@.len() as int)
                &&& before@ == text@.take(before@.len() as int)
                &&& after@ == text@.skip(before@.len() as int + 1)
            },
            None => first_comma(text@).is_none(),
        },
{
    text.split_once(',')
}

/// Whether a byte is an ASCII digit.
pub open spec fn is_digit(byte: u8) -> bool {
    48 <= byte <= 57
}

/// The number that three digits spell.
pub open spec fn three_digits(a: u8, b: u8, c: u8) -> int {
    (a - 48) * 100 + (b - 48) * 10 + (c - 48)
}

/// The grid value that the bytes of a typed coordinate stand for: four bytes
/// that spell a number, as four digits or as a plus sign and three digits,
/// stand for a hundred times that number. Anything else stands for nothing.
pub open spec fn grid_value(bytes: Seq<u8>) -> Option<u32> {
    if bytes.len() != 4 {
        None
    } else if is_digit(bytes[1]) && is_digit(bytes[2]) && is_digit(bytes[3]) {
        if is_digit(bytes[0]) {
            Some(
                (((bytes[0] - 48) * 1000 + three_digits(bytes[1], bytes[2], bytes[3])) * 100) as u32,
            )
        } else if bytes[0] == 43 {
            Some((three_digits(bytes[1], bytes[2], bytes[3]) * 100) as u32)
        } else {
            None
        }
    } else {
        None
    }
}

/// Checks that a typed coordinate is a number of four characters, and gives
/// its value on the grid, in metres.
pub fn make_value(input: &str) -> (r: Option<u32>)
    ensures
        r == grid_value(encode_utf8(input@)),
{
    let bytes = input.as_bytes();
    if bytes.len() != 4 {
        return None;
    }
    let b0 = bytes[0];
    let b1 = bytes[1];
    let b2 = bytes[2];
    let b3 = bytes[3];
    if !(b1 >= 48 && b1 <= 57 && b2 >= 48 && b2 <= 57 && b3 >= 48 && b3 <= 57) {
        return None;
    }
    let low: u32 = (b1 - 48) as u32 * 100 + (b2 - 48) as u32 * 10 + (b3 - 48) as u32;
    if b0 >= 48 && b0 <= 57 {
        Some(((b0 - 48) as u32 * 1000 + low) * 100)
    } else if b0 == 43 {
        Some(low * 100)
    } else {
        None
    }
}

/// The place on the grid that a location stands for, where both of its
/// coordinates are typed as grid values.
pub fn grid_position(fox: &Fox) -> (r: Option<(u32, u32)>)
    ensures
        r == match (
            grid_value(encode_utf8(fox.latitude@)),
            grid_value(encode_utf8(fox.longitude@)),
        ) {
            (Some(x), Some(y)) => Some((x, y)),
            _ => None,
        },
{
    match make_value(fox.latitude.as_str()) {
        Some(x) => match make_value(fox.longitude.as_str()) {
            Some(y) => Some((x, y)),
            None => None,
        },
        None => None,
    }
}

/// Why an edit of a location was not made.
#[derive(Debug, Clone, Copy, PartialEq, Eq, Structural)]
pub enum EditError {
    /// No time is selected.
    NoTime,
    /// No fox is selected.
    NoFox,
    /// The coordinates hold no comma.
    NoComma,
    /// There is no location for that fox at that time.
    NoLocation,
    /// The location still holds coordinates; only an empty one is removed.
    NotEmpty,
}

/// The edit that stores `new` under `key` where `old` is what the client
/// last saw there. No `old` means that it saw nothing, no `new` that the
/// location is to go. The coordinates are taken as they are.
pub fn location_edit(key: &FoxKey, old: Option<&Fox>, new: Option<&Fox>) -> (edit: AtomicEdit)
    ensures
        edit.key@ == fox_key_frame(key.day@, key.time@, key.fox_name@),
        edit.old@ == match old {
            Some(fox) => fox_frame(fox.latitude@, fox.longitude@),
            None => Seq::empty(),
        },
        edit.new@ == match new {
            Some(fox) => fox_frame(fox.latitude@, fox.longitude@),
            None => Seq::empty(),
        },
{
    let key = encode_fox_key(key);
    let old = match old {
        Some(fox) => encode_fox(fox),
        None => Vec::new(),
    };
    let new = match new {
        Some(fox) => encode_fox(fox),
        None => Vec::new(),
    };
    AtomicEdit { key, old, new }
}

/// The edit that adds a location: `coordinates` holds the latitude and the
/// longitude with a comma between them, and the edit expects that nothing is
/// stored yet for this fox at this time.
///
/// It needs a time, a fox and a comma, and says which of them is missing,
/// in this order.
pub fn add_location(day: &str, time: &str, fox_name: &str, coordinates: &str) -> (r: Result<
    AtomicEdit,
    EditError,
>)
    ensures
        time@.len() == 0 ==> r == Err::<AtomicEdit, EditError>(EditError::NoTime),
        time@.len() > 0 && fox_name@.len() == 0 ==> r == Err::<AtomicEdit, EditError>(
            EditError::NoFox,
        ),
        time@.len() > 0 && fox_name@.len() > 0 ==> match first_comma(coordinates@) {
            None => r == Err::<AtomicEdit, EditError>(EditError::NoComma),
            Some(at) => {
                &&& r matches Ok(edit)
                &&& r.unwrap().key@ == fox_key_frame(day@, time@, fox_name@)
                &&& r.unwrap().old@ == Seq::<u8>::empty()
                &&& r.unwrap().new@ == fox_frame(
                    trimmed(coordinates@.take(at)),
                    trimmed(coordinates@.skip(at + 1)),
                )
            },
        },
{
    if time.is_empty() {
        return Err(EditError::NoTime);
    }
    if fox_name.is_empty() {
        return Err(EditError::NoFox);
    }
    match split_at_comma(coordinates) {
        None => Err(EditError::NoComma),
        Some((latitude, longitude)) => {
            let key = FoxKey {
                day: day.to_owned(),
                time: time.to_owned(),
                fox_name: fox_name.to_owned(),
            };
            let fox = Fox {
                latitude: trim(latitude).to_owned(),
                longitude: trim(longitude).to_owned(),
            };
            Ok(location_edit(&key, None, Some(&fox)))
        },
    }
}

/// The edit that moves a location: it stores the coordinates as they are
/// typed now, without the white space around them, and expects that the
/// location still holds what the client last saw there.
pub fn move_location(key: &FoxKey, seen: &Fox, latitude: &str, longitude: &str) -> (edit:
    AtomicEdit)
    ensures
        edit.key@ == fox_key_frame(key.day@, key.time@, key.fox_name@),
        edit.old@ == fox_frame(seen.latitude@, seen.longitude@),
        edit.new@ == fox_frame(trimmed(latitude@), trimmed(longitude@)),
{
    let fox = Fox { latitude: trim(latitude).to_owned(), longitude: trim(longitude).to_owned() };
    location_edit(key, Some(seen), Some(&fox))
}

/// The place of the first location from `from` on that is the one of the fox
/// `fox_name` on `day` at `time`, if there is one.
pub open spec fn place_of(
    data: Seq<Located>,
    day: Seq<char>,
    time: Seq<char>,
    fox_name: Seq<char>,
    from: int,
) -> Option<int>
    decreases data.len() - from,
{
    if from < 0 || from >= data.len() {
        None
    } else if data[from].0.day@ == day && data[from].0.time@ == time && data[from].0.fox_name@
        == fox_name {
        Some(from)
    } else {
        place_of(data, day, time, fox_name, from + 1)
    }
}

/// Finds the location of the fox `fox_name` on `day` at `time`.
pub fn find_location(data: &Vec<Located>, day: &str, time: &str, fox_name: &str) -> (r: Option<
    usize,
>)
    ensures
        match r {
            Some(at) => {
                &&& place_of(data@, day@, time@, fox_name@, 0) == Some(at as int)
                &&& at < data.len()
                &&& data@[at as int].0.day@ == day@
                &&& data@[at as int].0.time@ == time@
                &&& data@[at as int].0.fox_name@ == fox_name@
            },
            None => place_of(data@, day@, time@, fox_name@, 0).is_none(),
        },
{
    let mut i: usize = 0;
    while i < data.len()
        invariant
            i <= data.len(),
            place_of(data@, day@, time@, fox_name@, 0) == place_of(
                data@,
                day@,
                time@,
                fox_name@,
                i as int,
            ),
        decreases data.len() - i,
    {
        let key = &data[i].0;
        if same_text(key.day.as_str(), day) && same_text(key.time.as_str(), time) && same_text(
            key.fox_name.as_str(),
            fox_name,
        ) {
            return Some(i);
        }
        i = i + 1;
    }
    None
}

/// The edit that removes the location of a fox at a time, given the
/// locations that the client's copy holds.
///
/// It needs a time, and a location for the fox at that time that holds no
/// coordinates any more, and says which is missing, in this order. The edit
/// expects that the location is still the empty one, and stores nothing in
/// its place.
pub fn remove_location(data: &Vec<Located>, day: &str, time: &str, fox_name: &str) -> (r: Result<
    AtomicEdit,
    EditError,
>)
    ensures
        time@.len() == 0 ==> r == Err::<AtomicEdit, EditError>(EditError::NoTime),
        time@.len() > 0 ==> match place_of(data@, day@, time@, fox_name@, 0) {
            None => r == Err::<AtomicEdit, EditError>(EditError::NoLocation),
            Some(at) => if data@[at].1.latitude@.len() > 0 || data@[at].1.longitude@.len() > 0 {
                r == Err::<AtomicEdit, EditError>(EditError::NotEmpty)
            } else {
                &&& r matches Ok(edit)
                &&& r.unwrap().key@ == fox_key_frame(day@, time@, fox_name@)
                &&& r.unwrap().old@ == fox_frame(Seq::empty(), Seq::empty())
                &&& r.unwrap().new@ == Seq::<u8>::empty()
            },
        },
{
    if time.is_empty() {
        return Err(EditError::NoTime);
    }
    match find_location(data, day, time, fox_name) {
        None => Err(EditError::NoLocation),
        Some(at) => {
            let fox = &data[at].1;
            if !fox.latitude.as_str().is_empty() || !fox.longitude.as_str().is_empty() {
                return Err(EditError::NotEmpty);
            }
            let empty = Fox { latitude: String::new(), longitude: String::new() };
            Ok(location_edit(&data[at].0, Some(&empty), None))
        },
    }
}

/// A location with its key.
pub type Located = (FoxKey, Fox);

/// The locations of one day at one time, in the order given: what the editor
/// offers for editing.
pub open spec fn located_at(data: Seq<Located>, day: Seq<char>, time: Seq<char>) -> Seq<Located>
    decreases data.len(),
{
    if data.len() == 0 {
        Seq::empty()
    } else {
        let rest = located_at(data.drop_last(), day, time);
        if data.last().0.day@ == day && data.last().0.time@ == time {
            rest.push(data.last())
        } else {
            rest
        }
    }
}

/// The locations of `day` at `time`.
pub fn entries_at(data: &Vec<Located>, day: &str, time: &str) -> (r: Vec<Located>)
    ensures
        r@ == located_at(data@, day@, time@),
{
    let mut r: Vec<Located> = Vec::new();
    let mut i: usize = 0;
    while i < data.len()
        invariant
            i <= data.len(),
            r@ == located_at(data@.take(i as int), day@, time@),
        decreases data.len() - i,
    {
        assert(data@.take(i + 1).drop_last() =~= data@.take(i as int));
        let key = &data[i].0;
        if same_text(key.time.as_str(), time) && same_text(key.day.as_str(), day) {
            r.push((key.duplicate(), data[i].1.duplicate()));
        }
        i = i + 1;
    }
    assert(data@.take(data.len() as int) =~= data@);
    r
}

/// The times at which one of the first `n` locations was seen on `day`.
pub open spec fn times_on(data: Seq<Located>, day: Seq<char>, n: int) -> Set<Seq<char>>
    decreases n,
{
    if n <= 0 {
        Set::empty()
    } else if data[n - 1].0.day@ == day {
        times_on(data, day, n - 1).insert(data[n - 1].0.time@)
    } else {
        times_on(data, day, n - 1)
    }
}

/// The times that the editor offers: those of the locations of `day` and the
/// time that is selected now, sorted, each once.
pub fn slice_names(data: &Vec<Located>, day: &str, current_time: &str) -> (r: Vec<String>)
    ensures
        strictly_rising(texts_of(r@)),
        texts_of(r@).to_set() == times_on(data@, day@, data.len() as int).insert(current_time@),
{
    let mut r: Vec<String> = Vec::new();
    let mut i: usize = 0;
    while i < data.len()
        invariant
            i <= data.len(),
            strictly_rising(texts_of(r@)),
            texts_of(r@).to_set() == times_on(data@, day@, i as int),
        decreases data.len() - i,
    {
        let key = &data[i].0;
        if same_text(key.day.as_str(), day) {
            insert_sorted(&mut r, key.time.as_str());
        }
        i = i + 1;
    }
    insert_sorted(&mut r, current_time);
    r
}

/// The foxes that were seen on `day` among the first `n` locations.
pub open spec fn foxes_on(data: Seq<Located>, day: Seq<char>, n: int) -> Set<Seq<char>>
    decreases n,
{
    if n <= 0 {
        Set::empty()
    } else if data[n - 1].0.day@ == day {
        foxes_on(data, day, n - 1).insert(data[n - 1].0.fox_name@)
    } else {
        foxes_on(data, day, n - 1)
    }
}

/// The track of a fox on a day: where it was seen and when, in the order
/// given.
pub open spec fn track_on(data: Seq<Located>, day: Seq<char>, fox_name: Seq<char>) -> Seq<
    (String, Fox),
>
    decreases data.len(),
{
    if data.len() == 0 {
        Seq::empty()
    } else {
        let rest = track_on(data.drop_last(), day, fox_name);
        let (key, fox) = data.last();
        if key.day@ == day && key.fox_name@ == fox_name {
            rest.push((key.time, fox))
        } else {
            rest
        }
    }
}

/// The track of the fox `fox_name` on `day`.
pub fn track_of(data: &Vec<Located>, day: &str, fox_name: &str) -> (r: Vec<(String, Fox)>)
    ensures
        r@ == track_on(data@, day@, fox_name@),
{
    let mut r: Vec<(String, Fox)> = Vec::new();
    let mut i: usize = 0;
    while i < data.len()
        invariant
            i <= data.len(),
            r@ == track_on(data@.take(i as int), day@, fox_name@),
        decreases data.len() - i,
    {
        assert(data@.take(i + 1).drop_last() =~= data@.take(i as int));
        let key = &data[i].0;
        if same_text(key.day.as_str(), day) && same_text(key.fox_name.as_str(), fox_name) {
            r.push((key.time.clone(), data[i].1.duplicate()));
        }
        i = i + 1;
    }
    assert(data@.take(data.len() as int) =~= data@);
    r
}

/// The tracks of a day: for each fox that was seen on `day`, by name in
/// sorted order, where it was seen and when.
pub fn today_by_fox(data: &Vec<Located>, day: &str) -> (r: Vec<(String, Vec<(String, Fox)>)>)
    ensures
        strictly_rising(r@.map_values(|track: (String, Vec<(String, Fox)>)| track.0@)),
        r@.map_values(|track: (String, Vec<(String, Fox)>)| track.0@).to_set() == foxes_on(
            data@,
            day@,
            data.len() as int,
        ),
        forall|i: int|
            0 <= i < r@.len() ==> (#[trigger] r@[i]).1@ == track_on(data@, day@, r@[i].0@),
{
    let mut names: Vec<String> = Vec::new();
    let mut i: usize = 0;
    while i < data.len()
        invariant
            i <= data.len(),
            strictly_rising(texts_of(names@)),
            texts_of(names@).to_set() == foxes_on(data@, day@, i as int),
        decreases data.len() - i,
    {
        let key = &data[i].0;
        if same_text(key.day.as_str(), day) {
            insert_sorted(&mut names, key.fox_name.as_str());
        }
        i = i + 1;
    }
    let mut r: Vec<(String, Vec<(String, Fox)>)> = Vec::new();
    let mut j: usize = 0;
    while j < names.len()
        invariant
            j <= names.len(),
            r@.len() == j,
            forall|i: int| 0 <= i < j ==> (#[trigger] r@[i]).0@ == names@[i]@,
            forall|i: int|
                0 <= i < j ==> (#[trigger] r@[i]).1@ == track_on(data@, day@, r@[i].0@),
        decreases names.len() - j,
    {
        let track = track_of(data, day, names[j].as_str());
        r.push((names[j].clone(), track));
        j = j + 1;
    }
    assert(r@.map_values(|track: (String, Vec<(String, Fox)>)| track.0@) =~= texts_of(names@));
    r
}

} // verus!
