//! The frames on the wire. A frame is the fields of a message one after the
//! other, each a byte string in postcard's encoding; keys and values pass
//! through as the opaque bytes they are.

use vstd::prelude::*;
use vstd::slice::slice_subrange;
use vstd::string::StrSliceExecFns;
use vstd::utf8::{decode_utf8, encode_utf8, valid_utf8};
use crate::domain::{ArticleKey, Fox, FoxKey, SavedArticle, StatusKey};
use crate::model::{ChangeEvent, EditView, PointView};
use crate::{AtomicEdit, Broadcast, Traccar};

verus! {

/// The error of postcard. The library passes it on and never looks inside.
#[verifier::external_type_specification]
#[verifier::external_body]
pub struct ExPostcardError(postcard::Error);

/// The encoding of a number: its bits in groups of seven, the lowest group
/// first, one byte for each group, with the top bit of a byte set where more
/// groups follow.
pub open spec fn varint(n: nat) -> Seq<u8>
    decreases n,
{
    if n < 128 {
        seq![n as u8]
    } else {
        seq![(n % 128 + 128) as u8] + varint(n / 128)
    }
}

/// The bytes that postcard writes for one byte string: its length as a
/// number, then the bytes themselves.
pub open spec fn postcard_bytes(field: Seq<u8>) -> Seq<u8> {
    varint(field.len()) + field
}

/// What postcard reads from the front of `input`: one byte string and the
/// input that is left behind it, or nothing where `input` does not begin with
/// an encoded byte string.
pub uninterp spec fn postcard_taken(input: Seq<u8>) -> Option<(Seq<u8>, Seq<u8>)>;

/// `bytes` is read back as `field`, whatever follows it.
pub open spec fn reads_back(bytes: Seq<u8>, field: Seq<u8>) -> bool {
    forall|rest: Seq<u8>| postcard_taken(#[trigger] (bytes + rest)) == Some((field, rest))
}

/// Encodes one byte string.
///
/// Wraps `postcard::to_stdvec`. Into a `Vec` it always succeeds. It writes
/// the length of the byte string as a number and then its bytes, and
/// `postcard::take_from_bytes` reads just this byte string back from the
/// front of any input that begins with what was written.
#[verifier::external_body]
fn write_field(field: &Vec<u8>) -> (r: Result<Vec<u8>, postcard::Error>)
    ensures
        r is Ok,
        r matches Ok(bytes) ==> bytes@ == postcard_bytes(field@),
        r matches Ok(bytes) ==> reads_back(bytes@, field@),
{
    postcard::to_stdvec(field)
}

/// Decodes the byte string at the front of `input` and returns it with the
/// input that is left.
///
/// Wraps `postcard::take_from_bytes`. What it returns is given a name,
/// `postcard_taken`: the field and the rest where it succeeds, nothing where
/// it fails.
#[verifier::external_body]
fn take_field(input: &[u8]) -> (r: Result<(Vec<u8>, &[u8]), postcard::Error>)
    ensures
        match r {
            Ok((field, rest)) => postcard_taken(input@) == Some((field@, rest@)),
            Err(_) => postcard_taken(input@).is_none(),
        },
{
    postcard::take_from_bytes::<Vec<u8>>(input)
}

/// Reads bytes as a text.
///
/// Wraps `String::from_utf8`: it gives the text that the bytes encode where
/// they are valid UTF-8, and nothing where they are not.
#[verifier::external_body]
fn text_of(bytes: Vec<u8>) -> (r: Option<String>)
    ensures
        match r {
            Some(text) => as_text(bytes@) == Some(text@),
            None => as_text(bytes@).is_none(),
        },
{
    String::from_utf8(bytes).ok()
}

/// Why a frame could not be read.
#[derive(Debug, Clone, Copy, PartialEq, Eq, Structural)]
pub enum WireError {
    /// The bytes are not a frame of the kind that was asked for.
    Malformed,
}

/// The frame of an edit: its key, the expected old value and the new value.
pub open spec fn edit_frame(edit: EditView) -> Seq<u8> {
    postcard_bytes(edit.key) + postcard_bytes(edit.old) + postcard_bytes(edit.new)
}

/// The frame of a change: its key and its value.
pub open spec fn broadcast_frame(change: ChangeEvent) -> Seq<u8> {
    postcard_bytes(change.key) + postcard_bytes(change.value)
}

/// The encoding of a text: that of its UTF-8 bytes.
pub open spec fn text_bytes(text: Seq<char>) -> Seq<u8> {
    postcard_bytes(encode_utf8(text))
}

/// The frame of a telemetry point: its id, latitude and longitude.
pub open spec fn point_frame(point: PointView) -> Seq<u8> {
    text_bytes(point.id) + text_bytes(point.lat) + text_bytes(point.lon)
}

/// The key of a location: day, time and fox.
pub open spec fn fox_key_frame(day: Seq<char>, time: Seq<char>, fox_name: Seq<char>) -> Seq<u8> {
    text_bytes(day) + text_bytes(time) + text_bytes(fox_name)
}

/// The value of a location: latitude and longitude.
pub open spec fn fox_frame(latitude: Seq<char>, longitude: Seq<char>) -> Seq<u8> {
    text_bytes(latitude) + text_bytes(longitude)
}

/// The key of a status report: time, then area.
pub open spec fn status_key_frame(date_time: Seq<char>, fox_name: Seq<char>) -> Seq<u8> {
    text_bytes(date_time) + text_bytes(fox_name)
}

/// The key of an article: time of publication, then number.
pub open spec fn article_key_frame(publish_at: Seq<char>, id: nat) -> Seq<u8> {
    text_bytes(publish_at) + varint(id)
}

/// The value of an article: title, kind and content.
pub open spec fn article_frame(title: Seq<char>, kind: Seq<char>, content: Seq<char>) -> Seq<u8> {
    text_bytes(title) + text_bytes(kind) + text_bytes(content)
}

/// The edit that a frame holds: three byte strings from its front. What
/// follows them is ignored. `None` where the frame does not hold three.
pub open spec fn parsed_edit(frame: Seq<u8>) -> Option<EditView> {
    match postcard_taken(frame) {
        Some((key, after_key)) => match postcard_taken(after_key) {
            Some((old, after_old)) => match postcard_taken(after_old) {
                Some((new, _)) => Some(EditView { key, old, new }),
                None => None,
            },
            None => None,
        },
        None => None,
    }
}

/// The change that a frame holds: two byte strings from its front. What
/// follows them is ignored. `None` where the frame does not hold two.
pub open spec fn parsed_broadcast(frame: Seq<u8>) -> Option<ChangeEvent> {
    match postcard_taken(frame) {
        Some((key, after_key)) => match postcard_taken(after_key) {
            Some((value, _)) => Some(ChangeEvent { key, value }),
            None => None,
        },
        None => None,
    }
}

/// The text that a byte string holds, where it is the UTF-8 bytes of one.
pub open spec fn as_text(field: Seq<u8>) -> Option<Seq<char>> {
    if valid_utf8(field) {
        Some(decode_utf8(field))
    } else {
        None
    }
}

/// The text at the front of `input` and the input that is left behind it:
/// an encoded byte string that holds the UTF-8 bytes of a text.
pub open spec fn text_taken(input: Seq<u8>) -> Option<(Seq<char>, Seq<u8>)> {
    match postcard_taken(input) {
        Some((field, rest)) => match as_text(field) {
            Some(text) => Some((text, rest)),
            None => None,
        },
        None => None,
    }
}

/// The text that a frame holds at its front. What follows is ignored.
pub open spec fn parsed_text(frame: Seq<u8>) -> Option<Seq<char>> {
    match text_taken(frame) {
        Some((text, _)) => Some(text),
        None => None,
    }
}

/// The two texts that a frame holds at its front. What follows is ignored.
pub open spec fn parsed_texts2(frame: Seq<u8>) -> Option<(Seq<char>, Seq<char>)> {
    match text_taken(frame) {
        Some((first, rest)) => match text_taken(rest) {
            Some((second, _)) => Some((first, second)),
            None => None,
        },
        None => None,
    }
}

/// The three texts that a frame holds at its front. What follows is ignored.
pub open spec fn parsed_texts3(frame: Seq<u8>) -> Option<(Seq<char>, Seq<char>, Seq<char>)> {
    match text_taken(frame) {
        Some((first, rest)) => match text_taken(rest) {
            Some((second, rest)) => match text_taken(rest) {
                Some((third, _)) => Some((first, second, third)),
                None => None,
            },
            None => None,
        },
        None => None,
    }
}

/// The telemetry point that a frame holds: its id, latitude and longitude as
/// three texts from its front. `None` where the frame does not hold three
/// texts.
pub open spec fn parsed_point(frame: Seq<u8>) -> Option<PointView> {
    match parsed_texts3(frame) {
        Some((id, lat, lon)) => Some(PointView { id, lat, lon }),
        None => None,
    }
}

/// The number that the bytes at the front of `input` add to `value`, and the
/// input behind it. Each byte gives seven bits, the lowest group first; a
/// byte with its top bit set is followed by more. `scale` is the weight of
/// the next group.
pub open spec fn number_from(input: Seq<u8>, value: nat, scale: nat) -> Option<(nat, Seq<u8>)>
    decreases input.len(),
{
    if input.len() == 0 {
        None
    } else if input[0] < 128 {
        Some((value + scale * (input[0] as nat), input.skip(1)))
    } else {
        number_from(input.skip(1), value + scale * ((input[0] - 128) as nat), scale * 128)
    }
}

/// The number at the front of `input` and the input that is left behind it,
/// where the number fits the machine's word.
pub open spec fn number_taken(input: Seq<u8>) -> Option<(nat, Seq<u8>)> {
    match number_from(input, 0, 1) {
        Some((n, rest)) => if n <= usize::MAX {
            Some((n, rest))
        } else {
            None
        },
        None => None,
    }
}

/// The key of an article that a frame holds: the time of publication as a
/// text, then the number.
pub open spec fn parsed_article_key(frame: Seq<u8>) -> Option<(Seq<char>, nat)> {
    match text_taken(frame) {
        Some((publish_at, rest)) => match number_taken(rest) {
            Some((id, _)) => Some((publish_at, id)),
            None => None,
        },
        None => None,
    }
}

/// The UTF-8 bytes of a text are read as that text.
pub proof fn lemma_text_round_trip(text: Seq<char>)
    ensures
        as_text(encode_utf8(text)) == Some(text),
{
    vstd::utf8::encode_utf8_valid_utf8(text);
    vstd::utf8::encode_utf8_decode_utf8(text);
}

/// What is read from one encoded field after another: the first field, and
/// behind it the second field with whatever follows.
proof fn lemma_reads_back_first(a: Seq<u8>, fa: Seq<u8>, tail: Seq<u8>, rest: Seq<u8>)
    requires
        reads_back(a, fa),
    ensures
        postcard_taken(a + tail + rest) == Some((fa, tail + rest)),
{
    assert(a + tail + rest =~= a + (tail + rest));
}

/// Two encoded texts are read back as the two texts, whatever follows them.
proof fn lemma_texts2_round_trip(a: Seq<char>, b: Seq<char>, rest: Seq<u8>)
    requires
        reads_back(text_bytes(a), encode_utf8(a)),
        reads_back(text_bytes(b), encode_utf8(b)),
    ensures
        text_taken(text_bytes(a) + text_bytes(b) + rest) == Some((a, text_bytes(b) + rest)),
        text_taken(text_bytes(b) + rest) == Some((b, rest)),
        parsed_texts2(text_bytes(a) + text_bytes(b) + rest) == Some((a, b)),
{
    lemma_text_round_trip(a);
    lemma_text_round_trip(b);
    lemma_reads_back_first(text_bytes(a), encode_utf8(a), text_bytes(b), rest);
    assert(postcard_taken(text_bytes(b) + rest) == Some((encode_utf8(b), rest)));
}

/// Three encoded texts are read back as the three texts, whatever follows
/// them.
proof fn lemma_texts3_round_trip(a: Seq<char>, b: Seq<char>, c: Seq<char>, rest: Seq<u8>)
    requires
        reads_back(text_bytes(a), encode_utf8(a)),
        reads_back(text_bytes(b), encode_utf8(b)),
        reads_back(text_bytes(c), encode_utf8(c)),
    ensures
        parsed_texts3(text_bytes(a) + text_bytes(b) + text_bytes(c) + rest) == Some((a, b, c)),
{
    lemma_text_round_trip(a);
    lemma_texts2_round_trip(b, c, rest);
    lemma_reads_back_first(text_bytes(a), encode_utf8(a), text_bytes(b) + text_bytes(c), rest);
    assert(text_bytes(a) + (text_bytes(b) + text_bytes(c)) + rest =~= text_bytes(a) + text_bytes(
        b,
    ) + text_bytes(c) + rest);
    assert(text_bytes(b) + text_bytes(c) + rest =~= (text_bytes(b) + text_bytes(c)) + rest);
}

/// Appends the encoding of `field` to `frame`.
fn push_field(frame: &mut Vec<u8>, field: &Vec<u8>)
    ensures
        final(frame)@ == old(frame)@ + postcard_bytes(field@),
        reads_back(postcard_bytes(field@), field@),
{
    let mut bytes = write_field(field).unwrap();
    frame.append(&mut bytes);
}

/// Appends the encoding of `text` to `frame`.
fn push_text(frame: &mut Vec<u8>, text: &str)
    ensures
        final(frame)@ == old(frame)@ + text_bytes(text@),
        reads_back(text_bytes(text@), encode_utf8(text@)),
{
    let bytes = text.as_bytes_vec();
    push_field(frame, &bytes)
}

/// Appends the encoding of `n` to `frame`.
fn push_number(frame: &mut Vec<u8>, n: usize)
    ensures
        final(frame)@ == old(frame)@ + varint(n as nat),
{
    let mut left: usize = n;
    let ghost start = frame@;
    let ghost mut written: Seq<u8> = Seq::empty();
    while left >= 128
        invariant
            frame@ == start + written,
            written + varint(left as nat) == varint(n as nat),
        decreases left,
    {
        let low: u8 = (left % 128 + 128) as u8;
        frame.push(low);
        proof {
            written = written.push(low);
        }
        left = left / 128;
    }
    frame.push(left as u8);
}

/// Writes the key of a location.
pub fn encode_fox_key(key: &FoxKey) -> (frame: Vec<u8>)
    ensures
        frame@ == fox_key_frame(key.day@, key.time@, key.fox_name@),
        parsed_texts3(frame@) == Some((key.day@, key.time@, key.fox_name@)),
{
    let mut frame: Vec<u8> = Vec::new();
    push_text(&mut frame, key.day.as_str());
    push_text(&mut frame, key.time.as_str());
    push_text(&mut frame, key.fox_name.as_str());
    proof {
        lemma_texts3_round_trip(key.day@, key.time@, key.fox_name@, Seq::empty());
        assert(frame@ + Seq::<u8>::empty() =~= frame@);
    }
    frame
}

/// Writes the value of a location.
pub fn encode_fox(fox: &Fox) -> (frame: Vec<u8>)
    ensures
        frame@ == fox_frame(fox.latitude@, fox.longitude@),
        parsed_texts2(frame@) == Some((fox.latitude@, fox.longitude@)),
{
    let mut frame: Vec<u8> = Vec::new();
    push_text(&mut frame, fox.latitude.as_str());
    push_text(&mut frame, fox.longitude.as_str());
    proof {
        lemma_texts2_round_trip(fox.latitude@, fox.longitude@, Seq::empty());
        assert(frame@ + Seq::<u8>::empty() =~= frame@);
    }
    frame
}

/// Writes the key of a status report.
pub fn encode_status_key(key: &StatusKey) -> (frame: Vec<u8>)
    ensures
        frame@ == status_key_frame(key.date_time@, key.fox_name@),
        parsed_texts2(frame@) == Some((key.date_time@, key.fox_name@)),
{
    let mut frame: Vec<u8> = Vec::new();
    push_text(&mut frame, key.date_time.as_str());
    push_text(&mut frame, key.fox_name.as_str());
    proof {
        lemma_texts2_round_trip(key.date_time@, key.fox_name@, Seq::empty());
        assert(frame@ + Seq::<u8>::empty() =~= frame@);
    }
    frame
}

/// Writes a text as a value of its own, as the status of an area is stored.
pub fn encode_text(text: &str) -> (frame: Vec<u8>)
    ensures
        frame@ == text_bytes(text@),
        parsed_text(frame@) == Some(text@),
{
    let mut frame: Vec<u8> = Vec::new();
    push_text(&mut frame, text);
    proof {
        lemma_text_round_trip(text@);
        assert(frame@ + Seq::<u8>::empty() =~= frame@);
        assert(postcard_taken(text_bytes(text@) + Seq::<u8>::empty()) == Some(
            (encode_utf8(text@), Seq::<u8>::empty()),
        ));
    }
    frame
}

/// Writes the key of an article.
pub fn encode_article_key(key: &ArticleKey) -> (frame: Vec<u8>)
    ensures
        frame@ == article_key_frame(key.publish_at@, key.id as nat),
        parsed_article_key(frame@) == Some((key.publish_at@, key.id as nat)),
{
    let mut frame: Vec<u8> = Vec::new();
    push_text(&mut frame, key.publish_at.as_str());
    push_number(&mut frame, key.id);
    proof {
        let number = varint(key.id as nat);
        lemma_text_round_trip(key.publish_at@);
        assert(postcard_taken(text_bytes(key.publish_at@) + number) == Some(
            (encode_utf8(key.publish_at@), number),
        ));
        lemma_number_round_trip(key.id as nat, Seq::empty(), 0, 1);
        assert(number + Seq::<u8>::empty() =~= number);
        assert(0 + 1 * (key.id as nat) == key.id as nat);
    }
    frame
}

/// Writes the value of an article.
pub fn encode_article(article: &SavedArticle) -> (frame: Vec<u8>)
    ensures
        frame@ == article_frame(article.title@, article.kind@, article.content@),
        parsed_texts3(frame@) == Some((article.title@, article.kind@, article.content@)),
{
    let mut frame: Vec<u8> = Vec::new();
    push_text(&mut frame, article.title.as_str());
    push_text(&mut frame, article.kind.as_str());
    push_text(&mut frame, article.content.as_str());
    proof {
        lemma_texts3_round_trip(article.title@, article.kind@, article.content@, Seq::empty());
        assert(frame@ + Seq::<u8>::empty() =~= frame@);
    }
    frame
}

/// Writes the frame of an edit. The frame is read back as the edit, whatever
/// follows it.
pub fn encode_edit(edit: &AtomicEdit) -> (frame: Vec<u8>)
    ensures
        frame@ == edit_frame(edit@),
        parsed_edit(frame@) == Some(edit@),
        forall|rest: Seq<u8>| parsed_edit(#[trigger] (frame@ + rest)) == Some(edit@),
{
    let mut frame: Vec<u8> = Vec::new();
    push_field(&mut frame, &edit.key);
    push_field(&mut frame, &edit.old);
    push_field(&mut frame, &edit.new);
    proof {
        let k = postcard_bytes(edit.key@);
        let o = postcard_bytes(edit.old@);
        let n = postcard_bytes(edit.new@);
        assert(frame@ =~= k + o + n);
        assert forall|rest: Seq<u8>| parsed_edit(#[trigger] (frame@ + rest)) == Some(edit@) by {
            lemma_reads_back_first(k, edit.key@, o + n, rest);
            assert(k + (o + n) + rest =~= frame@ + rest);
            lemma_reads_back_first(o, edit.old@, n, rest);
            assert(o + n + rest =~= (o + n) + rest);
        }
        assert(frame@ + Seq::<u8>::empty() =~= frame@);
    }
    frame
}

/// Writes the frame of a change. The frame is read back as the change,
/// whatever follows it.
pub fn encode_broadcast(change: &Broadcast) -> (frame: Vec<u8>)
    ensures
        frame@ == broadcast_frame(change@),
        parsed_broadcast(frame@) == Some(change@),
        forall|rest: Seq<u8>| parsed_broadcast(#[trigger] (frame@ + rest)) == Some(change@),
{
    let mut frame: Vec<u8> = Vec::new();
    push_field(&mut frame, &change.key);
    push_field(&mut frame, &change.value);
    proof {
        let k = postcard_bytes(change.key@);
        let v = postcard_bytes(change.value@);
        assert(frame@ =~= k + v);
        assert forall|rest: Seq<u8>| parsed_broadcast(#[trigger] (frame@ + rest)) == Some(
            change@,
        ) by {
            lemma_reads_back_first(k, change.key@, v, rest);
        }
        assert(frame@ + Seq::<u8>::empty() =~= frame@);
    }
    frame
}

/// Writes the frame of a telemetry point. The frame is read back as the
/// point, whatever follows it.
pub fn encode_point(point: &Traccar) -> (frame: Vec<u8>)
    ensures
        frame@ == point_frame(point@),
        parsed_point(frame@) == Some(point@),
        forall|rest: Seq<u8>| parsed_point(#[trigger] (frame@ + rest)) == Some(point@),
{
    let mut frame: Vec<u8> = Vec::new();
    push_text(&mut frame, point.id.as_str());
    push_text(&mut frame, point.lat.as_str());
    push_text(&mut frame, point.lon.as_str());
    proof {
        assert forall|rest: Seq<u8>| parsed_point(#[trigger] (frame@ + rest)) == Some(point@) by {
            lemma_texts3_round_trip(point.id@, point.lat@, point.lon@, rest);
        }
        assert(frame@ + Seq::<u8>::empty() =~= frame@);
    }
    frame
}

/// Reads an edit from a frame: `Ok` exactly where the frame holds one.
pub fn decode_edit(frame: &Vec<u8>) -> (r: Result<AtomicEdit, WireError>)
    ensures
        match parsed_edit(frame@) {
            Some(edit) => r matches Ok(e) && e@ == edit,
            None => r == Err::<AtomicEdit, WireError>(WireError::Malformed),
        },
{
    match take_field(frame.as_slice()) {
        Ok((key, after_key)) => match take_field(after_key) {
            Ok((old, after_old)) => match take_field(after_old) {
                Ok((new, _)) => Ok(AtomicEdit { key, old, new }),
                Err(_) => Err(WireError::Malformed),
            },
            Err(_) => Err(WireError::Malformed),
        },
        Err(_) => Err(WireError::Malformed),
    }
}

/// Reads a change from a frame: `Ok` exactly where the frame holds one.
pub fn decode_broadcast(frame: &Vec<u8>) -> (r: Result<Broadcast, WireError>)
    ensures
        match parsed_broadcast(frame@) {
            Some(change) => r matches Ok(b) && b@ == change,
            None => r == Err::<Broadcast, WireError>(WireError::Malformed),
        },
{
    match take_field(frame.as_slice()) {
        Ok((key, after_key)) => match take_field(after_key) {
            Ok((value, _)) => Ok(Broadcast { key, value }),
            Err(_) => Err(WireError::Malformed),
        },
        Err(_) => Err(WireError::Malformed),
    }
}

/// Takes the text at the front of `input`.
fn take_text(input: &[u8]) -> (r: Option<(String, &[u8])>)
    ensures
        match r {
            Some((text, rest)) => text_taken(input@) == Some((text@, rest@)),
            None => text_taken(input@).is_none(),
        },
{
    match take_field(input) {
        Ok((field, rest)) => match text_of(field) {
            Some(text) => Some((text, rest)),
            None => None,
        },
        Err(_) => None,
    }
}

/// A number that a run of bytes adds up to is at least what was there
/// before the run.
proof fn lemma_number_grows(input: Seq<u8>, value: nat, scale: nat)
    ensures
        number_from(input, value, scale) matches Some((n, _)) ==> n >= value,
    decreases input.len(),
{
    if input.len() > 0 && input[0] >= 128 {
        lemma_number_grows(
            input.skip(1),
            value + scale * ((input[0] - 128) as nat),
            scale * 128,
        );
        assert(scale * (input[0] - 128) >= 0) by (nonlinear_arith)
            requires
                scale >= 0,
                input[0] >= 128,
        ;
    } else if input.len() > 0 {
        assert(scale * input[0] >= 0) by (nonlinear_arith)
            requires
                scale >= 0,
                input[0] >= 0,
        ;
    }
}

/// A number is read back from its encoding, whatever follows it.
pub proof fn lemma_number_round_trip(n: nat, rest: Seq<u8>, value: nat, scale: nat)
    ensures
        number_from(varint(n) + rest, value, scale) == Some((value + scale * n, rest)),
    decreases n,
{
    let input = varint(n) + rest;
    if n < 128 {
        assert(input[0] == n as u8);
        assert(input.skip(1) =~= rest);
    } else {
        let low = (n % 128) as nat;
        assert(input[0] == (low + 128) as u8);
        assert(input.skip(1) =~= varint(n / 128) + rest);
        lemma_number_round_trip(n / 128, rest, value + scale * low, scale * 128);
        assert(value + scale * low + (scale * 128) * (n / 128) == value + scale * n)
            by (nonlinear_arith)
            requires
                low == n % 128,
        ;
    }
}

/// Takes the number at the front of `input`.
fn take_number(input: &[u8]) -> (r: Option<(usize, &[u8])>)
    ensures
        match r {
            Some((n, rest)) => number_taken(input@) == Some((n as nat, rest@)),
            None => number_taken(input@).is_none(),
        },
{
    let mut i: usize = 0;
    let mut value: usize = 0;
    let mut scale: Option<usize> = Some(1);
    let ghost mut weight: nat = 1;
    assert(input@.skip(0) =~= input@);
    while i < input.len()
        invariant
            i <= input.len(),
            weight >= 1,
            scale matches Some(s) ==> s == weight,
            scale is None ==> weight > usize::MAX,
            number_from(input@, 0, 1) == number_from(input@.skip(i as int), value as nat, weight),
        decreases input.len() - i,
    {
        let byte = input[i];
        let ghost tail = input@.skip(i as int);
        assert(tail[0] == byte);
        assert(tail.skip(1) =~= input@.skip(i + 1));
        let digit: u8 = if byte < 128 {
            byte
        } else {
            byte - 128
        };
        let ghost next = value as nat + weight * (digit as nat);
        let added: Option<usize> = if digit == 0 {
            Some(value)
        } else {
            match scale {
                Some(s) => match s.checked_mul(digit as usize) {
                    Some(part) => value.checked_add(part),
                    None => None,
                },
                None => None,
            }
        };
        proof {
            assert(weight * digit >= weight || digit == 0) by (nonlinear_arith)
                requires
                    weight >= 1,
                    digit >= 0,
            ;
            if byte >= 128 {
                lemma_number_grows(tail.skip(1), next, weight * 128);
            }
        }
        match added {
            None => {
                return None;
            },
            Some(sum) => {
                if byte < 128 {
                    return Some((sum, slice_subrange(input, i + 1, input.len())));
                }
                value = sum;
                scale = match scale {
                    Some(s) => s.checked_mul(128),
                    None => None,
                };
                proof {
                    assert(weight * 128 > weight) by (nonlinear_arith)
                        requires
                            weight >= 1,
                    ;
                    weight = weight * 128;
                }
                i = i + 1;
            },
        }
    }
    None
}

/// Reads a text from a frame: `Ok` exactly where the frame holds one.
pub fn decode_text(frame: &Vec<u8>) -> (r: Result<String, WireError>)
    ensures
        match parsed_text(frame@) {
            Some(text) => r matches Ok(t) && t@ == text,
            None => r == Err::<String, WireError>(WireError::Malformed),
        },
{
    match take_text(frame.as_slice()) {
        Some((text, _)) => Ok(text),
        None => Err(WireError::Malformed),
    }
}

/// Reads two texts from a frame: `Ok` exactly where the frame holds two.
fn decode_texts2(frame: &Vec<u8>) -> (r: Result<(String, String), WireError>)
    ensures
        match parsed_texts2(frame@) {
            Some(texts) => r matches Ok(t) && t.0@ == texts.0 && t.1@ == texts.1,
            None => r == Err::<(String, String), WireError>(WireError::Malformed),
        },
{
    match take_text(frame.as_slice()) {
        Some((first, rest)) => match take_text(rest) {
            Some((second, _)) => Ok((first, second)),
            None => Err(WireError::Malformed),
        },
        None => Err(WireError::Malformed),
    }
}

/// Reads three texts from a frame: `Ok` exactly where the frame holds three.
fn decode_texts3(frame: &Vec<u8>) -> (r: Result<(String, String, String), WireError>)
    ensures
        match parsed_texts3(frame@) {
            Some(texts) => r matches Ok(t) && t.0@ == texts.0 && t.1@ == texts.1 && t.2@
                == texts.2,
            None => r == Err::<(String, String, String), WireError>(WireError::Malformed),
        },
{
    match take_text(frame.as_slice()) {
        Some((first, rest)) => match take_text(rest) {
            Some((second, rest)) => match take_text(rest) {
                Some((third, _)) => Ok((first, second, third)),
                None => Err(WireError::Malformed),
            },
            None => Err(WireError::Malformed),
        },
        None => Err(WireError::Malformed),
    }
}

/// Reads the key of a location: `Ok` exactly where the frame holds its day,
/// time and fox.
pub fn decode_fox_key(frame: &Vec<u8>) -> (r: Result<FoxKey, WireError>)
    ensures
        match parsed_texts3(frame@) {
            Some(texts) => r matches Ok(key) && key.day@ == texts.0 && key.time@ == texts.1
                && key.fox_name@ == texts.2,
            None => r == Err::<FoxKey, WireError>(WireError::Malformed),
        },
{
    match decode_texts3(frame) {
        Ok((day, time, fox_name)) => Ok(FoxKey { day, time, fox_name }),
        Err(e) => Err(e),
    }
}

/// Reads the value of a location: `Ok` exactly where the frame holds its
/// latitude and longitude.
pub fn decode_fox(frame: &Vec<u8>) -> (r: Result<Fox, WireError>)
    ensures
        match parsed_texts2(frame@) {
            Some(texts) => r matches Ok(fox) && fox.latitude@ == texts.0 && fox.longitude@
                == texts.1,
            None => r == Err::<Fox, WireError>(WireError::Malformed),
        },
{
    match decode_texts2(frame) {
        Ok((latitude, longitude)) => Ok(Fox { latitude, longitude }),
        Err(e) => Err(e),
    }
}

/// Reads the key of a status report: `Ok` exactly where the frame holds its
/// time and area.
pub fn decode_status_key(frame: &Vec<u8>) -> (r: Result<StatusKey, WireError>)
    ensures
        match parsed_texts2(frame@) {
            Some(texts) => r matches Ok(key) && key.date_time@ == texts.0 && key.fox_name@
                == texts.1,
            None => r == Err::<StatusKey, WireError>(WireError::Malformed),
        },
{
    match decode_texts2(frame) {
        Ok((date_time, fox_name)) => Ok(StatusKey { date_time, fox_name }),
        Err(e) => Err(e),
    }
}

/// Reads the value of an article: `Ok` exactly where the frame holds its
/// title, kind and content.
pub fn decode_article(frame: &Vec<u8>) -> (r: Result<SavedArticle, WireError>)
    ensures
        match parsed_texts3(frame@) {
            Some(texts) => r matches Ok(article) && article.title@ == texts.0 && article.kind@
                == texts.1 && article.content@ == texts.2,
            None => r == Err::<SavedArticle, WireError>(WireError::Malformed),
        },
{
    match decode_texts3(frame) {
        Ok((title, kind, content)) => Ok(SavedArticle { title, kind, content }),
        Err(e) => Err(e),
    }
}

/// Reads the key of an article: `Ok` exactly where the frame holds the time
/// of its publication and a number that fits the machine's word.
pub fn decode_article_key(frame: &Vec<u8>) -> (r: Result<ArticleKey, WireError>)
    ensures
        match parsed_article_key(frame@) {
            Some(parts) => r matches Ok(key) && key.publish_at@ == parts.0 && key.id == parts.1,
            None => r == Err::<ArticleKey, WireError>(WireError::Malformed),
        },
{
    match take_text(frame.as_slice()) {
        Some((publish_at, rest)) => match take_number(rest) {
            Some((id, _)) => Ok(ArticleKey { publish_at, id }),
            None => Err(WireError::Malformed),
        },
        None => Err(WireError::Malformed),
    }
}

/// Reads a telemetry point from a frame: `Ok` exactly where the frame holds
/// one.
pub fn decode_point(frame: &Vec<u8>) -> (r: Result<Traccar, WireError>)
    ensures
        match parsed_point(frame@) {
            Some(point) => r matches Ok(p) && p@ == point,
            None => r == Err::<Traccar, WireError>(WireError::Malformed),
        },
{
    match decode_texts3(frame) {
        Ok((id, lat, lon)) => Ok(Traccar { id, lat, lon }),
        Err(e) => Err(e),
    }
}

} // verus!
