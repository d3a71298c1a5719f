//! The copy of a topic as a client reads it: keys and values decoded, and
//! listed in the order of the keys as the client knows them, which is not the
//! order of their bytes.

use vstd::prelude::*;
use crate::domain::{ArticleKey, Fox, FoxKey, SavedArticle, StatusKey};
use crate::text::{
    lemma_text_lt_asymmetric, lemma_text_lt_total, lemma_text_lt_transitive, same_text,
    text_before, text_lt,
};
use crate::wire::{
    decode_article, decode_article_key, decode_fox, decode_fox_key, decode_status_key,
    decode_text, parsed_article_key, parsed_text, parsed_texts2, parsed_texts3, WireError,
};
use crate::Broadcast;

verus! {

/// A key that a client knows the order of.
pub trait TypedKey: Sized {
    /// This key comes strictly before the other.
    spec fn comes_before(&self, other: &Self) -> bool;

    /// Whether this key comes strictly before the other.
    fn is_before(&self, other: &Self) -> (r: bool)
        ensures
            r == self.comes_before(other),
    ;

    /// The order is transitive.
    proof fn lemma_transitive(a: &Self, b: &Self, c: &Self)
        requires
            a.comes_before(b),
            b.comes_before(c),
        ensures
            a.comes_before(c),
    ;

    /// Of two keys at most one comes before the other.
    proof fn lemma_asymmetric(a: &Self, b: &Self)
        requires
            a.comes_before(b),
        ensures
            !b.comes_before(a),
    ;

    /// Two keys of which neither comes before the other stand at the same
    /// place in the order.
    proof fn lemma_same_place(a: &Self, b: &Self, c: &Self)
        requires
            !a.comes_before(b),
            !b.comes_before(a),
        ensures
            a.comes_before(c) == b.comes_before(c),
            c.comes_before(a) == c.comes_before(b),
    ;
}

/// The order of pairs of texts: by the first text, then by the second.
pub open spec fn texts2_lt(a: (Seq<char>, Seq<char>), b: (Seq<char>, Seq<char>)) -> bool {
    text_lt(a.0, b.0) || (a.0 == b.0 && text_lt(a.1, b.1))
}

/// The order of pairs of texts is a strict total order.
pub proof fn lemma_texts2_order(
    a: (Seq<char>, Seq<char>),
    b: (Seq<char>, Seq<char>),
    c: (Seq<char>, Seq<char>),
)
    ensures
        texts2_lt(a, b) && texts2_lt(b, c) ==> texts2_lt(a, c),
        texts2_lt(a, b) ==> !texts2_lt(b, a),
        !texts2_lt(a, b) && !texts2_lt(b, a) ==> a == b,
{
    lemma_text_lt_total(a.0, b.0);
    lemma_text_lt_total(a.1, b.1);
    if text_lt(a.0, b.0) {
        lemma_text_lt_asymmetric(a.0, b.0);
        if text_lt(b.0, c.0) {
            lemma_text_lt_transitive(a.0, b.0, c.0);
        }
    }
    if text_lt(b.0, a.0) {
        lemma_text_lt_asymmetric(b.0, a.0);
    }
    if text_lt(a.1, b.1) {
        lemma_text_lt_asymmetric(a.1, b.1);
        if text_lt(b.1, c.1) {
            lemma_text_lt_transitive(a.1, b.1, c.1);
        }
    }
    if text_lt(b.1, a.1) {
        lemma_text_lt_asymmetric(b.1, a.1);
    }
}

impl FoxKey {
    /// The texts that order the keys of locations: day, then time and fox.
    pub open spec fn rank(&self) -> (Seq<char>, (Seq<char>, Seq<char>)) {
        (self.day@, (self.time@, self.fox_name@))
    }

    /// The texts of the key: day, time and fox.
    pub open spec fn rank3(&self) -> (Seq<char>, Seq<char>, Seq<char>) {
        (self.day@, self.time@, self.fox_name@)
    }
}

/// The order of the keys of locations: by day, then by time, then by fox.
pub open spec fn fox_rank_lt(
    a: (Seq<char>, (Seq<char>, Seq<char>)),
    b: (Seq<char>, (Seq<char>, Seq<char>)),
) -> bool {
    text_lt(a.0, b.0) || (a.0 == b.0 && texts2_lt(a.1, b.1))
}

/// The order of the keys of locations is a strict total order.
pub proof fn lemma_fox_rank_order(
    a: (Seq<char>, (Seq<char>, Seq<char>)),
    b: (Seq<char>, (Seq<char>, Seq<char>)),
    c: (Seq<char>, (Seq<char>, Seq<char>)),
)
    ensures
        fox_rank_lt(a, b) && fox_rank_lt(b, c) ==> fox_rank_lt(a, c),
        fox_rank_lt(a, b) ==> !fox_rank_lt(b, a),
        !fox_rank_lt(a, b) && !fox_rank_lt(b, a) ==> a == b,
{
    lemma_text_lt_total(a.0, b.0);
    lemma_texts2_order(a.1, b.1, c.1);
    lemma_texts2_order(b.1, a.1, c.1);
    if text_lt(a.0, b.0) {
        lemma_text_lt_asymmetric(a.0, b.0);
        if text_lt(b.0, c.0) {
            lemma_text_lt_transitive(a.0, b.0, c.0);
        }
    }
    if text_lt(b.0, a.0) {
        lemma_text_lt_asymmetric(b.0, a.0);
    }
}

impl TypedKey for FoxKey {
    open spec fn comes_before(&self, other: &Self) -> bool {
        fox_rank_lt(self.rank(), other.rank())
    }

    fn is_before(&self, other: &Self) -> (r: bool) {
        if text_before(self.day.as_str(), other.day.as_str()) {
            true
        } else if !same_text(self.day.as_str(), other.day.as_str()) {
            false
        } else if text_before(self.time.as_str(), other.time.as_str()) {
            true
        } else if !same_text(self.time.as_str(), other.time.as_str()) {
            false
        } else {
            text_before(self.fox_name.as_str(), other.fox_name.as_str())
        }
    }

    proof fn lemma_transitive(a: &Self, b: &Self, c: &Self) {
        lemma_fox_rank_order(a.rank(), b.rank(), c.rank());
    }

    proof fn lemma_asymmetric(a: &Self, b: &Self) {
        lemma_fox_rank_order(a.rank(), b.rank(), b.rank());
    }

    proof fn lemma_same_place(a: &Self, b: &Self, c: &Self) {
        lemma_fox_rank_order(a.rank(), b.rank(), c.rank());
    }
}

impl StatusKey {
    /// The texts that order the keys of status reports: time, then area.
    pub open spec fn rank(&self) -> (Seq<char>, Seq<char>) {
        (self.date_time@, self.fox_name@)
    }
}

impl TypedKey for StatusKey {
    open spec fn comes_before(&self, other: &Self) -> bool {
        texts2_lt(self.rank(), other.rank())
    }

    fn is_before(&self, other: &Self) -> (r: bool) {
        if text_before(self.date_time.as_str(), other.date_time.as_str()) {
            true
        } else if !same_text(self.date_time.as_str(), other.date_time.as_str()) {
            false
        } else {
            text_before(self.fox_name.as_str(), other.fox_name.as_str())
        }
    }

    proof fn lemma_transitive(a: &Self, b: &Self, c: &Self) {
        lemma_texts2_order(a.rank(), b.rank(), c.rank());
    }

    proof fn lemma_asymmetric(a: &Self, b: &Self) {
        lemma_texts2_order(a.rank(), b.rank(), b.rank());
    }

    proof fn lemma_same_place(a: &Self, b: &Self, c: &Self) {
        lemma_texts2_order(a.rank(), b.rank(), c.rank());
    }
}

/// The order of the keys of articles: by the time of publication, then by
/// number.
pub open spec fn article_rank_lt(a: (Seq<char>, nat), b: (Seq<char>, nat)) -> bool {
    text_lt(a.0, b.0) || (a.0 == b.0 && a.1 < b.1)
}

impl ArticleKey {
    /// What orders the keys of articles: time of publication, then number.
    pub open spec fn rank(&self) -> (Seq<char>, nat) {
        (self.publish_at@, self.id as nat)
    }
}

impl TypedKey for ArticleKey {
    open spec fn comes_before(&self, other: &Self) -> bool {
        article_rank_lt(self.rank(), other.rank())
    }

    fn is_before(&self, other: &Self) -> (r: bool) {
        if text_before(self.publish_at.as_str(), other.publish_at.as_str()) {
            true
        } else if !same_text(self.publish_at.as_str(), other.publish_at.as_str()) {
            false
        } else {
            self.id < other.id
        }
    }

    proof fn lemma_transitive(a: &Self, b: &Self, c: &Self) {
        lemma_text_lt_total(a.publish_at@, b.publish_at@);
        if text_lt(a.publish_at@, b.publish_at@) {
            if text_lt(b.publish_at@, c.publish_at@) {
                lemma_text_lt_transitive(a.publish_at@, b.publish_at@, c.publish_at@);
            }
        }
    }

    proof fn lemma_asymmetric(a: &Self, b: &Self) {
        if text_lt(a.publish_at@, b.publish_at@) {
            lemma_text_lt_asymmetric(a.publish_at@, b.publish_at@);
        }
        if text_lt(b.publish_at@, a.publish_at@) {
            lemma_text_lt_asymmetric(b.publish_at@, a.publish_at@);
        }
    }

    proof fn lemma_same_place(a: &Self, b: &Self, c: &Self) {
        lemma_text_lt_total(a.publish_at@, b.publish_at@);
    }
}

/// A list with an entry put at its place: before the first entry whose key
/// does not come before the new key, and in the place of that entry where
/// the two keys stand at the same place.
pub open spec fn placed<K: TypedKey, V>(list: Seq<(K, V)>, key: K, value: V) -> Seq<(K, V)>
    decreases list.len(),
{
    if list.len() == 0 {
        seq![(key, value)]
    } else if list[0].0.comes_before(&key) {
        seq![list[0]] + placed(list.drop_first(), key, value)
    } else if key.comes_before(&list[0].0) {
        seq![(key, value)] + list
    } else {
        seq![(key, value)] + list.drop_first()
    }
}

/// The keys of the list rise strictly.
pub open spec fn rises<K: TypedKey, V>(list: Seq<(K, V)>) -> bool {
    forall|i: int, j: int|
        0 <= i < j < list.len() ==> (#[trigger] list[i]).0.comes_before(&(#[trigger] list[j]).0)
}

/// The entries of `list` put one by one, first to last, at their places in
/// `sorted`: where two keys stand at the same place, the later entry stays.
pub open spec fn placed_all<K: TypedKey, V>(sorted: Seq<(K, V)>, list: Seq<(K, V)>) -> Seq<(K, V)>
    decreases list.len(),
{
    if list.len() == 0 {
        sorted
    } else {
        placed_all(placed(sorted, list[0].0, list[0].1), list.drop_first())
    }
}

/// The list in the order of its keys: as a map that is filled with its
/// entries lists them.
pub open spec fn ordered<K: TypedKey, V>(list: Seq<(K, V)>) -> Seq<(K, V)> {
    placed_all(Seq::empty(), list)
}

/// Puts an entry at its place in a list.
pub fn place<K: TypedKey, V>(list: &mut Vec<(K, V)>, key: K, value: V)
    ensures
        final(list)@ == placed(old(list)@, key, value),
{
    let ghost all = list@;
    let mut i: usize = 0;
    assert(all.skip(0) =~= all);
    assert(all.take(0) + placed(all, key, value) =~= placed(all, key, value));
    while i < list.len() && list[i].0.is_before(&key)
        invariant
            i <= list.len(),
            list@ == all,
            placed(all, key, value) == all.take(i as int) + placed(all.skip(i as int), key, value),
        decreases list.len() - i,
    {
        proof {
            let rest = all.skip(i as int);
            assert(rest[0] == all[i as int]);
            assert(rest.drop_first() =~= all.skip(i + 1));
            assert(all.take(i as int) + (seq![rest[0]] + placed(all.skip(i + 1), key, value))
                =~= all.take(i + 1) + placed(all.skip(i + 1), key, value));
        }
        i = i + 1;
    }
    proof {
        let rest = all.skip(i as int);
        if i < all.len() {
            assert(rest[0] == all[i as int]);
            assert(rest.drop_first() =~= all.skip(i + 1));
        }
    }
    if i < list.len() && !key.is_before(&list[i].0) {
        list.set(i, (key, value));
        assert(list@ =~= all.take(i as int) + (seq![(key, value)] + all.skip(i + 1)));
    } else {
        list.insert(i, (key, value));
        proof {
            if i < all.len() {
                assert(list@ =~= all.take(i as int) + (seq![(key, value)] + all.skip(i as int)));
            } else {
                assert(list@ =~= all.take(i as int) + seq![(key, value)]);
            }
        }
    }
}

/// The list in the order of its keys.
pub fn sorted_by_key<K: TypedKey, V>(list: Vec<(K, V)>) -> (r: Vec<(K, V)>)
    ensures
        r@ == ordered(list@),
{
    let ghost all = list@;
    let mut list = list;
    let mut r: Vec<(K, V)> = Vec::new();
    while list.len() > 0
        invariant
            placed_all(r@, list@) == ordered(all),
        decreases list.len(),
    {
        let ghost before = list@;
        let (key, value) = list.remove(0);
        assert(list@ =~= before.drop_first());
        place(&mut r, key, value);
    }
    r
}

/// An entry at its place keeps a rising list rising.
pub proof fn lemma_placed_rises<K: TypedKey, V>(list: Seq<(K, V)>, key: K, value: V)
    requires
        rises(list),
    ensures
        rises(placed(list, key, value)),
        forall|low: K|
            (forall|i: int| 0 <= i < list.len() ==> low.comes_before(&(#[trigger] list[i]).0))
                && low.comes_before(&key) ==> forall|i: int|
                0 <= i < placed(list, key, value).len() ==> low.comes_before(
                    &(#[trigger] placed(list, key, value)[i]).0,
                ),
    decreases list.len(),
{
    let after = placed(list, key, value);
    if list.len() == 0 {
    } else if list[0].0.comes_before(&key) {
        let rest = list.drop_first();
        assert forall|i: int, j: int| 0 <= i < j < rest.len() implies (
        #[trigger] rest[i]).0.comes_before(&(#[trigger] rest[j]).0) by {
            assert(rest[i] == list[i + 1] && rest[j] == list[j + 1]);
        }
        lemma_placed_rises(rest, key, value);
        let tail = placed(rest, key, value);
        assert forall|i: int| 0 <= i < rest.len() implies list[0].0.comes_before(
            &(#[trigger] rest[i]).0,
        ) by {
            assert(rest[i] == list[i + 1]);
        }
        assert forall|i: int, j: int| 0 <= i < j < after.len() implies (
        #[trigger] after[i]).0.comes_before(&(#[trigger] after[j]).0) by {
            assert(after[j] == tail[j - 1]);
            if i > 0 {
                assert(after[i] == tail[i - 1]);
            }
        }
        assert forall|low: K|
            (forall|i: int| 0 <= i < list.len() ==> low.comes_before(&(#[trigger] list[i]).0))
                && low.comes_before(&key) implies forall|i: int|
            0 <= i < after.len() ==> low.comes_before(&(#[trigger] after[i]).0) by {
            assert forall|i: int| 0 <= i < after.len() implies low.comes_before(
                &(#[trigger] after[i]).0,
            ) by {
                if i > 0 {
                    assert(after[i] == tail[i - 1]);
                    assert forall|k: int| 0 <= k < rest.len() implies low.comes_before(
                        &(#[trigger] rest[k]).0,
                    ) by {
                        assert(rest[k] == list[k + 1]);
                    }
                } else {
                    assert(after[0] == list[0]);
                }
            }
        }
    } else if key.comes_before(&list[0].0) {
        assert forall|i: int, j: int| 0 <= i < j < after.len() implies (
        #[trigger] after[i]).0.comes_before(&(#[trigger] after[j]).0) by {
            assert(after[j] == list[j - 1]);
            if i > 0 {
                assert(after[i] == list[i - 1]);
            } else if j > 1 {
                K::lemma_transitive(&key, &list[0].0, &list[j - 1].0);
            }
        }
        assert forall|low: K|
            (forall|i: int| 0 <= i < list.len() ==> low.comes_before(&(#[trigger] list[i]).0))
                && low.comes_before(&key) implies forall|i: int|
            0 <= i < after.len() ==> low.comes_before(&(#[trigger] after[i]).0) by {
            assert forall|i: int| 0 <= i < after.len() implies low.comes_before(
                &(#[trigger] after[i]).0,
            ) by {
                if i > 0 {
                    assert(after[i] == list[i - 1]);
                }
            }
        }
    } else {
        let rest = list.drop_first();
        assert forall|i: int, j: int| 0 <= i < j < after.len() implies (
        #[trigger] after[i]).0.comes_before(&(#[trigger] after[j]).0) by {
            assert(after[j] == list[j]);
            if i > 0 {
                assert(after[i] == list[i]);
            } else {
                K::lemma_same_place(&key, &list[0].0, &list[j].0);
            }
        }
        assert forall|low: K|
            (forall|i: int| 0 <= i < list.len() ==> low.comes_before(&(#[trigger] list[i]).0))
                && low.comes_before(&key) implies forall|i: int|
            0 <= i < after.len() ==> low.comes_before(&(#[trigger] after[i]).0) by {
            assert forall|i: int| 0 <= i < after.len() implies low.comes_before(
                &(#[trigger] after[i]).0,
            ) by {
                if i > 0 {
                    assert(after[i] == list[i]);
                }
            }
        }
    }
}

/// A list in the order of its keys rises strictly: no key stands twice, and
/// each comes before the next.
pub proof fn lemma_ordered_rises<K: TypedKey, V>(sorted: Seq<(K, V)>, list: Seq<(K, V)>)
    requires
        rises(sorted),
    ensures
        rises(placed_all(sorted, list)),
    decreases list.len(),
{
    if list.len() > 0 {
        lemma_placed_rises(sorted, list[0].0, list[0].1);
        lemma_ordered_rises(placed(sorted, list[0].0, list[0].1), list.drop_first());
    }
}

/// The locations that a run of entries holds, in the order of the entries.
/// `Err` where an entry holds no location.
pub fn decode_locations(entries: &Vec<Broadcast>) -> (r: Result<Vec<(FoxKey, Fox)>, WireError>)
    ensures
        match r {
            Ok(list) => {
                &&& list@.len() == entries@.len()
                &&& forall|i: int|
                    0 <= i < list@.len() ==> {
                        &&& parsed_texts3(entries@[i].key@) == Some((#[trigger] list@[i]).0.rank3())
                        &&& parsed_texts2(entries@[i].value@) == Some(
                            (list@[i].1.latitude@, list@[i].1.longitude@),
                        )
                    }
            },
            Err(e) => e == WireError::Malformed && exists|i: int|
                0 <= i < entries@.len() && (parsed_texts3((#[trigger] entries@[i]).key@).is_none()
                    || parsed_texts2(entries@[i].value@).is_none()),
        },
{
    let mut list: Vec<(FoxKey, Fox)> = Vec::new();
    let mut i: usize = 0;
    while i < entries.len()
        invariant
            i <= entries.len(),
            list@.len() == i,
            forall|j: int|
                0 <= j < i ==> {
                    &&& parsed_texts3(entries@[j].key@) == Some((#[trigger] list@[j]).0.rank3())
                    &&& parsed_texts2(entries@[j].value@) == Some(
                        (list@[j].1.latitude@, list@[j].1.longitude@),
                    )
                },
        decreases entries.len() - i,
    {
        let key = match decode_fox_key(&entries[i].key) {
            Ok(key) => key,
            Err(e) => {
                return Err(e);
            },
        };
        let fox = match decode_fox(&entries[i].value) {
            Ok(fox) => fox,
            Err(e) => {
                return Err(e);
            },
        };
        list.push((key, fox));
        i = i + 1;
    }
    Ok(list)
}

/// The status reports that a run of entries holds, in the order of the
/// entries. `Err` where an entry holds no status report.
pub fn decode_reports(entries: &Vec<Broadcast>) -> (r: Result<Vec<(StatusKey, String)>, WireError>)
    ensures
        match r {
            Ok(list) => {
                &&& list@.len() == entries@.len()
                &&& forall|i: int|
                    0 <= i < list@.len() ==> {
                        &&& parsed_texts2(entries@[i].key@) == Some((#[trigger] list@[i]).0.rank())
                        &&& parsed_text(entries@[i].value@) == Some(list@[i].1@)
                    }
            },
            Err(e) => e == WireError::Malformed && exists|i: int|
                0 <= i < entries@.len() && (parsed_texts2((#[trigger] entries@[i]).key@).is_none()
                    || parsed_text(entries@[i].value@).is_none()),
        },
{
    let mut list: Vec<(StatusKey, String)> = Vec::new();
    let mut i: usize = 0;
    while i < entries.len()
        invariant
            i <= entries.len(),
            list@.len() == i,
            forall|j: int|
                0 <= j < i ==> {
                    &&& parsed_texts2(entries@[j].key@) == Some((#[trigger] list@[j]).0.rank())
                    &&& parsed_text(entries@[j].value@) == Some(list@[j].1@)
                },
        decreases entries.len() - i,
    {
        let key = match decode_status_key(&entries[i].key) {
            Ok(key) => key,
            Err(e) => {
                return Err(e);
            },
        };
        let status = match decode_text(&entries[i].value) {
            Ok(status) => status,
            Err(e) => {
                return Err(e);
            },
        };
        list.push((key, status));
        i = i + 1;
    }
    Ok(list)
}

/// The articles that a run of entries holds, in the order of the entries.
/// `Err` where an entry holds no article.
pub fn decode_articles(entries: &Vec<Broadcast>) -> (r: Result<
    Vec<(ArticleKey, SavedArticle)>,
    WireError,
>)
    ensures
        match r {
            Ok(list) => {
                &&& list@.len() == entries@.len()
                &&& forall|i: int|
                    0 <= i < list@.len() ==> {
                        &&& parsed_article_key(entries@[i].key@) == Some(
                            (#[trigger] list@[i]).0.rank(),
                        )
                        &&& parsed_texts3(entries@[i].value@) == Some(
                            (list@[i].1.title@, list@[i].1.kind@, list@[i].1.content@),
                        )
                    }
            },
            Err(e) => e == WireError::Malformed && exists|i: int|
                0 <= i < entries@.len() && (parsed_article_key(
                    (#[trigger] entries@[i]).key@,
                ).is_none() || parsed_texts3(entries@[i].value@).is_none()),
        },
{
    let mut list: Vec<(ArticleKey, SavedArticle)> = Vec::new();
    let mut i: usize = 0;
    while i < entries.len()
        invariant
            i <= entries.len(),
            list@.len() == i,
            forall|j: int|
                0 <= j < i ==> {
                    &&& parsed_article_key(entries@[j].key@) == Some(
                        (#[trigger] list@[j]).0.rank(),
                    )
                    &&& parsed_texts3(entries@[j].value@) == Some(
                        (list@[j].1.title@, list@[j].1.kind@, list@[j].1.content@),
                    )
                },
        decreases entries.len() - i,
    {
        let key = match decode_article_key(&entries[i].key) {
            Ok(key) => key,
            Err(e) => {
                return Err(e);
            },
        };
        let article = match decode_article(&entries[i].value) {
            Ok(article) => article,
            Err(e) => {
                return Err(e);
            },
        };
        list.push((key, article));
        i = i + 1;
    }
    Ok(list)
}

} // verus!
