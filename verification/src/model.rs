//! The mathematical model that the contracts speak of: what a topic holds,
//! what a change does to it, and what a sequence of changes adds up to.

use vstd::prelude::*;
use crate::keys::{has_prefix, key_lt};
use crate::{AtomicEdit, Broadcast, Traccar};

verus! {

/// What a topic holds: the value stored under each present key. A key whose
/// value would be empty is absent instead.
pub type Contents = Map<Seq<u8>, Seq<u8>>;

/// A committed change as the contracts see it: `key` now holds `value`, and an
/// empty `value` means that `key` is gone.
pub struct ChangeEvent {
    pub key: Seq<u8>,
    pub value: Seq<u8>,
}

/// An edit as the contracts see it.
pub struct EditView {
    pub key: Seq<u8>,
    pub old: Seq<u8>,
    pub new: Seq<u8>,
}

impl View for Broadcast {
    type V = ChangeEvent;

    open spec fn view(&self) -> ChangeEvent {
        ChangeEvent { key: self.key@, value: self.value@ }
    }
}

impl View for AtomicEdit {
    type V = EditView;

    open spec fn view(&self) -> EditView {
        EditView { key: self.key@, old: self.old@, new: self.new@ }
    }
}

/// A telemetry point as the contracts see it.
pub struct PointView {
    pub id: Seq<char>,
    pub lat: Seq<char>,
    pub lon: Seq<char>,
}

impl View for Traccar {
    type V = PointView;

    open spec fn view(&self) -> PointView {
        PointView { id: self.id@, lat: self.lat@, lon: self.lon@ }
    }
}

/// The changes that a sequence of broadcasts stands for.
pub open spec fn changes_of(broadcasts: Seq<Broadcast>) -> Seq<ChangeEvent> {
    broadcasts.map_values(|b: Broadcast| b@)
}

/// An optional byte string as the contracts see it.
pub open spec fn opt_bytes(value: Option<Vec<u8>>) -> Option<Seq<u8>> {
    match value {
        Some(v) => Some(v@),
        None => None,
    }
}

/// The tombstone rule: an empty value is no value.
pub open spec fn present(value: Seq<u8>) -> Option<Seq<u8>> {
    if value.len() == 0 {
        None
    } else {
        Some(value)
    }
}

/// The tombstone rule on an optional value: a missing value and an empty one
/// both mean "absent".
pub open spec fn present_opt(value: Option<Seq<u8>>) -> Option<Seq<u8>> {
    match value {
        Some(v) => present(v),
        None => None,
    }
}

/// The bytes that stand for an optional value in an event: nothing for a
/// missing one.
pub open spec fn bytes_of(value: Option<Seq<u8>>) -> Seq<u8> {
    match value {
        Some(v) => v,
        None => Seq::empty(),
    }
}

/// The value stored under `key`, if any.
pub open spec fn lookup(contents: Contents, key: Seq<u8>) -> Option<Seq<u8>> {
    if contents.contains_key(key) {
        Some(contents[key])
    } else {
        None
    }
}

/// No present key holds an empty value.
pub open spec fn tombstone_free(contents: Contents) -> bool {
    forall|k: Seq<u8>| #[trigger] contents.contains_key(k) ==> contents[k].len() > 0
}

/// What a topic holds after one change: an upsert, or a delete for a tombstone.
pub open spec fn apply_change(contents: Contents, change: ChangeEvent) -> Contents {
    if change.value.len() == 0 {
        contents.remove(change.key)
    } else {
        contents.insert(change.key, change.value)
    }
}

/// What a topic holds after a sequence of changes, applied first to last.
pub open spec fn fold_changes(contents: Contents, changes: Seq<ChangeEvent>) -> Contents
    decreases changes.len(),
{
    if changes.len() == 0 {
        contents
    } else {
        apply_change(fold_changes(contents, changes.drop_last()), changes.last())
    }
}

/// The keys of `entries` rise strictly.
pub open spec fn strictly_sorted(entries: Seq<ChangeEvent>) -> bool {
    forall|i: int, j: int|
        0 <= i < j < entries.len() ==> key_lt(#[trigger] entries[i].key, #[trigger] entries[j].key)
}

/// `entries` lists exactly what `contents` holds, in key order, each key once.
pub open spec fn is_snapshot_of(entries: Seq<ChangeEvent>, contents: Contents) -> bool {
    &&& strictly_sorted(entries)
    &&& forall|i: int| 0 <= i < entries.len() ==> (#[trigger] entries[i]).value.len() > 0
    &&& forall|i: int|
        0 <= i < entries.len() ==> lookup(contents, (#[trigger] entries[i]).key) == Some(
            entries[i].value,
        )
    &&& forall|k: Seq<u8>| #[trigger]
        contents.contains_key(k) ==> exists|i: int|
            0 <= i < entries.len() && (#[trigger] entries[i]).key == k
}

/// The entries of `entries` whose keys begin with `prefix`, in the order
/// given.
pub open spec fn with_prefix(entries: Seq<ChangeEvent>, prefix: Seq<u8>) -> Seq<ChangeEvent>
    decreases entries.len(),
{
    if entries.len() == 0 {
        Seq::empty()
    } else if has_prefix(entries.last().key, prefix) {
        with_prefix(entries.drop_last(), prefix).push(entries.last())
    } else {
        with_prefix(entries.drop_last(), prefix)
    }
}

/// The value that the last change of `changes` to `key` gave it, where there
/// is such a change.
pub open spec fn last_write(changes: Seq<ChangeEvent>, key: Seq<u8>) -> Option<Seq<u8>>
    decreases changes.len(),
{
    if changes.len() == 0 {
        None
    } else if changes.last().key == key {
        Some(changes.last().value)
    } else {
        last_write(changes.drop_last(), key)
    }
}

/// Folding two runs of changes one after the other is folding them as one run.
pub proof fn lemma_fold_concat(contents: Contents, a: Seq<ChangeEvent>, b: Seq<ChangeEvent>)
    ensures
        fold_changes(contents, a + b) == fold_changes(fold_changes(contents, a), b),
    decreases b.len(),
{
    if b.len() > 0 {
        lemma_fold_concat(contents, a, b.drop_last());
        assert((a + b).drop_last() =~= a + b.drop_last());
    }
}

/// Folding a run of changes is applying its first change and folding the rest.
pub proof fn lemma_fold_first(contents: Contents, changes: Seq<ChangeEvent>)
    requires
        changes.len() > 0,
    ensures
        fold_changes(contents, changes) == fold_changes(
            apply_change(contents, changes[0]),
            changes.drop_first(),
        ),
{
    let head = seq![changes[0]];
    assert(changes =~= head + changes.drop_first());
    lemma_fold_concat(contents, head, changes.drop_first());
    assert(fold_changes(contents, head) == apply_change(
        fold_changes(contents, head.drop_last()),
        head.last(),
    ));
}

/// The last write wins: after a run of changes a key holds what the last
/// change to it says, and a key that no change names holds what it held.
pub proof fn lemma_fold_lookup(contents: Contents, changes: Seq<ChangeEvent>, key: Seq<u8>)
    ensures
        lookup(fold_changes(contents, changes), key) == match last_write(changes, key) {
            Some(value) => present(value),
            None => lookup(contents, key),
        },
    decreases changes.len(),
{
    if changes.len() > 0 {
        lemma_fold_lookup(contents, changes.drop_last(), key);
    }
}

/// A key that a beginning of a run of changes names is named by the whole run.
pub proof fn lemma_last_write_of_prefix(changes: Seq<ChangeEvent>, n: int, key: Seq<u8>)
    requires
        0 <= n <= changes.len(),
        last_write(changes.take(n), key).is_some(),
    ensures
        last_write(changes, key).is_some(),
    decreases changes.len(),
{
    if n == changes.len() {
        assert(changes.take(n) =~= changes);
    } else {
        assert(changes.drop_last().take(n) =~= changes.take(n));
        lemma_last_write_of_prefix(changes.drop_last(), n, key);
    }
}

/// Two maps that answer every lookup alike are the same map.
pub proof fn lemma_same_lookups(a: Contents, b: Contents)
    requires
        forall|k: Seq<u8>| lookup(a, k) == lookup(b, k),
    ensures
        a == b,
{
    assert forall|k: Seq<u8>| a.contains_key(k) == b.contains_key(k) by {
        assert(lookup(a, k) == lookup(b, k));
    }
    assert forall|k: Seq<u8>| a.contains_key(k) implies a[k] == b[k] by {
        assert(lookup(a, k) == lookup(b, k));
    }
}

} // verus!
