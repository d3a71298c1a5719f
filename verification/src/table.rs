//! A table of keyed values kept in key order: what a store holds, and what a
//! subscriber folds the changes it receives into.

use vstd::prelude::*;
use crate::keys::{
    copy_bytes, key_lt, key_order, lemma_key_lt_asymmetric, lemma_key_lt_transitive, same_bytes,
    starts_with, KeyOrder,
};
use crate::model::{
    apply_change, changes_of, is_snapshot_of, lemma_same_lookups, lookup, opt_bytes, present_opt,
    strictly_sorted, tombstone_free, with_prefix, ChangeEvent, Contents,
};
use crate::Broadcast;

verus! {

/// `entries` holds an entry for `key`.
pub open spec fn holds_key(entries: Seq<ChangeEvent>, key: Seq<u8>) -> bool {
    exists|i: int| 0 <= i < entries.len() && (#[trigger] entries[i]).key == key
}

/// The place of an entry for `key` in `entries`.
pub open spec fn index_of(entries: Seq<ChangeEvent>, key: Seq<u8>) -> int {
    choose|i: int| 0 <= i < entries.len() && (#[trigger] entries[i]).key == key
}

/// The map from each key of `entries` to the value listed with it.
pub open spec fn map_of(entries: Seq<ChangeEvent>) -> Contents {
    Map::new(
        |k: Seq<u8>| holds_key(entries, k),
        |k: Seq<u8>| entries[index_of(entries, k)].value,
    )
}

/// In a strictly sorted list every key stands once, so the map of the list
/// gives each listed key the value listed with it.
pub proof fn lemma_map_of_entry(entries: Seq<ChangeEvent>, i: int)
    requires
        strictly_sorted(entries),
        0 <= i < entries.len(),
    ensures
        lookup(map_of(entries), entries[i].key) == Some(entries[i].value),
{
    let k = entries[i].key;
    let j = index_of(entries, k);
    if j < i {
        lemma_key_lt_asymmetric(entries[j].key, entries[i].key);
    } else if i < j {
        lemma_key_lt_asymmetric(entries[i].key, entries[j].key);
    }
}

/// A strictly sorted list of non-empty values is the snapshot of its map.
pub proof fn lemma_map_of_snapshot(entries: Seq<ChangeEvent>)
    requires
        strictly_sorted(entries),
        forall|i: int| 0 <= i < entries.len() ==> (#[trigger] entries[i]).value.len() > 0,
    ensures
        is_snapshot_of(entries, map_of(entries)),
        tombstone_free(map_of(entries)),
{
    assert forall|i: int| 0 <= i < entries.len() implies lookup(
        map_of(entries),
        (#[trigger] entries[i]).key,
    ) == Some(entries[i].value) by {
        lemma_map_of_entry(entries, i);
    }
    assert forall|k: Seq<u8>| #[trigger] map_of(entries).contains_key(k) implies map_of(
        entries,
    )[k].len() > 0 by {
        let j = index_of(entries, k);
        assert(entries[j].key == k);
    }
}

/// `key` belongs at place `at` of `entries`: every entry before it has a
/// smaller key, every entry from it on a greater one.
pub open spec fn is_gap(entries: Seq<ChangeEvent>, at: int, key: Seq<u8>) -> bool {
    &&& 0 <= at <= entries.len()
    &&& forall|i: int| 0 <= i < at ==> key_lt((#[trigger] entries[i]).key, key)
    &&& forall|i: int| at <= i < entries.len() ==> key_lt(key, (#[trigger] entries[i]).key)
}

/// A key that belongs in a gap of the list is not in its map.
pub proof fn lemma_gap_is_absent(entries: Seq<ChangeEvent>, at: int, key: Seq<u8>)
    requires
        is_gap(entries, at, key),
    ensures
        !map_of(entries).contains_key(key),
{
    if holds_key(entries, key) {
        let j = index_of(entries, key);
        if j < at {
            lemma_key_lt_asymmetric(entries[j].key, key);
        } else {
            lemma_key_lt_asymmetric(key, entries[j].key);
        }
    }
}

/// Putting a new entry into its gap keeps the list sorted and adds the entry
/// to its map.
pub proof fn lemma_insert_entry(entries: Seq<ChangeEvent>, at: int, entry: ChangeEvent)
    requires
        strictly_sorted(entries),
        is_gap(entries, at, entry.key),
    ensures
        strictly_sorted(entries.insert(at, entry)),
        map_of(entries.insert(at, entry)) == map_of(entries).insert(entry.key, entry.value),
{
    let after = entries.insert(at, entry);
    assert forall|i: int, j: int| 0 <= i < j < after.len() implies key_lt(
        #[trigger] after[i].key,
        #[trigger] after[j].key,
    ) by {}
    let target = map_of(entries).insert(entry.key, entry.value);
    assert forall|k: Seq<u8>| lookup(map_of(after), k) == lookup(target, k) by {
        if holds_key(after, k) {
            let j = index_of(after, k);
            lemma_map_of_entry(after, j);
            if j < at {
                lemma_map_of_entry(entries, j);
                lemma_key_lt_asymmetric(entries[j].key, entry.key);
            } else if j > at {
                lemma_map_of_entry(entries, j - 1);
                lemma_key_lt_asymmetric(entry.key, entries[j - 1].key);
            }
        } else {
            assert(after[at] == entry);
            if holds_key(entries, k) {
                let i = index_of(entries, k);
                if i < at {
                    assert(after[i] == entries[i]);
                } else {
                    assert(after[i + 1] == entries[i]);
                }
            }
        }
    }
    lemma_same_lookups(map_of(after), target);
}

/// Giving a listed key a new value keeps the list sorted and updates its map.
pub proof fn lemma_update_entry(entries: Seq<ChangeEvent>, at: int, value: Seq<u8>)
    requires
        strictly_sorted(entries),
        0 <= at < entries.len(),
    ensures
        strictly_sorted(entries.update(at, ChangeEvent { key: entries[at].key, value })),
        map_of(entries.update(at, ChangeEvent { key: entries[at].key, value })) == map_of(
            entries,
        ).insert(entries[at].key, value),
{
    let key = entries[at].key;
    let after = entries.update(at, ChangeEvent { key, value });
    assert forall|i: int, j: int| 0 <= i < j < after.len() implies key_lt(
        #[trigger] after[i].key,
        #[trigger] after[j].key,
    ) by {}
    let target = map_of(entries).insert(key, value);
    assert forall|k: Seq<u8>| lookup(map_of(after), k) == lookup(target, k) by {
        if holds_key(after, k) {
            let j = index_of(after, k);
            lemma_map_of_entry(after, j);
            if j != at {
                lemma_map_of_entry(entries, j);
                if j < at {
                    lemma_key_lt_asymmetric(entries[j].key, key);
                } else {
                    lemma_key_lt_asymmetric(key, entries[j].key);
                }
            }
        } else {
            if holds_key(entries, k) {
                let i = index_of(entries, k);
                assert(after[i].key == entries[i].key);
            }
        }
    }
    lemma_same_lookups(map_of(after), target);
}

/// Taking a listed entry out keeps the list sorted and removes its key from
/// the map.
pub proof fn lemma_remove_entry(entries: Seq<ChangeEvent>, at: int)
    requires
        strictly_sorted(entries),
        0 <= at < entries.len(),
    ensures
        strictly_sorted(entries.remove(at)),
        map_of(entries.remove(at)) == map_of(entries).remove(entries[at].key),
{
    let key = entries[at].key;
    let after = entries.remove(at);
    assert forall|i: int, j: int| 0 <= i < j < after.len() implies key_lt(
        #[trigger] after[i].key,
        #[trigger] after[j].key,
    ) by {}
    let target = map_of(entries).remove(key);
    assert forall|k: Seq<u8>| lookup(map_of(after), k) == lookup(target, k) by {
        if holds_key(after, k) {
            let j = index_of(after, k);
            lemma_map_of_entry(after, j);
            if j < at {
                lemma_map_of_entry(entries, j);
                lemma_key_lt_asymmetric(entries[j].key, key);
            } else {
                lemma_map_of_entry(entries, j + 1);
                lemma_key_lt_asymmetric(key, entries[j + 1].key);
            }
        } else {
            if k != key && holds_key(entries, k) {
                let i = index_of(entries, k);
                if i < at {
                    assert(after[i] == entries[i]);
                } else {
                    assert(after[i - 1] == entries[i]);
                }
            }
        }
    }
    lemma_same_lookups(map_of(after), target);
}

/// Keyed values in key order. No key is listed twice and no value is empty:
/// a key whose value would be empty is absent.
pub struct Table {
    entries: Vec<Broadcast>,
}

impl View for Table {
    type V = Contents;

    closed spec fn view(&self) -> Contents {
        map_of(self.snapshot())
    }
}

impl Table {
    /// The entries of the table in key order.
    pub closed spec fn snapshot(&self) -> Seq<ChangeEvent> {
        changes_of(self.entries@)
    }

    /// The invariant of the table: its entries rise strictly by key and none
    /// holds an empty value.
    pub closed spec fn wf(&self) -> bool {
        &&& strictly_sorted(self.snapshot())
        &&& forall|i: int|
            0 <= i < self.snapshot().len() ==> (#[trigger] self.snapshot()[i]).value.len() > 0
    }

    /// The snapshot of a well-formed table lists exactly its contents, and the
    /// contents hold no tombstone.
    pub proof fn lemma_snapshot(&self)
        requires
            self.wf(),
        ensures
            is_snapshot_of(self.snapshot(), self@),
            tombstone_free(self@),
    {
        lemma_map_of_snapshot(self.snapshot());
    }

    /// An empty table.
    pub fn new() -> (t: Table)
        ensures
            t.wf(),
            t@ == Map::<Seq<u8>, Seq<u8>>::empty(),
            t.snapshot() == Seq::<ChangeEvent>::empty(),
    {
        let t = Table { entries: Vec::new() };
        t
    }

    /// How many keys are present.
    pub fn len(&self) -> (n: usize)
        ensures
            n == self.snapshot().len(),
    {
        self.entries.len()
    }

    /// Finds `key` by binary search: the place of its entry, or the gap where
    /// it belongs.
    fn locate(&self, key: &Vec<u8>) -> (r: (usize, bool))
        requires
            self.wf(),
        ensures
            r.0 <= self.snapshot().len(),
            r.1 ==> r.0 < self.snapshot().len() && self.snapshot()[r.0 as int].key == key@,
            !r.1 ==> is_gap(self.snapshot(), r.0 as int, key@),
    {
        let ghost entries = self.snapshot();
        let mut lo: usize = 0;
        let mut hi: usize = self.entries.len();
        while lo < hi
            invariant
                entries == self.snapshot(),
                strictly_sorted(entries),
                lo <= hi <= entries.len(),
                entries.len() == self.entries.len(),
                forall|i: int| 0 <= i < lo ==> key_lt((#[trigger] entries[i]).key, key@),
                forall|i: int|
                    hi <= i < entries.len() ==> key_lt(key@, (#[trigger] entries[i]).key),
            decreases hi - lo,
        {
            let mid: usize = lo + (hi - lo) / 2;
            match key_order(&self.entries[mid].key, key) {
                KeyOrder::Same => {
                    return (mid, true);
                },
                KeyOrder::Before => {
                    assert forall|i: int| 0 <= i < mid + 1 implies key_lt(
                        (#[trigger] entries[i]).key,
                        key@,
                    ) by {
                        if i < mid {
                            lemma_key_lt_transitive(entries[i].key, entries[mid as int].key, key@);
                        }
                    }
                    lo = mid + 1;
                },
                KeyOrder::After => {
                    assert forall|i: int| mid <= i < entries.len() implies key_lt(
                        key@,
                        (#[trigger] entries[i]).key,
                    ) by {
                        if mid < i {
                            lemma_key_lt_transitive(key@, entries[mid as int].key, entries[i].key);
                        }
                    }
                    hi = mid;
                },
            }
        }
        (lo, false)
    }

    /// The value stored under `key`, or `None` where the key is absent.
    pub fn get(&self, key: &Vec<u8>) -> (r: Option<Vec<u8>>)
        requires
            self.wf(),
        ensures
            match r {
                Some(v) => lookup(self@, key@) == Some(v@) && v@.len() > 0,
                None => lookup(self@, key@).is_none(),
            },
    {
        let (at, found) = self.locate(key);
        if found {
            proof {
                lemma_map_of_entry(self.snapshot(), at as int);
            }
            Some(copy_bytes(&self.entries[at].value))
        } else {
            proof {
                lemma_gap_is_absent(self.snapshot(), at as int, key@);
            }
            None
        }
    }

    /// Whether the value stored under `key`, or its absence, is `expected`.
    /// An empty `expected` means the same as a missing one: absent.
    pub fn holds(&self, key: &Vec<u8>, expected: &Option<Vec<u8>>) -> (r: bool)
        requires
            self.wf(),
        ensures
            r == (lookup(self@, key@) == present_opt(opt_bytes(*expected))),
    {
        let (at, found) = self.locate(key);
        proof {
            if found {
                lemma_map_of_entry(self.snapshot(), at as int);
            } else {
                lemma_gap_is_absent(self.snapshot(), at as int, key@);
            }
        }
        match expected {
            Some(o) => {
                if o.len() > 0 {
                    found && same_bytes(&self.entries[at].value, o)
                } else {
                    !found
                }
            },
            None => !found,
        }
    }

    /// Applies one change: an upsert, or a delete where the value is empty.
    pub fn apply(&mut self, change: Broadcast)
        requires
            old(self).wf(),
        ensures
            final(self).wf(),
            final(self)@ == apply_change(old(self)@, change@),
    {
        let ghost before = self.snapshot();
        let (at, found) = self.locate(&change.key);
        if change.value.len() == 0 {
            if found {
                self.entries.remove(at);
                proof {
                    assert(self.snapshot() =~= before.remove(at as int));
                    lemma_remove_entry(before, at as int);
                }
            } else {
                proof {
                    lemma_gap_is_absent(before, at as int, change@.key);
                }
            }
        } else {
            if found {
                self.entries.set(at, change);
                proof {
                    assert(self.snapshot() =~= before.update(
                        at as int,
                        ChangeEvent { key: before[at as int].key, value: change@.value },
                    ));
                    lemma_update_entry(before, at as int, change@.value);
                }
            } else {
                self.entries.insert(at, change);
                proof {
                    assert(self.snapshot() =~= before.insert(at as int, change@));
                    lemma_insert_entry(before, at as int, change@);
                }
            }
        }
    }

    /// Everything the table holds, in key order.
    pub fn scan_all(&self) -> (r: Vec<Broadcast>)
        requires
            self.wf(),
        ensures
            changes_of(r@) == self.snapshot(),
            is_snapshot_of(self.snapshot(), self@),
    {
        let mut r: Vec<Broadcast> = Vec::new();
        let mut i: usize = 0;
        while i < self.entries.len()
            invariant
                i <= self.entries.len(),
                r.len() == i,
                forall|j: int| 0 <= j < i ==> (#[trigger] r@[j])@ == self.entries@[j]@,
            decreases self.entries.len() - i,
        {
            r.push(self.entries[i].duplicate());
            i = i + 1;
        }
        proof {
            self.lemma_snapshot();
        }
        r
    }

    /// What the table holds under the keys that begin with `prefix`, in key
    /// order. The last entry is the one with the greatest such key.
    pub fn scan_prefix(&self, prefix: &Vec<u8>) -> (r: Vec<Broadcast>)
        requires
            self.wf(),
        ensures
            changes_of(r@) == with_prefix(self.snapshot(), prefix@),
    {
        let mut r: Vec<Broadcast> = Vec::new();
        let mut i: usize = 0;
        while i < self.entries.len()
            invariant
                i <= self.entries.len(),
                changes_of(r@) == with_prefix(self.snapshot().take(i as int), prefix@),
            decreases self.entries.len() - i,
        {
            let ghost before = changes_of(r@);
            assert(self.snapshot().take(i + 1).drop_last() =~= self.snapshot().take(i as int));
            if starts_with(&self.entries[i].key, prefix) {
                r.push(self.entries[i].duplicate());
                assert(changes_of(r@) =~= before.push(self.snapshot()[i as int]));
            }
            i = i + 1;
        }
        assert(self.snapshot().take(self.entries.len() as int) =~= self.snapshot());
        r
    }
}

} // verus!
