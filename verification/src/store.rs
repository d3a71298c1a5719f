//! The versioned store of one topic: ordered keyed storage whose only write is
//! a compare-and-swap, with a feed of committed changes for every watcher.

use vstd::prelude::*;
use crate::keys::same_bytes;
use crate::model::{
    apply_change, bytes_of, changes_of, fold_changes, is_snapshot_of, lookup, opt_bytes, present,
    present_opt, tombstone_free, with_prefix, ChangeEvent, Contents, EditView,
};
use crate::table::Table;
use crate::Broadcast;

verus! {

/// The feed of one watcher as the contracts see it: whether it is still
/// registered, and the changes committed since that it has not taken yet,
/// oldest first.
pub struct Feed {
    pub active: bool,
    pub pending: Seq<ChangeEvent>,
}

/// A store as the contracts see it: what it holds, and the feeds of its
/// watchers by watcher number. The number of a watcher that was cancelled is
/// free and goes to the next watcher that registers.
pub struct StoreView {
    pub contents: Contents,
    pub feeds: Seq<Feed>,
}

/// The lowest free watcher number from `from` on: that of a cancelled watcher,
/// or the number after the last.
pub open spec fn first_free(feeds: Seq<Feed>, from: int) -> int
    decreases feeds.len() - from,
{
    if from < 0 || from >= feeds.len() {
        feeds.len() as int
    } else if !feeds[from].active {
        from
    } else {
        first_free(feeds, from + 1)
    }
}

/// The lowest free number is a number within the list whose watcher is
/// cancelled, or the number after the last.
pub proof fn lemma_first_free(feeds: Seq<Feed>, from: int)
    requires
        0 <= from <= feeds.len(),
    ensures
        from <= first_free(feeds, from) <= feeds.len(),
        first_free(feeds, from) < feeds.len() ==> !feeds[first_free(feeds, from)].active,
    decreases feeds.len() - from,
{
    if from < feeds.len() && feeds[from].active {
        lemma_first_free(feeds, from + 1);
    }
}

/// The feed after `change` was committed: a registered watcher gets the change
/// at the end of its feed, a cancelled one gets nothing.
pub open spec fn feed_after(feed: Feed, change: ChangeEvent) -> Feed {
    if feed.active {
        Feed { active: true, pending: feed.pending.push(change) }
    } else {
        feed
    }
}

impl StoreView {
    /// A compare-and-swap on `key` applies exactly when the stored value, or
    /// its absence, is what the caller expects. An empty expectation means
    /// "absent".
    pub open spec fn cas_applies(self, key: Seq<u8>, expected_old: Option<Seq<u8>>) -> bool {
        lookup(self.contents, key) == present_opt(expected_old)
    }

    /// The store after `change` was committed: the contents take the change,
    /// and every registered watcher finds it at the end of its feed.
    pub open spec fn publish(self, change: ChangeEvent) -> StoreView {
        StoreView {
            contents: apply_change(self.contents, change),
            feeds: Seq::new(self.feeds.len(), |i: int| feed_after(self.feeds[i], change)),
        }
    }

    /// The store after a compare-and-swap: one committed change if it
    /// applies, nothing at all if it does not.
    pub open spec fn compare_and_swap(
        self,
        key: Seq<u8>,
        expected_old: Option<Seq<u8>>,
        new: Option<Seq<u8>>,
    ) -> StoreView {
        if self.cas_applies(key, expected_old) {
            self.publish(ChangeEvent { key, value: bytes_of(new) })
        } else {
            self
        }
    }

    /// The store after an edit arrived: a compare-and-swap on the edit's key,
    /// in which an empty old value means "absent" and an empty new value
    /// deletes.
    pub open spec fn after_edit(self, edit: EditView) -> StoreView {
        self.compare_and_swap(edit.key, present(edit.old), present(edit.new))
    }

    /// The store after a run of edits arrived, first to last.
    pub open spec fn after_edits(self, edits: Seq<EditView>) -> StoreView
        decreases edits.len(),
    {
        if edits.len() == 0 {
            self
        } else {
            self.after_edits(edits.drop_last()).after_edit(edits.last())
        }
    }

    /// The changes that a run of edits commits: one for each edit that
    /// applies when its turn comes, in the order of the edits.
    pub open spec fn committed_by(self, edits: Seq<EditView>) -> Seq<ChangeEvent>
        decreases edits.len(),
    {
        if edits.len() == 0 {
            Seq::empty()
        } else {
            let earlier = self.committed_by(edits.drop_last());
            let last = edits.last();
            if self.after_edits(edits.drop_last()).cas_applies(last.key, present(last.old)) {
                earlier.push(ChangeEvent { key: last.key, value: last.new })
            } else {
                earlier
            }
        }
    }

    /// Making `key` hold `value` takes a write: the key does not hold the
    /// value yet, or, for an empty value, is not absent yet.
    pub open spec fn upsert_writes(self, key: Seq<u8>, value: Seq<u8>) -> bool {
        lookup(self.contents, key) != present(value)
    }

    /// The store after `key` was made to hold `value`: where it holds the
    /// value already, nothing happens; else one change is committed.
    pub open spec fn upsert(self, key: Seq<u8>, value: Seq<u8>) -> StoreView {
        if self.upsert_writes(key, value) {
            self.publish(ChangeEvent { key, value })
        } else {
            self
        }
    }

    /// Watcher number `id` is registered.
    pub open spec fn is_watching(self, id: int) -> bool {
        0 <= id < self.feeds.len() && self.feeds[id].active
    }

    /// The number that the next watcher gets: the lowest free one.
    pub open spec fn next_watcher(self) -> int {
        first_free(self.feeds, 0)
    }

    /// The store after a new watcher was registered: it gets the lowest
    /// free number and an empty feed.
    pub open spec fn watch(self) -> StoreView {
        let fresh = Feed { active: true, pending: Seq::empty() };
        StoreView {
            contents: self.contents,
            feeds: if self.next_watcher() < self.feeds.len() {
                self.feeds.update(self.next_watcher(), fresh)
            } else {
                self.feeds.push(fresh)
            },
        }
    }

    /// The next change that watcher `id` will take, if it is registered and
    /// its feed holds one.
    pub open spec fn next_event(self, id: int) -> Option<ChangeEvent> {
        if self.is_watching(id) && self.feeds[id].pending.len() > 0 {
            Some(self.feeds[id].pending[0])
        } else {
            None
        }
    }

    /// The store after watcher `id` took the next change of its feed.
    pub open spec fn take_event(self, id: int) -> StoreView {
        if self.next_event(id).is_some() {
            StoreView {
                contents: self.contents,
                feeds: self.feeds.update(
                    id,
                    Feed { active: true, pending: self.feeds[id].pending.drop_first() },
                ),
            }
        } else {
            self
        }
    }

    /// The store after watcher `id` was cancelled: its feed is dropped and
    /// gets nothing from then on.
    pub open spec fn unwatch(self, id: int) -> StoreView {
        if self.is_watching(id) {
            StoreView {
                contents: self.contents,
                feeds: self.feeds.update(id, Feed { active: false, pending: Seq::empty() }),
            }
        } else {
            self
        }
    }
}

/// A compare-and-swap applies exactly when the expected value is the stored
/// one. Where it applies, the key takes the new value and every registered
/// watcher finds exactly one more change in its feed, the one for this write;
/// a cancelled watcher finds nothing. Where it does not apply, the store is
/// as it was: nothing stored differs and no feed has grown.
pub proof fn lemma_compare_and_swap(
    store: StoreView,
    key: Seq<u8>,
    expected_old: Option<Seq<u8>>,
    new: Option<Seq<u8>>,
)
    ensures
        store.cas_applies(key, expected_old) <==> lookup(store.contents, key) == present_opt(
            expected_old,
        ),
        store.cas_applies(key, expected_old) ==> {
            let after = store.compare_and_swap(key, expected_old, new);
            &&& lookup(after.contents, key) == present_opt(new)
            &&& forall|k: Seq<u8>|
                k != key ==> lookup(after.contents, k) == lookup(store.contents, k)
            &&& after.feeds.len() == store.feeds.len()
            &&& forall|id: int|
                store.is_watching(id) ==> after.is_watching(id) && (
                #[trigger] after.feeds[id]).pending == store.feeds[id].pending.push(
                    ChangeEvent { key, value: bytes_of(new) },
                )
            &&& forall|id: int|
                0 <= id < store.feeds.len() && !store.is_watching(id) ==> (
                #[trigger] after.feeds[id]) == store.feeds[id]
        },
        !store.cas_applies(key, expected_old) ==> store.compare_and_swap(key, expected_old, new)
            == store,
{
}

/// A feed has no gaps. Whatever run of edits arrives, the store then holds
/// what the committed changes add up to, and every watcher that was
/// registered before the run finds exactly the committed changes at the end
/// of its feed, each once, in the order in which they were committed. Edits
/// that did not apply leave no trace.
pub proof fn lemma_feed_has_no_gaps(store: StoreView, edits: Seq<EditView>)
    ensures
        store.after_edits(edits).contents == fold_changes(
            store.contents,
            store.committed_by(edits),
        ),
        store.after_edits(edits).feeds.len() == store.feeds.len(),
        forall|id: int|
            0 <= id < store.feeds.len() ==> (#[trigger] store.after_edits(edits).feeds[id]).active
                == store.feeds[id].active,
        forall|id: int|
            store.is_watching(id) ==> (#[trigger] store.after_edits(edits).feeds[id]).pending
                == store.feeds[id].pending + store.committed_by(edits),
        forall|id: int|
            0 <= id < store.feeds.len() && !store.is_watching(id) ==> (
            #[trigger] store.after_edits(edits).feeds[id]) == store.feeds[id],
    decreases edits.len(),
{
    if edits.len() == 0 {
        assert forall|id: int| store.is_watching(id) implies store.feeds[id].pending
            == store.feeds[id].pending + store.committed_by(edits) by {}
    } else {
        let fewer = edits.drop_last();
        let last = edits.last();
        lemma_feed_has_no_gaps(store, fewer);
        let before = store.after_edits(fewer);
        let after = store.after_edits(edits);
        if before.cas_applies(last.key, present(last.old)) {
            assert(bytes_of(present(last.new)) =~= last.new);
            assert(store.committed_by(edits).drop_last() =~= store.committed_by(fewer));
            assert forall|id: int| store.is_watching(id) implies (
            #[trigger] after.feeds[id]).pending
                == store.feeds[id].pending + store.committed_by(edits) by {}
        }
    }
}

/// What a beginning of a run of edits commits is a beginning of what the
/// whole run commits.
pub proof fn lemma_committed_by_prefix(store: StoreView, edits: Seq<EditView>, n: int)
    requires
        0 <= n <= edits.len(),
    ensures
        store.committed_by(edits.take(n)).len() <= store.committed_by(edits).len(),
        store.committed_by(edits.take(n)) == store.committed_by(edits).take(
            store.committed_by(edits.take(n)).len() as int,
        ),
    decreases edits.len(),
{
    if n == edits.len() {
        assert(edits.take(n) =~= edits);
    } else {
        let fewer = edits.drop_last();
        assert(fewer.take(n) =~= edits.take(n));
        lemma_committed_by_prefix(store, fewer, n);
    }
}

/// Of two writers that both expect the value `seen` under `key`, only the
/// first to reach the store wins, provided that it really changes the value:
/// the second write does not apply and changes nothing, so every watcher, the
/// loser's included, is told of the winner's value and of nothing else.
pub proof fn lemma_race_has_one_winner(
    store: StoreView,
    key: Seq<u8>,
    seen: Option<Seq<u8>>,
    winner: Option<Seq<u8>>,
    loser: Option<Seq<u8>>,
)
    requires
        store.cas_applies(key, seen),
        present_opt(winner) != present_opt(seen),
    ensures
        ({
            let after_first = store.compare_and_swap(key, seen, winner);
            let after_both = after_first.compare_and_swap(key, seen, loser);
            &&& !after_first.cas_applies(key, seen)
            &&& after_both == after_first
            &&& lookup(after_both.contents, key) == present_opt(winner)
            &&& forall|id: int|
                store.is_watching(id) ==> (#[trigger] after_both.feeds[id]).pending
                    == store.feeds[id].pending.push(ChangeEvent { key, value: bytes_of(winner) })
        }),
{
}

/// Deleting a key that is already absent leaves the contents as they are, and
/// where the writer expected a value there, the write does not apply: the
/// store is unchanged and no watcher hears of it.
pub proof fn lemma_delete_absent(store: StoreView, key: Seq<u8>, expected_old: Option<Seq<u8>>)
    requires
        lookup(store.contents, key).is_none(),
    ensures
        store.compare_and_swap(key, expected_old, None).contents == store.contents,
        present_opt(expected_old).is_some() ==> store.compare_and_swap(key, expected_old, None)
            == store,
{
}

/// Deleting a stored value and then storing the identical value again brings
/// the contents back, and every registered watcher is told of both writes:
/// first the tombstone, then the value, two different changes.
pub proof fn lemma_delete_then_reinsert(store: StoreView, key: Seq<u8>, value: Seq<u8>)
    requires
        lookup(store.contents, key) == Some(value),
        value.len() > 0,
    ensures
        ({
            let deleted = store.compare_and_swap(key, Some(value), None);
            let restored = deleted.compare_and_swap(key, None, Some(value));
            let tombstone = ChangeEvent { key, value: Seq::empty() };
            let upsert = ChangeEvent { key, value };
            &&& lookup(deleted.contents, key).is_none()
            &&& restored.contents == store.contents
            &&& tombstone != upsert
            &&& forall|id: int|
                store.is_watching(id) ==> (#[trigger] restored.feeds[id]).pending
                    == store.feeds[id].pending.push(tombstone).push(upsert)
        }),
{
    let deleted = store.compare_and_swap(key, Some(value), None);
    let restored = deleted.compare_and_swap(key, None, Some(value));
}

/// The feed of one watcher.
struct Watcher {
    active: bool,
    pending: Vec<Broadcast>,
}

impl Watcher {
    spec fn feed(self) -> Feed {
        Feed { active: self.active, pending: changes_of(self.pending@) }
    }
}

/// The versioned store of one topic.
///
/// It holds the topic's keyed values, and for every watcher the changes that
/// were committed since the watcher registered and that it has not taken yet.
pub struct Store {
    table: Table,
    watchers: Vec<Watcher>,
}

impl View for Store {
    type V = StoreView;

    closed spec fn view(&self) -> StoreView {
        StoreView {
            contents: self.table@,
            feeds: Seq::new(self.watchers@.len(), |i: int| self.watchers@[i].feed()),
        }
    }
}

impl Store {
    /// The entries of the store in key order.
    pub closed spec fn snapshot(&self) -> Seq<ChangeEvent> {
        self.table.snapshot()
    }

    /// The invariant of the store: its entries rise strictly by key and none
    /// holds an empty value.
    pub closed spec fn wf(&self) -> bool {
        self.table.wf()
    }

    /// The snapshot of a well-formed store lists exactly its contents, and the
    /// contents hold no tombstone.
    pub proof fn lemma_snapshot(&self)
        requires
            self.wf(),
        ensures
            is_snapshot_of(self.snapshot(), self@.contents),
            tombstone_free(self@.contents),
    {
        self.table.lemma_snapshot();
    }

    /// An empty store without watchers.
    pub fn new() -> (s: Store)
        ensures
            s.wf(),
            s@.contents == Map::<Seq<u8>, Seq<u8>>::empty(),
            s@.feeds == Seq::<Feed>::empty(),
            s.snapshot() == Seq::<ChangeEvent>::empty(),
    {
        let s = Store { table: Table::new(), watchers: Vec::new() };
        s
    }

    /// A store without watchers that holds what `entries` add up to when they
    /// are applied first to last: what a store is filled with when the server
    /// starts.
    pub fn restore(entries: &Vec<Broadcast>) -> (s: Store)
        ensures
            s.wf(),
            s@.contents == fold_changes(Map::empty(), changes_of(entries@)),
            s@.feeds == Seq::<Feed>::empty(),
    {
        let ghost all = changes_of(entries@);
        let mut table = Table::new();
        let mut done: usize = 0;
        while done < entries.len()
            invariant
                table.wf(),
                done <= entries.len(),
                all == changes_of(entries@),
                table@ == fold_changes(Map::empty(), all.take(done as int)),
            decreases entries.len() - done,
        {
            table.apply(entries[done].duplicate());
            assert(all.take(done + 1).drop_last() =~= all.take(done as int));
            done = done + 1;
        }
        assert(all.take(done as int) =~= all);
        let s = Store { table, watchers: Vec::new() };
        s
    }

    /// The value stored under `key`, or `None` where the key is absent.
    pub fn get(&self, key: &Vec<u8>) -> (r: Option<Vec<u8>>)
        requires
            self.wf(),
        ensures
            match r {
                Some(v) => lookup(self@.contents, key@) == Some(v@) && v@.len() > 0,
                None => lookup(self@.contents, key@).is_none(),
            },
    {
        self.table.get(key)
    }

    /// Hands `event` to every registered watcher.
    fn notify(&mut self, event: &Broadcast)
        ensures
            final(self).table == old(self).table,
            final(self)@.feeds == Seq::new(
                old(self)@.feeds.len(),
                |i: int| feed_after(old(self)@.feeds[i], event@),
            ),
    {
        let mut i: usize = 0;
        while i < self.watchers.len()
            invariant
                self.table == old(self).table,
                self.watchers.len() == old(self).watchers.len(),
                i <= self.watchers.len(),
                forall|j: int|
                    0 <= j < i ==> (#[trigger] self.watchers@[j]).feed() == feed_after(
                        old(self).watchers@[j].feed(),
                        event@,
                    ),
                forall|j: int|
                    i <= j < self.watchers.len() ==> #[trigger] self.watchers@[j]
                        == old(self).watchers@[j],
            decreases self.watchers.len() - i,
        {
            if self.watchers[i].active {
                let copy = event.duplicate();
                let ghost before = self.watchers@[i as int].pending@;
                self.watchers[i].pending.push(copy);
                assert(changes_of(self.watchers@[i as int].pending@) =~= changes_of(before).push(
                    event@,
                ));
            }
            i = i + 1;
        }
    }

    /// Stores `new` under `key` if the value stored there now, or its
    /// absence, is `expected_old`, and tells whether it did.
    ///
    /// An empty or missing `new` deletes the key; an empty `expected_old`
    /// means the same as a missing one. Where the write applies, every
    /// registered watcher gets one change. Where it does not, nothing changes
    /// and no watcher hears of it.
    pub fn compare_and_swap(
        &mut self,
        key: Vec<u8>,
        expected_old: Option<Vec<u8>>,
        new: Option<Vec<u8>>,
    ) -> (applied: bool)
        requires
            old(self).wf(),
        ensures
            final(self).wf(),
            applied == old(self)@.cas_applies(key@, opt_bytes(expected_old)),
            final(self)@ == old(self)@.compare_and_swap(
                key@,
                opt_bytes(expected_old),
                opt_bytes(new),
            ),
    {
        if !self.table.holds(&key, &expected_old) {
            return false;
        }
        let value = match new {
            Some(v) => v,
            None => Vec::new(),
        };
        let event = Broadcast { key, value };
        self.table.apply(event.duplicate());
        self.notify(&event);
        true
    }

    /// Whether a compare-and-swap on `key` that expects `expected_old` would
    /// apply now.
    pub fn would_apply(&self, key: &Vec<u8>, expected_old: &Option<Vec<u8>>) -> (r: bool)
        requires
            self.wf(),
        ensures
            r == self@.cas_applies(key@, opt_bytes(*expected_old)),
    {
        self.table.holds(key, expected_old)
    }

    /// Whether making `key` hold `value` would take a write now.
    pub fn would_upsert(&self, key: &Vec<u8>, value: &Vec<u8>) -> (r: bool)
        requires
            self.wf(),
        ensures
            r == self@.upsert_writes(key@, value@),
    {
        let current = self.table.get(key);
        match &current {
            Some(held) => !same_bytes(held, value),
            None => value.len() > 0,
        }
    }

    /// Makes sure that `key` holds `value`, and tells whether it had to write.
    /// Where the key holds the value already, nothing happens and no watcher
    /// hears of it; else the value is written over whatever was there, by a
    /// compare-and-swap on what is there, and every watcher gets the change.
    /// An empty `value` stands for absence, here as everywhere.
    pub fn upsert(&mut self, key: Vec<u8>, value: Vec<u8>) -> (written: bool)
        requires
            old(self).wf(),
        ensures
            final(self).wf(),
            written == old(self)@.upsert_writes(key@, value@),
            final(self)@ == old(self)@.upsert(key@, value@),
    {
        let current = self.table.get(&key);
        let same = match &current {
            Some(held) => same_bytes(held, &value),
            None => value.len() == 0,
        };
        if same {
            return false;
        }
        proof {
            self.lemma_snapshot();
        }
        self.compare_and_swap(key, current, Some(value))
    }

    /// Everything the store holds, in key order.
    pub fn scan_all(&self) -> (r: Vec<Broadcast>)
        requires
            self.wf(),
        ensures
            changes_of(r@) == self.snapshot(),
            is_snapshot_of(self.snapshot(), self@.contents),
    {
        self.table.scan_all()
    }

    /// What the store holds under the keys that begin with `prefix`, in key
    /// order. Where a key is made of the name of a thing and the time of a
    /// report on it, the last entry under the name is the latest report.
    pub fn scan_prefix(&self, prefix: &Vec<u8>) -> (r: Vec<Broadcast>)
        requires
            self.wf(),
        ensures
            changes_of(r@) == with_prefix(self.snapshot(), prefix@),
    {
        self.table.scan_prefix(prefix)
    }

    /// Registers a watcher and returns its number: the lowest one that is
    /// free. It gets every change that is committed from now on.
    pub fn watch(&mut self) -> (id: usize)
        requires
            old(self).wf(),
        ensures
            final(self).wf(),
            id == old(self)@.next_watcher(),
            final(self)@ == old(self)@.watch(),
            final(self)@.is_watching(id as int),
            final(self)@.feeds[id as int].pending == Seq::<ChangeEvent>::empty(),
            final(self).snapshot() == old(self).snapshot(),
    {
        let mut id: usize = 0;
        while id < self.watchers.len() && self.watchers[id].active
            invariant
                id <= self.watchers.len(),
                self.watchers == old(self).watchers,
                self.table == old(self).table,
                first_free(self@.feeds, 0) == first_free(self@.feeds, id as int),
            decreases self.watchers.len() - id,
        {
            id = id + 1;
        }
        proof {
            lemma_first_free(self@.feeds, id as int);
            assert(changes_of(Seq::<Broadcast>::empty()) =~= Seq::<ChangeEvent>::empty());
        }
        if id < self.watchers.len() {
            self.watchers.set(id, Watcher { active: true, pending: Vec::new() });
        } else {
            self.watchers.push(Watcher { active: true, pending: Vec::new() });
        }
        assert(self@.feeds =~= old(self)@.watch().feeds);
        id
    }

    /// Whether watcher `id` is registered.
    pub fn is_watching(&self, id: usize) -> (r: bool)
        ensures
            r == self@.is_watching(id as int),
    {
        id < self.watchers.len() && self.watchers[id].active
    }

    /// Takes the oldest change that watcher `id` has not taken yet. `None`
    /// where nothing is waiting or the watcher is not registered.
    pub fn next_event(&mut self, id: usize) -> (r: Option<Broadcast>)
        requires
            old(self).wf(),
        ensures
            final(self).wf(),
            final(self).snapshot() == old(self).snapshot(),
            final(self)@ == old(self)@.take_event(id as int),
            match r {
                Some(b) => old(self)@.next_event(id as int) == Some(b@),
                None => old(self)@.next_event(id as int).is_none(),
            },
    {
        if id < self.watchers.len() && self.watchers[id].active && self.watchers[id].pending.len()
            > 0 {
            let ghost before = self.watchers@[id as int].pending@;
            let b = self.watchers[id].pending.remove(0);
            assert(changes_of(self.watchers@[id as int].pending@) =~= changes_of(
                before,
            ).drop_first());
            assert(self@.feeds =~= old(self)@.take_event(id as int).feeds);
            Some(b)
        } else {
            None
        }
    }

    /// Cancels watcher `id`: what waits in its feed is dropped, and it gets
    /// nothing more. Nothing happens where it is not registered.
    pub fn unwatch(&mut self, id: usize)
        requires
            old(self).wf(),
        ensures
            final(self).wf(),
            final(self).snapshot() == old(self).snapshot(),
            final(self)@ == old(self)@.unwatch(id as int),
    {
        if id < self.watchers.len() && self.watchers[id].active {
            self.watchers.set(id, Watcher { active: false, pending: Vec::new() });
            assert(changes_of(Seq::<Broadcast>::empty()) =~= Seq::<ChangeEvent>::empty());
            assert(self@.feeds =~= old(self)@.unwatch(id as int).feeds);
        }
    }
}

} // verus!
