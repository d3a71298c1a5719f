//! The stream of one subscriber: a snapshot of the topic followed by every
//! change committed since the subscriber's watcher was registered.
//!
//! The watcher is registered before the snapshot is taken. A change that is
//! committed in between is then in the snapshot and in the feed as well: the
//! subscriber may see it twice, and never misses it. Applying a change twice
//! does no harm, so the subscriber's own copy ends up equal to the topic.

use vstd::prelude::*;
use crate::keys::{key_lt, lemma_key_lt_asymmetric};
use crate::model::{
    apply_change, changes_of, fold_changes, is_snapshot_of, last_write, lemma_fold_concat,
    lemma_fold_first, lemma_fold_lookup, lemma_last_write_of_prefix, lemma_same_lookups, lookup,
    ChangeEvent, Contents,
};
use crate::model::EditView;
use crate::store::{
    lemma_committed_by_prefix, lemma_feed_has_no_gaps, lemma_first_free, Store, StoreView,
};
use crate::table::Table;
use crate::wire::{decode_broadcast, parsed_broadcast, WireError};
use crate::Broadcast;

verus! {

/// Folding a snapshot into an empty copy gives the contents that the snapshot
/// was taken of.
pub proof fn lemma_snapshot_rebuilds_contents(snapshot: Seq<ChangeEvent>, contents: Contents)
    requires
        is_snapshot_of(snapshot, contents),
    ensures
        fold_changes(Map::empty(), snapshot) == contents,
    decreases snapshot.len(),
{
    if snapshot.len() > 0 {
        let last = snapshot.last();
        let rest = snapshot.drop_last();
        let fewer = contents.remove(last.key);
        assert forall|i: int, j: int| 0 <= i < j < rest.len() implies key_lt(
            #[trigger] rest[i].key,
            #[trigger] rest[j].key,
        ) by {}
        assert forall|i: int| 0 <= i < rest.len() implies lookup(fewer, (#[trigger] rest[i]).key)
            == Some(rest[i].value) by {
            lemma_key_lt_asymmetric(snapshot[i].key, last.key);
        }
        assert forall|k: Seq<u8>| #[trigger] fewer.contains_key(k) implies exists|i: int|
            0 <= i < rest.len() && (#[trigger] rest[i]).key == k by {
            let i = choose|i: int| 0 <= i < snapshot.len() && (#[trigger] snapshot[i]).key == k;
            assert(rest[i] == snapshot[i]);
        }
        assert forall|i: int| 0 <= i < rest.len() implies (#[trigger] rest[i]).value.len()
            > 0 by {}
        lemma_snapshot_rebuilds_contents(rest, fewer);
    }
}

/// Applying a run of changes a second time changes nothing: a subscriber that
/// receives changes twice ends where one that received them once does.
pub proof fn lemma_replay_is_harmless(contents: Contents, changes: Seq<ChangeEvent>)
    ensures
        fold_changes(fold_changes(contents, changes), changes) == fold_changes(contents, changes),
{
    let once = fold_changes(contents, changes);
    assert forall|k: Seq<u8>| lookup(fold_changes(once, changes), k) == lookup(once, k) by {
        lemma_fold_lookup(once, changes, k);
        lemma_fold_lookup(contents, changes, k);
    }
    lemma_same_lookups(fold_changes(once, changes), once);
}

/// A late subscriber converges. Let a topic hold `at_watch` when the
/// subscriber's watcher is registered, let `feed` be the changes committed
/// after that, and let the snapshot be taken at any moment later, after the
/// first `scanned_after` of them. The subscriber folds the snapshot and then
/// the whole feed into an empty copy, so it applies those first changes on top
/// of a snapshot that already holds them. Its copy is nevertheless what the
/// topic holds after the feed.
pub proof fn lemma_subscriber_converges(
    at_watch: Contents,
    feed: Seq<ChangeEvent>,
    scanned_after: int,
    snapshot: Seq<ChangeEvent>,
)
    requires
        0 <= scanned_after <= feed.len(),
        is_snapshot_of(snapshot, fold_changes(at_watch, feed.take(scanned_after))),
    ensures
        fold_changes(Map::empty(), snapshot + feed) == fold_changes(at_watch, feed),
{
    let at_scan = fold_changes(at_watch, feed.take(scanned_after));
    lemma_snapshot_rebuilds_contents(snapshot, at_scan);
    lemma_fold_concat(Map::empty(), snapshot, feed);
    let folded = fold_changes(at_scan, feed);
    let truth = fold_changes(at_watch, feed);
    assert forall|k: Seq<u8>| lookup(folded, k) == lookup(truth, k) by {
        lemma_fold_lookup(at_scan, feed, k);
        lemma_fold_lookup(at_watch, feed, k);
        if last_write(feed, k).is_none() {
            lemma_fold_lookup(at_watch, feed.take(scanned_after), k);
            if last_write(feed.take(scanned_after), k).is_some() {
                lemma_last_write_of_prefix(feed, scanned_after, k);
            }
        }
    }
    lemma_same_lookups(folded, truth);
}

/// A late subscriber ends with what the store holds, whatever was written
/// in the meantime. Its watcher is registered on `store`; then the edits
/// arrive, and at some moment, after the first `scanned_after` of them, its
/// snapshot is taken. Once all edits have arrived, folding the snapshot and
/// then everything in the watcher's feed into an empty copy gives exactly
/// what the store holds, although the changes committed before the
/// snapshot are in both.
pub proof fn lemma_late_subscriber_sees_the_store(
    store: StoreView,
    edits: Seq<EditView>,
    scanned_after: int,
    snapshot: Seq<ChangeEvent>,
)
    requires
        0 <= scanned_after <= edits.len(),
        is_snapshot_of(snapshot, store.watch().after_edits(edits.take(scanned_after)).contents),
    ensures
        ({
            let watcher = store.next_watcher();
            let after = store.watch().after_edits(edits);
            &&& after.is_watching(watcher)
            &&& fold_changes(Map::empty(), snapshot + after.feeds[watcher].pending)
                == after.contents
        }),
{
    let watcher = store.next_watcher();
    let watched = store.watch();
    lemma_first_free(store.feeds, 0);
    let after = watched.after_edits(edits);
    let feed = watched.committed_by(edits);
    let part = watched.committed_by(edits.take(scanned_after));
    lemma_feed_has_no_gaps(watched, edits);
    lemma_feed_has_no_gaps(watched, edits.take(scanned_after));
    lemma_committed_by_prefix(watched, edits, scanned_after);
    assert(after.feeds[watcher].pending =~= feed);
    lemma_subscriber_converges(watched.contents, feed, part.len() as int, snapshot);
}

/// A subscriber is on course: once it has folded what is left of its snapshot
/// and then what waits in its feed into its copy, the copy is what the topic
/// holds.
pub open spec fn on_course(
    copy: Contents,
    backlog: Seq<ChangeEvent>,
    pending: Seq<ChangeEvent>,
    contents: Contents,
) -> bool {
    fold_changes(fold_changes(copy, backlog), pending) == contents
}

/// A subscriber with an empty copy is on course from the moment its snapshot
/// is taken, whatever was committed between the registration of its watcher
/// and the snapshot.
pub proof fn lemma_on_course_at_snapshot(
    at_watch: Contents,
    overlap: Seq<ChangeEvent>,
    snapshot: Seq<ChangeEvent>,
)
    requires
        is_snapshot_of(snapshot, fold_changes(at_watch, overlap)),
    ensures
        on_course(Map::empty(), snapshot, overlap, fold_changes(at_watch, overlap)),
{
    lemma_snapshot_rebuilds_contents(snapshot, fold_changes(at_watch, overlap));
    lemma_replay_is_harmless(at_watch, overlap);
}

/// A subscriber that is on course stays on course when a change is committed
/// and lands in its feed, and when it applies the change that its stream
/// hands it next: the head of the backlog, or the head of the feed once the
/// backlog is used up. With nothing left to receive, its copy is the topic.
pub proof fn lemma_on_course_is_kept(
    copy: Contents,
    backlog: Seq<ChangeEvent>,
    pending: Seq<ChangeEvent>,
    contents: Contents,
    committed: ChangeEvent,
)
    requires
        on_course(copy, backlog, pending, contents),
    ensures
        on_course(copy, backlog, pending.push(committed), apply_change(contents, committed)),
        backlog.len() > 0 ==> on_course(
            apply_change(copy, backlog[0]),
            backlog.drop_first(),
            pending,
            contents,
        ),
        backlog.len() == 0 && pending.len() > 0 ==> on_course(
            apply_change(copy, pending[0]),
            backlog,
            pending.drop_first(),
            contents,
        ),
        backlog.len() == 0 && pending.len() == 0 ==> copy == contents,
{
    assert(pending.push(committed).drop_last() =~= pending);
    if backlog.len() > 0 {
        lemma_fold_first(copy, backlog);
    } else if pending.len() > 0 {
        lemma_fold_first(copy, pending);
    }
}

/// Folds a frame that a subscriber received into its copy: the change that
/// the frame holds is applied, as an upsert or a delete. A frame that holds
/// no change is refused and leaves the copy as it is.
pub fn read_data(copy: &mut Table, frame: &Vec<u8>) -> (r: Result<(), WireError>)
    requires
        old(copy).wf(),
    ensures
        final(copy).wf(),
        match parsed_broadcast(frame@) {
            Some(change) => r is Ok && final(copy)@ == apply_change(old(copy)@, change),
            None => r == Err::<(), WireError>(WireError::Malformed) && final(copy)@ == old(copy)@,
        },
{
    match decode_broadcast(frame) {
        Ok(change) => {
            copy.apply(change);
            Ok(())
        },
        Err(e) => Err(e),
    }
}

/// A stream as the contracts see it: the number of its watcher, and the part
/// of its snapshot that it has not handed out yet.
pub struct StreamerView {
    pub watcher: int,
    pub backlog: Seq<ChangeEvent>,
}

/// The stream of one subscriber.
pub struct Streamer {
    watcher: usize,
    snapshot: Vec<Broadcast>,
    sent: usize,
}

impl View for Streamer {
    type V = StreamerView;

    closed spec fn view(&self) -> StreamerView {
        StreamerView {
            watcher: self.watcher as int,
            backlog: changes_of(self.snapshot@).skip(self.sent as int),
        }
    }
}

impl Streamer {
    /// The invariant of the stream: it has handed out no more than its
    /// snapshot holds.
    pub closed spec fn wf(&self) -> bool {
        self.sent <= self.snapshot.len()
    }

    /// Opens a stream on `store`: registers a watcher first, and only then
    /// takes the snapshot.
    pub fn subscribe(store: &mut Store) -> (s: Streamer)
        requires
            old(store).wf(),
        ensures
            final(store).wf(),
            s.wf(),
            final(store)@ == old(store)@.watch(),
            s@.watcher == old(store)@.next_watcher(),
            s@.backlog == final(store).snapshot(),
            is_snapshot_of(s@.backlog, final(store)@.contents),
            on_course(
                Map::empty(),
                s@.backlog,
                final(store)@.feeds[s@.watcher].pending,
                final(store)@.contents,
            ),
    {
        let watcher = store.watch();
        let snapshot = store.scan_all();
        let s = Streamer { watcher, snapshot, sent: 0 };
        proof {
            assert(s@.backlog =~= store.snapshot());
            lemma_snapshot_rebuilds_contents(s@.backlog, store@.contents);
        }
        s
    }

    /// The number of the stream's watcher.
    pub fn watcher(&self) -> (id: usize)
        ensures
            id == self@.watcher,
    {
        self.watcher
    }

    /// The next change for the subscriber: what is left of the snapshot
    /// first, in key order, then the changes of the feed, oldest first.
    /// `None` where nothing waits at the moment.
    pub fn next(&mut self, store: &mut Store) -> (r: Option<Broadcast>)
        requires
            old(self).wf(),
            old(store).wf(),
        ensures
            final(self).wf(),
            final(store).wf(),
            final(self)@.watcher == old(self)@.watcher,
            old(self)@.backlog.len() > 0 ==> {
                &&& r.is_some()
                &&& r.unwrap()@ == old(self)@.backlog[0]
                &&& final(self)@.backlog == old(self)@.backlog.drop_first()
                &&& final(store)@ == old(store)@
            },
            old(self)@.backlog.len() == 0 ==> {
                &&& final(self)@.backlog == old(self)@.backlog
                &&& final(store)@ == old(store)@.take_event(old(self)@.watcher)
                &&& match r {
                    Some(b) => old(store)@.next_event(old(self)@.watcher) == Some(b@),
                    None => old(store)@.next_event(old(self)@.watcher).is_none(),
                }
            },
    {
        if self.sent < self.snapshot.len() {
            let b = self.snapshot[self.sent].duplicate();
            self.sent = self.sent + 1;
            Some(b)
        } else {
            store.next_event(self.watcher)
        }
    }

    /// Ends the stream: its watcher is cancelled.
    pub fn close(self, store: &mut Store)
        requires
            old(store).wf(),
        ensures
            final(store).wf(),
            final(store)@ == old(store)@.unwatch(self@.watcher),
    {
        store.unwatch(self.watcher);
    }
}

} // verus!
