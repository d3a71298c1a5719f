//! The relay of live telemetry: every point that is published goes to every
//! viewer that is subscribed at that moment.
//!
//! Each viewer has a buffer of its own with room for as many points as the
//! relay's capacity. A viewer that does not keep pace loses its oldest points
//! and is told how many it missed; nobody else is held up by it.

use vstd::prelude::*;
use crate::model::PointView;
use crate::Traccar;

verus! {

/// A viewer as the contracts see it: whether it is still subscribed, the
/// points that wait for it, oldest first, and how many points it lost since
/// it was last told.
pub struct ViewerView {
    pub active: bool,
    pub queue: Seq<PointView>,
    pub missed: nat,
}

/// A relay as the contracts see it.
pub struct RelayView {
    pub capacity: nat,
    pub open: bool,
    pub viewers: Seq<ViewerView>,
}

/// What a viewer gets when it asks for its next point.
pub enum ReceivedView {
    /// The oldest point that waited.
    Point(PointView),
    /// The viewer fell behind and lost this many points; it goes on with the
    /// oldest point that is still there.
    Lagged(nat),
    /// Nothing waits yet.
    Empty,
    /// The relay was closed and nothing is left, or the viewer is not
    /// subscribed.
    Closed,
}

/// The count of lost points after one more was lost. It stops at the largest
/// number that the count can hold.
pub open spec fn one_more_missed(missed: nat) -> nat {
    if missed < u64::MAX {
        missed + 1
    } else {
        missed
    }
}

/// A viewer after `point` was published: with room in its buffer the point
/// joins the end; with a full buffer the oldest point is dropped for it and
/// counted as missed. A viewer that has left gets nothing.
pub open spec fn viewer_after(viewer: ViewerView, point: PointView, capacity: nat) -> ViewerView {
    if !viewer.active {
        viewer
    } else if viewer.queue.len() < capacity {
        ViewerView { active: true, queue: viewer.queue.push(point), missed: viewer.missed }
    } else {
        ViewerView {
            active: true,
            queue: viewer.queue.drop_first().push(point),
            missed: one_more_missed(viewer.missed),
        }
    }
}

/// The lowest free viewer number from `from` on: that of a viewer that left,
/// or the number after the last.
pub open spec fn first_free(viewers: Seq<ViewerView>, from: int) -> int
    decreases viewers.len() - from,
{
    if from < 0 || from >= viewers.len() {
        viewers.len() as int
    } else if !viewers[from].active {
        from
    } else {
        first_free(viewers, from + 1)
    }
}

/// The lowest free number is a number within the list whose viewer has left,
/// or the number after the last.
pub proof fn lemma_first_free(viewers: Seq<ViewerView>, from: int)
    requires
        0 <= from <= viewers.len(),
    ensures
        from <= first_free(viewers, from) <= viewers.len(),
        first_free(viewers, from) < viewers.len() ==> !viewers[first_free(viewers, from)].active,
    decreases viewers.len() - from,
{
    if from < viewers.len() && viewers[from].active {
        lemma_first_free(viewers, from + 1);
    }
}

/// How many of the first `n` viewers are subscribed.
pub open spec fn active_among(viewers: Seq<ViewerView>, n: int) -> nat
    decreases n,
{
    if n <= 0 {
        0
    } else {
        active_among(viewers, n - 1) + if viewers[n - 1].active {
            1nat
        } else {
            0nat
        }
    }
}

impl RelayView {
    /// Every buffer is within the capacity, and the capacity is not zero.
    pub open spec fn wf(self) -> bool {
        &&& self.capacity > 0
        &&& forall|i: int|
            0 <= i < self.viewers.len() ==> (#[trigger] self.viewers[i]).queue.len()
                <= self.capacity
    }

    /// Viewer number `id` is subscribed.
    pub open spec fn is_viewing(self, id: int) -> bool {
        0 <= id < self.viewers.len() && self.viewers[id].active
    }

    /// The relay after `point` was published. A closed relay takes no points.
    pub open spec fn publish(self, point: PointView) -> RelayView {
        if self.open {
            RelayView {
                capacity: self.capacity,
                open: true,
                viewers: Seq::new(
                    self.viewers.len(),
                    |i: int| viewer_after(self.viewers[i], point, self.capacity),
                ),
            }
        } else {
            self
        }
    }

    /// The relay after a run of points was published, first to last.
    pub open spec fn publish_all(self, points: Seq<PointView>) -> RelayView
        decreases points.len(),
    {
        if points.len() == 0 {
            self
        } else {
            self.publish_all(points.drop_last()).publish(points.last())
        }
    }

    /// The number that the next viewer gets: the lowest free one.
    pub open spec fn next_viewer(self) -> int {
        first_free(self.viewers, 0)
    }

    /// The relay after a viewer subscribed: it gets the lowest free number
    /// and an empty buffer.
    pub open spec fn subscribe(self) -> RelayView {
        let fresh = ViewerView { active: true, queue: Seq::empty(), missed: 0 };
        RelayView {
            capacity: self.capacity,
            open: self.open,
            viewers: if self.next_viewer() < self.viewers.len() {
                self.viewers.update(self.next_viewer(), fresh)
            } else {
                self.viewers.push(fresh)
            },
        }
    }

    /// What viewer `id` gets when it asks for its next point.
    pub open spec fn received(self, id: int) -> ReceivedView {
        if !self.is_viewing(id) {
            ReceivedView::Closed
        } else if self.viewers[id].missed > 0 {
            ReceivedView::Lagged(self.viewers[id].missed)
        } else if self.viewers[id].queue.len() > 0 {
            ReceivedView::Point(self.viewers[id].queue[0])
        } else if self.open {
            ReceivedView::Empty
        } else {
            ReceivedView::Closed
        }
    }

    /// The relay after viewer `id` asked for its next point: a count of
    /// missed points is handed over and cleared, or else the oldest point
    /// leaves the buffer.
    pub open spec fn after_receive(self, id: int) -> RelayView {
        if !self.is_viewing(id) {
            self
        } else if self.viewers[id].missed > 0 {
            RelayView {
                capacity: self.capacity,
                open: self.open,
                viewers: self.viewers.update(
                    id,
                    ViewerView { active: true, queue: self.viewers[id].queue, missed: 0 },
                ),
            }
        } else if self.viewers[id].queue.len() > 0 {
            RelayView {
                capacity: self.capacity,
                open: self.open,
                viewers: self.viewers.update(
                    id,
                    ViewerView {
                        active: true,
                        queue: self.viewers[id].queue.drop_first(),
                        missed: 0,
                    },
                ),
            }
        } else {
            self
        }
    }

    /// The relay after viewer `id` left: its buffer is dropped.
    pub open spec fn unsubscribe(self, id: int) -> RelayView {
        if self.is_viewing(id) {
            RelayView {
                capacity: self.capacity,
                open: self.open,
                viewers: self.viewers.update(
                    id,
                    ViewerView { active: false, queue: Seq::empty(), missed: 0 },
                ),
            }
        } else {
            self
        }
    }

    /// The relay after it was closed: it takes no more points, and what
    /// waits in the buffers can still be received.
    pub open spec fn close(self) -> RelayView {
        RelayView { capacity: self.capacity, open: false, viewers: self.viewers }
    }
}

/// Publishing is fair. What a point does to one viewer depends on that viewer
/// alone: a viewer with room in its buffer gets the point and loses nothing,
/// however full the buffers of the others are, and a viewer whose buffer is
/// full loses only its own oldest point.
pub proof fn lemma_publish_is_fair(relay: RelayView, point: PointView)
    requires
        relay.wf(),
        relay.open,
    ensures
        relay.publish(point).wf(),
        relay.publish(point).viewers.len() == relay.viewers.len(),
        forall|id: int|
            0 <= id < relay.viewers.len() ==> (#[trigger] relay.publish(point).viewers[id])
                == viewer_after(relay.viewers[id], point, relay.capacity),
        forall|id: int|
            relay.is_viewing(id) && relay.viewers[id].queue.len() < relay.capacity ==> {
                &&& (#[trigger] relay.publish(point).viewers[id]).queue
                    == relay.viewers[id].queue.push(point)
                &&& relay.publish(point).viewers[id].missed == relay.viewers[id].missed
            },
{
}

/// A viewer that keeps pace receives every point published after it joined:
/// as long as its buffer has room for them, the points that are published
/// join its buffer in the order of publication and none is counted as missed,
/// whatever the other viewers do.
pub proof fn lemma_viewer_gets_every_point(relay: RelayView, id: int, points: Seq<PointView>)
    requires
        relay.wf(),
        relay.open,
        relay.is_viewing(id),
        relay.viewers[id].queue.len() + points.len() <= relay.capacity,
    ensures
        relay.publish_all(points).wf(),
        relay.publish_all(points).open,
        relay.publish_all(points).capacity == relay.capacity,
        relay.publish_all(points).is_viewing(id),
        relay.publish_all(points).viewers[id].queue == relay.viewers[id].queue + points,
        relay.publish_all(points).viewers[id].missed == relay.viewers[id].missed,
    decreases points.len(),
{
    if points.len() > 0 {
        lemma_viewer_gets_every_point(relay, id, points.drop_last());
        let before = relay.publish_all(points.drop_last());
        lemma_publish_is_fair(before, points.last());
    }
}

/// A viewer that joins receives every point that is published after it
/// joined and none that was published before, in the order of publication,
/// as long as it keeps pace: its buffer then holds just those points.
pub proof fn lemma_new_viewer_gets_points_after_join(relay: RelayView, points: Seq<PointView>)
    requires
        relay.wf(),
        relay.open,
        points.len() <= relay.capacity,
    ensures
        ({
            let id = relay.next_viewer();
            let after = relay.subscribe().publish_all(points);
            &&& after.is_viewing(id)
            &&& after.viewers[id].queue == points
            &&& after.viewers[id].missed == 0
        }),
{
    let id = relay.next_viewer();
    let joined = relay.subscribe();
    lemma_first_free(relay.viewers, 0);
    lemma_viewer_gets_every_point(joined, id, points);
}

/// One step of a run on a relay.
pub enum RelayOp {
    /// A point is published.
    Publish(PointView),
    /// The viewer with this number asks for its next point.
    Receive(int),
    /// A viewer subscribes.
    Subscribe,
    /// The viewer with this number leaves.
    Unsubscribe(int),
}

impl RelayView {
    /// The relay after one step.
    pub open spec fn step(self, op: RelayOp) -> RelayView {
        match op {
            RelayOp::Publish(point) => self.publish(point),
            RelayOp::Receive(id) => self.after_receive(id),
            RelayOp::Subscribe => self.subscribe(),
            RelayOp::Unsubscribe(id) => self.unsubscribe(id),
        }
    }

    /// The relay after a run of steps, in any interleaving of publishers and
    /// viewers.
    pub open spec fn run(self, ops: Seq<RelayOp>) -> RelayView
        decreases ops.len(),
    {
        if ops.len() == 0 {
            self
        } else {
            self.run(ops.drop_last()).step(ops.last())
        }
    }

    /// The points that viewer `id` was handed during a run, in the order in
    /// which it received them.
    pub open spec fn delivered(self, ops: Seq<RelayOp>, id: int) -> Seq<PointView>
        decreases ops.len(),
    {
        if ops.len() == 0 {
            Seq::empty()
        } else {
            let earlier = self.delivered(ops.drop_last(), id);
            match (ops.last(), self.run(ops.drop_last()).received(id)) {
                (RelayOp::Receive(i), ReceivedView::Point(point)) => if i == id {
                    earlier.push(point)
                } else {
                    earlier
                },
                _ => earlier,
            }
        }
    }
}

/// The points that a run publishes, in the order of publication.
pub open spec fn published(ops: Seq<RelayOp>) -> Seq<PointView>
    decreases ops.len(),
{
    if ops.len() == 0 {
        Seq::empty()
    } else {
        match ops.last() {
            RelayOp::Publish(point) => published(ops.drop_last()).push(point),
            _ => published(ops.drop_last()),
        }
    }
}

/// Viewer `id` does not leave during the run.
pub open spec fn stays(ops: Seq<RelayOp>, id: int) -> bool {
    forall|k: int| 0 <= k < ops.len() ==> #[trigger] ops[k] != RelayOp::Unsubscribe(id)
}

/// A viewer after it asked for its next point: a count of missed points is
/// handed over and cleared, or else the oldest point leaves the buffer.
pub open spec fn viewer_took(viewer: ViewerView) -> ViewerView {
    if viewer.missed > 0 {
        ViewerView { active: true, queue: viewer.queue, missed: 0 }
    } else if viewer.queue.len() > 0 {
        ViewerView { active: true, queue: viewer.queue.drop_first(), missed: 0 }
    } else {
        viewer
    }
}

/// What becomes of one viewer in a run, told without a word about any other
/// viewer: it takes every point that is published and hands out what it is
/// asked for; what others do is passed over.
pub open spec fn alone(viewer: ViewerView, capacity: nat, ops: Seq<RelayOp>, id: int) -> ViewerView
    decreases ops.len(),
{
    if ops.len() == 0 {
        viewer
    } else {
        let before = alone(viewer, capacity, ops.drop_last(), id);
        match ops.last() {
            RelayOp::Publish(point) => viewer_after(before, point, capacity),
            RelayOp::Receive(i) => if i == id {
                viewer_took(before)
            } else {
                before
            },
            _ => before,
        }
    }
}

/// The points that one viewer is handed in a run, told without a word about
/// any other viewer.
pub open spec fn alone_delivered(
    viewer: ViewerView,
    capacity: nat,
    ops: Seq<RelayOp>,
    id: int,
) -> Seq<PointView>
    decreases ops.len(),
{
    if ops.len() == 0 {
        Seq::empty()
    } else {
        let before = alone(viewer, capacity, ops.drop_last(), id);
        let earlier = alone_delivered(viewer, capacity, ops.drop_last(), id);
        match ops.last() {
            RelayOp::Receive(i) => if i == id && before.missed == 0 && before.queue.len() > 0 {
                earlier.push(before.queue[0])
            } else {
                earlier
            },
            _ => earlier,
        }
    }
}

/// The viewer keeps pace in the run: whenever a point is published, its
/// buffer has room for it.
pub open spec fn keeps_pace(
    viewer: ViewerView,
    capacity: nat,
    ops: Seq<RelayOp>,
    id: int,
) -> bool {
    forall|k: int|
        0 <= k < ops.len() && (#[trigger] ops[k]) is Publish ==> alone(
            viewer,
            capacity,
            ops.take(k),
            id,
        ).queue.len() < capacity
}

/// No viewer is held up by another. In any run on an open relay, what becomes
/// of a viewer that stays, and what it is handed, is what would become of it
/// and be handed to it if no other viewer existed: however slow the others
/// are, however far they lag, whether they come or go.
pub proof fn lemma_viewer_stands_alone(relay: RelayView, ops: Seq<RelayOp>, id: int)
    requires
        relay.open,
        relay.is_viewing(id),
        stays(ops, id),
    ensures
        relay.run(ops).open,
        relay.run(ops).capacity == relay.capacity,
        relay.run(ops).is_viewing(id),
        relay.run(ops).viewers[id] == alone(relay.viewers[id], relay.capacity, ops, id),
        relay.delivered(ops, id) == alone_delivered(relay.viewers[id], relay.capacity, ops, id),
    decreases ops.len(),
{
    if ops.len() > 0 {
        let fewer = ops.drop_last();
        assert forall|k: int| 0 <= k < fewer.len() implies #[trigger] fewer[k]
            != RelayOp::Unsubscribe(id) by {
            assert(fewer[k] == ops[k]);
        }
        lemma_viewer_stands_alone(relay, fewer, id);
        let before = relay.run(fewer);
        assert(ops.last() == ops[ops.len() - 1]);
        match ops.last() {
            RelayOp::Subscribe => {
                lemma_first_free(before.viewers, 0);
            },
            _ => {},
        }
    }
}

/// Every viewer receives every point that is published after it joined, each
/// once, in the order of publication, and none that was published before:
/// in any run on an open relay, with any number of other viewers that
/// subscribe, receive, lag and leave as they like, a viewer that stays and
/// keeps pace has been handed, or still finds in its buffer, exactly what
/// waited for it at the start and then the points that the run published.
/// For a viewer that has just joined, nothing waited at the start.
pub proof fn lemma_viewer_receives_every_point(relay: RelayView, ops: Seq<RelayOp>, id: int)
    requires
        relay.open,
        relay.is_viewing(id),
        relay.viewers[id].missed == 0,
        stays(ops, id),
        keeps_pace(relay.viewers[id], relay.capacity, ops, id),
    ensures
        relay.run(ops).is_viewing(id),
        relay.run(ops).viewers[id].missed == 0,
        relay.delivered(ops, id) + relay.run(ops).viewers[id].queue == relay.viewers[id].queue
            + published(ops),
    decreases ops.len(),
{
    lemma_viewer_stands_alone(relay, ops, id);
    let viewer = relay.viewers[id];
    if ops.len() == 0 {
        assert(Seq::<PointView>::empty() + viewer.queue =~= viewer.queue + Seq::<
            PointView,
        >::empty());
    } else {
        let fewer = ops.drop_last();
        assert forall|k: int| 0 <= k < fewer.len() implies #[trigger] fewer[k]
            != RelayOp::Unsubscribe(id) by {
            assert(fewer[k] == ops[k]);
        }
        assert forall|k: int| 0 <= k < fewer.len() && (#[trigger] fewer[k]) is Publish implies alone(
            viewer,
            relay.capacity,
            fewer.take(k),
            id,
        ).queue.len() < relay.capacity by {
            assert(fewer[k] == ops[k]);
            assert(fewer.take(k) =~= ops.take(k));
        }
        lemma_viewer_receives_every_point(relay, fewer, id);
        lemma_viewer_stands_alone(relay, fewer, id);
        let before = alone(viewer, relay.capacity, fewer, id);
        let earlier = alone_delivered(viewer, relay.capacity, fewer, id);
        assert(ops.last() == ops[ops.len() - 1]);
        assert(ops.take(ops.len() - 1) =~= fewer);
        match ops.last() {
            RelayOp::Publish(point) => {
                assert(earlier + before.queue.push(point) =~= (earlier + before.queue).push(
                    point,
                ));
                assert((viewer.queue + published(fewer)).push(point) =~= viewer.queue
                    + published(ops));
            },
            RelayOp::Receive(i) => {
                if i == id && before.queue.len() > 0 {
                    assert(earlier.push(before.queue[0]) + before.queue.drop_first() =~= earlier
                        + before.queue);
                }
            },
            _ => {},
        }
    }
}

/// What a viewer gets when it asks the relay for its next point.
#[derive(Debug, Clone, PartialEq, Eq)]
pub enum Received {
    /// The oldest point that waited.
    Point(Traccar),
    /// The viewer fell behind and lost this many points.
    Lagged(u64),
    /// Nothing waits yet.
    Empty,
    /// The relay was closed and nothing is left, or the viewer is not
    /// subscribed.
    Closed,
}

impl View for Received {
    type V = ReceivedView;

    open spec fn view(&self) -> ReceivedView {
        match self {
            Received::Point(p) => ReceivedView::Point(p@),
            Received::Lagged(n) => ReceivedView::Lagged(*n as nat),
            Received::Empty => ReceivedView::Empty,
            Received::Closed => ReceivedView::Closed,
        }
    }
}

/// The buffer of one viewer.
struct Viewer {
    active: bool,
    queue: Vec<Traccar>,
    missed: u64,
}

/// The points that a buffer holds, as the contracts see them.
spec fn points_of(queue: Seq<Traccar>) -> Seq<PointView> {
    queue.map_values(|p: Traccar| p@)
}

impl Viewer {
    spec fn model(self) -> ViewerView {
        ViewerView {
            active: self.active,
            queue: points_of(self.queue@),
            missed: self.missed as nat,
        }
    }
}

/// The relay of live telemetry.
pub struct Relay {
    capacity: usize,
    open: bool,
    viewers: Vec<Viewer>,
}

impl View for Relay {
    type V = RelayView;

    closed spec fn view(&self) -> RelayView {
        RelayView {
            capacity: self.capacity as nat,
            open: self.open,
            viewers: Seq::new(self.viewers@.len(), |i: int| self.viewers@[i].model()),
        }
    }
}

impl Relay {
    /// The invariant of the relay: no buffer holds more than the capacity.
    pub open spec fn wf(&self) -> bool {
        self@.wf()
    }

    /// An open relay without viewers, whose buffers hold up to `capacity`
    /// points each.
    pub fn new(capacity: usize) -> (r: Relay)
        requires
            capacity > 0,
        ensures
            r.wf(),
            r@ == (RelayView { capacity: capacity as nat, open: true, viewers: Seq::empty() }),
    {
        let r = Relay { capacity, open: true, viewers: Vec::new() };
        assert(r@.viewers =~= Seq::<ViewerView>::empty());
        r
    }

    /// Publishes `point` to every subscribed viewer and returns how many
    /// there are. It never waits for a viewer: where a buffer is full, its
    /// oldest point makes room. A closed relay takes nothing and returns 0.
    pub fn publish(&mut self, point: Traccar) -> (receivers: usize)
        requires
            old(self).wf(),
        ensures
            final(self).wf(),
            final(self)@ == old(self)@.publish(point@),
            receivers == if old(self)@.open {
                active_among(old(self)@.viewers, old(self)@.viewers.len() as int)
            } else {
                0
            },
    {
        if !self.open {
            return 0;
        }
        assert forall|j: int| 0 <= j < self.viewers.len() implies (
        #[trigger] self.viewers@[j]).queue@.len() <= self.capacity by {
            assert(self@.viewers[j].queue.len() == self.viewers@[j].queue@.len());
        }
        let mut receivers: usize = 0;
        let mut i: usize = 0;
        while i < self.viewers.len()
            invariant
                self.capacity == old(self).capacity,
                self.capacity > 0,
                self.open,
                self.viewers.len() == old(self).viewers.len(),
                i <= self.viewers.len(),
                receivers == active_among(old(self)@.viewers, i as int),
                receivers <= i,
                forall|j: int|
                    0 <= j < i ==> (#[trigger] self.viewers@[j]).model() == viewer_after(
                        old(self).viewers@[j].model(),
                        point@,
                        self.capacity as nat,
                    ),
                forall|j: int|
                    i <= j < self.viewers.len() ==> #[trigger] self.viewers@[j]
                        == old(self).viewers@[j],
                forall|j: int|
                    0 <= j < self.viewers.len() ==> (#[trigger] self.viewers@[j]).queue@.len()
                        <= self.capacity,
            decreases self.viewers.len() - i,
        {
            if self.viewers[i].active {
                let ghost before = self.viewers@[i as int].queue@;
                if self.viewers[i].queue.len() >= self.capacity {
                    self.viewers[i].queue.remove(0);
                    if self.viewers[i].missed < u64::MAX {
                        self.viewers[i].missed = self.viewers[i].missed + 1;
                    }
                    self.viewers[i].queue.push(point.duplicate());
                    assert(points_of(self.viewers@[i as int].queue@) =~= points_of(
                        before,
                    ).drop_first().push(point@));
                } else {
                    self.viewers[i].queue.push(point.duplicate());
                    assert(points_of(self.viewers@[i as int].queue@) =~= points_of(before).push(
                        point@,
                    ));
                }
                receivers = receivers + 1;
            }
            i = i + 1;
        }
        assert(self@.viewers =~= old(self)@.publish(point@).viewers);
        receivers
    }

    /// Subscribes a viewer and returns its number: the lowest one that is
    /// free. It gets every point that is published from now on.
    pub fn subscribe(&mut self) -> (id: usize)
        requires
            old(self).wf(),
        ensures
            final(self).wf(),
            id == old(self)@.next_viewer(),
            final(self)@ == old(self)@.subscribe(),
            final(self)@.is_viewing(id as int),
    {
        let mut id: usize = 0;
        while id < self.viewers.len() && self.viewers[id].active
            invariant
                id <= self.viewers.len(),
                *self == *old(self),
                first_free(self@.viewers, 0) == first_free(self@.viewers, id as int),
            decreases self.viewers.len() - id,
        {
            id = id + 1;
        }
        proof {
            lemma_first_free(self@.viewers, id as int);
            assert(points_of(Seq::<Traccar>::empty()) =~= Seq::<PointView>::empty());
        }
        if id < self.viewers.len() {
            self.viewers.set(id, Viewer { active: true, queue: Vec::new(), missed: 0 });
        } else {
            self.viewers.push(Viewer { active: true, queue: Vec::new(), missed: 0 });
        }
        assert(self@.viewers =~= old(self)@.subscribe().viewers);
        id
    }

    /// Hands viewer `id` what comes next for it: a count of the points it
    /// missed, if it fell behind, else the oldest point of its buffer.
    pub fn receive(&mut self, id: usize) -> (r: Received)
        requires
            old(self).wf(),
        ensures
            final(self).wf(),
            r@ == old(self)@.received(id as int),
            final(self)@ == old(self)@.after_receive(id as int),
    {
        if id >= self.viewers.len() || !self.viewers[id].active {
            return Received::Closed;
        }
        if self.viewers[id].missed > 0 {
            let missed = self.viewers[id].missed;
            self.viewers[id].missed = 0;
            assert(self@.viewers =~= old(self)@.after_receive(id as int).viewers);
            Received::Lagged(missed)
        } else if self.viewers[id].queue.len() > 0 {
            let ghost before = self.viewers@[id as int].queue@;
            let point = self.viewers[id].queue.remove(0);
            assert(points_of(self.viewers@[id as int].queue@) =~= points_of(before).drop_first());
            assert(self@.viewers =~= old(self)@.after_receive(id as int).viewers);
            Received::Point(point)
        } else if self.open {
            Received::Empty
        } else {
            Received::Closed
        }
    }

    /// Ends the subscription of viewer `id` and drops its buffer. Nothing
    /// happens where it is not subscribed.
    pub fn unsubscribe(&mut self, id: usize)
        requires
            old(self).wf(),
        ensures
            final(self).wf(),
            final(self)@ == old(self)@.unsubscribe(id as int),
    {
        if id < self.viewers.len() && self.viewers[id].active {
            self.viewers.set(id, Viewer { active: false, queue: Vec::new(), missed: 0 });
            assert(points_of(Seq::<Traccar>::empty()) =~= Seq::<PointView>::empty());
            assert(self@.viewers =~= old(self)@.unsubscribe(id as int).viewers);
        }
    }

    /// Closes the relay: it takes no more points. Viewers still receive what
    /// waits in their buffers and are then told that it is closed.
    pub fn close(&mut self)
        requires
            old(self).wf(),
        ensures
            final(self).wf(),
            final(self)@ == old(self)@.close(),
    {
        self.open = false;
        assert(self@.viewers =~= old(self)@.viewers);
        assert forall|i: int| 0 <= i < self@.viewers.len() implies (
        #[trigger] self@.viewers[i]).queue.len() <= self@.capacity by {
            assert(self@.viewers[i] == old(self)@.viewers[i]);
        }
    }
}

} // verus!
