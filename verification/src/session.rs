//! What one connection does next. A session on a topic applies the edits it
//! receives and sends the topic's stream; a live session sends telemetry
//! points. The connection itself is the caller's: it hands in what arrived
//! and writes out what the session gives it.
//!
//! A session ends as soon as either of its halves ends, and then both are
//! done: a closed session applies nothing and sends nothing.

use vstd::prelude::*;
use crate::model::{is_snapshot_of, present, ChangeEvent};
use crate::relay::{Received, ReceivedView, Relay};
use crate::store::{Store, StoreView};
use crate::stream::{on_course, Streamer, StreamerView};
use crate::wire::{
    broadcast_frame, decode_edit, encode_broadcast, encode_point, parsed_edit, point_frame,
    WireError,
};
use crate::{optional, AtomicEdit, Broadcast};

verus! {

/// Whether the capability that a client presents is the one that the server
/// issued. A connection is accepted only with the right one.
pub fn authorized(presented: u128, secret: u128) -> (r: bool)
    ensures
        r == (presented == secret),
{
    presented == secret
}

/// A frame that arrived on a connection.
#[derive(Debug, Clone, PartialEq, Eq)]
pub enum Frame {
    /// A binary frame with its bytes: the only kind that carries a message.
    Binary(Vec<u8>),
    /// A text frame.
    Text,
    /// A ping of the transport.
    Ping,
    /// A pong of the transport.
    Pong,
    /// The peer closes the connection.
    Close,
}

/// What a session has for the connection to write.
#[derive(Debug, Clone, PartialEq, Eq)]
pub enum Outbound {
    /// A frame to write.
    Frame(Vec<u8>),
    /// Nothing at the moment.
    Idle,
    /// The session is closed.
    Closed,
}

/// A session as the contracts see it.
pub struct SessionView {
    pub open: bool,
    pub stream: StreamerView,
}

impl SessionView {
    /// The change that the session sends next: what is left of its snapshot
    /// first, then what waits in its feed.
    pub open spec fn next_change(self, store: StoreView) -> Option<ChangeEvent> {
        if self.stream.backlog.len() > 0 {
            Some(self.stream.backlog[0])
        } else {
            store.next_event(self.stream.watcher)
        }
    }

    /// The session with the next change taken from its stream.
    pub open spec fn advanced(self) -> SessionView {
        if self.stream.backlog.len() > 0 {
            SessionView {
                open: self.open,
                stream: StreamerView {
                    watcher: self.stream.watcher,
                    backlog: self.stream.backlog.drop_first(),
                },
            }
        } else {
            self
        }
    }

    /// The store with the next change taken from the session's stream.
    pub open spec fn store_advanced(self, store: StoreView) -> StoreView {
        if self.stream.backlog.len() > 0 {
            store
        } else {
            store.take_event(self.stream.watcher)
        }
    }

    /// The session closed.
    pub open spec fn closed(self) -> SessionView {
        SessionView { open: false, stream: self.stream }
    }

    /// The change that a frame would commit if the session took it now.
    pub open spec fn planned_change(self, store: StoreView, frame: Frame) -> Option<ChangeEvent> {
        if !self.open {
            None
        } else {
            match frame {
                Frame::Binary(bytes) => match parsed_edit(bytes@) {
                    Some(edit) => if store.cas_applies(edit.key, present(edit.old)) {
                        Some(ChangeEvent { key: edit.key, value: edit.new })
                    } else {
                        None
                    },
                    None => None,
                },
                _ => None,
            }
        }
    }

    /// The store after the session ended: its watcher is cancelled.
    pub open spec fn released(self, store: StoreView) -> StoreView {
        store.unwatch(self.stream.watcher)
    }
}

/// The session of one connection on a topic.
pub struct Session {
    open: bool,
    streamer: Streamer,
}

impl View for Session {
    type V = SessionView;

    closed spec fn view(&self) -> SessionView {
        SessionView { open: self.open, stream: self.streamer@ }
    }
}

impl Session {
    /// The invariant of the session.
    pub closed spec fn wf(&self) -> bool {
        self.streamer.wf()
    }

    /// Starts a session on `store` for a client that presents `presented`.
    /// With the wrong capability there is no session and the store is not
    /// touched. With the right one the session's watcher is registered and
    /// its snapshot taken, in this order.
    pub fn connect(store: &mut Store, presented: u128, secret: u128) -> (r: Option<Session>)
        requires
            old(store).wf(),
        ensures
            final(store).wf(),
            presented != secret ==> {
                &&& r.is_none()
                &&& final(store)@ == old(store)@
                &&& final(store).snapshot() == old(store).snapshot()
            },
            presented == secret ==> {
                &&& r.is_some()
                &&& r.unwrap().wf()
                &&& r.unwrap()@.open
                &&& r.unwrap()@.stream.watcher == old(store)@.next_watcher()
                &&& r.unwrap()@.stream.backlog == final(store).snapshot()
                &&& is_snapshot_of(r.unwrap()@.stream.backlog, final(store)@.contents)
                &&& final(store)@ == old(store)@.watch()
                &&& on_course(
                    Map::empty(),
                    r.unwrap()@.stream.backlog,
                    final(store)@.feeds[r.unwrap()@.stream.watcher].pending,
                    final(store)@.contents,
                )
            },
    {
        if !authorized(presented, secret) {
            return None;
        }
        let streamer = Streamer::subscribe(store);
        Some(Session { open: true, streamer })
    }

    /// Whether the session is still open.
    pub fn is_open(&self) -> (r: bool)
        ensures
            r == self@.open,
    {
        self.open
    }

    /// Ends the session, whichever half ended first: its watcher is
    /// cancelled, and from now on it applies nothing and sends nothing.
    pub fn close(&mut self, store: &mut Store)
        requires
            old(self).wf(),
            old(store).wf(),
        ensures
            final(self).wf(),
            final(store).wf(),
            final(self)@ == old(self)@.closed(),
            final(store)@ == if old(self)@.open {
                old(store)@.unwatch(old(self)@.stream.watcher)
            } else {
                old(store)@
            },
    {
        if self.open {
            self.open = false;
            store.unwatch(self.streamer.watcher());
        }
    }

    /// Takes what the decoder made of a frame. An edit is applied to the
    /// store by compare-and-swap, and the session goes on whether the write
    /// applied or not: a writer that lost a race is not told, it sees the
    /// winner's value on its stream. A frame that is no edit ends the
    /// session. A closed session does nothing.
    pub fn receive(&mut self, store: &mut Store, decoded: Result<AtomicEdit, WireError>)
        requires
            old(self).wf(),
            old(store).wf(),
        ensures
            final(self).wf(),
            final(store).wf(),
            !old(self)@.open ==> final(self)@ == old(self)@ && final(store)@ == old(store)@,
            old(self)@.open ==> match decoded {
                Ok(edit) => {
                    &&& final(self)@ == old(self)@
                    &&& final(store)@ == old(store)@.after_edit(edit@)
                },
                Err(_) => {
                    &&& final(self)@ == old(self)@.closed()
                    &&& final(store)@ == old(self)@.released(old(store)@)
                },
            },
    {
        if !self.open {
            return ;
        }
        match decoded {
            Ok(edit) => {
                let AtomicEdit { key, old, new } = edit;
                let _ = store.compare_and_swap(key, optional(old), optional(new));
            },
            Err(_) => {
                self.close(store);
            },
        }
    }

    /// Takes a frame from the connection. A binary frame that holds an edit
    /// is applied. A binary frame that holds none, and a text frame, break
    /// the protocol and end the session; so does the peer's close.
    ///
    /// Pings and pongs are the one exception to the rule that any frame but
    /// a binary one ends the session: they are the transport's own keep-alive
    /// and carry no message of the client, so they are let through and change
    /// nothing.
    pub fn on_frame(&mut self, store: &mut Store, frame: &Frame)
        requires
            old(self).wf(),
            old(store).wf(),
        ensures
            final(self).wf(),
            final(store).wf(),
            !old(self)@.open ==> final(self)@ == old(self)@ && final(store)@ == old(store)@,
            old(self)@.open ==> match frame {
                Frame::Binary(bytes) => match parsed_edit(bytes@) {
                    Some(edit) => {
                        &&& final(self)@ == old(self)@
                        &&& final(store)@ == old(store)@.after_edit(edit)
                    },
                    None => {
                        &&& final(self)@ == old(self)@.closed()
                        &&& final(store)@ == old(self)@.released(old(store)@)
                    },
                },
                Frame::Ping | Frame::Pong => {
                    &&& final(self)@ == old(self)@
                    &&& final(store)@ == old(store)@
                },
                Frame::Text | Frame::Close => {
                    &&& final(self)@ == old(self)@.closed()
                    &&& final(store)@ == old(self)@.released(old(store)@)
                },
            },
    {
        match frame {
            Frame::Binary(bytes) => {
                let decoded = decode_edit(bytes);
                self.receive(store, decoded);
            },
            Frame::Ping | Frame::Pong => {},
            Frame::Text | Frame::Close => {
                self.close(store);
            },
        }
    }

    /// The change that the frame would commit if the session took it now: the
    /// edit that a binary frame holds, where the session is open and the
    /// edit's expectation is met. The caller can put the change to durable
    /// storage before the session takes the frame, and leave the frame out
    /// where that fails.
    pub fn planned(&self, store: &Store, frame: &Frame) -> (r: Option<Broadcast>)
        requires
            self.wf(),
            store.wf(),
        ensures
            match r {
                Some(change) => self@.planned_change(store@, *frame) == Some(change@),
                None => self@.planned_change(store@, *frame).is_none(),
            },
    {
        if !self.open {
            return None;
        }
        match frame {
            Frame::Binary(bytes) => match decode_edit(bytes) {
                Ok(edit) => {
                    let AtomicEdit { key, old, new } = edit;
                    if store.would_apply(&key, &optional(old)) {
                        Some(Broadcast { key, value: new })
                    } else {
                        None
                    }
                },
                Err(_) => None,
            },
            _ => None,
        }
    }

    /// The next frame for the connection to write: the snapshot in key
    /// order, then every change of the feed in the order of commitment.
    /// `Idle` where nothing waits, `Closed` where the session is closed.
    pub fn next_outbound(&mut self, store: &mut Store) -> (r: Outbound)
        requires
            old(self).wf(),
            old(store).wf(),
        ensures
            final(self).wf(),
            final(store).wf(),
            !old(self)@.open ==> {
                &&& r is Closed
                &&& final(self)@ == old(self)@
                &&& final(store)@ == old(store)@
            },
            old(self)@.open ==> match old(self)@.next_change(old(store)@) {
                None => {
                    &&& r is Idle
                    &&& final(self)@ == old(self)@
                    &&& final(store)@ == old(store)@
                },
                Some(change) => {
                    &&& r matches Outbound::Frame(bytes) && bytes@ == broadcast_frame(change)
                    &&& final(self)@ == old(self)@.advanced()
                    &&& final(store)@ == old(self)@.store_advanced(old(store)@)
                },
            },
    {
        if !self.open {
            return Outbound::Closed;
        }
        match self.streamer.next(store) {
            None => Outbound::Idle,
            Some(change) => Outbound::Frame(encode_broadcast(&change)),
        }
    }
}

/// What a live session has for the connection to do.
#[derive(Debug, Clone, PartialEq, Eq)]
pub enum LiveStep {
    /// Write this frame.
    Send(Vec<u8>),
    /// The viewer fell behind and lost this many points. Nothing is written;
    /// the session goes on.
    Skip(u64),
    /// Nothing waits yet.
    Wait,
    /// The session is over.
    Stop,
}

/// What a live session does with what its viewer received: a point is sent,
/// a count of missed points is skipped, and the end of the relay ends the
/// session.
pub fn live_step(received: Received) -> (r: LiveStep)
    ensures
        match received@ {
            ReceivedView::Point(point) => r matches LiveStep::Send(bytes) && bytes@
                == point_frame(point),
            ReceivedView::Lagged(missed) => r matches LiveStep::Skip(n) && n == missed,
            ReceivedView::Empty => r is Wait,
            ReceivedView::Closed => r is Stop,
        },
{
    match received {
        Received::Point(point) => LiveStep::Send(encode_point(&point)),
        Received::Lagged(missed) => LiveStep::Skip(missed),
        Received::Empty => LiveStep::Wait,
        Received::Closed => LiveStep::Stop,
    }
}

/// A live session as the contracts see it.
pub struct LiveSessionView {
    pub open: bool,
    pub viewer: int,
}

/// The session of one connection that views live telemetry.
pub struct LiveSession {
    open: bool,
    viewer: usize,
}

impl View for LiveSession {
    type V = LiveSessionView;

    closed spec fn view(&self) -> LiveSessionView {
        LiveSessionView { open: self.open, viewer: self.viewer as int }
    }
}

impl LiveSession {
    /// Starts a live session for a client that presents `presented`. With the
    /// wrong capability there is no session and the relay is not touched.
    pub fn join(relay: &mut Relay, presented: u128, secret: u128) -> (r: Option<LiveSession>)
        requires
            old(relay).wf(),
        ensures
            final(relay).wf(),
            presented != secret ==> r.is_none() && final(relay)@ == old(relay)@,
            presented == secret ==> {
                &&& r.is_some()
                &&& r.unwrap()@ == (LiveSessionView {
                    open: true,
                    viewer: old(relay)@.next_viewer(),
                })
                &&& final(relay)@ == old(relay)@.subscribe()
            },
    {
        if !authorized(presented, secret) {
            return None;
        }
        let viewer = relay.subscribe();
        Some(LiveSession { open: true, viewer })
    }

    /// Whether the session is still open.
    pub fn is_open(&self) -> (r: bool)
        ensures
            r == self@.open,
    {
        self.open
    }

    /// Ends the session: the viewer leaves the relay. This is what a failed
    /// write on the connection leads to.
    pub fn close(&mut self, relay: &mut Relay)
        requires
            old(relay).wf(),
        ensures
            final(relay).wf(),
            final(self)@ == (LiveSessionView { open: false, viewer: old(self)@.viewer }),
            final(relay)@ == if old(self)@.open {
                old(relay)@.unsubscribe(old(self)@.viewer)
            } else {
                old(relay)@
            },
    {
        if self.open {
            self.open = false;
            relay.unsubscribe(self.viewer);
        }
    }

    /// What the connection does next. A point that waits is sent. A viewer
    /// that fell behind skips what it missed and goes on; lagging never ends
    /// a session. When the relay is closed and nothing is left, the session
    /// ends.
    pub fn step(&mut self, relay: &mut Relay) -> (r: LiveStep)
        requires
            old(relay).wf(),
        ensures
            final(relay).wf(),
            final(self)@.viewer == old(self)@.viewer,
            !old(self)@.open ==> {
                &&& r is Stop
                &&& final(self)@ == old(self)@
                &&& final(relay)@ == old(relay)@
            },
            old(self)@.open ==> match old(relay)@.received(old(self)@.viewer) {
                ReceivedView::Point(point) => {
                    &&& r matches LiveStep::Send(bytes) && bytes@ == point_frame(point)
                    &&& final(self)@.open
                    &&& final(relay)@ == old(relay)@.after_receive(old(self)@.viewer)
                },
                ReceivedView::Lagged(missed) => {
                    &&& r matches LiveStep::Skip(n) && n == missed
                    &&& final(self)@.open
                    &&& final(relay)@ == old(relay)@.after_receive(old(self)@.viewer)
                },
                ReceivedView::Empty => {
                    &&& r is Wait
                    &&& final(self)@.open
                    &&& final(relay)@ == old(relay)@
                },
                ReceivedView::Closed => {
                    &&& r is Stop
                    &&& !final(self)@.open
                    &&& final(relay)@ == old(relay)@.unsubscribe(old(self)@.viewer)
                },
            },
    {
        if !self.open {
            return LiveStep::Stop;
        }
        let r = live_step(relay.receive(self.viewer));
        match r {
            LiveStep::Stop => {
                self.close(relay);
            },
            _ => {},
        }
        r
    }
}

} // verus!
