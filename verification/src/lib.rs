//! Synchronisation engine for a small set of keyed facts that several clients
//! view and edit together, and a relay for live telemetry points.
//!
//! Every topic owns a [`store::Store`]: ordered keyed storage whose only write
//! is a compare-and-swap and which feeds every committed change to its
//! watchers. A [`stream::Streamer`] pairs a watcher with a snapshot so that a
//! subscriber sees one gap-free sequence of changes, a [`session::Session`]
//! decides what one connection does next, and a [`relay::Relay`] fans
//! telemetry points out to live viewers.

pub mod articles;
pub mod domain;
pub mod geo;
pub mod keys;
pub mod locations;
pub mod model;
pub mod polls;
pub mod relay;
pub mod session;
pub mod store;
pub mod stream;
pub mod table;
pub mod text;
pub mod typed;
pub mod wire;

use std::sync::Arc;
use vstd::prelude::*;
use crate::keys::copy_bytes;
use crate::model::{opt_bytes, present, ChangeEvent};

verus! {

/// An optimistic write: store `new` under `key` only if the value stored there
/// now equals `old`. An empty `old` stands for "absent", an empty `new` deletes.
#[derive(Debug, Clone, PartialEq, Eq)]
pub struct AtomicEdit {
    pub key: Vec<u8>,
    pub old: Vec<u8>,
    pub new: Vec<u8>,
}

/// One committed change: `key` now holds `value`; an empty `value` is a
/// tombstone, the key is gone.
#[derive(Debug, Clone, PartialEq, Eq)]
pub struct Broadcast {
    pub key: Vec<u8>,
    pub value: Vec<u8>,
}

/// The tombstone rule on a value that came over the wire: empty bytes stand
/// for no value.
pub fn optional(value: Vec<u8>) -> (r: Option<Vec<u8>>)
    ensures
        opt_bytes(r) == present(value@),
{
    if value.len() == 0 {
        None
    } else {
        Some(value)
    }
}

/// What a change does to a plain keyed storage that knows no tombstones.
#[derive(Debug, Clone, PartialEq, Eq)]
pub enum Write {
    /// The key takes the value.
    Insert { key: Vec<u8>, value: Vec<u8> },
    /// The key is removed.
    Remove { key: Vec<u8> },
}

impl Broadcast {
    /// What this change does to a plain keyed storage: a tombstone removes
    /// the key, any other value is stored under it.
    pub fn into_write(self) -> (w: Write)
        ensures
            self.value@.len() == 0 ==> w == (Write::Remove { key: self.key }),
            self.value@.len() > 0 ==> w == (Write::Insert { key: self.key, value: self.value }),
    {
        if self.value.len() == 0 {
            Write::Remove { key: self.key }
        } else {
            Write::Insert { key: self.key, value: self.value }
        }
    }

    /// The change that tells of a write: the value for an insert, a
    /// tombstone for a removal.
    pub fn from_write(write: Write) -> (b: Broadcast)
        ensures
            b@ == match write {
                Write::Insert { key, value } => ChangeEvent { key: key@, value: value@ },
                Write::Remove { key } => ChangeEvent { key: key@, value: Seq::empty() },
            },
    {
        match write {
            Write::Insert { key, value } => Broadcast { key, value },
            Write::Remove { key } => Broadcast { key, value: Vec::new() },
        }
    }

    /// A copy of this change.
    pub fn duplicate(&self) -> (r: Broadcast)
        ensures
            r@ == self@,
    {
        Broadcast { key: copy_bytes(&self.key), value: copy_bytes(&self.value) }
    }
}

/// A telemetry point. It is relayed to live viewers and never stored.
#[derive(Debug, Clone, PartialEq, Eq)]
pub struct Traccar {
    pub id: String,
    pub lat: String,
    pub lon: String,
}

impl Traccar {
    /// A copy of this point.
    pub fn duplicate(&self) -> (r: Traccar)
        ensures
            r@ == self@,
    {
        Traccar { id: self.id.clone(), lat: self.lat.clone(), lon: self.lon.clone() }
    }
}

/// Puts `val` behind a shared handle. A store or a relay behind such a handle
/// lives as long as any session holds a clone of it.
pub fn leak<T>(val: T) -> (r: Arc<T>)
    ensures
        *r == val,
{
    Arc::new(val)
}

} // verus!
