//! What a consensus handle reports of its decided log, and what a replica
//! becomes by applying it.

use vstd::prelude::*;
use crate::kv::{KVSnapshot, KeyValue, KeyValueView};

verus! {

/// One entry of the log as a consensus handle reports it.
pub enum DecidedLogEntry {
    /// A decided key-value write.
    Decided(KeyValue),
    /// A snapshot that stands for a run of decided writes.
    Snapshotted(KVSnapshot),
    /// Anything else: not decided yet, trimmed, or a marker of the engine.
    Undecided,
}

/// The mathematical content of a `DecidedLogEntry`.
pub enum EntryView {
    Decided(KeyValueView),
    Snapshotted(Map<Seq<char>, u64>),
    Undecided,
}

impl View for DecidedLogEntry {
    type V = EntryView;

    open spec fn view(&self) -> EntryView {
        match self {
            DecidedLogEntry::Decided(kv) => EntryView::Decided(kv@),
            DecidedLogEntry::Snapshotted(snapshot) => EntryView::Snapshotted(snapshot@),
            DecidedLogEntry::Undecided => EntryView::Undecided,
        }
    }
}

impl Clone for DecidedLogEntry {
    fn clone(&self) -> (r: Self)
        ensures
            r@ == self@,
    {
        match self {
            DecidedLogEntry::Decided(kv) => DecidedLogEntry::Decided(kv.clone()),
            DecidedLogEntry::Snapshotted(snapshot) => DecidedLogEntry::Snapshotted(snapshot.clone()),
            DecidedLogEntry::Undecided => DecidedLogEntry::Undecided,
        }
    }
}

/// The views of a sequence of log entries, one for one.
pub open spec fn entry_views(s: Seq<DecidedLogEntry>) -> Seq<EntryView> {
    s.map_values(|e: DecidedLogEntry| e@)
}

/// The state of one replica: its key-value mapping and the number of units
/// it has applied.
pub struct ReplicaView {
    pub key_value: Map<Seq<char>, u64>,
    pub decided_idx: nat,
}

/// A replica that has applied nothing.
pub open spec fn empty_replica() -> ReplicaView {
    ReplicaView { key_value: Map::empty(), decided_idx: 0 }
}

/// The number of units by which an entry advances a replica: one for a
/// decided write, one for each key of a snapshot, none for anything else.
pub open spec fn entry_units(e: EntryView) -> nat {
    match e {
        EntryView::Decided(_) => 1,
        EntryView::Snapshotted(m) => m.len(),
        EntryView::Undecided => 0,
    }
}

/// The units of a run of entries.
pub open spec fn suffix_units(es: Seq<EntryView>) -> nat
    decreases es.len(),
{
    if es.len() == 0 {
        0
    } else {
        suffix_units(es.drop_last()) + entry_units(es.last())
    }
}

/// The replica after one entry has been applied to it.
pub open spec fn apply_entry(r: ReplicaView, e: EntryView) -> ReplicaView {
    match e {
        EntryView::Decided(kv) => ReplicaView {
            key_value: r.key_value.insert(kv.key, kv.value),
            decided_idx: r.decided_idx + 1,
        },
        EntryView::Snapshotted(m) => ReplicaView {
            key_value: r.key_value.union_prefer_right(m),
            decided_idx: r.decided_idx + m.len(),
        },
        EntryView::Undecided => r,
    }
}

/// The replica after a run of entries has been applied to it in order.
pub open spec fn apply_all(r: ReplicaView, es: Seq<EntryView>) -> ReplicaView
    decreases es.len(),
{
    if es.len() == 0 {
        r
    } else {
        apply_entry(apply_all(r, es.drop_last()), es.last())
    }
}

} // verus!
