//! The values that are replicated and the requests that carry them.

use vstd::prelude::*;
use crate::kv_map::{fold_entries, views, KvMap};

verus! {

/// One key with its value: the unit of replication.
#[derive(Debug)]
pub struct KeyValue {
    pub key: String,
    pub value: u64,
}

/// The mathematical content of a `KeyValue`.
pub struct KeyValueView {
    pub key: Seq<char>,
    pub value: u64,
}

impl View for KeyValue {
    type V = KeyValueView;

    open spec fn view(&self) -> KeyValueView {
        KeyValueView { key: self.key@, value: self.value }
    }
}

impl Clone for KeyValue {
    fn clone(&self) -> (r: Self)
        ensures
            r@ == self@,
    {
        KeyValue { key: self.key.clone(), value: self.value }
    }
}

/// A conditional write: store `new_value` for `key` if `old_value` is what
/// is stored for it now.
#[derive(Debug)]
pub struct KeyValueCas {
    pub key: String,
    pub old_value: u64,
    pub new_value: u64,
}

/// The mathematical content of a `KeyValueCas`.
pub struct KeyValueCasView {
    pub key: Seq<char>,
    pub old_value: u64,
    pub new_value: u64,
}

impl View for KeyValueCas {
    type V = KeyValueCasView;

    open spec fn view(&self) -> KeyValueCasView {
        KeyValueCasView { key: self.key@, old_value: self.old_value, new_value: self.new_value }
    }
}

impl Clone for KeyValueCas {
    fn clone(&self) -> (r: Self)
        ensures
            r@ == self@,
    {
        KeyValueCas {
            key: self.key.clone(),
            old_value: self.old_value,
            new_value: self.new_value,
        }
    }
}

/// A compacted summary of many decided entries: for each key the value that
/// the last of them gave it.
pub struct KVSnapshot {
    pub snapshotted: KvMap,
}

impl View for KVSnapshot {
    type V = Map<Seq<char>, u64>;

    open spec fn view(&self) -> Map<Seq<char>, u64> {
        self.snapshotted@
    }
}

impl Clone for KVSnapshot {
    fn clone(&self) -> (r: Self)
        ensures
            r@ == self@,
    {
        KVSnapshot { snapshotted: self.snapshotted.clone() }
    }
}

impl KVSnapshot {
    /// The snapshot of a run of log entries: a later entry overwrites an
    /// earlier one for the same key.
    pub fn create(entries: &[KeyValue]) -> (snapshot: Self)
        ensures
            snapshot@ == fold_entries(views(entries@)),
    {
        KVSnapshot { snapshotted: KvMap::from_entries(entries) }
    }

    /// Merges a later snapshot into this one: where both hold a key, the
    /// value of `delta` stays.
    pub fn merge(&mut self, delta: Self)
        ensures
            final(self)@ == old(self)@.union_prefer_right(delta@),
    {
        self.snapshotted.merge(&delta.snapshotted);
    }

    /// Key-value entries can always be compacted into a snapshot.
    pub fn use_snapshots() -> (r: bool)
        ensures
            r,
    {
        true
    }
}

/// The snapshot of two runs of entries, one after the other, is the merge of
/// their snapshots.
pub proof fn lemma_snapshot_of_concat(a: Seq<KeyValueView>, b: Seq<KeyValueView>)
    ensures
        fold_entries(a + b) == fold_entries(a).union_prefer_right(fold_entries(b)),
    decreases b.len(),
{
    if b.len() == 0 {
        assert(a + b =~= a);
        assert(fold_entries(a).union_prefer_right(fold_entries(b)) =~= fold_entries(a));
    } else {
        lemma_snapshot_of_concat(a, b.drop_last());
        assert((a + b).drop_last() =~= a + b.drop_last());
        assert(fold_entries(a + b) =~= fold_entries(a).union_prefer_right(fold_entries(b)));
    }
}

} // verus!
