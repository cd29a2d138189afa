//! The replica stores: for each replica slot the key-value view that it has
//! materialised so far, and the set of all slots of one process.

use vstd::prelude::*;
use crate::kv_map::KvMap;
use crate::log::{
    apply_all, apply_entry, empty_replica, entry_units, entry_views, suffix_units,
    DecidedLogEntry, EntryView, ReplicaView,
};

verus! {

/// The identifier of a cluster member.
pub type NodeId = u64;

/// The state of one replica slot: the key-value mapping it has materialised
/// and the number of units it has applied to get there.
pub struct KVStore {
    pub key_value: KvMap,
    pub decided_idx: u64,
}

impl View for KVStore {
    type V = ReplicaView;

    open spec fn view(&self) -> ReplicaView {
        ReplicaView { key_value: self.key_value@, decided_idx: self.decided_idx as nat }
    }
}

impl Clone for KVStore {
    fn clone(&self) -> (r: Self)
        ensures
            r@ == self@,
    {
        KVStore { key_value: self.key_value.clone(), decided_idx: self.decided_idx }
    }
}

/// The units of a prefix of a run never exceed the units of the run.
pub proof fn lemma_units_prefix(es: Seq<EntryView>, n: int)
    requires
        0 <= n <= es.len(),
    ensures
        suffix_units(es.take(n)) <= suffix_units(es),
    decreases es.len(),
{
    if n == es.len() {
        assert(es.take(n) =~= es);
    } else {
        lemma_units_prefix(es.drop_last(), n);
        assert(es.drop_last().take(n) =~= es.take(n));
    }
}

/// A run that is one entry longer applies that entry last.
pub proof fn lemma_apply_step(r: ReplicaView, es: Seq<EntryView>, n: int)
    requires
        0 <= n < es.len(),
    ensures
        apply_all(r, es.take(n + 1)) == apply_entry(apply_all(r, es.take(n)), es[n]),
        suffix_units(es.take(n + 1)) == suffix_units(es.take(n)) + entry_units(es[n]),
{
    assert(es.take(n + 1).drop_last() =~= es.take(n));
}

impl KVStore {
    /// A replica that has applied nothing.
    pub fn new() -> (store: Self)
        ensures
            store@ == empty_replica(),
    {
        KVStore { key_value: KvMap::new(), decided_idx: 0 }
    }

    /// Whether `decided_idx` can count every unit of `entries` without
    /// leaving the range of `u64`.
    pub open spec fn fits(&self, entries: Seq<EntryView>) -> bool {
        self.decided_idx + suffix_units(entries) <= u64::MAX
    }

    /// The number of units by which `entry` advances a replica.
    pub fn units_of(entry: &DecidedLogEntry) -> (n: usize)
        ensures
            n == entry_units(entry@),
    {
        match entry {
            DecidedLogEntry::Decided(_) => 1,
            DecidedLogEntry::Snapshotted(snapshot) => snapshot.snapshotted.len(),
            DecidedLogEntry::Undecided => 0,
        }
    }

    /// Tells whether `apply_suffix` may be called with `entries`.
    pub fn can_apply(&self, entries: &Vec<DecidedLogEntry>) -> (ok: bool)
        ensures
            ok == self.fits(entry_views(entries@)),
    {
        let ghost es = entry_views(entries@);
        let mut room: u64 = u64::MAX - self.decided_idx;
        let mut i: usize = 0;
        while i < entries.len()
            invariant
                i <= entries.len(),
                es == entry_views(entries@),
                room == u64::MAX - self.decided_idx - suffix_units(es.take(i as int)),
            decreases entries.len() - i,
        {
            let units = Self::units_of(&entries[i]) as u64;
            proof {
                lemma_apply_step(empty_replica(), es, i as int);
                lemma_units_prefix(es, i as int + 1);
            }
            if units > room {
                return false;
            }
            room = room - units;
            i += 1;
        }
        assert(es.take(entries.len() as int) =~= es);
        true
    }

    /// Applies one entry of the decided log.
    pub fn apply(&mut self, entry: &DecidedLogEntry)
        requires
            old(self).decided_idx + entry_units(entry@) <= u64::MAX,
        ensures
            final(self)@ == apply_entry(old(self)@, entry@),
    {
        match entry {
            DecidedLogEntry::Decided(kv) => {
                self.key_value.insert(kv.key.clone(), kv.value);
                self.decided_idx = self.decided_idx + 1;
            },
            DecidedLogEntry::Snapshotted(snapshot) => {
                let units = snapshot.snapshotted.len() as u64;
                self.key_value.merge(&snapshot.snapshotted);
                self.decided_idx = self.decided_idx + units;
            },
            DecidedLogEntry::Undecided => {},
        }
    }

    /// Applies a run of entries of the decided log in order.
    pub fn apply_suffix(&mut self, entries: &Vec<DecidedLogEntry>)
        requires
            old(self).fits(entry_views(entries@)),
        ensures
            final(self)@ == apply_all(old(self)@, entry_views(entries@)),
    {
        let ghost es = entry_views(entries@);
        let mut i: usize = 0;
        while i < entries.len()
            invariant
                i <= entries.len(),
                es == entry_views(entries@),
                old(self).fits(es),
                self@ == apply_all(old(self)@, es.take(i as int)),
                self.decided_idx == old(self).decided_idx + suffix_units(es.take(i as int)),
            decreases entries.len() - i,
        {
            proof {
                lemma_apply_step(old(self)@, es, i as int);
                lemma_units_prefix(es, i as int + 1);
            }
            self.apply(&entries[i]);
            i += 1;
        }
        assert(es.take(entries.len() as int) =~= es);
    }
}

/// The replica slots of one process.
///
/// Every slot has a store that serves it while its storage is connected.
/// Every slot but the first also has a stand-in store that serves it while
/// its storage is marked failed; the first slot is served by the same store
/// either way.
pub struct Replicas {
    primary: Vec<KVStore>,
    detached: Vec<KVStore>,
}

/// Which store serves a slot.
pub enum StoreSlot {
    /// The store of a connected slot.
    Primary(int),
    /// The stand-in store of a slot whose storage is marked failed.
    Detached(int),
}

/// The store that serves slot `id`, given whether its storage is marked
/// failed.
pub open spec fn slot_of(id: int, is_failed: bool) -> StoreSlot {
    if is_failed && id > 0 {
        StoreSlot::Detached(id - 1)
    } else {
        StoreSlot::Primary(id)
    }
}

/// Whether `slot` names a store of a set with `slots` slots.
pub open spec fn slot_in_range(slot: StoreSlot, slots: nat) -> bool {
    match slot {
        StoreSlot::Primary(i) => 0 <= i < slots,
        StoreSlot::Detached(i) => 0 <= i < slots - 1,
    }
}

impl Replicas {
    #[verifier::type_invariant]
    spec fn shape(self) -> bool {
        self.detached.len() == if self.primary.len() == 0 {
            0
        } else {
            self.primary.len() - 1
        }
    }

    /// The number of slots.
    pub closed spec fn slots(&self) -> nat {
        self.primary.len() as nat
    }

    /// The store that stands at `slot`.
    pub closed spec fn store_at(&self, slot: StoreSlot) -> KVStore {
        match slot {
            StoreSlot::Primary(i) => self.primary[i],
            StoreSlot::Detached(i) => self.detached[i],
        }
    }

    /// The store that serves slot `id`.
    pub open spec fn storage(&self, id: int, is_failed: bool) -> KVStore {
        self.store_at(slot_of(id, is_failed))
    }

    /// `slots` slots, each served by stores that have applied nothing.
    pub fn new(slots: usize) -> (replicas: Self)
        ensures
            replicas.slots() == slots,
            forall|slot: StoreSlot|
                slot_in_range(slot, slots as nat) ==> (#[trigger] replicas.store_at(slot))@
                    == empty_replica(),
    {
        let mut primary: Vec<KVStore> = Vec::new();
        let mut detached: Vec<KVStore> = Vec::new();
        let mut i: usize = 0;
        while i < slots
            invariant
                i <= slots,
                primary.len() == i,
                detached.len() == if i == 0 {
                    0
                } else {
                    i - 1
                },
                forall|j: int| 0 <= j < primary.len() ==> (#[trigger] primary[j])@ == empty_replica(),
                forall|j: int|
                    0 <= j < detached.len() ==> (#[trigger] detached[j])@ == empty_replica(),
            decreases slots - i,
        {
            primary.push(KVStore::new());
            if i > 0 {
                detached.push(KVStore::new());
            }
            i += 1;
        }
        Replicas { primary, detached }
    }

    /// The number of slots.
    pub fn len(&self) -> (n: usize)
        ensures
            n == self.slots(),
    {
        self.primary.len()
    }
}

impl KVStore {
    /// The store that serves replica slot `id`: its own store while the
    /// storage is connected, its stand-in while the storage is marked failed.
    pub fn get_storage(replicas: &Replicas, id: usize, is_failed: bool) -> (store: &KVStore)
        requires
            id < replicas.slots(),
        ensures
            *store == replicas.storage(id as int, is_failed),
    {
        proof {
            use_type_invariant(replicas);
        }
        if is_failed && id > 0 {
            &replicas.detached[id - 1]
        } else {
            &replicas.primary[id]
        }
    }

    /// As `get_storage`, for changing the store: every other store stays as
    /// it is.
    pub fn get_storage_mut(replicas: &mut Replicas, id: usize, is_failed: bool) -> (store:
        &mut KVStore)
        requires
            id < old(replicas).slots(),
        ensures
            *store == old(replicas).storage(id as int, is_failed),
            final(replicas).slots() == old(replicas).slots(),
            final(replicas).store_at(slot_of(id as int, is_failed)) == *final(store),
            forall|slot: StoreSlot|
                slot_in_range(slot, old(replicas).slots()) && slot != slot_of(id as int, is_failed)
                    ==> #[trigger] final(replicas).store_at(slot) == old(replicas).store_at(slot),
    {
        proof {
            use_type_invariant(&*replicas);
        }
        if is_failed && id > 0 {
            &mut replicas.detached[id - 1]
        } else {
            &mut replicas.primary[id]
        }
    }
}

} // verus!
