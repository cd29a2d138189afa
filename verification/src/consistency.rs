//! What the read path, the conditional write and the write path guarantee
//! together, stated over the decided log of the consensus layer.
//!
//! The log is a sequence of entries that only grows. A replica tails it: it
//! has applied a prefix, and a sync applies the rest.

use vstd::prelude::*;
use crate::kv::{KeyValueCasView, KeyValueView};
use crate::kv_controller::KeyValueResponseView;
use crate::log::{
    apply_all, apply_entry, empty_replica, entry_units, suffix_units, EntryView, ReplicaView,
};
use crate::storage::{
    assigned_idx, best_report, cas_matches, current_value, first_decided, lemma_first_decided,
    lookup, sync_needed, synced, IndexReport, ABSENT_VALUE,
};

verus! {

/// The replica that has applied all of `log` and nothing else.
pub open spec fn replay(log: Seq<EntryView>) -> ReplicaView {
    apply_all(empty_replica(), log)
}

/// Every entry of `log` is a decided write.
pub open spec fn all_decided(log: Seq<EntryView>) -> bool {
    forall|i: int| 0 <= i < log.len() ==> #[trigger] log[i] is Decided
}

/// The value that the last entry of `log` which writes `key` gives it, if any
/// entry writes it.
pub open spec fn last_value(log: Seq<EntryView>, key: Seq<char>) -> Option<u64>
    decreases log.len(),
{
    if log.len() == 0 {
        None
    } else {
        match log.last() {
            EntryView::Decided(kv) => if kv.key == key {
                Some(kv.value)
            } else {
                last_value(log.drop_last(), key)
            },
            EntryView::Snapshotted(m) => if m.contains_key(key) {
                Some(m[key])
            } else {
                last_value(log.drop_last(), key)
            },
            EntryView::Undecided => last_value(log.drop_last(), key),
        }
    }
}

/// The reports name `decided_idx` as the highest decided index.
pub open spec fn reports_reach(reports: Seq<IndexReport>, decided_idx: nat) -> bool {
    reports.len() > 0 && reports[best_report(reports)].decided_idx == decided_idx
}

/// Applying two runs one after the other is applying their concatenation.
pub proof fn lemma_apply_concat(r: ReplicaView, a: Seq<EntryView>, b: Seq<EntryView>)
    ensures
        apply_all(apply_all(r, a), b) == apply_all(r, a + b),
    decreases b.len(),
{
    if b.len() == 0 {
        assert(a + b =~= a);
    } else {
        lemma_apply_concat(r, a, b.drop_last());
        assert((a + b).drop_last() =~= a + b.drop_last());
    }
}

/// Applying a run advances the decided index by the units of the run.
pub proof fn lemma_applied_units(r: ReplicaView, es: Seq<EntryView>)
    ensures
        apply_all(r, es).decided_idx == r.decided_idx + suffix_units(es),
    decreases es.len(),
{
    if es.len() > 0 {
        lemma_applied_units(r, es.drop_last());
    }
}

/// A run of decided writes has one unit for each entry.
pub proof fn lemma_units_of_decided(es: Seq<EntryView>)
    requires
        all_decided(es),
    ensures
        suffix_units(es) == es.len(),
    decreases es.len(),
{
    if es.len() > 0 {
        assert(es.last() == es[es.len() - 1]);
        assert forall|i: int| 0 <= i < es.drop_last().len() implies #[trigger] es.drop_last()[i] is Decided by {
            assert(es.drop_last()[i] == es[i]);
        }
        lemma_units_of_decided(es.drop_last());
    }
}

/// After a run has been applied, a key reads as the last entry of the run
/// that writes it says; a key that the run does not write reads as before.
pub proof fn lemma_reads_last_value(r: ReplicaView, es: Seq<EntryView>, key: Seq<char>)
    ensures
        match last_value(es, key) {
            Some(value) => apply_all(r, es).key_value.contains_key(key) && apply_all(
                r,
                es,
            ).key_value[key] == value,
            None => apply_all(r, es).key_value.contains_key(key) == r.key_value.contains_key(key)
                && (r.key_value.contains_key(key) ==> apply_all(r, es).key_value[key]
                == r.key_value[key]),
        },
    decreases es.len(),
{
    if es.len() > 0 {
        lemma_reads_last_value(r, es.drop_last(), key);
    }
}

/// What a run writes into a replica does not depend on what the replica
/// held: the mapping afterwards is the old one overwritten by what the run
/// writes into an empty replica.
pub proof fn lemma_apply_overwrites(r: ReplicaView, es: Seq<EntryView>)
    ensures
        apply_all(r, es).key_value == r.key_value.union_prefer_right(replay(es).key_value),
    decreases es.len(),
{
    if es.len() == 0 {
        assert(r.key_value =~= r.key_value.union_prefer_right(Map::<Seq<char>, u64>::empty()));
    } else {
        lemma_apply_overwrites(r, es.drop_last());
        let before = apply_all(r, es.drop_last());
        let written = replay(es.drop_last());
        assert(apply_entry(before, es.last()).key_value =~= r.key_value.union_prefer_right(
            apply_entry(written, es.last()).key_value,
        ));
    }
}

/// Monotonic materialisation: a sync never decreases the decided index of a
/// replica, whatever the nodes report and whatever the suffix holds.
pub proof fn lemma_sync_never_regresses(
    local: ReplicaView,
    reports: Seq<IndexReport>,
    suffix: Seq<EntryView>,
)
    ensures
        synced(local, reports, suffix).decided_idx >= local.decided_idx,
{
    lemma_applied_units(local, suffix);
}

/// Idempotent application: applying the same suffix a second time leaves the
/// key-value mapping as it was after the first time.
pub proof fn lemma_reapplying_keeps_mapping(local: ReplicaView, suffix: Seq<EntryView>)
    ensures
        apply_all(apply_all(local, suffix), suffix).key_value == apply_all(
            local,
            suffix,
        ).key_value,
{
    let once = apply_all(local, suffix);
    lemma_apply_overwrites(local, suffix);
    lemma_apply_overwrites(once, suffix);
    assert(once.key_value.union_prefer_right(replay(suffix).key_value) =~= once.key_value);
}

/// Idempotent resumption: a replica that tails a log of decided writes has,
/// after one sync, applied all of it, and a second sync against the same log
/// changes nothing, whatever suffix it is handed.
pub proof fn lemma_resync_changes_nothing(
    log: Seq<EntryView>,
    applied: int,
    reports: Seq<IndexReport>,
    again: Seq<EntryView>,
)
    requires
        all_decided(log),
        0 <= applied <= log.len(),
        reports_reach(reports, log.len()),
    ensures
        synced(replay(log.take(applied)), reports, log.skip(applied)) == replay(log),
        replay(log).decided_idx == log.len(),
        synced(replay(log), reports, again) == replay(log),
{
    lemma_tailing_catches_up(log, applied, reports);
}

/// A replica that has applied a prefix of a log of decided writes holds all
/// of the log after a sync that reads the rest.
pub proof fn lemma_tailing_catches_up(log: Seq<EntryView>, applied: int, reports: Seq<IndexReport>)
    requires
        all_decided(log),
        0 <= applied <= log.len(),
        reports_reach(reports, log.len()),
    ensures
        replay(log.take(applied)).decided_idx == applied,
        replay(log).decided_idx == log.len(),
        synced(replay(log.take(applied)), reports, log.skip(applied)) == replay(log),
{
    let prefix = log.take(applied);
    let rest = log.skip(applied);
    assert(prefix + rest =~= log);
    assert forall|i: int| 0 <= i < prefix.len() implies #[trigger] prefix[i] is Decided by {
        assert(prefix[i] == log[i]);
    }
    lemma_units_of_decided(prefix);
    lemma_units_of_decided(log);
    lemma_applied_units(empty_replica(), prefix);
    lemma_applied_units(empty_replica(), log);
    lemma_apply_concat(empty_replica(), prefix, rest);
    if applied == log.len() {
        assert(prefix =~= log);
    }
}

/// Read-after-write on one node. A write of `kv` was answered with the
/// decided index that the write path assigns; the entry that it found is
/// still the last one that writes the key when the read comes. Then a read
/// through a replica that tails the node's log of decided writes gives the
/// written value, with a decided index that is not below the answered one.
pub proof fn lemma_read_after_write(
    log: Seq<EntryView>,
    applied: int,
    reports: Seq<IndexReport>,
    kv: KeyValueView,
    before_idx: u64,
    answered: u64,
)
    requires
        all_decided(log),
        0 <= applied <= log.len(),
        log.len() <= u64::MAX,
        reports_reach(reports, log.len()),
        before_idx <= log.len(),
        assigned_idx(kv.key, before_idx, log.skip(before_idx as int)) == Some(answered),
        last_value(log, kv.key) == Some(kv.value),
    ensures
        ({
            let replica = synced(replay(log.take(applied)), reports, log.skip(applied));
            &&& lookup(replica, kv.key) matches Some(response)
            &&& response.value == kv.value
            &&& response.decided_idx >= answered
        }),
{
    lemma_tailing_catches_up(log, applied, reports);
    lemma_reads_last_value(empty_replica(), log, kv.key);
    lemma_first_decided(kv.key, log.skip(before_idx as int));
}

/// Conditional write without contention. The replica tails a log of decided
/// writes, and nobody else writes between the read and the append.
///
/// The check matches exactly where the last decided value of the key is the
/// expected one; a key that was never written reads as `ABSENT_VALUE`. Where
/// it matches, the appended entry is given a decided index above the one
/// that the read reported, and a read after it gives the new value.
pub proof fn lemma_cas_without_contention(
    log: Seq<EntryView>,
    applied: int,
    reports: Seq<IndexReport>,
    request: KeyValueCasView,
)
    requires
        all_decided(log),
        0 <= applied <= log.len(),
        log.len() < u64::MAX,
        reports_reach(reports, log.len()),
    ensures
        ({
            let read = synced(replay(log.take(applied)), reports, log.skip(applied));
            let written = EntryView::Decided(
                KeyValueView { key: request.key, value: request.new_value },
            );
            let extended = log.push(written);
            let answered = assigned_idx(
                request.key,
                log.len() as u64,
                extended.skip(log.len() as int),
            );
            &&& cas_matches(read, request) <==> request.old_value == (match last_value(
                log,
                request.key,
            ) {
                Some(value) => value,
                None => ABSENT_VALUE,
            })
            &&& answered == Some((log.len() + 1) as u64)
            &&& log.len() + 1 > read.decided_idx
            &&& lookup(replay(extended), request.key) == Some(
                KeyValueResponseView {
                    key: request.key,
                    value: request.new_value,
                    decided_idx: (log.len() + 1) as u64,
                },
            )
        }),
{
    let written = EntryView::Decided(KeyValueView { key: request.key, value: request.new_value });
    let extended = log.push(written);
    lemma_tailing_catches_up(log, applied, reports);
    lemma_reads_last_value(empty_replica(), log, request.key);
    assert(extended.drop_last() =~= log);
    let tail = extended.skip(log.len() as int);
    assert(tail =~= seq![written]);
    assert(tail.first() == written);
    assert(first_decided(request.key, tail) == Some(0nat));
}

/// Serialised concurrent writes. Whatever two replicas had applied of a log
/// of decided writes, after a sync against it they hold the same state, and
/// each key reads as the entry that the log decided last for it says.
pub proof fn lemma_replicas_converge(
    log: Seq<EntryView>,
    applied_a: int,
    applied_b: int,
    reports_a: Seq<IndexReport>,
    reports_b: Seq<IndexReport>,
    key: Seq<char>,
)
    requires
        all_decided(log),
        0 <= applied_a <= log.len(),
        0 <= applied_b <= log.len(),
        reports_reach(reports_a, log.len()),
        reports_reach(reports_b, log.len()),
    ensures
        ({
            let a = synced(replay(log.take(applied_a)), reports_a, log.skip(applied_a));
            let b = synced(replay(log.take(applied_b)), reports_b, log.skip(applied_b));
            &&& a == b
            &&& match last_value(log, key) {
                Some(value) => a.key_value.contains_key(key) && a.key_value[key] == value,
                None => !a.key_value.contains_key(key),
            }
        }),
{
    lemma_tailing_catches_up(log, applied_a, reports_a);
    lemma_tailing_catches_up(log, applied_b, reports_b);
    lemma_reads_last_value(empty_replica(), log, key);
}

} // verus!
