//! The read path, the conditional write and the write path, as functions
//! from what the consensus handles reported to what the replica becomes and
//! what the caller is told.
//!
//! Talking to a handle is left to the caller. It hands in what the handles
//! answered: the decided indices of the queried nodes and the decided suffix
//! that the chosen node returned.

use vstd::prelude::*;
use crate::error::KvError;
use crate::kv::{KeyValue, KeyValueCas, KeyValueView};
use crate::kv_controller::{KeyValueResponse, KeyValueResponseView};
use crate::log::{apply_all, entry_views, DecidedLogEntry, EntryView, ReplicaView};
use crate::nodes::{KVStore, NodeId};

verus! {

/// The value that a key reads as while nothing is stored for it. A
/// conditional write that expects this value matches an absent key.
pub const ABSENT_VALUE: u64 = 0;

/// What one node answered when asked for its decided index.
#[derive(Clone, Copy, Debug, PartialEq, Eq, Structural)]
pub struct IndexReport {
    pub node: NodeId,
    pub decided_idx: u64,
}

/// The size of a majority of `n` nodes.
pub open spec fn quorum(n: nat) -> nat {
    n / 2 + 1
}

/// The size of a majority of `n` nodes.
pub fn quorum_size(n: usize) -> (q: usize)
    ensures
        q == quorum(n as nat),
{
    n / 2 + 1
}

/// The nodes that a replica asks for their decided index: the first
/// quorum-sized run of `nodes`, or all of them where there are fewer.
pub open spec fn quorum_prefix(nodes: Seq<NodeId>) -> Seq<NodeId> {
    if quorum(nodes.len()) <= nodes.len() {
        nodes.take(quorum(nodes.len()) as int)
    } else {
        nodes
    }
}

/// Picks the quorum-sized subset of `nodes` whose decided indices a replica
/// compares before it syncs.
pub fn quorum_subset(nodes: &Vec<NodeId>) -> (subset: Vec<NodeId>)
    ensures
        subset@ == quorum_prefix(nodes@),
{
    let wanted = quorum_size(nodes.len());
    let count = if wanted <= nodes.len() {
        wanted
    } else {
        nodes.len()
    };
    let mut subset: Vec<NodeId> = Vec::new();
    let mut i: usize = 0;
    while i < count
        invariant
            i <= count <= nodes.len(),
            subset@ == nodes@.take(i as int),
        decreases count - i,
    {
        subset.push(nodes[i]);
        assert(subset@ =~= nodes@.take(i as int + 1));
        i += 1;
    }
    assert(nodes@.take(nodes.len() as int) =~= nodes@);
    subset
}

/// The position of the report to sync from: the first one that reports the
/// highest decided index.
pub open spec fn best_report(reports: Seq<IndexReport>) -> int
    decreases reports.len(),
{
    if reports.len() <= 1 {
        0
    } else {
        let before = best_report(reports.drop_last());
        if reports.last().decided_idx > reports[before].decided_idx {
            reports.len() - 1
        } else {
            before
        }
    }
}

/// The chosen report is in range, no report is higher, and every report
/// before it is lower.
pub proof fn lemma_best_report(reports: Seq<IndexReport>)
    requires
        reports.len() > 0,
    ensures
        0 <= best_report(reports) < reports.len(),
        forall|j: int|
            0 <= j < reports.len() ==> (#[trigger] reports[j]).decided_idx <= reports[best_report(
                reports,
            )].decided_idx,
        forall|j: int|
            0 <= j < best_report(reports) ==> (#[trigger] reports[j]).decided_idx
                < reports[best_report(reports)].decided_idx,
    decreases reports.len(),
{
    if reports.len() > 1 {
        let p = reports.drop_last();
        lemma_best_report(p);
        let b = best_report(p);
        let c = best_report(reports);
        assert(p[b] == reports[b]);
        assert forall|j: int| 0 <= j < reports.len() implies (#[trigger] reports[j]).decided_idx
            <= reports[c].decided_idx by {
            if j < p.len() {
                assert(p[j] == reports[j]);
            }
        }
        assert forall|j: int| 0 <= j < c implies (#[trigger] reports[j]).decided_idx
            < reports[c].decided_idx by {
            if j < p.len() {
                assert(p[j] == reports[j]);
            }
        }
    }
}

/// Chooses the node to sync from among the reports of a quorum-sized subset:
/// the first that reports the highest decided index. `None` where there is no
/// report.
pub fn select_source(reports: &Vec<IndexReport>) -> (choice: Option<usize>)
    ensures
        choice == (if reports.len() == 0 {
            None
        } else {
            Some(best_report(reports@) as usize)
        }),
{
    if reports.len() == 0 {
        return None;
    }
    let mut best: usize = 0;
    let mut i: usize = 1;
    assert(reports@.take(1).len() == 1);
    while i < reports.len()
        invariant
            1 <= i <= reports.len(),
            best < i,
            best == best_report(reports@.take(i as int)),
        decreases reports.len() - i,
    {
        proof {
            let t = reports@.take(i as int + 1);
            assert(t.drop_last() =~= reports@.take(i as int));
            assert(t.last() == reports[i as int]);
            assert(t[best as int] == reports[best as int]);
        }
        if reports[i].decided_idx > reports[best].decided_idx {
            best = i;
        }
        i += 1;
    }
    assert(reports@.take(reports.len() as int) =~= reports@);
    Some(best)
}

/// Whether a replica has to catch up: some node reports a decided index
/// above the replica's own.
pub open spec fn sync_needed(local: ReplicaView, reports: Seq<IndexReport>) -> bool {
    reports.len() > 0 && reports[best_report(reports)].decided_idx > local.decided_idx
}

/// The replica after a sync: where it has to catch up, every entry of the
/// suffix applied in order; else unchanged.
pub open spec fn synced(local: ReplicaView, reports: Seq<IndexReport>, suffix: Seq<EntryView>)
    -> ReplicaView {
    if sync_needed(local, reports) {
        apply_all(local, suffix)
    } else {
        local
    }
}

/// What a replica has to ask of the cluster before it can serve a read.
#[derive(Clone, Copy, Debug, PartialEq, Eq, Structural)]
pub enum SyncPlan {
    /// No node is ahead of the replica: nothing to read.
    UpToDate,
    /// Read the decided suffix from `from_idx` on from the node whose report
    /// stands at position `source`.
    ReadSuffix { source: usize, node: NodeId, from_idx: u64 },
}

/// The plan that the reports call for.
pub open spec fn sync_plan(local: ReplicaView, reports: Seq<IndexReport>) -> SyncPlan {
    if sync_needed(local, reports) {
        SyncPlan::ReadSuffix {
            source: best_report(reports) as usize,
            node: reports[best_report(reports)].node,
            from_idx: local.decided_idx as u64,
        }
    } else {
        SyncPlan::UpToDate
    }
}

/// Decides from the reports of a quorum-sized subset whether the replica has
/// to read a suffix, from which node, and from which index on.
pub fn plan_sync(store: &KVStore, reports: &Vec<IndexReport>) -> (plan: SyncPlan)
    ensures
        plan == sync_plan(store@, reports@),
{
    match select_source(reports) {
        None => SyncPlan::UpToDate,
        Some(source) => {
            proof {
                lemma_best_report(reports@);
            }
            if reports[source].decided_idx > store.decided_idx {
                SyncPlan::ReadSuffix {
                    source,
                    node: reports[source].node,
                    from_idx: store.decided_idx,
                }
            } else {
                SyncPlan::UpToDate
            }
        },
    }
}

/// Brings a replica up to date. `suffix` is what the chosen node returned for
/// the decided suffix from the replica's own decided index on; it is looked
/// at only where the replica has to catch up.
pub fn sync_decided_kv(store: &mut KVStore, reports: &Vec<IndexReport>, suffix: &Vec<DecidedLogEntry>)
    requires
        sync_needed(old(store)@, reports@) ==> old(store).fits(entry_views(suffix@)),
    ensures
        final(store)@ == synced(old(store)@, reports@, entry_views(suffix@)),
{
    match plan_sync(store, reports) {
        SyncPlan::UpToDate => {},
        SyncPlan::ReadSuffix { .. } => {
            store.apply_suffix(suffix);
        },
    }
}

/// What a replica answers for a key: its value and the replica's decided
/// index, or nothing where the key is absent.
pub open spec fn lookup(replica: ReplicaView, key: Seq<char>) -> Option<KeyValueResponseView> {
    if replica.key_value.contains_key(key) {
        Some(
            KeyValueResponseView {
                key,
                value: replica.key_value[key],
                decided_idx: replica.decided_idx as u64,
            },
        )
    } else {
        None
    }
}

/// The answer as a result: `NotFound` where there is none.
pub open spec fn read_result(found: Option<KeyValueResponseView>) -> Result<
    KeyValueResponseView,
    KvError,
> {
    match found {
        Some(response) => Ok(response),
        None => Err(KvError::NotFound),
    }
}

/// The view of a read's result.
pub open spec fn response_view(r: Result<KeyValueResponse, KvError>) -> Result<
    KeyValueResponseView,
    KvError,
> {
    match r {
        Ok(response) => Ok(response@),
        Err(e) => Err(e),
    }
}

/// Looks `key` up in a replica as it stands, without syncing.
pub fn read_local(store: &KVStore, key: &String) -> (r: Result<KeyValueResponse, KvError>)
    ensures
        response_view(r) == read_result(lookup(store@, key@)),
{
    match store.key_value.get(key) {
        Some(value) => Ok(
            KeyValueResponse { key: key.clone(), value, decided_idx: store.decided_idx },
        ),
        None => Err(KvError::NotFound),
    }
}

/// Serves a read: syncs the replica, then looks the key up. The answer is a
/// point-in-time view as of that sync.
pub fn get_kv(
    store: &mut KVStore,
    key: &String,
    reports: &Vec<IndexReport>,
    suffix: &Vec<DecidedLogEntry>,
) -> (r: Result<KeyValueResponse, KvError>)
    requires
        sync_needed(old(store)@, reports@) ==> old(store).fits(entry_views(suffix@)),
    ensures
        final(store)@ == synced(old(store)@, reports@, entry_views(suffix@)),
        response_view(r) == read_result(lookup(final(store)@, key@)),
{
    sync_decided_kv(store, reports, suffix);
    read_local(store, key)
}

/// The value that a conditional write compares with: what is stored for the
/// key, `ABSENT_VALUE` where nothing is.
pub open spec fn current_value(replica: ReplicaView, key: Seq<char>) -> u64 {
    if replica.key_value.contains_key(key) {
        replica.key_value[key]
    } else {
        ABSENT_VALUE
    }
}

/// Whether the conditional write's expectation matches the replica.
pub open spec fn cas_matches(replica: ReplicaView, request: crate::kv::KeyValueCasView) -> bool {
    current_value(replica, request.key) == request.old_value
}

/// The view of a conditional write's verdict.
pub open spec fn verdict_view(r: Result<KeyValue, KvError>) -> Result<KeyValueView, KvError> {
    match r {
        Ok(kv) => Ok(kv@),
        Err(e) => Err(e),
    }
}

/// Checks a conditional write against a replica that was just synced: the
/// entry to append where the expectation matches, `Conflict` where it does
/// not. Nothing is written here; on `Conflict` nothing is to be written at
/// all.
///
/// The check and the append that follows are two steps. A writer that
/// commits between them is not noticed: only the log orders the outcome.
pub fn cas_kv(
    store: &mut KVStore,
    request: &KeyValueCas,
    reports: &Vec<IndexReport>,
    suffix: &Vec<DecidedLogEntry>,
) -> (verdict: Result<KeyValue, KvError>)
    requires
        sync_needed(old(store)@, reports@) ==> old(store).fits(entry_views(suffix@)),
    ensures
        final(store)@ == synced(old(store)@, reports@, entry_views(suffix@)),
        verdict_view(verdict) == (if cas_matches(final(store)@, request@) {
            Ok(KeyValueView { key: request@.key, value: request@.new_value })
        } else {
            Err(KvError::Conflict)
        }),
{
    let current = match get_kv(store, &request.key, reports, suffix) {
        Ok(response) => response.value,
        Err(_) => ABSENT_VALUE,
    };
    if current == request.old_value {
        Ok(KeyValue { key: request.key.clone(), value: request.new_value })
    } else {
        Err(KvError::Conflict)
    }
}

/// Whether `entry` is a decided write of `key`.
pub open spec fn decides_key(entry: EntryView, key: Seq<char>) -> bool {
    entry matches EntryView::Decided(kv) && kv.key == key
}

/// The position of the first decided write of `key` in `suffix`, if there is
/// one.
pub open spec fn first_decided(key: Seq<char>, suffix: Seq<EntryView>) -> Option<nat>
    decreases suffix.len(),
{
    if suffix.len() == 0 {
        None
    } else if decides_key(suffix.first(), key) {
        Some(0)
    } else {
        match first_decided(key, suffix.drop_first()) {
            Some(i) => Some(i + 1),
            None => None,
        }
    }
}

/// The position that `first_decided` gives holds a decided write of the key
/// and no position before it does; where it gives none, no position does.
pub proof fn lemma_first_decided(key: Seq<char>, suffix: Seq<EntryView>)
    ensures
        match first_decided(key, suffix) {
            Some(i) => i < suffix.len() && decides_key(suffix[i as int], key) && forall|j: int|
                0 <= j < i ==> !decides_key(#[trigger] suffix[j], key),
            None => forall|j: int| 0 <= j < suffix.len() ==> !decides_key(#[trigger] suffix[j], key),
        },
    decreases suffix.len(),
{
    if suffix.len() > 0 && !decides_key(suffix.first(), key) {
        let rest = suffix.drop_first();
        lemma_first_decided(key, rest);
        match first_decided(key, rest) {
            Some(i) => {
                assert(rest[i as int] == suffix[i as int + 1]);
                assert forall|j: int| 0 <= j < i + 1 implies !decides_key(
                    #[trigger] suffix[j],
                    key,
                ) by {
                    if j > 0 {
                        assert(rest[j - 1] == suffix[j]);
                    }
                }
            },
            None => {
                assert forall|j: int| 0 <= j < suffix.len() implies !decides_key(
                    #[trigger] suffix[j],
                    key,
                ) by {
                    if j > 0 {
                        assert(rest[j - 1] == suffix[j]);
                    }
                }
            },
        }
    }
}

/// The decided index that a write of `key` is given: one more than the log
/// position of its first decided entry in the suffix read from `before_idx`.
pub open spec fn assigned_idx(key: Seq<char>, before_idx: u64, suffix: Seq<EntryView>) -> Option<
    u64,
> {
    match first_decided(key, suffix) {
        Some(i) => Some((before_idx + i + 1) as u64),
        None => None,
    }
}

/// Looks for the first decided write of `key` in the suffix that was read
/// from `before_idx` on, and gives the decided index that it stands for.
pub fn locate_decided(key: &String, before_idx: u64, suffix: &Vec<DecidedLogEntry>) -> (found:
    Option<u64>)
    requires
        before_idx + suffix.len() <= u64::MAX,
    ensures
        found == assigned_idx(key@, before_idx, entry_views(suffix@)),
{
    let ghost es = entry_views(suffix@);
    let mut i: usize = 0;
    assert(es.skip(0) =~= es);
    while i < suffix.len()
        invariant
            i <= suffix.len(),
            es == entry_views(suffix@),
            before_idx + suffix.len() <= u64::MAX,
            first_decided(key@, es) == (match first_decided(key@, es.skip(i as int)) {
                Some(k) => Some(k + i as nat),
                None => None,
            }),
        decreases suffix.len() - i,
    {
        proof {
            assert(es.skip(i as int).drop_first() =~= es.skip(i as int + 1));
            assert(es.skip(i as int).first() == suffix[i as int]@);
        }
        match &suffix[i] {
            DecidedLogEntry::Decided(kv) => {
                if kv.key == *key {
                    return Some(before_idx + (i as u64) + 1);
                }
            },
            _ => {},
        }
        i += 1;
    }
    assert(es.skip(suffix.len() as int) =~= Seq::<EntryView>::empty());
    None
}

/// Where a write stands between the request and its answer.
#[derive(Clone, Copy, Debug, PartialEq, Eq, Structural)]
pub enum WriteState {
    /// The target node was asked for its decided index.
    AwaitingIndex,
    /// The entry was handed to the target node.
    AwaitingAppend { before_idx: u64 },
    /// The entry was accepted; the decided suffix from `before_idx` on is
    /// read until the entry shows up or the polls run out.
    Polling { before_idx: u64, polls_left: u64 },
    /// The entry is decided.
    Decided { decided_idx: u64 },
    /// The write failed.
    Failed { error: KvError },
}

/// What a consensus handle answered to the last action of a write.
pub enum WriteEvent {
    /// The decided index of the target node.
    DecidedIdx(u64),
    /// The target node accepted the entry.
    Appended,
    /// The target node rejected the entry: it has no leader or is not ready.
    Rejected,
    /// The decided suffix that the target node returned.
    Suffix(Vec<DecidedLogEntry>),
    /// The caller gave the write up before it was answered.
    Cancelled,
}

/// The mathematical content of a `WriteEvent`.
pub enum WriteEventView {
    DecidedIdx(u64),
    Appended,
    Rejected,
    Suffix(Seq<EntryView>),
    Cancelled,
}

impl View for WriteEvent {
    type V = WriteEventView;

    open spec fn view(&self) -> WriteEventView {
        match self {
            WriteEvent::DecidedIdx(idx) => WriteEventView::DecidedIdx(*idx),
            WriteEvent::Appended => WriteEventView::Appended,
            WriteEvent::Rejected => WriteEventView::Rejected,
            WriteEvent::Suffix(entries) => WriteEventView::Suffix(entry_views(entries@)),
            WriteEvent::Cancelled => WriteEventView::Cancelled,
        }
    }
}

/// What the caller has to do next for a write.
#[derive(Clone, Copy, Debug, PartialEq, Eq, Structural)]
pub enum WriteAction {
    /// Nothing: the event does not belong to the state.
    Ignore,
    /// Hand the entry to the target node.
    Append,
    /// Wait for the backoff interval, then read the decided suffix from
    /// `from_idx` on.
    PollAfterBackoff { from_idx: u64 },
    /// Answer the request with the decided index that the entry was given.
    ReplyDecided { decided_idx: u64 },
    /// Answer the request with an error.
    ReplyFailed { error: KvError },
}

/// The state in which every write starts; the caller asks the target node
/// for its decided index.
pub open spec fn write_start() -> WriteState {
    WriteState::AwaitingIndex
}

/// Whether the write has been answered.
pub open spec fn write_finished(state: WriteState) -> bool {
    state is Decided || state is Failed
}

/// The next state of a write of `key` and what the caller has to do, given
/// what the handle answered. No more than `max_polls` suffixes are read. A
/// write that is given up before it is answered ends in `Timeout`: the entry
/// may still be decided later.
pub open spec fn write_step(key: Seq<char>, max_polls: u64, state: WriteState, event: WriteEventView)
    -> (WriteState, WriteAction) {
    match (state, event) {
        (WriteState::Decided { .. }, _) => (state, WriteAction::Ignore),
        (WriteState::Failed { .. }, _) => (state, WriteAction::Ignore),
        (_, WriteEventView::Cancelled) => (
            WriteState::Failed { error: KvError::Timeout },
            WriteAction::ReplyFailed { error: KvError::Timeout },
        ),
        (WriteState::AwaitingIndex, WriteEventView::DecidedIdx(before_idx)) => (
            WriteState::AwaitingAppend { before_idx },
            WriteAction::Append,
        ),
        (WriteState::AwaitingAppend { before_idx }, WriteEventView::Appended) => if max_polls
            == 0 {
            (
                WriteState::Failed { error: KvError::Timeout },
                WriteAction::ReplyFailed { error: KvError::Timeout },
            )
        } else {
            (
                WriteState::Polling { before_idx, polls_left: max_polls },
                WriteAction::PollAfterBackoff { from_idx: before_idx },
            )
        },
        (WriteState::AwaitingAppend { before_idx }, WriteEventView::Rejected) => (
            WriteState::Failed { error: KvError::Unavailable },
            WriteAction::ReplyFailed { error: KvError::Unavailable },
        ),
        (WriteState::Polling { before_idx, polls_left }, WriteEventView::Suffix(suffix)) => {
            match assigned_idx(key, before_idx, suffix) {
                Some(decided_idx) => (
                    WriteState::Decided { decided_idx },
                    WriteAction::ReplyDecided { decided_idx },
                ),
                None => if polls_left > 1 {
                    (
                        WriteState::Polling { before_idx, polls_left: (polls_left - 1) as u64 },
                        WriteAction::PollAfterBackoff { from_idx: before_idx },
                    )
                } else {
                    (
                        WriteState::Failed { error: KvError::Timeout },
                        WriteAction::ReplyFailed { error: KvError::Timeout },
                    )
                },
            }
        },
        _ => (state, WriteAction::Ignore),
    }
}

/// Whether the decided index of every entry of the suffix fits in `u64`.
pub open spec fn suffix_in_range(state: WriteState, event: WriteEventView) -> bool {
    match (state, event) {
        (WriteState::Polling { before_idx, .. }, WriteEventView::Suffix(suffix)) => before_idx
            + suffix.len() <= u64::MAX,
        _ => true,
    }
}

/// Starts a write: the caller asks the target node for its decided index.
pub fn begin_write() -> (state: WriteState)
    ensures
        state == write_start(),
{
    WriteState::AwaitingIndex
}

/// Tells whether the write has been answered.
pub fn is_finished(state: WriteState) -> (done: bool)
    ensures
        done == write_finished(state),
{
    match state {
        WriteState::Decided { .. } => true,
        WriteState::Failed { .. } => true,
        _ => false,
    }
}

/// Advances the write of `kv` by one answer of the target node's handle:
/// record the decided index before the append, append, then read the decided
/// suffix after each backoff until an entry for the key is decided. The wait
/// is bounded: after `max_polls` suffixes without the entry the write ends in
/// `Timeout`, and so does a write that the caller gives up. A rejected append
/// ends it in `Unavailable`. An answered write ignores every further event.
pub fn create_kv(kv: &KeyValue, max_polls: u64, state: WriteState, event: &WriteEvent) -> (next: (
    WriteState,
    WriteAction,
))
    requires
        suffix_in_range(state, event@),
    ensures
        next == write_step(kv@.key, max_polls, state, event@),
{
    match (state, event) {
        (WriteState::Decided { .. }, _) => (state, WriteAction::Ignore),
        (WriteState::Failed { .. }, _) => (state, WriteAction::Ignore),
        (_, WriteEvent::Cancelled) => (
            WriteState::Failed { error: KvError::Timeout },
            WriteAction::ReplyFailed { error: KvError::Timeout },
        ),
        (WriteState::AwaitingIndex, WriteEvent::DecidedIdx(before_idx)) => (
            WriteState::AwaitingAppend { before_idx: *before_idx },
            WriteAction::Append,
        ),
        (WriteState::AwaitingAppend { before_idx }, WriteEvent::Appended) => {
            if max_polls == 0 {
                (
                    WriteState::Failed { error: KvError::Timeout },
                    WriteAction::ReplyFailed { error: KvError::Timeout },
                )
            } else {
                (
                    WriteState::Polling { before_idx, polls_left: max_polls },
                    WriteAction::PollAfterBackoff { from_idx: before_idx },
                )
            }
        },
        (WriteState::AwaitingAppend { .. }, WriteEvent::Rejected) => (
            WriteState::Failed { error: KvError::Unavailable },
            WriteAction::ReplyFailed { error: KvError::Unavailable },
        ),
        (WriteState::Polling { before_idx, polls_left }, WriteEvent::Suffix(suffix)) => {
            match locate_decided(&kv.key, before_idx, suffix) {
                Some(decided_idx) => (
                    WriteState::Decided { decided_idx },
                    WriteAction::ReplyDecided { decided_idx },
                ),
                None => {
                    if polls_left > 1 {
                        (
                            WriteState::Polling { before_idx, polls_left: polls_left - 1 },
                            WriteAction::PollAfterBackoff { from_idx: before_idx },
                        )
                    } else {
                        (
                            WriteState::Failed { error: KvError::Timeout },
                            WriteAction::ReplyFailed { error: KvError::Timeout },
                        )
                    }
                },
            }
        },
        _ => (state, WriteAction::Ignore),
    }
}

/// The state of a write after a run of events.
pub open spec fn write_run(key: Seq<char>, max_polls: u64, state: WriteState, events: Seq<
    WriteEventView,
>) -> WriteState
    decreases events.len(),
{
    if events.len() == 0 {
        state
    } else {
        write_run(key, max_polls, write_step(key, max_polls, state, events.first()).0, events.drop_first())
    }
}

/// The number of suffixes that a write may still read.
pub open spec fn polls_remaining(max_polls: u64, state: WriteState) -> nat {
    match state {
        WriteState::AwaitingIndex => max_polls as nat,
        WriteState::AwaitingAppend { .. } => max_polls as nat,
        WriteState::Polling { polls_left, .. } => polls_left as nat,
        _ => 0,
    }
}

/// The number of suffixes among the events.
pub open spec fn suffix_count(events: Seq<WriteEventView>) -> nat
    decreases events.len(),
{
    if events.len() == 0 {
        0
    } else {
        (if events.first() is Suffix {
            1nat
        } else {
            0nat
        }) + suffix_count(events.drop_first())
    }
}

/// The wait for a decided entry is bounded: a write that is polling is
/// answered once it has seen as many suffixes as it had polls left, whatever
/// they hold; and once answered it stays answered.
pub proof fn lemma_write_poll_bounded(
    key: Seq<char>,
    max_polls: u64,
    state: WriteState,
    events: Seq<WriteEventView>,
)
    requires
        state is Polling || write_finished(state),
        state matches WriteState::Polling { polls_left, .. } ==> polls_left >= 1,
        suffix_count(events) >= polls_remaining(max_polls, state),
    ensures
        write_finished(write_run(key, max_polls, state, events)),
    decreases events.len(),
{
    if events.len() > 0 {
        let next = write_step(key, max_polls, state, events.first()).0;
        lemma_write_poll_bounded(key, max_polls, next, events.drop_first());
    }
}

} // verus!
