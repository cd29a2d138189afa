use omnipaxos_kv::error::KvError;
use omnipaxos_kv::kv::{KVSnapshot, KeyValue};
use omnipaxos_kv::log::DecidedLogEntry;
use omnipaxos_kv::storage::{
    begin_write, create_kv, is_finished, locate_decided, WriteAction, WriteEvent, WriteState,
};

fn kv(key: &str, value: u64) -> KeyValue {
    KeyValue { key: String::from(key), value }
}

fn decided(key: &str, value: u64) -> DecidedLogEntry {
    DecidedLogEntry::Decided(kv(key, value))
}

#[test]
fn locate_gives_one_more_than_the_log_position() {
    let suffix = vec![decided("b", 1), decided("a", 2), decided("a", 3)];
    assert_eq!(locate_decided(&String::from("a"), 10, &suffix), Some(12));
    assert_eq!(locate_decided(&String::from("b"), 10, &suffix), Some(11));
    assert_eq!(locate_decided(&String::from("a"), 0, &vec![decided("a", 2)]), Some(1));
}

#[test]
fn locate_finds_nothing_without_a_decided_write_of_the_key() {
    let snapshot = KVSnapshot::create(&[kv("a", 1)]);
    let suffix = vec![
        DecidedLogEntry::Undecided,
        DecidedLogEntry::Snapshotted(snapshot),
        decided("b", 2),
    ];
    assert_eq!(locate_decided(&String::from("a"), 4, &suffix), None);
    assert_eq!(locate_decided(&String::from("a"), 4, &vec![]), None);
    assert_eq!(locate_decided(&String::from("b"), 4, &suffix), Some(7));
}

#[test]
fn locate_at_the_top_of_the_range() {
    let suffix = vec![decided("a", 2)];
    assert_eq!(locate_decided(&String::from("a"), u64::MAX - 1, &suffix), Some(u64::MAX));
}

#[test]
fn write_is_decided_after_append_and_poll() {
    let entry = kv("a", 2);
    let state = begin_write();
    assert_eq!(state, WriteState::AwaitingIndex);
    assert!(!is_finished(state));
    let (state, action) = create_kv(&entry, 3, state, &WriteEvent::DecidedIdx(4));
    assert_eq!(state, WriteState::AwaitingAppend { before_idx: 4 });
    assert_eq!(action, WriteAction::Append);
    let (state, action) = create_kv(&entry, 3, state, &WriteEvent::Appended);
    assert_eq!(state, WriteState::Polling { before_idx: 4, polls_left: 3 });
    assert_eq!(action, WriteAction::PollAfterBackoff { from_idx: 4 });
    let (state, action) = create_kv(&entry, 3, state, &WriteEvent::Suffix(vec![]));
    assert_eq!(state, WriteState::Polling { before_idx: 4, polls_left: 2 });
    assert_eq!(action, WriteAction::PollAfterBackoff { from_idx: 4 });
    let suffix = vec![decided("b", 1), decided("a", 2)];
    let (state, action) = create_kv(&entry, 3, state, &WriteEvent::Suffix(suffix));
    assert_eq!(state, WriteState::Decided { decided_idx: 6 });
    assert_eq!(action, WriteAction::ReplyDecided { decided_idx: 6 });
    assert!(is_finished(state));
}

#[test]
fn rejected_append_is_unavailable() {
    let entry = kv("a", 2);
    let (state, _) = create_kv(&entry, 3, begin_write(), &WriteEvent::DecidedIdx(0));
    let (state, action) = create_kv(&entry, 3, state, &WriteEvent::Rejected);
    assert_eq!(state, WriteState::Failed { error: KvError::Unavailable });
    assert_eq!(action, WriteAction::ReplyFailed { error: KvError::Unavailable });
    assert!(is_finished(state));
}

#[test]
fn poll_is_bounded_by_timeout() {
    let entry = kv("a", 2);
    let (state, _) = create_kv(&entry, 2, begin_write(), &WriteEvent::DecidedIdx(0));
    let (state, _) = create_kv(&entry, 2, state, &WriteEvent::Appended);
    let other = vec![decided("b", 1)];
    let (state, action) = create_kv(&entry, 2, state, &WriteEvent::Suffix(other.clone()));
    assert_eq!(state, WriteState::Polling { before_idx: 0, polls_left: 1 });
    assert_eq!(action, WriteAction::PollAfterBackoff { from_idx: 0 });
    let (state, action) = create_kv(&entry, 2, state, &WriteEvent::Suffix(other));
    assert_eq!(state, WriteState::Failed { error: KvError::Timeout });
    assert_eq!(action, WriteAction::ReplyFailed { error: KvError::Timeout });
}

#[test]
fn no_polls_allowed_times_out_at_once() {
    let entry = kv("a", 2);
    let (state, _) = create_kv(&entry, 0, begin_write(), &WriteEvent::DecidedIdx(0));
    let (state, action) = create_kv(&entry, 0, state, &WriteEvent::Appended);
    assert_eq!(state, WriteState::Failed { error: KvError::Timeout });
    assert_eq!(action, WriteAction::ReplyFailed { error: KvError::Timeout });
}

#[test]
fn events_out_of_turn_are_ignored() {
    let entry = kv("a", 2);
    let start = begin_write();
    let (state, action) = create_kv(&entry, 3, start, &WriteEvent::Appended);
    assert_eq!((state, action), (start, WriteAction::Ignore));
    let (state, action) = create_kv(&entry, 3, start, &WriteEvent::Suffix(vec![decided("a", 2)]));
    assert_eq!((state, action), (start, WriteAction::Ignore));
    let done = WriteState::Decided { decided_idx: 3 };
    let (state, action) = create_kv(&entry, 3, done, &WriteEvent::Rejected);
    assert_eq!((state, action), (done, WriteAction::Ignore));
    let failed = WriteState::Failed { error: KvError::Timeout };
    let (state, action) = create_kv(&entry, 3, failed, &WriteEvent::DecidedIdx(1));
    assert_eq!((state, action), (failed, WriteAction::Ignore));
    let polling = WriteState::Polling { before_idx: 1, polls_left: 2 };
    let (state, action) = create_kv(&entry, 3, polling, &WriteEvent::Appended);
    assert_eq!((state, action), (polling, WriteAction::Ignore));
}

#[test]
fn cancelled_write_reports_timeout() {
    let entry = kv("a", 2);
    for state in [
        WriteState::AwaitingIndex,
        WriteState::AwaitingAppend { before_idx: 3 },
        WriteState::Polling { before_idx: 3, polls_left: 2 },
    ] {
        let (next, action) = create_kv(&entry, 3, state, &WriteEvent::Cancelled);
        assert_eq!(next, WriteState::Failed { error: KvError::Timeout });
        assert_eq!(action, WriteAction::ReplyFailed { error: KvError::Timeout });
    }
    let done = WriteState::Decided { decided_idx: 4 };
    assert_eq!(create_kv(&entry, 3, done, &WriteEvent::Cancelled), (done, WriteAction::Ignore));
}
