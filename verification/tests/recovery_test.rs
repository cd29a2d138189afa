use omnipaxos_kv::directory::{
    member_configs, peers_of, ClusterDirectory, ClusterMember, NodeConfig,
};
use omnipaxos_kv::error::KvError;
use omnipaxos_kv::kv::KeyValue;
use omnipaxos_kv::kv_controller::{create, ReplyBody};
use omnipaxos_kv::log::DecidedLogEntry;
use omnipaxos_kv::recovery::{
    error_of, on_event, restart_steps, NodeStatus, Orchestrator, PendingRecovery,
    RecoveryAction, RecoveryEvent, RestartStep, SETTLE_CHECKS,
};
use omnipaxos_kv::routing::{Router, RoutingPolicy};
use omnipaxos_kv::storage::{begin_write, create_kv, WriteAction, WriteEvent, WriteState};

fn member(id: u64, handle: &str, pump_task: u32) -> ClusterMember<String, u32> {
    ClusterMember {
        id,
        handle: String::from(handle),
        pump_task,
        config: NodeConfig { pid: id, configuration_id: 1, peers: peers_of(&vec![1, 2, 3], id) },
    }
}

#[test]
fn test_first_route() {
    let servers: Vec<u64> = vec![1, 2, 3];
    let mut router = Router::new(RoutingPolicy::Fixed(1));
    let target = router.next_target(&servers);
    assert_eq!(target, Some(1));
    let request = KeyValue { key: String::from("a"), value: 2 };
    let mut log: Vec<DecidedLogEntry> = Vec::new();
    let (state, action) =
        create_kv(&request, 5, begin_write(), &WriteEvent::DecidedIdx(log.len() as u64));
    assert_eq!(action, WriteAction::Append);
    log.push(DecidedLogEntry::Decided(request.clone()));
    let (state, action) = create_kv(&request, 5, state, &WriteEvent::Appended);
    assert_eq!(action, WriteAction::PollAfterBackoff { from_idx: 0 });
    let (state, _) = create_kv(&request, 5, state, &WriteEvent::Suffix(log.clone()));
    let outcome = match state {
        WriteState::Decided { decided_idx } => Ok(decided_idx),
        WriteState::Failed { error } => Err(error),
        _ => panic!("the write is not answered"),
    };
    let reply = create(request, outcome);
    assert_eq!(reply.status, 201);
    match reply.body {
        ReplyBody::Entry(body) => {
            assert_eq!(body.key, "a");
            assert_eq!(body.value, 2);
        },
        _ => panic!("a created entry is answered with its body"),
    }
}

#[test]
fn running_node_becomes_unreachable() {
    assert_eq!(
        on_event(NodeStatus::Running, RecoveryEvent::SendFailed),
        (NodeStatus::Unreachable, RecoveryAction::MarkUnreachable)
    );
    assert_eq!(
        on_event(NodeStatus::Running, RecoveryEvent::MarkedFailed),
        (NodeStatus::Unreachable, RecoveryAction::MarkUnreachable)
    );
}

#[test]
fn unreachable_node_is_restarted_when_taken() {
    assert_eq!(SETTLE_CHECKS, 2);
    assert_eq!(
        on_event(NodeStatus::Unreachable, RecoveryEvent::Taken),
        (NodeStatus::Recovering { checks_left: 2 }, RecoveryAction::RestartAndSettle)
    );
    assert_eq!(
        on_event(NodeStatus::Unreachable, RecoveryEvent::SendFailed),
        (NodeStatus::Unreachable, RecoveryAction::Nothing)
    );
}

#[test]
fn recovering_node_runs_once_a_leader_is_known() {
    assert_eq!(
        on_event(NodeStatus::Recovering { checks_left: 2 }, RecoveryEvent::LeaderKnown(3)),
        (NodeStatus::Running, RecoveryAction::ReplaceMember)
    );
    assert_eq!(
        on_event(NodeStatus::Recovering { checks_left: 1 }, RecoveryEvent::LeaderKnown(1)),
        (NodeStatus::Running, RecoveryAction::ReplaceMember)
    );
}

#[test]
fn settle_wait_is_retried_once_then_recovery_fails() {
    let (status, action) =
        on_event(NodeStatus::Recovering { checks_left: 2 }, RecoveryEvent::LeaderUnknown);
    assert_eq!(status, NodeStatus::Recovering { checks_left: 1 });
    assert_eq!(action, RecoveryAction::SettleAgain);
    let (status, action) = on_event(status, RecoveryEvent::LeaderUnknown);
    assert_eq!(status, NodeStatus::Failed);
    assert_eq!(action, RecoveryAction::ReportFailure);
    assert_eq!(error_of(status), Some(KvError::RecoveryFailed));
}

#[test]
fn failed_node_stays_failed() {
    for event in [
        RecoveryEvent::SendFailed,
        RecoveryEvent::MarkedFailed,
        RecoveryEvent::Taken,
        RecoveryEvent::LeaderKnown(1),
        RecoveryEvent::LeaderUnknown,
    ] {
        assert_eq!(on_event(NodeStatus::Failed, event), (NodeStatus::Failed, RecoveryAction::Nothing));
    }
}

#[test]
fn events_that_do_not_belong_change_nothing() {
    assert_eq!(
        on_event(NodeStatus::Running, RecoveryEvent::LeaderUnknown),
        (NodeStatus::Running, RecoveryAction::Nothing)
    );
    assert_eq!(
        on_event(NodeStatus::Running, RecoveryEvent::Taken),
        (NodeStatus::Running, RecoveryAction::Nothing)
    );
    assert_eq!(
        on_event(NodeStatus::Recovering { checks_left: 2 }, RecoveryEvent::SendFailed),
        (NodeStatus::Recovering { checks_left: 2 }, RecoveryAction::Nothing)
    );
    assert_eq!(
        on_event(NodeStatus::Unreachable, RecoveryEvent::LeaderKnown(2)),
        (NodeStatus::Unreachable, RecoveryAction::Nothing)
    );
}

#[test]
fn full_recovery_cycle_returns_to_running() {
    let mut status = NodeStatus::Running;
    let mut actions = Vec::new();
    for event in [
        RecoveryEvent::SendFailed,
        RecoveryEvent::Taken,
        RecoveryEvent::LeaderUnknown,
        RecoveryEvent::LeaderKnown(2),
    ] {
        let (next, action) = on_event(status, event);
        status = next;
        actions.push(action);
    }
    assert_eq!(status, NodeStatus::Running);
    assert_eq!(
        actions,
        vec![
            RecoveryAction::MarkUnreachable,
            RecoveryAction::RestartAndSettle,
            RecoveryAction::SettleAgain,
            RecoveryAction::ReplaceMember,
        ]
    );
}

#[test]
fn status_errors() {
    assert_eq!(error_of(NodeStatus::Running), None);
    assert_eq!(error_of(NodeStatus::Unreachable), Some(KvError::PeerUnreachable));
    assert_eq!(
        error_of(NodeStatus::Recovering { checks_left: 1 }),
        Some(KvError::PeerUnreachable)
    );
}

#[test]
fn restart_steps_in_order() {
    assert_eq!(
        restart_steps(&vec![2, 3]),
        vec![
            RestartStep::StopPump,
            RestartStep::RebuildChannels,
            RestartStep::FailRecovery,
            RestartStep::Reconnected(2),
            RestartStep::Reconnected(3),
            RestartStep::SpawnPump,
        ]
    );
    assert_eq!(
        restart_steps(&vec![]),
        vec![
            RestartStep::StopPump,
            RestartStep::RebuildChannels,
            RestartStep::FailRecovery,
            RestartStep::SpawnPump,
        ]
    );
}

#[test]
fn pending_set_keeps_order_and_no_node_twice() {
    let mut pending = PendingRecovery::new();
    assert_eq!(pending.len(), 0);
    assert_eq!(pending.take_next(), None);
    pending.mark_unreachable(3);
    pending.mark_unreachable(1);
    pending.mark_unreachable(3);
    assert_eq!(pending.len(), 2);
    assert!(pending.contains(1));
    assert!(!pending.contains(2));
    assert_eq!(pending.take_next(), Some(3));
    assert!(!pending.contains(3));
    pending.mark_unreachable(3);
    assert_eq!(pending.take_next(), Some(1));
    assert_eq!(pending.take_next(), Some(3));
    assert_eq!(pending.take_next(), None);
    assert_eq!(pending.len(), 0);
}

#[test]
fn peers_are_all_other_servers() {
    assert_eq!(peers_of(&vec![1, 2, 3], 1), vec![2, 3]);
    assert_eq!(peers_of(&vec![1, 2, 3], 2), vec![1, 3]);
    assert_eq!(peers_of(&vec![1, 2, 3], 3), vec![1, 2]);
    assert_eq!(peers_of(&vec![1, 2, 3], 9), vec![1, 2, 3]);
    assert_eq!(peers_of(&vec![4, 4, 5], 4), vec![5]);
    assert_eq!(peers_of(&vec![], 1), Vec::<u64>::new());
}

#[test]
fn member_configs_name_each_server_and_its_peers() {
    let configs = member_configs(&vec![1, 2, 3], 1);
    assert_eq!(configs.len(), 3);
    assert_eq!(configs[0].pid, 1);
    assert_eq!(configs[0].configuration_id, 1);
    assert_eq!(configs[0].peers, vec![2, 3]);
    assert_eq!(configs[1].pid, 2);
    assert_eq!(configs[1].peers, vec![1, 3]);
    assert_eq!(configs[2].pid, 3);
    assert_eq!(configs[2].peers, vec![1, 2]);
    assert!(member_configs(&vec![], 1).is_empty());
}

#[test]
fn directory_registers_and_looks_up() {
    let mut directory: ClusterDirectory<String, u32> = ClusterDirectory::new();
    assert_eq!(directory.len(), 0);
    assert!(directory.lookup(1).is_none());
    assert!(directory.register(member(1, "one", 10)).is_none());
    assert!(directory.register(member(2, "two", 20)).is_none());
    assert_eq!(directory.len(), 2);
    assert!(directory.contains(1));
    assert!(!directory.contains(3));
    let found = directory.lookup(2).unwrap();
    assert_eq!(found.id, 2);
    assert_eq!(found.handle, "two");
    assert_eq!(found.pump_task, 20);
    assert_eq!(found.config.peers, vec![1, 3]);
    let previous = directory.register(member(2, "zwei", 21)).unwrap();
    assert_eq!(previous.handle, "two");
    assert_eq!(directory.len(), 2);
    assert_eq!(directory.lookup(2).unwrap().handle, "zwei");
}

#[test]
fn directory_replaces_handle_and_pump_in_place() {
    let mut directory: ClusterDirectory<String, u32> = ClusterDirectory::new();
    directory.register(member(1, "one", 10));
    directory.register(member(2, "two", 20));
    let old = directory.replace(2, String::from("fresh"), 99);
    assert_eq!(old, Ok((String::from("two"), 20)));
    assert_eq!(directory.len(), 2);
    let found = directory.lookup(2).unwrap();
    assert_eq!(found.id, 2);
    assert_eq!(found.handle, "fresh");
    assert_eq!(found.pump_task, 99);
    assert_eq!(found.config.pid, 2);
    assert_eq!(found.config.peers, vec![1, 3]);
    assert_eq!(directory.lookup(1).unwrap().handle, "one");
}

#[test]
fn directory_replace_of_unknown_node_changes_nothing() {
    let mut directory: ClusterDirectory<String, u32> = ClusterDirectory::new();
    directory.register(member(1, "one", 10));
    let refused = directory.replace(7, String::from("fresh"), 99);
    assert_eq!(refused, Err((String::from("fresh"), 99)));
    assert_eq!(directory.len(), 1);
    assert!(!directory.contains(7));
    assert_eq!(directory.lookup(1).unwrap().pump_task, 10);
}

#[test]
fn orchestrator_starts_with_all_nodes_running() {
    let mut orchestrator = Orchestrator::new(&vec![1, 2, 3]);
    for node in [1, 2, 3] {
        assert_eq!(orchestrator.status(node), Some(NodeStatus::Running));
    }
    assert_eq!(orchestrator.status(4), None);
    assert_eq!(orchestrator.waiting(), 0);
    assert_eq!(orchestrator.take_next(), None);
}

#[test]
fn orchestrator_recovers_a_node_marked_failed() {
    let mut orchestrator = Orchestrator::new(&vec![1, 2, 3]);
    assert_eq!(
        orchestrator.observe(2, RecoveryEvent::MarkedFailed),
        RecoveryAction::MarkUnreachable
    );
    assert_eq!(orchestrator.observe(2, RecoveryEvent::SendFailed), RecoveryAction::Nothing);
    assert_eq!(orchestrator.status(2), Some(NodeStatus::Unreachable));
    assert_eq!(orchestrator.waiting(), 1);
    assert_eq!(orchestrator.take_next(), Some(2));
    assert_eq!(orchestrator.waiting(), 0);
    assert_eq!(orchestrator.status(2), Some(NodeStatus::Recovering { checks_left: 2 }));
    assert_eq!(orchestrator.observe(2, RecoveryEvent::LeaderUnknown), RecoveryAction::SettleAgain);
    assert_eq!(
        orchestrator.observe(2, RecoveryEvent::LeaderKnown(1)),
        RecoveryAction::ReplaceMember
    );
    assert_eq!(orchestrator.status(2), Some(NodeStatus::Running));
    assert_eq!(orchestrator.status(1), Some(NodeStatus::Running));
}

#[test]
fn orchestrator_gives_a_node_up_after_two_checks() {
    let mut orchestrator = Orchestrator::new(&vec![1, 2, 3]);
    orchestrator.observe(3, RecoveryEvent::SendFailed);
    assert_eq!(orchestrator.take_next(), Some(3));
    assert_eq!(orchestrator.observe(3, RecoveryEvent::LeaderUnknown), RecoveryAction::SettleAgain);
    assert_eq!(
        orchestrator.observe(3, RecoveryEvent::LeaderUnknown),
        RecoveryAction::ReportFailure
    );
    assert_eq!(orchestrator.status(3), Some(NodeStatus::Failed));
    assert_eq!(orchestrator.observe(3, RecoveryEvent::SendFailed), RecoveryAction::Nothing);
    assert_eq!(orchestrator.waiting(), 0);
}

#[test]
fn orchestrator_ignores_unknown_nodes_and_foreign_takes() {
    let mut orchestrator = Orchestrator::new(&vec![1, 2]);
    assert_eq!(orchestrator.observe(7, RecoveryEvent::SendFailed), RecoveryAction::Nothing);
    assert_eq!(orchestrator.status(7), None);
    orchestrator.observe(1, RecoveryEvent::SendFailed);
    assert_eq!(orchestrator.observe(1, RecoveryEvent::Taken), RecoveryAction::Nothing);
    assert_eq!(orchestrator.status(1), Some(NodeStatus::Unreachable));
    assert_eq!(orchestrator.waiting(), 1);
}

#[test]
fn orchestrator_takes_nodes_in_the_order_they_were_reported() {
    let mut orchestrator = Orchestrator::new(&vec![1, 2, 3]);
    orchestrator.observe(3, RecoveryEvent::SendFailed);
    orchestrator.observe(1, RecoveryEvent::MarkedFailed);
    orchestrator.observe(3, RecoveryEvent::SendFailed);
    assert_eq!(orchestrator.waiting(), 2);
    assert_eq!(orchestrator.take_next(), Some(3));
    assert_eq!(orchestrator.take_next(), Some(1));
    assert_eq!(orchestrator.take_next(), None);
}
