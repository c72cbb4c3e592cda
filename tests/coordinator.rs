use tskv::bloom::BloomFilter;
use tskv::footer::{Footer, SeriesMeta, TableMeta};
use tskv::time_range::TimeRange;
use tskv::writer::{
    raft_write_error, remote_write_result, write_too_slow, Action, CoordinatorError, Event,
    RemoteOutcome, ReplicaWriter, ReplicationSet, VnodeInfo, WriteState,
};

fn replica(id: u32, leader: u64, nodes: &[(u32, u64)]) -> ReplicationSet {
    ReplicationSet {
        id,
        leader_node_id: leader,
        vnodes: nodes.iter().map(|(v, n)| VnodeInfo { id: *v, node_id: *n }).collect(),
    }
}

fn failover(id: u64) -> Result<(), CoordinatorError> {
    Err(CoordinatorError::FailoverNode { id, error: "connect error".to_string() })
}

#[test]
fn happy_local_write() {
    let writer = ReplicaWriter::new(1, true);
    let set = replica(10, 1, &[(1, 1), (2, 2)]);
    let request = writer.request("t", "d", vec![0x01, 0x02], 1, &set);
    assert_eq!(request.replica_id, 10);
    assert_eq!(request.tenant, "t");
    assert_eq!(request.db_name, "d");
    assert_eq!(request.data, vec![0x01, 0x02]);

    let (state, action) = writer.step(&set, WriteState::Idle, Event::Start);
    assert_eq!(state, WriteState::Proposing);
    assert!(matches!(action, Action::Propose));
    let (state, action) = writer.step(&set, state, Event::Proposed(Ok(())));
    assert_eq!(state, WriteState::Finished);
    assert!(matches!(action, Action::Finish(Ok(()))));

    let series_id: u32 = 17;
    let mut bloom = BloomFilter::new(1024);
    bloom.insert(&series_id.to_le_bytes());
    let footer = Footer::new(1, TimeRange::new(0, 1), TableMeta::new(0, 0), SeriesMeta::new(bloom.bytes().to_vec(), 0, 0));
    assert!(footer.maybe_series_exist(&series_id));
}

#[test]
fn forward_to_leader() {
    let writer = ReplicaWriter::new(1, true);
    let set = replica(10, 1, &[(1, 1), (7, 3)]);
    let (state, _) = writer.step(&set, WriteState::Idle, Event::Start);
    let redirect = raft_write_error(Some((7, 10)), "not leader".to_string());
    assert!(matches!(
        redirect,
        CoordinatorError::ForwardToLeader { replica_id: 10, leader_vnode_id: 7 }
    ));
    let (state, action) = writer.step(&set, state, Event::Proposed(Err(redirect)));
    assert_eq!(state, WriteState::ChangingLeader);
    assert!(matches!(action, Action::ChangeLeader { leader_vnode_id: 7 }));
    let (state, action) = writer.step(&set, state, Event::LeaderChanged(Ok(3)));
    assert_eq!(state, WriteState::WritingForwarded);
    assert!(matches!(action, Action::WriteRemote { node_id: 3 }));
    let (state, action) = writer.step(&set, state, Event::Remote(Ok(())));
    assert_eq!(state, WriteState::Finished);
    assert!(matches!(action, Action::Finish(Ok(()))));
}

#[test]
fn forward_to_leader_catalog_failure() {
    let writer = ReplicaWriter::new(1, true);
    let set = replica(10, 1, &[(1, 1)]);
    let (state, action) = writer.step(
        &set,
        WriteState::ChangingLeader,
        Event::LeaderChanged(Err(CoordinatorError::VnodeNotFound { vnode_id: 7 })),
    );
    assert_eq!(state, WriteState::Finished);
    assert!(matches!(action, Action::Finish(Err(CoordinatorError::VnodeNotFound { vnode_id: 7 }))));
}

#[test]
fn failover_across_followers() {
    let writer = ReplicaWriter::new(1, true);
    let set = replica(10, 3, &[(30, 3), (40, 4), (50, 5)]);
    let request = writer.request("t", "d", vec![9, 9], 1, &set);
    let mut sent = Vec::new();
    let (mut state, mut action) = writer.step(&set, WriteState::Idle, Event::Start);
    let mut failovers = 0;
    loop {
        match action {
            Action::WriteRemote { node_id } => {
                sent.push((node_id, request.data.clone()));
                let result = if node_id == 5 { Ok(()) } else { failovers += 1; failover(node_id) };
                let next = writer.step(&set, state, Event::Remote(result));
                state = next.0;
                action = next.1;
            }
            Action::Finish(result) => {
                assert!(result.is_ok());
                break;
            }
            other => panic!("unexpected {other:?}"),
        }
    }
    assert_eq!(failovers, 2);
    assert_eq!(sent.iter().map(|s| s.0).collect::<Vec<_>>(), vec![3, 4, 5]);
    assert_eq!(sent[1].1, sent[2].1);
    assert_eq!(state, WriteState::Finished);
}

#[test]
fn failover_exhausted_returns_last_failover() {
    let writer = ReplicaWriter::new(1, false);
    let set = replica(10, 3, &[(30, 3), (40, 4)]);
    let (state, action) = writer.step(&set, WriteState::Idle, Event::Start);
    assert!(matches!(action, Action::WriteRemote { node_id: 3 }));
    let (state, action) = writer.step(&set, state, Event::Remote(failover(3)));
    assert_eq!(state, WriteState::WritingFollower { index: 1 });
    assert!(matches!(action, Action::WriteRemote { node_id: 4 }));
    let (state, action) = writer.step(&set, state, Event::Remote(failover(4)));
    assert_eq!(state, WriteState::Finished);
    assert!(matches!(action, Action::Finish(Err(CoordinatorError::FailoverNode { id: 4, .. }))));
}

#[test]
fn failover_stops_on_other_error() {
    let writer = ReplicaWriter::new(2, true);
    let set = replica(10, 3, &[(30, 3), (40, 4), (50, 5)]);
    let (state, _) = writer.step(&set, WriteState::Idle, Event::Start);
    let (state, _) = writer.step(&set, state, Event::Remote(failover(3)));
    let (state, action) = writer.step(
        &set,
        state,
        Event::Remote(Err(CoordinatorError::TskvError { msg: "disk".to_string() })),
    );
    assert_eq!(state, WriteState::Finished);
    assert!(matches!(action, Action::Finish(Err(CoordinatorError::TskvError { .. }))));
}

#[test]
fn raft_error_without_leader() {
    let e = raft_write_error(None, "quorum lost".to_string());
    assert!(matches!(e, CoordinatorError::RaftWriteError { ref msg } if msg == "quorum lost"));
    let writer = ReplicaWriter::new(1, true);
    let set = replica(10, 1, &[(1, 1)]);
    let (state, action) = writer.step(&set, WriteState::Proposing, Event::Proposed(Err(e)));
    assert_eq!(state, WriteState::Finished);
    assert!(matches!(action, Action::Finish(Err(CoordinatorError::RaftWriteError { .. }))));
}

#[test]
fn remote_outcomes_are_classified() {
    assert!(matches!(
        remote_write_result(4, RemoteOutcome::ConnectFailed { reason: "refused".to_string() }),
        Err(CoordinatorError::FailoverNode { id: 4, .. })
    ));
    assert!(matches!(
        remote_write_result(4, RemoteOutcome::Status { code: 13, message: "x".to_string() }),
        Err(CoordinatorError::TskvError { .. })
    ));
    assert!(matches!(
        remote_write_result(4, RemoteOutcome::Status { code: 14, message: "x".to_string() }),
        Err(CoordinatorError::FailoverNode { id: 4, .. })
    ));
    assert!(remote_write_result(4, RemoteOutcome::Response { code: 0, data: String::new() }).is_ok());
    assert!(matches!(
        remote_write_result(4, RemoteOutcome::Response { code: 1, data: "bad".to_string() }),
        Err(CoordinatorError::WriteFailed { ref msg }) if msg == "bad"
    ));
}

#[test]
fn slow_writes_are_flagged() {
    assert!(!write_too_slow(200));
    assert!(write_too_slow(201));
}

#[test]
fn unexpected_event_finishes_with_error() {
    let writer = ReplicaWriter::new(1, true);
    let set = replica(10, 1, &[(1, 1)]);
    let (state, action) = writer.step(&set, WriteState::Finished, Event::Start);
    assert_eq!(state, WriteState::Finished);
    assert!(matches!(action, Action::Finish(Err(CoordinatorError::CommonError { .. }))));
}

#[test]
fn status_responses() {
    let ok = tskv::writer::status_response(Ok(()));
    assert_eq!((ok.code, ok.data.as_str()), (tskv::writer::SUCCESS_RESPONSE_CODE, ""));
    let failed = tskv::writer::status_response(Err("Command is None".to_string()));
    assert_eq!(failed.code, tskv::writer::FAILED_RESPONSE_CODE);
    assert_eq!(failed.data, "Command is None");
}
