//! Decisions of the replicated write path.
//!
//! A write to a replication set goes to the local consensus log when this
//! node leads the set and holds a storage engine, and to the leader's node
//! otherwise. A local proposal that is redirected to another leader records
//! the leader change and writes to the leader's node once. A remote write to
//! an unreachable leader falls back to the followers in turn.
//!
//! `ReplicaWriter::step` takes the state of one write and the outcome of the
//! last action and gives the next state and action; the caller performs the
//! actions (proposals, remote calls, catalog updates) and reports back.
use vstd::prelude::*;

verus! {

/// The gRPC status code for an internal error.
pub const GRPC_CODE_INTERNAL: i32 = 13;

/// The response code of a successful remote write.
pub const SUCCESS_RESPONSE_CODE: i32 = 0;

/// The response code of a failed remote write.
pub const FAILED_RESPONSE_CODE: i32 = 1;

/// A remote call slower than this many milliseconds is reported.
pub const SLOW_WRITE_MS: u64 = 200;

/// Errors of the write path.
#[derive(Debug)]
pub enum CoordinatorError {
    /// The node could not be reached or refused the call; try another.
    FailoverNode { id: u64, error: String },
    /// The consensus log names another leader for the replication set.
    ForwardToLeader { replica_id: u32, leader_vnode_id: u32 },
    /// The consensus log refused the proposal.
    RaftWriteError { msg: String },
    /// The remote storage engine failed the write.
    TskvError { msg: String },
    /// The remote node answered with a failure code.
    WriteFailed { msg: String },
    TenantNotFound { name: String },
    VnodeNotFound { vnode_id: u32 },
    ReplicaSetNotFound { replica_id: u32 },
    CommonError { msg: String },
}

/// A vnode of a replication set and the node it lives on.
#[derive(Clone, Copy, Debug, PartialEq, Eq, Structural)]
pub struct VnodeInfo {
    pub id: u32,
    pub node_id: u64,
}

/// A replication set: its id, the node of its leader, and its vnodes.
#[derive(Debug)]
pub struct ReplicationSet {
    pub id: u32,
    pub leader_node_id: u64,
    pub vnodes: Vec<VnodeInfo>,
}

/// The payload of a write to one replication set.
#[derive(Debug)]
pub struct WriteReplicaRequest {
    pub replica_id: u32,
    pub tenant: String,
    pub db_name: String,
    pub precision: u32,
    pub data: Vec<u8>,
}

/// The answer of a node to a remote call: a response code and, on
/// failure, a message.
#[derive(Debug)]
pub struct StatusResponse {
    pub code: i32,
    pub data: String,
}

/// The answer to a call that ended with `result`: success with no message,
/// or failure with the error's message.
pub fn status_response(result: Result<(), String>) -> (r: StatusResponse)
    ensures
        match result {
            Ok(()) => r.code == SUCCESS_RESPONSE_CODE && r.data@.len() == 0,
            Err(msg) => r.code == FAILED_RESPONSE_CODE && r.data == msg,
        },
{
    match result {
        Ok(()) => StatusResponse { code: SUCCESS_RESPONSE_CODE, data: String::new() },
        Err(msg) => StatusResponse { code: FAILED_RESPONSE_CODE, data: msg },
    }
}

/// What the caller does next for a write.
#[derive(Debug)]
pub enum Action {
    /// Propose the request to the local consensus log.
    Propose,
    /// Send the request to a node.
    WriteRemote { node_id: u64 },
    /// Record in the catalog that a vnode leads the set, and find its node.
    ChangeLeader { leader_vnode_id: u32 },
    /// The write is over, with this result.
    Finish(Result<(), CoordinatorError>),
}

/// What came of the last action.
#[derive(Debug)]
pub enum Event {
    /// The write begins.
    Start,
    Proposed(Result<(), CoordinatorError>),
    Remote(Result<(), CoordinatorError>),
    /// The node of the new leader, or why it could not be found.
    LeaderChanged(Result<u64, CoordinatorError>),
}

/// Where a write stands.
#[derive(Clone, Copy, Debug, PartialEq, Eq, Structural)]
pub enum WriteState {
    Idle,
    Proposing,
    ChangingLeader,
    /// Writing to the leader that the consensus log named.
    WritingForwarded,
    /// Writing to the set's leader node.
    WritingLeader,
    /// Writing to the follower at this index of the set's vnodes.
    WritingFollower { index: usize },
    Finished,
}

/// The first index from `from` on whose vnode is not on the leader's node.
pub open spec fn next_follower(vnodes: Seq<VnodeInfo>, leader: u64, from: int) -> Option<int>
    decreases vnodes.len() - from,
{
    if from < 0 || from >= vnodes.len() {
        None
    } else if vnodes[from].node_id != leader {
        Some(from)
    } else {
        next_follower(vnodes, leader, from + 1)
    }
}

/// Whether an error calls for trying another node.
pub open spec fn is_failover(r: Result<(), CoordinatorError>) -> bool {
    r matches Err(CoordinatorError::FailoverNode { .. })
}

proof fn lemma_next_follower_in_range(vnodes: Seq<VnodeInfo>, leader: u64, from: int)
    ensures
        next_follower(vnodes, leader, from) matches Some(j) ==> from <= j < vnodes.len()
            && vnodes[j].node_id != leader,
    decreases vnodes.len() - from,
{
    if 0 <= from < vnodes.len() && vnodes[from].node_id == leader {
        lemma_next_follower_in_range(vnodes, leader, from + 1);
    }
}

proof fn lemma_next_follower_past_end(vnodes: Seq<VnodeInfo>, leader: u64, from: int)
    ensures
        from >= vnodes.len() ==> next_follower(vnodes, leader, from) is None,
{
}

fn find_follower(vnodes: &Vec<VnodeInfo>, leader: u64, from: usize) -> (r: Option<usize>)
    ensures
        match next_follower(vnodes@, leader, from as int) {
            None => r is None,
            Some(j) => r == Some(j as usize),
        },
        r matches Some(j) ==> j < vnodes@.len() && next_follower(vnodes@, leader, from as int) == Some(
            j as int,
        ),
        next_follower(vnodes@, leader, from as int) matches Some(j) ==> from <= j < vnodes@.len(),
{
    proof {
        lemma_next_follower_in_range(vnodes@, leader, from as int);
    }
    let mut i = from;
    while i < vnodes.len()
        invariant
            from <= i,
            next_follower(vnodes@, leader, from as int) == next_follower(vnodes@, leader, i as int),
        decreases vnodes@.len() - i,
    {
        if vnodes[i].node_id != leader {
            return Some(i);
        }
        i += 1;
    }
    proof {
        lemma_next_follower_past_end(vnodes@, leader, i as int);
    }
    None
}

/// The node this writer runs on, and whether it holds a storage engine.
#[derive(Clone, Copy, Debug, PartialEq, Eq, Structural)]
pub struct ReplicaWriter {
    pub node_id: u64,
    pub has_engine: bool,
}

impl ReplicaWriter {
    pub fn new(node_id: u64, has_engine: bool) -> (r: Self)
        ensures
            r.node_id == node_id,
            r.has_engine == has_engine,
    {
        ReplicaWriter { node_id, has_engine }
    }

    /// Whether a write to `replica` goes through the local consensus log.
    pub open spec fn spec_writes_locally(&self, replica: &ReplicationSet) -> bool {
        replica.leader_node_id == self.node_id && self.has_engine
    }

    /// The request that every attempt of a write sends.
    pub fn request(
        &self,
        tenant: &str,
        db_name: &str,
        data: Vec<u8>,
        precision: u32,
        replica: &ReplicationSet,
    ) -> (r: WriteReplicaRequest)
        ensures
            r.replica_id == replica.id,
            r.tenant@ == tenant@,
            r.db_name@ == db_name@,
            r.precision == precision,
            r.data@ == data@,
    {
        WriteReplicaRequest {
            replica_id: replica.id,
            tenant: tenant.to_owned(),
            db_name: db_name.to_owned(),
            precision,
            data,
        }
    }

    /// The next state and action of a write, from its state and the outcome
    /// of the last action.
    pub fn step(&self, replica: &ReplicationSet, state: WriteState, event: Event) -> (r: (
        WriteState,
        Action,
    ))
        ensures
            ({
                let (next, action) = r;
                let leader = replica.leader_node_id;
                let vnodes = replica.vnodes@;
                match (state, event) {
                    (WriteState::Idle, Event::Start) => if self.spec_writes_locally(replica) {
                        next == WriteState::Proposing && action is Propose
                    } else {
                        next == WriteState::WritingLeader && action == (Action::WriteRemote {
                            node_id: leader,
                        })
                    },
                    (WriteState::Proposing, Event::Proposed(res)) => match res {
                        Err(CoordinatorError::ForwardToLeader { replica_id, leader_vnode_id }) => next
                            == WriteState::ChangingLeader && action == (Action::ChangeLeader {
                            leader_vnode_id,
                        }),
                        _ => next == WriteState::Finished && action == Action::Finish(res),
                    },
                    (WriteState::ChangingLeader, Event::LeaderChanged(res)) => match res {
                        Ok(node_id) => next == WriteState::WritingForwarded && action == (
                        Action::WriteRemote { node_id }),
                        Err(e) => next == WriteState::Finished && action == Action::Finish(
                            Err(e),
                        ),
                    },
                    (WriteState::WritingForwarded, Event::Remote(res)) => next
                        == WriteState::Finished && action == Action::Finish(res),
                    (WriteState::WritingLeader, Event::Remote(res)) => if is_failover(res) {
                        match next_follower(vnodes, leader, 0) {
                            Some(j) => next == (WriteState::WritingFollower { index: j as usize })
                                && action == (Action::WriteRemote { node_id: vnodes[j].node_id }),
                            None => next == WriteState::Finished && action == Action::Finish(res),
                        }
                    } else {
                        next == WriteState::Finished && action == Action::Finish(res)
                    },
                    (WriteState::WritingFollower { index }, Event::Remote(res)) => if is_failover(
                        res,
                    ) {
                        match next_follower(vnodes, leader, index + 1) {
                            Some(j) => next == (WriteState::WritingFollower { index: j as usize })
                                && action == (Action::WriteRemote { node_id: vnodes[j].node_id }),
                            None => next == WriteState::Finished && action == Action::Finish(res),
                        }
                    } else {
                        next == WriteState::Finished && action == Action::Finish(res)
                    },
                    _ => next == WriteState::Finished && action matches Action::Finish(Err(
                        CoordinatorError::CommonError { .. },
                    )),
                }
            }),
    {
        let leader = replica.leader_node_id;
        match (state, event) {
            (WriteState::Idle, Event::Start) => {
                if leader == self.node_id && self.has_engine {
                    (WriteState::Proposing, Action::Propose)
                } else {
                    (WriteState::WritingLeader, Action::WriteRemote { node_id: leader })
                }
            },
            (WriteState::Proposing, Event::Proposed(res)) => match res {
                Err(CoordinatorError::ForwardToLeader { replica_id, leader_vnode_id }) => (
                    WriteState::ChangingLeader,
                    Action::ChangeLeader { leader_vnode_id },
                ),
                _ => (WriteState::Finished, Action::Finish(res)),
            },
            (WriteState::ChangingLeader, Event::LeaderChanged(res)) => match res {
                Ok(node_id) => (WriteState::WritingForwarded, Action::WriteRemote { node_id }),
                Err(e) => (WriteState::Finished, Action::Finish(Err(e))),
            },
            (WriteState::WritingForwarded, Event::Remote(res)) => (
                WriteState::Finished,
                Action::Finish(res),
            ),
            (WriteState::WritingLeader, Event::Remote(res)) => {
                let failover = match &res {
                    Err(CoordinatorError::FailoverNode { .. }) => true,
                    _ => false,
                };
                if failover {
                    match find_follower(&replica.vnodes, leader, 0) {
                        Some(j) => (
                            WriteState::WritingFollower { index: j },
                            Action::WriteRemote { node_id: replica.vnodes[j].node_id },
                        ),
                        None => (WriteState::Finished, Action::Finish(res)),
                    }
                } else {
                    (WriteState::Finished, Action::Finish(res))
                }
            },
            (WriteState::WritingFollower { index }, Event::Remote(res)) => {
                let failover = match &res {
                    Err(CoordinatorError::FailoverNode { .. }) => true,
                    _ => false,
                };
                if failover && index < replica.vnodes.len() {
                    match find_follower(&replica.vnodes, leader, index + 1) {
                        Some(j) => (
                            WriteState::WritingFollower { index: j },
                            Action::WriteRemote { node_id: replica.vnodes[j].node_id },
                        ),
                        None => (WriteState::Finished, Action::Finish(res)),
                    }
                } else {
                    proof {
                        lemma_next_follower_past_end(replica.vnodes@, leader, index + 1);
                    }
                    (WriteState::Finished, Action::Finish(res))
                }
            },
            _ => (
                WriteState::Finished,
                Action::Finish(
                    Err(CoordinatorError::CommonError { msg: "unexpected write event".to_owned() }),
                ),
            ),
        }
    }
}

/// The error a rejected proposal stands for: a redirection when the
/// consensus log names the leader's vnode (`leader_id`) and group, a
/// consensus error otherwise.
pub fn raft_write_error(leader: Option<(u64, u32)>, message: String) -> (r: CoordinatorError)
    ensures
        match leader {
            Some((leader_id, group_id)) => r == (CoordinatorError::ForwardToLeader {
                replica_id: group_id,
                leader_vnode_id: leader_id as u32,
            }),
            None => r == (CoordinatorError::RaftWriteError { msg: message }),
        },
{
    match leader {
        Some((leader_id, group_id)) => CoordinatorError::ForwardToLeader {
            replica_id: group_id,
            leader_vnode_id: leader_id as u32,
        },
        None => CoordinatorError::RaftWriteError { msg: message },
    }
}

/// What came back from a remote write.
#[derive(Debug)]
pub enum RemoteOutcome {
    /// No channel to the node could be opened.
    ConnectFailed { reason: String },
    /// The call failed with a gRPC status.
    Status { code: i32, message: String },
    /// The node answered.
    Response { code: i32, data: String },
}

/// The result of a remote write to `node_id`: transport failures and
/// non-internal statuses call for failover, an internal status is a storage
/// error, and a failure code carries the node's message.
pub fn remote_write_result(node_id: u64, outcome: RemoteOutcome) -> (r: Result<(), CoordinatorError>)
    ensures
        match outcome {
            RemoteOutcome::ConnectFailed { reason } => r == Err::<(), CoordinatorError>(
                CoordinatorError::FailoverNode { id: node_id, error: reason },
            ),
            RemoteOutcome::Status { code, message } => if code == GRPC_CODE_INTERNAL {
                r == Err::<(), CoordinatorError>(CoordinatorError::TskvError { msg: message })
            } else {
                r == Err::<(), CoordinatorError>(
                    CoordinatorError::FailoverNode { id: node_id, error: message },
                )
            },
            RemoteOutcome::Response { code, data } => if code == SUCCESS_RESPONSE_CODE {
                r is Ok
            } else {
                r == Err::<(), CoordinatorError>(CoordinatorError::WriteFailed { msg: data })
            },
        },
{
    match outcome {
        RemoteOutcome::ConnectFailed { reason } => Err(
            CoordinatorError::FailoverNode { id: node_id, error: reason },
        ),
        RemoteOutcome::Status { code, message } => {
            if code == GRPC_CODE_INTERNAL {
                Err(CoordinatorError::TskvError { msg: message })
            } else {
                Err(CoordinatorError::FailoverNode { id: node_id, error: message })
            }
        },
        RemoteOutcome::Response { code, data } => {
            if code == SUCCESS_RESPONSE_CODE {
                Ok(())
            } else {
                Err(CoordinatorError::WriteFailed { msg: data })
            }
        },
    }
}

/// Whether a remote call that took `elapsed_ms` is to be reported as slow.
pub fn write_too_slow(elapsed_ms: u64) -> (r: bool)
    ensures
        r == (elapsed_ms > SLOW_WRITE_MS),
{
    elapsed_ms > SLOW_WRITE_MS
}

} // verus!
