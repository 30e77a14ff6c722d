//! The commands that the engine queues for the runtime.
use std::ops::Range;
use std::sync::Arc;

use vstd::prelude::*;

use crate::log_id::LogId;
use crate::membership::{EffectiveMembership, EffectiveMembershipView};
use crate::message::VoteRequest;
use crate::metrics::MetricsChangeFlags;
use crate::node::{Node, NodeId};
use crate::raft_state::ServerState;
use crate::snapshot::{SnapshotMeta, SnapshotMetaView};
use crate::vote::Vote;

verus! {

/// What the runtime has to do to make a change of the engine state real.
#[derive(Debug, PartialEq, Eq)]
pub enum Command<NID, N> {
    /// The role of the node has changed.
    UpdateServerState { server_state: ServerState },
    /// Append a range of the input entries to the log.
    AppendInputEntries { range: Range<usize> },
    /// Append a blank entry to the log.
    AppendBlankLog { log_id: LogId<NID> },
    /// Tell the other nodes which logs are committed.
    ReplicateCommitted { committed: Option<LogId<NID>> },
    /// Apply the logs after `already_committed` up to `upto`, and answer the clients that proposed
    /// them.
    LeaderCommit { already_committed: Option<LogId<NID>>, upto: LogId<NID> },
    /// Apply the logs after `already_committed` up to `upto`.
    FollowerCommit { already_committed: Option<LogId<NID>>, upto: LogId<NID> },
    /// Replicate the logs up to `upto` to the other nodes.
    ReplicateEntries { upto: Option<LogId<NID>> },
    /// Replicate to these nodes, each starting after the given log.
    UpdateReplicationStreams { targets: Vec<(NID, Option<LogId<NID>>)> },
    /// The effective membership has changed.
    UpdateMembership { membership: Arc<EffectiveMembership<NID, N>> },
    /// The first `n` input entries are done with.
    MoveInputCursorBy { n: usize },
    /// Save the vote.
    SaveVote { vote: Vote<NID> },
    /// Ask every other voter for its vote.
    SendVote { vote_req: VoteRequest<NID> },
    /// Start the timer that triggers an election: a longer one if the node can not be the leader.
    InstallElectionTimer { can_be_leader: bool },
    /// Delete the logs up to `upto`.
    PurgeLog { upto: LogId<NID> },
    /// Delete the logs since `since`, which conflict with those of the leader.
    DeleteConflictLog { since: LogId<NID> },
    /// Replace the state machine with the snapshot.
    InstallSnapshot { snapshot_meta: SnapshotMeta<NID, N> },
    /// Drop a received snapshot.
    CancelSnapshot { snapshot_meta: SnapshotMeta<NID, N> },
}

/// The mathematical view of a [`Command`].
#[verifier::ext_equal]
pub enum CommandView<NID, NV> {
    UpdateServerState { server_state: ServerState },
    AppendInputEntries { start: int, end: int },
    AppendBlankLog { log_id: LogId<NID> },
    ReplicateCommitted { committed: Option<LogId<NID>> },
    LeaderCommit { already_committed: Option<LogId<NID>>, upto: LogId<NID> },
    FollowerCommit { already_committed: Option<LogId<NID>>, upto: LogId<NID> },
    ReplicateEntries { upto: Option<LogId<NID>> },
    UpdateReplicationStreams { targets: Seq<(NID, Option<LogId<NID>>)> },
    UpdateMembership { membership: EffectiveMembershipView<NID, NV> },
    MoveInputCursorBy { n: int },
    SaveVote { vote: Vote<NID> },
    SendVote { vote_req: VoteRequest<NID> },
    InstallElectionTimer { can_be_leader: bool },
    PurgeLog { upto: LogId<NID> },
    DeleteConflictLog { since: LogId<NID> },
    InstallSnapshot { snapshot_meta: SnapshotMetaView<NID, NV> },
    CancelSnapshot { snapshot_meta: SnapshotMetaView<NID, NV> },
}

impl<NID, NV> CommandView<NID, NV> {
    /// Whether the command changes local data.
    pub open spec fn changes_data(self) -> bool {
        ||| self is AppendInputEntries
        ||| self is AppendBlankLog
        ||| self is LeaderCommit
        ||| self is FollowerCommit
        ||| self is SaveVote
        ||| self is PurgeLog
        ||| self is DeleteConflictLog
        ||| self is InstallSnapshot
    }

    /// Whether the command changes the membership or the server state.
    pub open spec fn changes_cluster(self) -> bool {
        self is UpdateServerState || self is UpdateMembership
    }

    /// Whether the command changes the replication streams.
    pub open spec fn changes_replication(self) -> bool {
        self is UpdateReplicationStreams
    }

    /// The flags of the metrics that have changed with this command.
    pub open spec fn flags(self, flags: MetricsChangeFlags) -> MetricsChangeFlags {
        MetricsChangeFlags {
            replication: flags.replication || self.changes_replication(),
            local_data: flags.local_data || self.changes_data(),
            cluster: flags.cluster || self.changes_cluster(),
        }
    }
}

impl<NID, N: Node> View for Command<NID, N> {
    type V = CommandView<NID, N::V>;

    open spec fn view(&self) -> CommandView<NID, N::V> {
        match self {
            Command::UpdateServerState { server_state } => CommandView::UpdateServerState {
                server_state: *server_state,
            },
            Command::AppendInputEntries { range } => CommandView::AppendInputEntries {
                start: range.start as int,
                end: range.end as int,
            },
            Command::AppendBlankLog { log_id } => CommandView::AppendBlankLog { log_id: *log_id },
            Command::ReplicateCommitted { committed } => CommandView::ReplicateCommitted {
                committed: *committed,
            },
            Command::LeaderCommit { already_committed, upto } => CommandView::LeaderCommit {
                already_committed: *already_committed,
                upto: *upto,
            },
            Command::FollowerCommit { already_committed, upto } => CommandView::FollowerCommit {
                already_committed: *already_committed,
                upto: *upto,
            },
            Command::ReplicateEntries { upto } => CommandView::ReplicateEntries { upto: *upto },
            Command::UpdateReplicationStreams {
                targets,
            } => CommandView::UpdateReplicationStreams { targets: targets@ },
            Command::UpdateMembership { membership } => CommandView::UpdateMembership {
                membership: membership@,
            },
            Command::MoveInputCursorBy { n } => CommandView::MoveInputCursorBy { n: *n as int },
            Command::SaveVote { vote } => CommandView::SaveVote { vote: *vote },
            Command::SendVote { vote_req } => CommandView::SendVote { vote_req: *vote_req },
            Command::InstallElectionTimer { can_be_leader } => CommandView::InstallElectionTimer {
                can_be_leader: *can_be_leader,
            },
            Command::PurgeLog { upto } => CommandView::PurgeLog { upto: *upto },
            Command::DeleteConflictLog { since } => CommandView::DeleteConflictLog {
                since: *since,
            },
            Command::InstallSnapshot { snapshot_meta } => CommandView::InstallSnapshot {
                snapshot_meta: snapshot_meta@,
            },
            Command::CancelSnapshot { snapshot_meta } => CommandView::CancelSnapshot {
                snapshot_meta: snapshot_meta@,
            },
        }
    }
}

impl<NID: NodeId, N: Node> Clone for Command<NID, N> {
    fn clone(&self) -> (r: Self)
        ensures
            r@ == self@,
    {
        match self {
            Command::UpdateServerState { server_state } => Command::UpdateServerState {
                server_state: *server_state,
            },
            Command::AppendInputEntries { range } => Command::AppendInputEntries {
                range: range.start..range.end,
            },
            Command::AppendBlankLog { log_id } => Command::AppendBlankLog { log_id: *log_id },
            Command::ReplicateCommitted { committed } => Command::ReplicateCommitted {
                committed: *committed,
            },
            Command::LeaderCommit { already_committed, upto } => Command::LeaderCommit {
                already_committed: *already_committed,
                upto: *upto,
            },
            Command::FollowerCommit { already_committed, upto } => Command::FollowerCommit {
                already_committed: *already_committed,
                upto: *upto,
            },
            Command::ReplicateEntries { upto } => Command::ReplicateEntries { upto: *upto },
            Command::UpdateReplicationStreams { targets } => {
                let mut copy: Vec<(NID, Option<LogId<NID>>)> = Vec::new();
                let mut i: usize = 0;
                while i < targets.len()
                    invariant
                        i <= targets.len(),
                        copy@ == targets@.take(i as int),
                    decreases targets.len() - i,
                {
                    copy.push((targets[i].0, targets[i].1));
                    i += 1;
                }
                assert(copy@ == targets@);
                Command::UpdateReplicationStreams { targets: copy }
            },
            Command::UpdateMembership { membership } => Command::UpdateMembership {
                membership: membership.clone(),
            },
            Command::MoveInputCursorBy { n } => Command::MoveInputCursorBy { n: *n },
            Command::SaveVote { vote } => Command::SaveVote { vote: *vote },
            Command::SendVote { vote_req } => Command::SendVote { vote_req: *vote_req },
            Command::InstallElectionTimer { can_be_leader } => Command::InstallElectionTimer {
                can_be_leader: *can_be_leader,
            },
            Command::PurgeLog { upto } => Command::PurgeLog { upto: *upto },
            Command::DeleteConflictLog { since } => Command::DeleteConflictLog { since: *since },
            Command::InstallSnapshot { snapshot_meta } => Command::InstallSnapshot {
                snapshot_meta: snapshot_meta.clone(),
            },
            Command::CancelSnapshot { snapshot_meta } => Command::CancelSnapshot {
                snapshot_meta: snapshot_meta.clone(),
            },
        }
    }
}

impl<NID: NodeId, N: Node> Command<NID, N> {
    /// Marks the metrics that change with this command.
    pub fn update_metrics_flags(&self, flags: &mut MetricsChangeFlags)
        ensures
            *final(flags) == self@.flags(*old(flags)),
    {
        match self {
            Command::UpdateServerState { .. } => flags.set_cluster_changed(),
            Command::AppendInputEntries { .. } => flags.set_data_changed(),
            Command::AppendBlankLog { .. } => flags.set_data_changed(),
            Command::ReplicateCommitted { .. } => {},
            Command::LeaderCommit { .. } => flags.set_data_changed(),
            Command::FollowerCommit { .. } => flags.set_data_changed(),
            Command::ReplicateEntries { .. } => {},
            Command::UpdateReplicationStreams { .. } => flags.set_replication_changed(),
            Command::UpdateMembership { .. } => flags.set_cluster_changed(),
            Command::MoveInputCursorBy { .. } => {},
            Command::SaveVote { .. } => flags.set_data_changed(),
            Command::SendVote { .. } => {},
            Command::InstallElectionTimer { .. } => {},
            Command::PurgeLog { .. } => flags.set_data_changed(),
            Command::DeleteConflictLog { .. } => flags.set_data_changed(),
            Command::InstallSnapshot { .. } => flags.set_data_changed(),
            Command::CancelSnapshot { .. } => {},
        }
    }
}

/// Which metrics a command changes: logs, votes, commits and snapshots are local data, the membership
/// and the role are those of the cluster, and the streams those of the replication. What has changed
/// before stays marked.
pub proof fn commands_mark_what_they_change<NID, NV>(
    cmd: CommandView<NID, NV>,
    flags: MetricsChangeFlags,
)
    ensures
        flags.replication ==> cmd.flags(flags).replication,
        flags.local_data ==> cmd.flags(flags).local_data,
        flags.cluster ==> cmd.flags(flags).cluster,
        !flags.replication ==> (cmd.flags(flags).replication <==> cmd is UpdateReplicationStreams),
        !flags.cluster ==> (cmd.flags(flags).cluster <==> cmd is UpdateServerState
            || cmd is UpdateMembership),
        !flags.local_data ==> (cmd.flags(flags).local_data <==> match cmd {
            CommandView::AppendInputEntries { .. } => true,
            CommandView::AppendBlankLog { .. } => true,
            CommandView::LeaderCommit { .. } => true,
            CommandView::FollowerCommit { .. } => true,
            CommandView::SaveVote { .. } => true,
            CommandView::PurgeLog { .. } => true,
            CommandView::DeleteConflictLog { .. } => true,
            CommandView::InstallSnapshot { .. } => true,
            _ => false,
        }),
{
}

/// A command is read with all that it holds.
pub proof fn a_command_is_read_as_it_is<NID: NodeId, N: Node>(cmd: Command<NID, N>)
    ensures
        match (cmd, cmd@) {
            (
                Command::UpdateServerState { server_state: a },
                CommandView::UpdateServerState { server_state: b },
            ) => a == b,
            (
                Command::AppendInputEntries { range },
                CommandView::AppendInputEntries { start, end },
            ) => start == range.start && end == range.end,
            (
                Command::AppendBlankLog { log_id: a },
                CommandView::AppendBlankLog { log_id: b },
            ) => a == b,
            (
                Command::ReplicateCommitted { committed: a },
                CommandView::ReplicateCommitted { committed: b },
            ) => a == b,
            (
                Command::LeaderCommit { already_committed: a, upto: b },
                CommandView::LeaderCommit { already_committed: c, upto: d },
            ) => a == c && b == d,
            (
                Command::FollowerCommit { already_committed: a, upto: b },
                CommandView::FollowerCommit { already_committed: c, upto: d },
            ) => a == c && b == d,
            (
                Command::ReplicateEntries { upto: a },
                CommandView::ReplicateEntries { upto: b },
            ) => a == b,
            (
                Command::UpdateReplicationStreams { targets: a },
                CommandView::UpdateReplicationStreams { targets: b },
            ) => a@ == b,
            (
                Command::UpdateMembership { membership: a },
                CommandView::UpdateMembership { membership: b },
            ) => a@ == b,
            (
                Command::MoveInputCursorBy { n: a },
                CommandView::MoveInputCursorBy { n: b },
            ) => a == b,
            (Command::SaveVote { vote: a }, CommandView::SaveVote { vote: b }) => a == b,
            (Command::SendVote { vote_req: a }, CommandView::SendVote { vote_req: b }) => a == b,
            (
                Command::InstallElectionTimer { can_be_leader: a },
                CommandView::InstallElectionTimer { can_be_leader: b },
            ) => a == b,
            (Command::PurgeLog { upto: a }, CommandView::PurgeLog { upto: b }) => a == b,
            (
                Command::DeleteConflictLog { since: a },
                CommandView::DeleteConflictLog { since: b },
            ) => a == b,
            (
                Command::InstallSnapshot { snapshot_meta: a },
                CommandView::InstallSnapshot { snapshot_meta: b },
            ) => a@ == b,
            (
                Command::CancelSnapshot { snapshot_meta: a },
                CommandView::CancelSnapshot { snapshot_meta: b },
            ) => a@ == b,
            _ => false,
        },
{
}

} // verus!
