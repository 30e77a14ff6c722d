//! The engine, and the methods that run its transitions.
use std::sync::Arc;

use vstd::prelude::*;

use crate::command::{Command, CommandView};
use crate::engine::model::{EngineConfig, EngineView};
use crate::entry::{EntryView, RaftEntry, RaftLogId};
use crate::leader::InternalServerState;
use crate::log_id::LogId;
use crate::membership::{
    EffectiveMembership, EffectiveMembershipView, Membership, MembershipState,
};
use crate::message::{
    AppendEntriesResponse, InitializeError, NotAllowed, NotInMembers, RejectVoteRequest,
    VoteRequest, VoteResponse,
};
use crate::metrics::MetricsChangeFlags;
use crate::node::{Node, NodeId};
use crate::raft_state::{RaftState, RaftStateView, ServerState};
use crate::snapshot::SnapshotMeta;
use crate::vote::Vote;

verus! {

impl Default for EngineConfig {
    fn default() -> (r: Self)
        ensures
            r == (EngineConfig { max_in_snapshot_log_to_keep: 1000, purge_batch_size: 256 }),
    {
        EngineConfig { max_in_snapshot_log_to_keep: 1000, purge_batch_size: 256 }
    }
}

/// The Raft protocol algorithm.
///
/// It implements the complete algorithm, but does not update anything outside itself: it queues
/// commands for a runtime, which executes them to append logs, save votes and so on.
///
/// It holds what is needed to run the algorithm, but no application data.
#[derive(Debug, PartialEq, Eq)]
pub struct Engine<NID, N> {
    /// The id of this node.
    pub id: NID,
    /// The configuration.
    pub config: EngineConfig,
    /// The metadata of the last snapshot.
    pub snapshot_meta: SnapshotMeta<NID, N>,
    /// The state of this node.
    pub state: RaftState<NID, N>,
    /// The kinds of metrics that have changed.
    pub metrics_flags: MetricsChangeFlags,
    /// The commands that the runtime has to execute, in order.
    pub commands: Vec<Command<NID, N>>,
}

/// The view of a list of commands.
pub open spec fn commands_view<NID, N: Node>(commands: Seq<Command<NID, N>>) -> Seq<
    CommandView<NID, N::V>,
> {
    commands.map_values(|c: Command<NID, N>| c@)
}

/// The view of a list of memberships.
pub open spec fn memberships_view<NID, N: Node>(
    memberships: Seq<EffectiveMembership<NID, N>>,
) -> Seq<EffectiveMembershipView<NID, N::V>> {
    memberships.map_values(|m: EffectiveMembership<NID, N>| m@)
}

impl<NID, N: Node> View for Engine<NID, N> {
    type V = EngineView<NID, N::V>;

    open spec fn view(&self) -> EngineView<NID, N::V> {
        EngineView {
            id: self.id,
            config: self.config,
            snapshot_meta: self.snapshot_meta@,
            state: self.state@,
            metrics_flags: self.metrics_flags,
            commands: commands_view(self.commands@),
        }
    }
}

impl<NID: NodeId, N: Node> Clone for Engine<NID, N> {
    fn clone(&self) -> (r: Self)
        ensures
            r@ == self@,
            self.wf() ==> r.wf(),
    {
        let mut commands: Vec<Command<NID, N>> = Vec::new();
        let mut i: usize = 0;
        while i < self.commands.len()
            invariant
                i <= self.commands.len(),
                commands_view(commands@) == commands_view(self.commands@).take(i as int),
            decreases self.commands.len() - i,
        {
            let ghost copied = commands@;
            commands.push(self.commands[i].clone());
            assert(commands_view(commands@) =~= commands_view(copied).push(
                self.commands@[i as int]@,
            ));
            i += 1;
            assert(commands_view(commands@) =~= commands_view(self.commands@).take(i as int));
        }
        assert(commands_view(commands@) =~= commands_view(self.commands@));
        Engine {
            id: self.id,
            config: self.config,
            snapshot_meta: self.snapshot_meta.clone(),
            state: self.state.clone(),
            metrics_flags: self.metrics_flags,
            commands,
        }
    }
}

impl<NID: NodeId, N: Node> Default for Engine<NID, N> {
    /// The engine of a node that has never run, with the default id and configuration.
    fn default() -> (r: Self)
        ensures
            r.wf(),
            r@ == EngineView::<NID, N::V>::initial(
                NID::spec_default_id(),
                RaftStateView::pristine(),
                EngineConfig { max_in_snapshot_log_to_keep: 1000, purge_batch_size: 256 },
            ),
    {
        Engine::new(NID::default_id(), &RaftState::pristine(), EngineConfig::default())
    }
}

impl<NID: NodeId, N: Node> Engine<NID, N> {
    /// Whether the state of the engine is well-formed.
    pub open spec fn wf(&self) -> bool {
        self.state.wf()
    }

    /// Creates an engine that starts from `init_state`.
    pub fn new(id: NID, init_state: &RaftState<NID, N>, config: EngineConfig) -> (r: Self)
        requires
            init_state.wf(),
        ensures
            r.wf(),
            r@ == EngineView::initial(id, init_state@, config),
    {
        let r = Engine {
            id,
            config,
            snapshot_meta: SnapshotMeta::empty(),
            state: init_state.clone(),
            metrics_flags: MetricsChangeFlags::unchanged(),
            commands: Vec::new(),
        };
        assert(r@ =~= EngineView::initial(id, init_state@, config));
        r
    }

    /// Queues a command.
    pub fn push_command(&mut self, cmd: Command<NID, N>)
        requires
            old(self).wf(),
        ensures
            final(self).wf(),
            final(self)@ == old(self)@.push(cmd@),
    {
        cmd.update_metrics_flags(&mut self.metrics_flags);
        self.commands.push(cmd);
        assert(self@ =~= old(self)@.push(cmd@));
    }

    /// Whether this node is a voter in the effective membership.
    pub fn is_voter(&self) -> (b: bool)
        ensures
            b == self@.is_voter(),
    {
        self.state.membership_state.is_voter(&self.id)
    }

    /// Whether this node is in leading state: a candidate or the leader.
    pub fn is_becoming_leader(&self) -> (b: bool)
        ensures
            b == self@.is_becoming_leader(),
    {
        self.state.internal_server_state.is_leading()
    }

    /// Whether a quorum has granted the vote for this node.
    pub fn is_leader(&self) -> (b: bool)
        ensures
            b == self@.is_leader(),
    {
        self.state.vote.node_id.same_id(&self.id) && self.state.vote.committed
    }

    /// The role of this node.
    pub fn calc_server_state(&self) -> (r: ServerState)
        ensures
            r == self@.calc_server_state(),
    {
        if self.is_voter() {
            if self.is_leader() {
                ServerState::Leader
            } else if self.is_becoming_leader() {
                ServerState::Candidate
            } else {
                ServerState::Follower
            }
        } else {
            ServerState::Learner
        }
    }

    /// Sets the role of this node.
    pub fn set_server_state(&mut self, server_state: ServerState)
        requires
            old(self).wf(),
        ensures
            final(self).wf(),
            final(self)@ == old(self)@.set_server_state(server_state),
    {
        if self.state.server_state == server_state {
            return ;
        }
        self.state.server_state = server_state;
        self.push_command(Command::UpdateServerState { server_state });
    }

    /// Updates the role of this node after a change of membership, if it was `prev` before.
    pub fn update_server_state_if_changed(&mut self, prev: ServerState)
        requires
            old(self).wf(),
        ensures
            final(self).wf(),
            final(self)@ == old(self)@.update_server_state_if_changed(prev),
    {
        let server_state = self.calc_server_state();
        if prev != server_state {
            self.state.server_state = server_state;
            self.push_command(Command::UpdateServerState { server_state });
        }
    }

    /// Enters leading state.
    ///
    /// A leader has two phases: the election and the replication of logs.
    pub fn enter_leading(&mut self)
        requires
            old(self).wf(),
            old(self)@.state.vote.node_id == old(self)@.id,
        ensures
            final(self).wf(),
            final(self)@ == old(self)@.enter_leading(),
    {
        self.state.new_leader();
    }

    /// Leaves leading state: the node becomes a follower or a learner.
    pub fn enter_following(&mut self)
        requires
            old(self).wf(),
        ensures
            final(self).wf(),
            final(self)@ == old(self)@.enter_following(),
    {
        if self.state.vote.committed {
            // There is an active leader.
            // Do not elect for a longer while.
            self.push_command(Command::InstallElectionTimer { can_be_leader: false });
        } else {
            // There is an active candidate.
            // Do not elect for a short while.
            self.push_command(Command::InstallElectionTimer { can_be_leader: true });
        }
        if self.state.internal_server_state.is_following() {
            return ;
        }
        self.state.internal_server_state = InternalServerState::Following;
        if self.is_voter() {
            self.set_server_state(ServerState::Follower);
        } else {
            self.set_server_state(ServerState::Learner);
        }
    }

    /// Enters leading or following state, depending on whom the vote is for.
    pub fn switch_internal_server_state(&mut self)
        requires
            old(self).wf(),
        ensures
            final(self).wf(),
            final(self)@ == old(self)@.switch_internal_server_state(),
    {
        if self.state.vote.node_id.same_id(&self.id) {
            self.enter_leading();
        } else {
            self.enter_following();
        }
    }

    /// Checks and changes the vote.
    ///
    /// The vote is granted if it is not less than the current one. The last log is not checked.
    pub fn handle_vote_change(&mut self, vote: &Vote<NID>) -> (r: Result<
        (),
        RejectVoteRequest<NID>,
    >)
        requires
            old(self).wf(),
        ensures
            final(self).wf(),
            final(self)@ == old(self)@.handle_vote_change(*vote),
            r == (if old(self)@.grants(*vote) {
                Ok(())
            } else {
                Err(RejectVoteRequest::ByVote(old(self)@.state.vote))
            }),
    {
        if vote.less_than(&self.state.vote) {
            return Err(RejectVoteRequest::ByVote(self.state.vote));
        }
        // Grant the vote

        if self.state.vote.less_than(vote) {
            self.state.vote = *vote;
            self.push_command(Command::SaveVote { vote: *vote });
        }
        self.switch_internal_server_state();
        Ok(())
    }

    /// Handles a vote request.
    pub fn handle_vote_req(&mut self, req: VoteRequest<NID>) -> (r: VoteResponse<NID>)
        requires
            old(self).wf(),
        ensures
            final(self).wf(),
            final(self)@ == old(self)@.handle_vote_req(req),
            r == (VoteResponse {
                vote: final(self)@.state.vote,
                vote_granted: old(self)@.grants_request(req),
                last_log_id: old(self)@.last_log_id(),
            }),
            r.vote_granted <==> old(self)@.state.vote.le(req.vote) && crate::log_id::opt_le(
                old(self)@.state.log_ids.last(),
                req.last_log_id,
            ),
            r.vote == (if r.vote_granted {
                req.vote
            } else {
                old(self)@.state.vote
            }),
            r.last_log_id == old(self)@.state.log_ids.last(),
    {
        proof {
            crate::vote::vote_order_is_total(self.state.vote, req.vote, req.vote);
        }
        let last_log_id = self.state.last_log_id();
        let res = if !crate::log_id::opt_less_than(&req.last_log_id, &last_log_id) {
            self.handle_vote_change(&req.vote)
        } else {
            Err(RejectVoteRequest::ByLastLogId(last_log_id))
        };
        let vote_granted = res.is_ok();
        VoteResponse {
            // The updated vote tells the candidate which vote is granted, in case its vote has
            // changed since it sent the request.
            vote: self.state.vote,
            vote_granted,
            last_log_id: self.state.last_log_id(),
        }
    }

    /// Updates the replication streams to reflect the replication progress.
    pub fn update_replications(&mut self)
        requires
            old(self).wf(),
        ensures
            final(self).wf(),
            final(self)@ == old(self)@.update_replications(),
    {
        let targets = match &self.state.internal_server_state {
            InternalServerState::Leading(leader) => {
                let ghost vector = leader.progress@.vector;
                let ghost p = |x: (NID, Option<LogId<NID>>)| x.0 != self.id;
                let mut targets: Vec<(NID, Option<LogId<NID>>)> = Vec::new();
                let mut i: usize = 0;
                assert(vector.take(0).filter(p) =~= Seq::empty()) by {
                    reveal(Seq::filter);
                }
                while i < leader.progress.len()
                    invariant
                        vector == leader.progress@.vector,
                        p == (|x: (NID, Option<LogId<NID>>)| x.0 != self.id),
                        i <= vector.len(),
                        targets@ == vector.take(i as int).filter(p),
                    decreases vector.len() - i,
                {
                    let (node_id, matched) = leader.progress.get(i);
                    proof {
                        reveal(Seq::filter);
                        assert(vector.take(i + 1).drop_last() == vector.take(i as int));
                    }
                    if !node_id.same_id(&self.id) {
                        targets.push((node_id, matched));
                    }
                    i += 1;
                }
                assert(vector.take(i as int) == vector);
                targets
            },
            InternalServerState::Following => {
                return ;
            },
        };
        self.push_command(Command::UpdateReplicationStreams { targets });
    }

    /// Records that node `node_id` holds the logs up to `log_id`, and commits what a quorum holds.
    ///
    /// A log is committed only if the current leader proposed it.
    pub fn update_progress(&mut self, node_id: NID, log_id: Option<LogId<NID>>)
        requires
            old(self).wf(),
        ensures
            final(self).wf(),
            final(self)@ == old(self)@.update_progress(node_id, log_id),
    {
        let res = match &mut self.state.internal_server_state {
            InternalServerState::Following => {
                return ;
            },
            InternalServerState::Leading(leader) => leader.progress.update(&node_id, log_id),
        };
        let committed = match res {
            Ok(c) => c,
            Err(_) => {
                return ;
            },
        };
        // Only a log that is proposed by the current leader is committed.
        if let Some(c) = committed {
            if !c.leader_id.same_as(&self.state.vote.leader_id()) {
                return ;
            }
            if let Some(prev_committed) = self.state.update_committed(&committed) {
                self.push_command(
                    Command::ReplicateCommitted { committed: self.state.committed },
                );
                self.push_command(
                    Command::LeaderCommit { already_committed: prev_committed, upto: c },
                );
            }
        }
    }

    /// Appends a blank log.
    pub fn append_blank_log(&mut self)
        requires
            old(self).wf(),
            old(self)@.has_room(),
        ensures
            final(self).wf(),
            final(self)@ == old(self)@.append_blank_log(),
    {
        let log_id = LogId {
            leader_id: self.state.vote.leader_id(),
            index: crate::log_id::following_index(&self.state.last_log_id()),
        };
        self.state.log_ids.append(log_id);
        assert(self.state@.log_ids =~= old(self)@.state.log_ids.extend(seq![log_id]));
        self.push_command(Command::AppendBlankLog { log_id });
        self.update_progress(self.id, Some(log_id));
        self.push_command(Command::ReplicateEntries { upto: Some(log_id) });
    }

    /// A quorum has granted the vote: the leader is established.
    pub fn establish_leader(&mut self)
        requires
            old(self).wf(),
            old(self)@.has_room(),
        ensures
            final(self).wf(),
            final(self)@ == old(self)@.establish_leader(),
    {
        self.state.vote.commit();
        // The committed vote is saved, so that leadership is not lost if the leader restarts quickly
        // enough.
        self.push_command(Command::SaveVote { vote: self.state.vote });
        self.set_server_state(ServerState::Leader);
        self.update_replications();
        // Only when a log of the current leader is replicated to a quorum, logs are committed.
        self.append_blank_log();
    }

    /// Starts to elect this node as leader.
    pub fn elect(&mut self)
        requires
            old(self).wf(),
            old(self)@.can_elect(),
        ensures
            final(self).wf(),
            final(self)@ == old(self)@.elect(),
    {
        let vote = Vote::new(self.state.vote.term + 1, self.id);
        let _ = self.handle_vote_change(&vote);
        let quorum_granted = match &mut self.state.internal_server_state {
            InternalServerState::Leading(leader) => {
                leader.grant_vote_by(self.id);
                leader.is_vote_granted()
            },
            InternalServerState::Following => false,
        };
        proof {
            reveal(Seq::filter);
            assert(crate::node_set::with_id(Seq::<NID>::empty(), self.id) =~= seq![self.id]);
        }
        // Fast path: this node is a quorum on its own.

        if quorum_granted {
            self.establish_leader();
            return ;
        }
        // Slow path: send vote requests, and let a quorum grant them.

        self.push_command(
            Command::SendVote {
                vote_req: VoteRequest {
                    vote: self.state.vote,
                    last_log_id: self.state.last_log_id(),
                },
            },
        );
        self.set_server_state(ServerState::Candidate);
        self.push_command(Command::InstallElectionTimer { can_be_leader: true });
    }

    /// Handles the response of node `target` to a vote request.
    pub fn handle_vote_resp(&mut self, target: NID, resp: VoteResponse<NID>)
        requires
            old(self).wf(),
            old(self)@.can_handle_vote_resp(target, resp),
        ensures
            final(self).wf(),
            final(self)@ == old(self)@.handle_vote_resp(target, resp),
    {
        // If this node no longer leads, the response is late: ignore it.
        let leader = match &mut self.state.internal_server_state {
            InternalServerState::Leading(leader) => leader,
            InternalServerState::Following => {
                return ;
            },
        };
        if resp.vote_granted {
            leader.grant_vote_by(target);
            let quorum_granted = leader.is_vote_granted();
            if quorum_granted {
                self.establish_leader();
            }
            return ;
        }
        // The vote is rejected.
        // If the vote of the peer is greater than the current one, keep it.

        if self.state.vote.less_than(&resp.vote) {
            self.state.vote = resp.vote;
            self.push_command(Command::SaveVote { vote: self.state.vote });
        }
        if crate::log_id::opt_less_than(&self.state.last_log_id(), &resp.last_log_id) {
            // The peer has a greater log.
            self.push_command(Command::InstallElectionTimer { can_be_leader: false });
        } else {
            self.push_command(Command::InstallElectionTimer { can_be_leader: true });
        }
        // It is not necessary to leave candidate state: only the election timer is updated.
    }

    /// Makes the membership `m` in the log `log_id` effective.
    pub fn update_effective_membership(&mut self, log_id: &LogId<NID>, m: &Membership<NID, N>)
        requires
            old(self).wf(),
        ensures
            final(self).wf(),
            final(self)@ == old(self)@.update_effective_membership(*log_id, m@),
    {
        let server_state = self.calc_server_state();
        let em = Arc::new(EffectiveMembership::new(Some(*log_id), m.clone()));
        self.state.membership_state.effective = em.clone();
        self.push_command(
            Command::UpdateMembership {
                membership: self.state.membership_state.effective.clone(),
            },
        );
        // If the membership changes, the progress is upgraded.
        if let InternalServerState::Leading(leader) = &mut self.state.internal_server_state {
            let learner_ids = em.membership.learner_ids();
            leader.progress = leader.progress.upgrade_quorum_set(
                em.membership.to_quorum_set(),
                &learner_ids,
            );
        }
        // A leader that is removed is shut down when this membership log is committed.

        if self.state.internal_server_state.is_leading() {
            self.update_replications();
        }
        // A leader does not quit at once, and keeps replicating logs.

        if server_state != ServerState::Leader {
            self.update_server_state_if_changed(server_state);
        }
    }

    /// Makes the membership in `entry` effective, if it holds one.
    pub fn try_update_membership<Ent: RaftEntry<NID, N>>(&mut self, entry: &Ent)
        requires
            old(self).wf(),
        ensures
            final(self).wf(),
            final(self)@ == old(self)@.try_update_membership(
                EntryView { log_id: entry.spec_log_id(), membership: entry.spec_membership() },
            ),
    {
        if let Some(m) = entry.get_membership() {
            self.update_effective_membership(entry.get_log_id(), m);
        }
    }

    /// Updates the memberships with one that is known to be committed.
    pub fn update_committed_membership(&mut self, membership: EffectiveMembership<NID, N>)
        requires
            old(self).wf(),
        ensures
            final(self).wf(),
            final(self)@ == old(self)@.update_committed_membership(membership@),
    {
        let server_state = self.calc_server_state();
        let m = Arc::new(membership);
        let mut committed = self.state.membership_state.committed.clone();
        let mut effective = self.state.membership_state.effective.clone();
        if crate::log_id::opt_less_than(&committed.log_id, &m.log_id) {
            committed = m.clone();
        }
        // The local effective membership may conflict with the leader.
        // Thus it is compared by the log index, e.g.:
        //   membership.log_id      = (10, 5);
        //   local_effective.log_id = (2, 10);

        if crate::log_id::index_at_most(&effective.log_id, &m.log_id) {
            effective = m;
        }
        let mem_state = MembershipState { committed, effective };
        if !self.state.membership_state.effective.same_as(&mem_state.effective) {
            self.push_command(
                Command::UpdateMembership { membership: mem_state.effective.clone() },
            );
        }
        self.state.membership_state = mem_state;
        self.update_server_state_if_changed(server_state);
    }

    /// Checks if this node is in a state that allows to initialize it.
    ///
    /// It is, only if it has no log at all and its vote is the minimal one.
    pub fn check_initialize(&self) -> (r: Result<(), NotAllowed<NID>>)
        requires
            self.wf(),
        ensures
            r == self@.check_initialize(),
    {
        if self.state.last_log_id().is_none() && self.state.vote.same_as(&Vote::default_vote()) {
            return Ok(());
        }
        Err(NotAllowed { last_log_id: self.state.last_log_id(), vote: self.state.vote })
    }

    /// Checks that this node is a voter of the initial membership `m`.
    pub fn check_members_contain_me(&self, m: &Membership<NID, N>) -> (r: Result<
        (),
        NotInMembers<NID, N>,
    >)
        ensures
            r is Ok <==> m@.is_voter(self@.id),
            r matches Err(e) ==> e.node_id == self@.id && e.membership@ == m@,
    {
        if !m.is_voter(&self.id) {
            Err(NotInMembers { node_id: self.id, membership: m.clone() })
        } else {
            Ok(())
        }
    }

    /// Gives `entries` the ids of new logs of this leader.
    pub fn assign_log_ids<Ent: RaftLogId<NID>>(&mut self, entries: &mut [Ent])
        requires
            old(self).wf(),
            old(self)@.can_assign(old(entries)@.len()),
        ensures
            *final(self) == *old(self),
            final(entries)@ == Seq::new(
                old(entries)@.len(),
                |i: int|
                    old(entries)@[i].with_log_id(
                        old(self)@.new_log_ids(old(entries)@.len())[i],
                    ),
            ),
    {
        let ghost before = entries@;
        let ghost ids = self@.new_log_ids(before.len());
        let n = entries.len();
        let mut log_id = LogId::new(
            self.state.vote.leader_id(),
            crate::log_id::following_index(&self.state.last_log_id()),
        );
        let ghost first = log_id;
        let mut i: usize = 0;
        while i < n
            invariant
                n == before.len(),
                entries@.len() == n,
                i <= n,
                ids == self@.new_log_ids(before.len()),
                self@.can_assign(before.len()),
                first.index == crate::log_id::next_index(self@.last_log_id()),
                first.leader_id == self@.state.vote.spec_leader_id(),
                log_id == (LogId { index: (first.index + i) as u64, ..first }),
                forall|k: int| 0 <= k < i ==> entries@[k] == before[k].with_log_id(ids[k]),
                forall|k: int| i <= k < n ==> entries@[k] == before[k],
            decreases n - i,
        {
            assert(ids[i as int] == log_id);
            entries[i].set_log_id(&log_id);
            log_id.index = log_id.index + 1;
            i += 1;
        }
        assert(entries@ =~= Seq::new(before.len(), |k: int| before[k].with_log_id(ids[k])));
    }

    /// Initializes a node by appending the first log.
    ///
    /// - The first log has to hold a membership config.
    /// - The node has to have no logs at all, and its vote has to be the minimal one.
    ///
    /// Appending the very first log is not confined by the consensus protocol, and has to be dealt
    /// with differently from appending logs by a leader or a follower.
    pub fn initialize<Ent: RaftEntry<NID, N>>(&mut self, entries: &mut [Ent]) -> (r: Result<
        (),
        InitializeError<NID, N>,
    >)
        requires
            old(self).wf(),
            old(entries)@.len() == 1,
        ensures
            final(self).wf(),
            final(self)@ == old(self)@.initialize(old(entries)@[0].spec_membership()),
            final(entries)@ == (if old(self)@.check_initialize() is Ok {
                seq![old(entries)@[0].with_log_id(old(self)@.new_log_ids(1)[0])]
            } else {
                old(entries)@
            }),
            crate::message::init_result(r) == old(self)@.initialize_result(
                old(entries)@[0].spec_membership(),
            ),
    {
        let l = entries.len();
        match self.check_initialize() {
            Ok(_) => {},
            Err(e) => {
                return Err(InitializeError::NotAllowed(e));
            },
        }
        let ghost first_id = self@.new_log_ids(1)[0];
        proof {
            old(entries)@[0].log_id_is_set(first_id);
            old(entries)@[0].payload_is_kept(first_id);
        }
        self.assign_log_ids(entries);
        assert(entries@ =~= seq![old(entries)@[0].with_log_id(first_id)]);
        assert(crate::entry::carried_log_ids(entries@) =~= self@.new_log_ids(1));
        self.state.extend_log_ids_from_same_leader(entries);
        self.push_command(Command::AppendInputEntries { range: 0..l });
        let entry = &entries[0];
        match entry.get_membership() {
            Some(m) => {
                match self.check_members_contain_me(m) {
                    Ok(_) => {},
                    Err(e) => {
                        return Err(InitializeError::NotInMembers(e));
                    },
                }
            },
            None => {
                return Err(InitializeError::NotAMembershipEntry);
            },
        }
        self.try_update_membership(entry);
        self.push_command(Command::MoveInputCursorBy { n: l });
        // With the new config, start to elect to become leader
        self.elect();
        Ok(())
    }

    /// Appends new log entries by a leader.
    ///
    /// The entries get new log ids, and a membership in them takes effect at once. The caller has to
    /// guarantee that the previous membership is committed.
    pub fn leader_append_entries<Ent: RaftEntry<NID, N>>(&mut self, entries: &mut [Ent])
        requires
            old(self).wf(),
            old(entries)@.len() > 0 ==> old(self)@.can_assign(old(entries)@.len()),
        ensures
            final(self).wf(),
            final(self)@ == old(self)@.leader_append_entries(
                crate::entry::entries_view(old(entries)@),
            ),
            final(entries)@ == Seq::new(
                old(entries)@.len(),
                |i: int|
                    old(entries)@[i].with_log_id(
                        old(self)@.new_log_ids(old(entries)@.len())[i],
                    ),
            ),
    {
        let l = entries.len();
        if l == 0 {
            assert(entries@ =~= Seq::empty());
            return ;
        }
        let ghost before = old(entries)@;
        let ghost ids = self@.new_log_ids(before.len());
        let ghost assigned = self@.assign_log_ids(crate::entry::entries_view(before));
        self.assign_log_ids(entries);
        proof {
            assert forall|i: int| 0 <= i < before.len() implies {
                &&& (#[trigger] entries@[i]).spec_log_id() == ids[i]
                &&& entries@[i].spec_membership() == before[i].spec_membership()
            } by {
                before[i].log_id_is_set(ids[i]);
                before[i].payload_is_kept(ids[i]);
            }
            assert(crate::entry::carried_log_ids(entries@) =~= ids);
            assert(crate::entry::entries_view(entries@) =~= assigned);
        }
        self.state.extend_log_ids_from_same_leader(entries);
        self.push_command(Command::AppendInputEntries { range: 0..l });
        let ghost start = self@;
        // Fast commit:
        // If the cluster has only one voter, an entry is committed as soon as it is appended.
        // But if there is a membership among the entries, the condition to commit changes.
        // Thus the entries before and after a membership entry are dealt with differently:
        //
        // When a membership entry is seen, the progress is updated for all former entries.
        // Then the quorum set of the progress is upgraded.
        //
        // E.g., if the entries are `2..6`, and entry 4 changes the membership from `a` to `abc`,
        // then `2,3` are committed.
        //
        // If the entries are `2..6`, and entry 4 changes the membership from `abc` to `a`, then
        // `2,3,4,5,6` are committed.
        let mut i: usize = 0;
        assert(assigned.take(0) =~= Seq::empty());
        while i < l
            invariant
                l == entries@.len(),
                i <= l,
                self.wf(),
                crate::entry::entries_view(entries@) == assigned,
                self@ == start.lead_entries(assigned.take(i as int)),
                self@.id == start.id,
            decreases l - i,
        {
            let entry = &entries[i];
            proof {
                assert(assigned.take(i + 1).drop_last() == assigned.take(i as int));
                assert(assigned.take(i + 1).last() == assigned[i as int]);
            }
            if let Some(m) = entry.get_membership() {
                let log_index = entry.get_log_id().index;
                if log_index > 0 {
                    if let Some(prev_log_id) = self.state.get_log_id(log_index - 1) {
                        self.update_progress(self.id, Some(prev_log_id));
                    }
                }
                // Since this entry, the condition to commit has changed.
                self.update_effective_membership(entry.get_log_id(), m);
            }
            i += 1;
        }
        assert(assigned.take(i as int) == assigned);
        let last = *entries[l - 1].get_log_id();
        assert(last == ids.last());
        self.update_progress(self.id, Some(last));
        // It is replicated to learners, even if it is already committed.
        self.push_command(Command::ReplicateEntries { upto: Some(last) });
        self.push_command(Command::MoveInputCursorBy { n: l });
    }

    /// Deletes the logs since index `since`, when the log at `since` is found to conflict with the
    /// leader.
    ///
    /// The effective membership is reverted to the last committed one if it is in the deleted logs.
    pub fn truncate_logs(&mut self, since: u64)
        requires
            old(self).wf(),
            old(self)@.can_truncate_logs(since as int),
        ensures
            final(self).wf(),
            final(self)@ == old(self)@.truncate_logs(since as int),
    {
        let since_log_id = match self.state.get_log_id(since) {
            None => {
                return ;
            },
            Some(x) => x,
        };
        self.state.log_ids.truncate(since);
        self.push_command(Command::DeleteConflictLog { since: since_log_id });
        // If the effective membership is from a conflicting log, the membership state reverts to the
        // last committed one.
        //
        // committed_membership, ... since, ... effective_membership // log
        // ^                                    ^
        // |                                    |
        // |                                    last membership      // before deleting since..
        // last membership                                           // after  deleting since..
        let effective_is_deleted = match self.state.membership_state.effective.log_id {
            Some(log_id) => since <= log_id.index,
            None => false,
        };
        if effective_is_deleted {
            let server_state = self.calc_server_state();
            let committed = self.state.membership_state.committed.clone();
            self.state.membership_state = MembershipState {
                committed: committed.clone(),
                effective: committed,
            };
            self.push_command(
                Command::UpdateMembership {
                    membership: self.state.membership_state.effective.clone(),
                },
            );
            self.update_server_state_if_changed(server_state);
        }
    }

    /// Purges logs that are already in the snapshot, if it is time to.
    pub fn purge_in_snapshot_log(&mut self)
        requires
            old(self).wf(),
            old(self)@.can_calc_purge_upto(),
        ensures
            final(self).wf(),
            final(self)@ == old(self)@.purge_in_snapshot_log(),
    {
        if let Some(purge_upto) = self.calc_purge_upto() {
            self.purge_log(purge_upto);
        }
    }

    /// Calculates the log up to which to purge, inclusive.
    ///
    /// Only logs in the snapshot are purged, and of these the last `max_in_snapshot_log_to_keep` are
    /// kept. There is nothing to purge if no log is left, or less than a batch.
    pub fn calc_purge_upto(&mut self) -> (r: Option<LogId<NID>>)
        requires
            old(self).wf(),
            old(self)@.can_calc_purge_upto(),
        ensures
            *final(self) == *old(self),
            r == old(self)@.calc_purge_upto(),
    {
        let max_keep = self.config.max_in_snapshot_log_to_keep;
        let batch_size = self.config.purge_batch_size;
        let purge_end = crate::log_id::following_index(
            &self.snapshot_meta.last_log_id,
        ).saturating_sub(max_keep);
        if purge_end == 0 || purge_end < batch_size {
            return None;
        }
        let last_purged = self.state.last_purged_log_id();
        if crate::log_id::following_index(&last_purged) > purge_end - batch_size {
            return None;
        }
        self.state.log_ids.get(purge_end - 1)
    }

    /// Purges the logs up to `upto`, inclusive.
    pub fn purge_log(&mut self, upto: LogId<NID>)
        requires
            old(self).wf(),
        ensures
            final(self).wf(),
            final(self)@ == old(self)@.purge_log(upto),
    {
        let last_purged = self.state.last_purged_log_id();
        if !crate::log_id::opt_less_than(&last_purged, &Some(upto)) {
            return ;
        }
        self.state.log_ids.purge(&upto);
        self.push_command(Command::PurgeLog { upto });
    }

    /// Records the metadata of a snapshot that is built or installed, if it is greater than the last
    /// one.
    ///
    /// The engine holds only the metadata of a snapshot.
    pub fn update_snapshot(&mut self, meta: SnapshotMeta<NID, N>) -> (r: bool)
        requires
            old(self).wf(),
        ensures
            final(self).wf(),
            final(self)@ == old(self)@.update_snapshot(meta@),
            r == old(self)@.is_new_snapshot(meta@),
    {
        if !crate::log_id::opt_less_than(&self.snapshot_meta.last_log_id, &meta.last_log_id) {
            return false;
        }
        self.snapshot_meta = meta;
        self.metrics_flags.set_data_changed();
        true
    }

    /// A snapshot is built.
    pub fn finish_building_snapshot(&mut self, meta: SnapshotMeta<NID, N>)
        requires
            old(self).wf(),
            old(self)@.can_finish_building_snapshot(meta@),
        ensures
            final(self).wf(),
            final(self)@ == old(self)@.finish_building_snapshot(meta@),
    {
        let updated = self.update_snapshot(meta);
        if !updated {
            return ;
        }
        self.purge_in_snapshot_log();
    }

    /// A follower or learner installs a snapshot.
    pub fn install_snapshot(&mut self, meta: SnapshotMeta<NID, N>)
        requires
            old(self).wf(),
            old(self)@.can_install_snapshot(meta@),
        ensures
            final(self).wf(),
            final(self)@ == old(self)@.install_snapshot(meta@),
    {
        let snap_last_log_id = match meta.last_log_id {
            Some(x) if crate::log_id::opt_less_than(&self.state.committed, &Some(x)) => x,
            _ => {
                self.push_command(Command::CancelSnapshot { snapshot_meta: meta });
                return ;
            },
        };
        let updated = self.update_snapshot(meta.clone());
        if !updated {
            return ;
        }
        // Do install:
        // 1. Delete conflicting logs.
        //    Unlike when appending entries, it is not necessary to delete them.
        //    But it makes log ids always increase.
        // 2. Install the snapshot.
        // 3. Purge logs up to the end of the snapshot, which may conflict.

        if let Some(local) = self.state.get_log_id(snap_last_log_id.index) {
            if !local.same_as(&snap_last_log_id) {
                self.truncate_logs(snap_last_log_id.index);
            }
        }
        self.state.committed = Some(snap_last_log_id);
        self.update_committed_membership(meta.last_membership.clone());
        self.push_command(Command::InstallSnapshot { snapshot_meta: meta });
        // A local log that is before the end of the snapshot may conflict with the leader.
        // All of them are purged, so that they are not replicated when this node becomes leader.
        self.purge_log(snap_last_log_id);
    }

    /// Finds the last two memberships in a list of entries.
    ///
    /// A follower or learner reverts the effective membership to the previous one, when conflicting
    /// logs are found.
    pub fn last_two_memberships<Ent: RaftEntry<NID, N>>(entries: &[Ent]) -> (r: Vec<
        EffectiveMembership<NID, N>,
    >)
        ensures
            memberships_view(r@) == crate::engine::model::last_two_memberships(
                crate::entry::entries_view(entries@),
            ),
    {
        let ghost all = crate::entry::entries_view(entries@);
        let mut memberships: Vec<EffectiveMembership<NID, N>> = Vec::new();
        let mut i: usize = entries.len();
        proof {
            reveal(Seq::filter);
            assert(all.skip(i as int) =~= Seq::empty());
            assert(memberships_view(memberships@) =~= crate::engine::model::memberships_in(
                all.skip(i as int),
            ));
        }
        while i > 0
            invariant
                all == crate::entry::entries_view(entries@),
                i <= entries@.len(),
                memberships_view(memberships@) == crate::engine::model::memberships_in(
                    all.skip(i as int),
                ),
                memberships@.len() < 2,
            decreases i,
        {
            i -= 1;
            let entry = &entries[i];
            let ghost later = memberships_view(memberships@);
            proof {
                let e = all[i as int];
                reveal_with_fuel(Seq::filter, 2);
                crate::engine::model::memberships_in_parts(seq![e], all.skip(i + 1));
                assert(seq![e] + all.skip(i + 1) =~= all.skip(i as int));
                assert(seq![e].drop_last() =~= Seq::empty());
                if e.membership is Some {
                    assert(crate::engine::model::memberships_in(seq![e]) =~= seq![
                        EffectiveMembershipView {
                            log_id: Some(e.log_id),
                            membership: e.membership->0,
                        },
                    ]);
                } else {
                    assert(crate::engine::model::memberships_in(seq![e]) =~= Seq::empty());
                }
            }
            if let Some(m) = entry.get_membership() {
                memberships.insert(
                    0,
                    EffectiveMembership::new(Some(*entry.get_log_id()), m.clone()),
                );
                assert(memberships_view(memberships@) =~= seq![memberships@[0]@] + later);
                if memberships.len() == 2 {
                    proof {
                        let found = crate::engine::model::memberships_in(all.skip(i as int));
                        let before = crate::engine::model::memberships_in(all.take(i as int));
                        crate::engine::model::memberships_in_parts(
                            all.take(i as int),
                            all.skip(i as int),
                        );
                        assert(all.take(i as int) + all.skip(i as int) =~= all);
                        assert((before + found).skip(before.len() as int) =~= found);
                        assert(before.len() == 0 ==> before + found =~= found);
                    }
                    return memberships;
                }
            } else {
                assert(memberships_view(memberships@) =~= Seq::empty() + later);
            }
        }
        assert(all.skip(0) =~= all);
        memberships
    }

    /// Updates the memberships with the last one or two found in new entries.
    pub fn update_membership_state(&mut self, memberships: Vec<EffectiveMembership<NID, N>>)
        requires
            old(self).wf(),
            old(self)@.can_update_membership_state(memberships_view(memberships@)),
        ensures
            final(self).wf(),
            final(self)@ == old(self)@.update_membership_state(memberships_view(memberships@)),
    {
        let new_mem_state = if memberships.len() == 1 {
            MembershipState {
                committed: self.state.membership_state.effective.clone(),
                effective: Arc::new(memberships[0].clone()),
            }
        } else {
            MembershipState {
                committed: Arc::new(memberships[0].clone()),
                effective: Arc::new(memberships[1].clone()),
            }
        };
        self.state.membership_state = new_mem_state;
    }

    /// Updates the memberships if new entries hold some.
    pub fn follower_update_membership<Ent: RaftEntry<NID, N>>(&mut self, entries: &[Ent])
        requires
            old(self).wf(),
            old(self)@.can_follow_memberships(crate::entry::entries_view(entries@)),
        ensures
            final(self).wf(),
            final(self)@ == old(self)@.follower_update_membership(
                crate::entry::entries_view(entries@),
            ),
    {
        let server_state = self.calc_server_state();
        let memberships = Self::last_two_memberships(entries);
        if memberships.len() == 0 {
            return ;
        }
        self.update_membership_state(memberships);
        self.push_command(
            Command::UpdateMembership {
                membership: self.state.membership_state.effective.clone(),
            },
        );
        self.update_server_state_if_changed(server_state);
    }

    /// A follower or learner appends `entries[since..]`.
    ///
    /// The entries before match, and those that conflict are deleted. Memberships in the entries
    /// take effect.
    pub fn follower_do_append_entries<Ent: RaftEntry<NID, N>>(
        &mut self,
        entries: &[Ent],
        since: usize,
    )
        requires
            old(self).wf(),
            old(self)@.can_follower_append(crate::entry::entries_view(entries@), since as int),
        ensures
            final(self).wf(),
            final(self)@ == old(self)@.follower_do_append_entries(
                crate::entry::entries_view(entries@),
                since as int,
            ),
    {
        let l = entries.len();
        if since == l {
            return ;
        }
        let new = vstd::slice::slice_subrange(entries, since, l);
        proof {
            assert(crate::entry::entries_view(new@) =~= crate::entry::entries_view(
                entries@,
            ).skip(since as int));
            assert(crate::entry::carried_log_ids(new@) =~= crate::entry::entry_log_ids(
                crate::entry::entries_view(new@),
            ));
        }
        self.state.extend_log_ids(new);
        self.push_command(Command::AppendInputEntries { range: since..l });
        self.follower_update_membership(new);
        self.push_command(Command::MoveInputCursorBy { n: l });
    }

    /// A follower or learner commits the logs that the leader has committed, but none after the last
    /// one that is known to match.
    pub fn follower_commit_entries<Ent: RaftEntry<NID, N>>(
        &mut self,
        leader_committed: Option<LogId<NID>>,
        prev_log_id: Option<LogId<NID>>,
        entries: &[Ent],
    )
        requires
            old(self).wf(),
        ensures
            final(self).wf(),
            final(self)@ == old(self)@.follower_commit_entries(
                leader_committed,
                prev_log_id,
                crate::entry::entries_view(entries@),
            ),
    {
        // The committed index can not be greater than that of the last log.
        let last = if entries.len() == 0 {
            None
        } else {
            Some(*entries[entries.len() - 1].get_log_id())
        };
        let last = if crate::log_id::opt_less_than(&prev_log_id, &last) {
            last
        } else {
            prev_log_id
        };
        let committed = if crate::log_id::opt_less_than(&last, &leader_committed) {
            last
        } else {
            leader_committed
        };
        if let Some(prev_committed) = self.state.update_committed(&committed) {
            if let Some(upto) = committed {
                self.push_command(
                    Command::FollowerCommit { already_committed: prev_committed, upto },
                );
            }
        }
    }

    /// Finds the first entry that this node does not have, by comparing the log id.
    pub fn first_conflicting_index<Ent: RaftLogId<NID>>(&self, entries: &[Ent]) -> (r: usize)
        requires
            self.wf(),
        ensures
            r == self@.first_missing(crate::entry::carried_log_ids(entries@), 0),
            r <= entries@.len(),
    {
        let ghost ids = crate::entry::carried_log_ids(entries@);
        let l = entries.len();
        let mut i: usize = 0;
        while i < l
            invariant
                self.wf(),
                l == entries@.len(),
                ids == crate::entry::carried_log_ids(entries@),
                i <= l,
                self@.first_missing(ids, 0) == self@.first_missing(ids, i as int),
            decreases l - i,
        {
            let log_id = entries[i].get_log_id();
            assert(ids[i as int] == *log_id);
            if !self.state.has_log_id(log_id) {
                return i;
            }
            i += 1;
        }
        l
    }

    /// Appends entries to a follower or learner.
    ///
    /// Conflicting logs are deleted and the memberships updated.
    pub fn handle_append_entries_req<Ent: RaftEntry<NID, N>>(
        &mut self,
        vote: &Vote<NID>,
        prev_log_id: Option<LogId<NID>>,
        entries: &[Ent],
        leader_committed: Option<LogId<NID>>,
    ) -> (r: AppendEntriesResponse<NID>)
        requires
            old(self).wf(),
            old(self)@.can_handle_append_entries_req(
                *vote,
                prev_log_id,
                crate::entry::entries_view(entries@),
            ),
        ensures
            final(self).wf(),
            final(self)@ == old(self)@.handle_append_entries_req(
                *vote,
                prev_log_id,
                crate::entry::entries_view(entries@),
                leader_committed,
            ),
            r == old(self)@.append_entries_response(*vote, prev_log_id),
    {
        if self.handle_vote_change(vote).is_err() {
            return AppendEntriesResponse::HigherVote(self.state.vote);
        }
        // The vote is legal. Check if prev_log_id matches the local log.

        if let Some(prev) = prev_log_id {
            if !self.state.has_log_id(&prev) {
                self.truncate_logs(prev.index);
                return AppendEntriesResponse::Conflict;
            }
        }
        // Otherwise without prev_log_id, logs are replicated from the very beginning.

        let l = entries.len();
        let since = self.first_conflicting_index(entries);
        proof {
            assert(crate::entry::carried_log_ids(entries@) =~= crate::entry::entry_log_ids(
                crate::entry::entries_view(entries@),
            ));
        }
        if since < l {
            // Before appending, if an entry overrides a conflicting one, the entries after it have to
            // be deleted first.
            // Raft requires log ids to be in total order by (term,index).
            // Otherwise the log id with the greatest index makes a committed entry invisible in an
            // election.
            self.truncate_logs(entries[since].get_log_id().index);
            self.follower_do_append_entries(entries, since);
        }
        self.follower_commit_entries(leader_committed, prev_log_id, entries);
        AppendEntriesResponse::Success
    }
}

} // verus!
