//! The transitions of the engine, as functions on its mathematical view.
//!
//! Every transition says which state follows and which commands are queued. What a transition
//! needs is a predicate whose name starts with `can_`.
use vstd::prelude::*;

use crate::command::CommandView;
use crate::entry::EntryView;
use crate::leader::{InternalStateView, LeaderView};
use crate::log_id::LogId;
use crate::membership::{EffectiveMembershipView, MembershipStateView, MembershipView};
use crate::message::{
    AppendEntriesResponse, InitializeErrorView, NotAllowed, VoteRequest, VoteResponse,
};
use crate::metrics::MetricsChangeFlags;
use crate::node::NodeId;
use crate::progress::Matched;
use crate::raft_state::{RaftStateView, ServerState};
use crate::snapshot::SnapshotMetaView;
use crate::vote::Vote;

verus! {

/// The configuration of the engine.
#[derive(Clone, Copy, Debug, PartialEq, Eq)]
pub struct EngineConfig {
    /// The maximum number of logs in the snapshot to keep before purging.
    pub max_in_snapshot_log_to_keep: u64,
    /// The minimal number of logs to purge in a batch.
    pub purge_batch_size: u64,
}

/// The mathematical view of an [`Engine`](crate::engine::engine_impl::Engine).
#[verifier::ext_equal]
pub struct EngineView<NID, NV> {
    /// The id of this node.
    pub id: NID,
    /// The configuration.
    pub config: EngineConfig,
    /// The metadata of the last snapshot.
    pub snapshot_meta: SnapshotMetaView<NID, NV>,
    /// The state of this node.
    pub state: RaftStateView<NID, NV>,
    /// The kinds of metrics that have changed.
    pub metrics_flags: MetricsChangeFlags,
    /// The commands that the runtime has to execute, in order.
    pub commands: Seq<CommandView<NID, NV>>,
}

impl<NID: NodeId, NV> EngineView<NID, NV> {
    /// An engine that starts from `state`.
    pub open spec fn initial(id: NID, state: RaftStateView<NID, NV>, config: EngineConfig) -> Self {
        EngineView {
            id,
            config,
            snapshot_meta: SnapshotMetaView::empty(),
            state,
            metrics_flags: MetricsChangeFlags::none(),
            commands: Seq::empty(),
        }
    }

    /// With another state.
    pub open spec fn with_state(self, state: RaftStateView<NID, NV>) -> Self {
        EngineView { state, ..self }
    }

    /// With `cmd` queued, and the metrics that it changes marked.
    pub open spec fn push(self, cmd: CommandView<NID, NV>) -> Self {
        EngineView {
            commands: self.commands.push(cmd),
            metrics_flags: cmd.flags(self.metrics_flags),
            ..self
        }
    }

    /// The last log of this node.
    pub open spec fn last_log_id(self) -> Option<LogId<NID>> {
        self.state.log_ids.last()
    }

    /// Whether there is an index left for a log after the last one.
    pub open spec fn has_room(self) -> bool {
        crate::log_id::next_index(self.last_log_id()) <= u64::MAX
    }

    // ---- The role of this node

    /// Whether this node is a voter in the effective membership.
    pub open spec fn is_voter(self) -> bool {
        self.state.membership_state.effective.membership.is_voter(self.id)
    }

    /// Whether this node is in leading state: a candidate or the leader.
    pub open spec fn is_becoming_leader(self) -> bool {
        self.state.internal_server_state is Leading
    }

    /// Whether a quorum has granted the vote for this node.
    pub open spec fn is_leader(self) -> bool {
        self.state.vote.node_id == self.id && self.state.vote.committed
    }

    /// The role of this node.
    pub open spec fn calc_server_state(self) -> ServerState {
        if !self.is_voter() {
            ServerState::Learner
        } else if self.is_leader() {
            ServerState::Leader
        } else if self.is_becoming_leader() {
            ServerState::Candidate
        } else {
            ServerState::Follower
        }
    }

    /// The role is `server_state`; the runtime is told if it is another one.
    pub open spec fn set_server_state(self, server_state: ServerState) -> Self {
        if self.state.server_state == server_state {
            self
        } else {
            self.with_state(RaftStateView { server_state, ..self.state }).push(
                CommandView::UpdateServerState { server_state },
            )
        }
    }

    /// The role was `prev` before a change of membership; the runtime is told if it is another one
    /// now.
    pub open spec fn update_server_state_if_changed(self, prev: ServerState) -> Self {
        let server_state = self.calc_server_state();
        if prev == server_state {
            self
        } else {
            self.with_state(RaftStateView { server_state, ..self.state }).push(
                CommandView::UpdateServerState { server_state },
            )
        }
    }

    // ---- Votes

    /// The node enters leading state.
    pub open spec fn enter_leading(self) -> Self {
        self.with_state(self.state.new_leader())
    }

    /// The node waits longer before it starts an election if there is a leader, and stops leading.
    pub open spec fn enter_following(self) -> Self {
        let timed = self.push(
            CommandView::InstallElectionTimer { can_be_leader: !self.state.vote.committed },
        );
        if self.state.internal_server_state is Following {
            timed
        } else {
            timed.with_state(
                RaftStateView {
                    internal_server_state: InternalStateView::Following,
                    ..self.state
                },
            ).set_server_state(
                if self.is_voter() {
                    ServerState::Follower
                } else {
                    ServerState::Learner
                },
            )
        }
    }

    /// The node leads if its vote is for itself and follows otherwise.
    pub open spec fn switch_internal_server_state(self) -> Self {
        if self.state.vote.node_id == self.id {
            self.enter_leading()
        } else {
            self.enter_following()
        }
    }

    /// With a greater vote saved.
    pub open spec fn save_vote(self, vote: Vote<NID>) -> Self {
        if self.state.vote.lt(vote) {
            self.with_state(RaftStateView { vote, ..self.state }).push(
                CommandView::SaveVote { vote },
            )
        } else {
            self
        }
    }

    /// A vote is granted if it is not less than the current one.
    pub open spec fn grants(self, vote: Vote<NID>) -> bool {
        self.state.vote.le(vote)
    }

    /// A vote is seen: it is granted, or nothing changes.
    pub open spec fn handle_vote_change(self, vote: Vote<NID>) -> Self {
        if self.grants(vote) {
            self.save_vote(vote).switch_internal_server_state()
        } else {
            self
        }
    }

    /// Whether a vote request is granted: neither the vote nor the last log is behind.
    pub open spec fn grants_request(self, req: VoteRequest<NID>) -> bool {
        crate::log_id::opt_le(self.last_log_id(), req.last_log_id) && self.grants(req.vote)
    }

    /// A vote request is received.
    pub open spec fn handle_vote_req(self, req: VoteRequest<NID>) -> Self {
        if self.grants_request(req) {
            self.handle_vote_change(req.vote)
        } else {
            self
        }
    }

    // ---- Elections

    /// What to replicate to: every node but this one, with the last log it is known to hold.
    pub open spec fn replication_targets(self, leader: LeaderView<NID>) -> Seq<Matched<NID>> {
        leader.progress.vector.filter(|x: Matched<NID>| x.0 != self.id)
    }

    /// The replication streams of a leading node follow its progress.
    pub open spec fn update_replications(self) -> Self {
        match self.state.internal_server_state {
            InternalStateView::Leading(leader) => self.push(
                CommandView::UpdateReplicationStreams { targets: self.replication_targets(leader) },
            ),
            InternalStateView::Following => self,
        }
    }

    /// A leader knows that a quorum holds `granted`: it is committed if this leader proposed it and
    /// it is after what is committed already.
    pub open spec fn leader_commit(self, granted: Option<LogId<NID>>) -> Self {
        if granted is Some && granted->0.leader_id == self.state.vote.spec_leader_id()
            && crate::log_id::opt_lt(self.state.committed, granted) {
            self.with_state(self.state.update_committed(granted)).push(
                CommandView::ReplicateCommitted { committed: granted },
            ).push(
                CommandView::LeaderCommit {
                    already_committed: self.state.committed,
                    upto: granted->0,
                },
            )
        } else {
            self
        }
    }

    /// A leader learns that node `node_id` holds the logs up to `log_id`.
    pub open spec fn update_progress(self, node_id: NID, log_id: Option<LogId<NID>>) -> Self {
        match self.state.internal_server_state {
            InternalStateView::Leading(leader) => if crate::progress::position_of(
                leader.progress.vector,
                node_id,
            ) is None {
                self
            } else {
                let progress = leader.progress.update(node_id, log_id);
                self.with_state(
                    RaftStateView {
                        internal_server_state: InternalStateView::Leading(
                            LeaderView { progress, ..leader },
                        ),
                        ..self.state
                    },
                ).leader_commit(progress.granted)
            },
            InternalStateView::Following => self,
        }
    }

    /// The ids of `n` new logs of this leader.
    pub open spec fn new_log_ids(self, n: nat) -> Seq<LogId<NID>> {
        Seq::new(
            n,
            |i: int|
                LogId {
                    leader_id: self.state.vote.spec_leader_id(),
                    index: (crate::log_id::next_index(self.last_log_id()) + i) as u64,
                },
        )
    }

    /// With the logs `ids` appended.
    pub open spec fn extend_log_ids(self, ids: Seq<LogId<NID>>) -> Self {
        self.with_state(
            RaftStateView { log_ids: self.state.log_ids.extend(ids), ..self.state },
        )
    }

    /// A new leader appends a blank log, which is the first one it can commit.
    pub open spec fn append_blank_log(self) -> Self {
        let log_id = self.new_log_ids(1)[0];
        self.extend_log_ids(seq![log_id]).push(
            CommandView::AppendBlankLog { log_id },
        ).update_progress(self.id, Some(log_id)).push(
            CommandView::ReplicateEntries { upto: Some(log_id) },
        )
    }

    /// A quorum has granted the vote: it is committed and saved, and the node leads.
    pub open spec fn establish_leader(self) -> Self {
        let vote = Vote { committed: true, ..self.state.vote };
        self.with_state(RaftStateView { vote, ..self.state }).push(
            CommandView::SaveVote { vote },
        ).set_server_state(ServerState::Leader).update_replications().append_blank_log()
    }

    /// The leader state after `id` has granted the vote.
    pub open spec fn vote_granted_by(self, leader: LeaderView<NID>, id: NID) -> Self {
        self.with_state(
            RaftStateView {
                internal_server_state: InternalStateView::Leading(leader.grant_vote_by(id)),
                ..self.state
            },
        )
    }

    /// The node votes for itself in the next term.
    pub open spec fn vote_for_self(self) -> Self {
        let voted = self.handle_vote_change(
            Vote { term: (self.state.vote.term + 1) as u64, node_id: self.id, committed: false },
        );
        voted.vote_granted_by(voted.state.internal_server_state->Leading_0, self.id)
    }

    /// Whether the vote of this node is a quorum on its own.
    pub open spec fn is_quorum_alone(self) -> bool {
        let m = self.state.membership_state.effective.membership;
        crate::quorum::is_quorum(m.configs, seq![self.id])
    }

    /// An election needs another term, and room for a blank log if it succeeds at once.
    pub open spec fn can_elect(self) -> bool {
        &&& self.state.vote.term < u64::MAX
        &&& self.is_quorum_alone() ==> self.has_room()
    }

    /// The node starts an election: it wins at once if it is a quorum on its own, and asks the
    /// other nodes for their votes otherwise.
    pub open spec fn elect(self) -> Self {
        let voted = self.vote_for_self();
        if self.is_quorum_alone() {
            voted.establish_leader()
        } else {
            voted.push(
                CommandView::SendVote {
                    vote_req: VoteRequest {
                        vote: voted.state.vote,
                        last_log_id: voted.last_log_id(),
                    },
                },
            ).set_server_state(ServerState::Candidate).push(
                CommandView::InstallElectionTimer { can_be_leader: true },
            )
        }
    }

    /// A response to a vote request can be handled if a vote less than the current one is not
    /// granted, only a voter is rejected, and there is room for a blank log if it makes the node
    /// the leader.
    pub open spec fn can_handle_vote_resp(self, target: NID, resp: VoteResponse<NID>) -> bool {
        match self.state.internal_server_state {
            InternalStateView::Leading(leader) => {
                &&& resp.vote.lt(self.state.vote) ==> !resp.vote_granted
                &&& !resp.vote_granted ==> self.is_voter()
                &&& resp.vote_granted && leader.grant_vote_by(target).is_vote_granted()
                    ==> self.has_room()
            },
            InternalStateView::Following => true,
        }
    }

    /// A response to a vote request is received.
    pub open spec fn handle_vote_resp(self, target: NID, resp: VoteResponse<NID>) -> Self {
        match self.state.internal_server_state {
            InternalStateView::Following => self,
            InternalStateView::Leading(leader) => if resp.vote_granted {
                let granted = self.vote_granted_by(leader, target);
                if leader.grant_vote_by(target).is_vote_granted() {
                    granted.establish_leader()
                } else {
                    granted
                }
            } else {
                // Wait longer if the other node has a greater log.
                self.save_vote(resp.vote).push(
                    CommandView::InstallElectionTimer {
                        can_be_leader: crate::log_id::opt_le(resp.last_log_id, self.last_log_id()),
                    },
                )
            },
        }
    }

    // ---- Membership

    /// The membership `m` in the log `log_id` takes effect.
    pub open spec fn update_effective_membership(
        self,
        log_id: LogId<NID>,
        m: MembershipView<NID, NV>,
    ) -> Self {
        let effective = EffectiveMembershipView { log_id: Some(log_id), membership: m };
        let changed = self.with_state(
            RaftStateView {
                membership_state: MembershipStateView { effective, ..self.state.membership_state },
                ..self.state
            },
        ).push(CommandView::UpdateMembership { membership: effective });
        let upgraded = match self.state.internal_server_state {
            InternalStateView::Leading(leader) => changed.with_state(
                RaftStateView {
                    internal_server_state: InternalStateView::Leading(
                        LeaderView {
                            progress: leader.progress.upgrade(m.configs, m.learner_ids()),
                            ..leader
                        },
                    ),
                    ..changed.state
                },
            ).update_replications(),
            InternalStateView::Following => changed,
        };
        // A leader does not quit at once, and keeps replicating logs.
        if self.calc_server_state() == ServerState::Leader {
            upgraded
        } else {
            upgraded.update_server_state_if_changed(self.calc_server_state())
        }
    }

    /// An entry takes effect if it holds a membership.
    pub open spec fn try_update_membership(self, entry: EntryView<NID, NV>) -> Self {
        match entry.membership {
            Some(m) => self.update_effective_membership(entry.log_id, m),
            None => self,
        }
    }

    /// A membership is known to be committed.
    pub open spec fn update_committed_membership(
        self,
        m: EffectiveMembershipView<NID, NV>,
    ) -> Self {
        let old = self.state.membership_state;
        let new = old.adopt(m);
        let changed = self.with_state(RaftStateView { membership_state: new, ..self.state });
        let told = if old.effective != new.effective {
            changed.push(CommandView::UpdateMembership { membership: new.effective })
        } else {
            changed
        };
        told.update_server_state_if_changed(self.calc_server_state())
    }

    // ---- Initialization

    /// A node can be initialized only if it has no log at all and its vote is the minimal one.
    pub open spec fn check_initialize(self) -> Result<(), NotAllowed<NID>> {
        if self.last_log_id() is None && self.state.vote == Vote::<NID>::spec_default_vote() {
            Ok(())
        } else {
            Err(NotAllowed { last_log_id: self.last_log_id(), vote: self.state.vote })
        }
    }

    /// Whether `m` is a membership that this node can be initialized with.
    pub open spec fn check_initial_membership(self, m: Option<MembershipView<NID, NV>>) -> Result<
        (),
        InitializeErrorView<NID, NV>,
    > {
        match m {
            None => Err(InitializeErrorView::NotAMembershipEntry),
            Some(m) => if m.is_voter(self.id) {
                Ok(())
            } else {
                Err(InitializeErrorView::NotInMembers { node_id: self.id, membership: m })
            },
        }
    }

    /// Whether the node is initialized with an entry that holds `m`.
    pub open spec fn initialize_result(self, m: Option<MembershipView<NID, NV>>) -> Result<
        (),
        InitializeErrorView<NID, NV>,
    > {
        match self.check_initialize() {
            Err(e) => Err(InitializeErrorView::NotAllowed(e)),
            Ok(_) => self.check_initial_membership(m),
        }
    }

    /// The node is initialized with an entry that holds `m`: the entry is appended if the node is
    /// in the initial state, and the node starts an election if `m` has it as a voter.
    pub open spec fn initialize(self, m: Option<MembershipView<NID, NV>>) -> Self {
        if self.check_initialize() is Err {
            self
        } else {
            let ids = self.new_log_ids(1);
            let appended = self.extend_log_ids(ids).push(
                CommandView::AppendInputEntries { start: 0, end: 1 },
            );
            if self.check_initial_membership(m) is Err {
                appended
            } else {
                appended.update_effective_membership(ids[0], m->0).push(
                    CommandView::MoveInputCursorBy { n: 1 },
                ).elect()
            }
        }
    }

    // ---- Appending logs by a leader

    /// There are indexes for `n` more logs, and for one after them.
    pub open spec fn can_assign(self, n: nat) -> bool {
        crate::log_id::next_index(self.last_log_id()) + n <= u64::MAX
    }

    /// `entries` with the ids of new logs of this leader.
    pub open spec fn assign_log_ids(self, entries: Seq<EntryView<NID, NV>>) -> Seq<
        EntryView<NID, NV>,
    > {
        let ids = self.new_log_ids(entries.len());
        Seq::new(
            entries.len(),
            |i: int| EntryView { log_id: ids[i], membership: entries[i].membership },
        )
    }

    /// A leader has appended `entry`: if it holds a membership, the logs before it are committed by
    /// the quorums of the former one.
    pub open spec fn lead_entry(self, entry: EntryView<NID, NV>) -> Self {
        match entry.membership {
            Some(m) => {
                let prev = self.state.log_ids.get(entry.log_id.index - 1);
                let progressed = if prev is Some {
                    self.update_progress(self.id, prev)
                } else {
                    self
                };
                progressed.update_effective_membership(entry.log_id, m)
            },
            None => self,
        }
    }

    /// A leader has appended `entries`.
    pub open spec fn lead_entries(self, entries: Seq<EntryView<NID, NV>>) -> Self
        decreases entries.len(),
    {
        if entries.len() == 0 {
            self
        } else {
            self.lead_entries(entries.drop_last()).lead_entry(entries.last())
        }
    }

    /// A leader appends `entries`, which get new log ids.
    pub open spec fn leader_append_entries(self, entries: Seq<EntryView<NID, NV>>) -> Self {
        let n = entries.len();
        if n == 0 {
            self
        } else {
            let ids = self.new_log_ids(n);
            self.extend_log_ids(ids).push(
                CommandView::AppendInputEntries { start: 0, end: n as int },
            ).lead_entries(self.assign_log_ids(entries)).update_progress(
                self.id,
                Some(ids.last()),
            ).push(CommandView::ReplicateEntries { upto: Some(ids.last()) }).push(
                CommandView::MoveInputCursorBy { n: n as int },
            )
        }
    }

    // ---- Appending logs by a follower

    /// Logs can be deleted since `since` if they are not purged, and if this reverts the effective
    /// membership, the committed one is before them.
    pub open spec fn can_truncate_logs(self, since: int) -> bool {
        let m = self.state.membership_state;
        &&& crate::log_id::next_index(self.state.log_ids.last_purged()) <= since
        &&& self.state.log_ids.get(since) is Some && since < crate::log_id::next_index(
            m.effective.log_id,
        ) ==> crate::log_id::next_index(m.committed.log_id) <= since
    }

    /// The logs since `since` are deleted. If the effective membership is one of them, the last
    /// committed one takes effect.
    pub open spec fn truncate_logs(self, since: int) -> Self {
        match self.state.log_ids.get(since) {
            None => self,
            Some(log_id) => {
                let deleted = self.with_state(
                    RaftStateView {
                        log_ids: self.state.log_ids.truncate(since),
                        ..self.state
                    },
                ).push(CommandView::DeleteConflictLog { since: log_id });
                let m = self.state.membership_state;
                if since < crate::log_id::next_index(m.effective.log_id) {
                    deleted.with_state(
                        RaftStateView {
                            membership_state: MembershipStateView { effective: m.committed, ..m },
                            ..deleted.state
                        },
                    ).push(
                        CommandView::UpdateMembership { membership: m.committed },
                    ).update_server_state_if_changed(self.calc_server_state())
                } else {
                    deleted
                }
            },
        }
    }

    /// The position of the first of `ids`, not before `from`, that this node does not have: that
    /// after the last one if it has all of them.
    pub open spec fn first_missing(self, ids: Seq<LogId<NID>>, from: int) -> int
        decreases ids.len() - from,
    {
        if from >= ids.len() {
            ids.len() as int
        } else if !self.state.has_log_id(ids[from]) {
            from
        } else {
            self.first_missing(ids, from + 1)
        }
    }

    /// The first missing log id is where it is searched for: all before it are present, and it is
    /// not, unless it is past the end.
    pub proof fn first_missing_is_in_range(self, ids: Seq<LogId<NID>>, from: int)
        requires
            0 <= from <= ids.len(),
        ensures
            from <= self.first_missing(ids, from) <= ids.len(),
            forall|i: int|
                from <= i < self.first_missing(ids, from) ==> self.state.has_log_id(
                    #[trigger] ids[i],
                ),
            self.first_missing(ids, from) < ids.len() ==> !self.state.has_log_id(
                ids[self.first_missing(ids, from)],
            ),
        decreases ids.len() - from,
    {
        if from < ids.len() && self.state.has_log_id(ids[from]) {
            self.first_missing_is_in_range(ids, from + 1);
        }
    }

    /// The position of the first entry that this node does not have.
    pub open spec fn first_conflicting_index(self, entries: Seq<EntryView<NID, NV>>) -> int {
        self.first_missing(crate::entry::entry_log_ids(entries), 0)
    }

    /// The last one or two memberships in new entries can replace the present ones if they are
    /// after the effective one.
    pub open spec fn can_update_membership_state(
        self,
        memberships: Seq<EffectiveMembershipView<NID, NV>>,
    ) -> bool {
        &&& memberships.len() > 0
        &&& crate::log_id::opt_lt(
            self.state.membership_state.effective.log_id,
            memberships[0].log_id,
        )
    }

    /// The last membership in new entries takes effect, and the one before it is committed.
    pub open spec fn update_membership_state(
        self,
        memberships: Seq<EffectiveMembershipView<NID, NV>>,
    ) -> Self {
        let membership_state = if memberships.len() == 1 {
            MembershipStateView {
                committed: self.state.membership_state.effective,
                effective: memberships[0],
            }
        } else {
            MembershipStateView { committed: memberships[0], effective: memberships[1] }
        };
        self.with_state(RaftStateView { membership_state, ..self.state })
    }

    /// The memberships in new entries can take effect.
    pub open spec fn can_follow_memberships(self, entries: Seq<EntryView<NID, NV>>) -> bool {
        let memberships = last_two_memberships(entries);
        memberships.len() > 0 ==> self.can_update_membership_state(memberships)
    }

    /// The last memberships in new entries take effect.
    pub open spec fn follower_update_membership(self, entries: Seq<EntryView<NID, NV>>) -> Self {
        let memberships = last_two_memberships(entries);
        if memberships.len() == 0 {
            self
        } else {
            let updated = self.update_membership_state(memberships);
            updated.push(
                CommandView::UpdateMembership {
                    membership: updated.state.membership_state.effective,
                },
            ).update_server_state_if_changed(self.calc_server_state())
        }
    }

    /// The entries since `since` can be appended if they directly follow the last log and are
    /// greater, and so are the memberships in them.
    pub open spec fn can_follower_append(
        self,
        entries: Seq<EntryView<NID, NV>>,
        since: int,
    ) -> bool {
        let new = entries.skip(since);
        &&& 0 <= since <= entries.len()
        &&& since < entries.len() ==> {
            &&& self.state.log_ids.continues(crate::entry::entry_log_ids(new))
            &&& crate::log_id::opt_lt(self.last_log_id(), Some(new[0].log_id))
            &&& self.can_follow_memberships(new)
        }
    }

    /// A follower appends the entries since `since`.
    pub open spec fn follower_do_append_entries(
        self,
        entries: Seq<EntryView<NID, NV>>,
        since: int,
    ) -> Self {
        let n = entries.len() as int;
        if since == n {
            self
        } else {
            let new = entries.skip(since);
            self.extend_log_ids(crate::entry::entry_log_ids(new)).push(
                CommandView::AppendInputEntries { start: since, end: n },
            ).follower_update_membership(new).push(CommandView::MoveInputCursorBy { n })
        }
    }

    /// What a follower knows to be committed: what the leader has committed, but not past the logs
    /// that are known to match.
    pub open spec fn committed_by_leader(
        leader_committed: Option<LogId<NID>>,
        prev_log_id: Option<LogId<NID>>,
        entries: Seq<EntryView<NID, NV>>,
    ) -> Option<LogId<NID>> {
        let last = if entries.len() == 0 {
            None
        } else {
            Some(entries.last().log_id)
        };
        crate::log_id::opt_min(leader_committed, crate::log_id::opt_max(last, prev_log_id))
    }

    /// A follower commits the logs up to `committed`.
    pub open spec fn follower_commit(self, committed: Option<LogId<NID>>) -> Self {
        if crate::log_id::opt_lt(self.state.committed, committed) {
            self.with_state(self.state.update_committed(committed)).push(
                CommandView::FollowerCommit {
                    already_committed: self.state.committed,
                    upto: committed->0,
                },
            )
        } else {
            self
        }
    }

    /// A follower commits the logs that the leader has committed.
    pub open spec fn follower_commit_entries(
        self,
        leader_committed: Option<LogId<NID>>,
        prev_log_id: Option<LogId<NID>>,
        entries: Seq<EntryView<NID, NV>>,
    ) -> Self {
        self.follower_commit(Self::committed_by_leader(leader_committed, prev_log_id, entries))
    }

    /// Whether the log that precedes the entries of a leader is present.
    pub open spec fn matches(self, prev_log_id: Option<LogId<NID>>) -> bool {
        prev_log_id is Some ==> self.state.has_log_id(prev_log_id->0)
    }

    /// The logs from the first missing entry on can be replaced with the entries of a leader.
    pub open spec fn can_replace(self, entries: Seq<EntryView<NID, NV>>) -> bool {
        let since = self.first_conflicting_index(entries);
        since < entries.len() ==> {
            let at = entries[since].log_id.index as int;
            &&& self.can_truncate_logs(at)
            &&& self.truncate_logs(at).can_follower_append(entries, since)
        }
    }

    /// The logs from the first missing entry on are replaced with the entries of a leader.
    pub open spec fn replace(self, entries: Seq<EntryView<NID, NV>>) -> Self {
        let since = self.first_conflicting_index(entries);
        if since < entries.len() {
            self.truncate_logs(entries[since].log_id.index as int).follower_do_append_entries(
                entries,
                since,
            )
        } else {
            self
        }
    }

    /// A request to append entries can be handled if its vote is rejected, or if the logs that
    /// conflict can be deleted and the entries follow what is left.
    pub open spec fn can_handle_append_entries_req(
        self,
        vote: Vote<NID>,
        prev_log_id: Option<LogId<NID>>,
        entries: Seq<EntryView<NID, NV>>,
    ) -> bool {
        self.grants(vote) ==> {
            let voted = self.handle_vote_change(vote);
            if voted.matches(prev_log_id) {
                voted.can_replace(entries)
            } else {
                voted.can_truncate_logs(prev_log_id->0.index as int)
            }
        }
    }

    /// The response to a request to append entries.
    pub open spec fn append_entries_response(
        self,
        vote: Vote<NID>,
        prev_log_id: Option<LogId<NID>>,
    ) -> AppendEntriesResponse<NID> {
        if !self.grants(vote) {
            AppendEntriesResponse::HigherVote(self.state.vote)
        } else if self.matches(prev_log_id) {
            AppendEntriesResponse::Success
        } else {
            AppendEntriesResponse::Conflict
        }
    }

    /// A request to append entries is received.
    pub open spec fn handle_append_entries_req(
        self,
        vote: Vote<NID>,
        prev_log_id: Option<LogId<NID>>,
        entries: Seq<EntryView<NID, NV>>,
        leader_committed: Option<LogId<NID>>,
    ) -> Self {
        if !self.grants(vote) {
            self
        } else {
            let voted = self.handle_vote_change(vote);
            if voted.matches(prev_log_id) {
                voted.replace(entries).follower_commit_entries(
                    leader_committed,
                    prev_log_id,
                    entries,
                )
            } else {
                voted.truncate_logs(prev_log_id->0.index as int)
            }
        }
    }

    // ---- Purging logs and snapshots

    /// The index before which logs may be purged: those in the snapshot, but for the number to
    /// keep.
    pub open spec fn purge_end(self) -> int {
        let end = crate::log_id::next_index(self.snapshot_meta.last_log_id)
            - self.config.max_in_snapshot_log_to_keep;
        if end < 0 {
            0
        } else {
            end
        }
    }

    /// Whether there is a batch of logs to purge.
    pub open spec fn has_batch_to_purge(self) -> bool {
        crate::log_id::next_index(self.state.log_ids.last_purged()) + self.config.purge_batch_size
            <= self.purge_end()
    }

    /// What to purge can be calculated if the indexes are in range and the last log to purge is
    /// present.
    pub open spec fn can_calc_purge_upto(self) -> bool {
        &&& crate::log_id::next_index(self.snapshot_meta.last_log_id) <= u64::MAX
        &&& crate::log_id::next_index(self.state.log_ids.last_purged()) <= u64::MAX
        &&& self.purge_end() > 0 && self.has_batch_to_purge() ==> self.state.log_ids.get(
            self.purge_end() - 1,
        ) is Some
    }

    /// The log up to which to purge: none if no log may be purged, or less than a batch.
    pub open spec fn calc_purge_upto(self) -> Option<LogId<NID>> {
        if self.purge_end() > 0 && self.has_batch_to_purge() {
            self.state.log_ids.get(self.purge_end() - 1)
        } else {
            None
        }
    }

    /// The logs up to `upto` are purged, unless they are already.
    pub open spec fn purge_log(self, upto: LogId<NID>) -> Self {
        if crate::log_id::opt_le(Some(upto), self.state.log_ids.last_purged()) {
            self
        } else {
            self.with_state(
                RaftStateView { log_ids: self.state.log_ids.purge(upto), ..self.state },
            ).push(CommandView::PurgeLog { upto })
        }
    }

    /// The logs in the snapshot are purged, if it is time to.
    pub open spec fn purge_in_snapshot_log(self) -> Self {
        match self.calc_purge_upto() {
            Some(upto) => self.purge_log(upto),
            None => self,
        }
    }

    /// Whether `meta` is of a greater snapshot than the last one.
    pub open spec fn is_new_snapshot(self, meta: SnapshotMetaView<NID, NV>) -> bool {
        crate::log_id::opt_lt(self.snapshot_meta.last_log_id, meta.last_log_id)
    }

    /// The last snapshot is that of `meta` if it is greater.
    pub open spec fn update_snapshot(self, meta: SnapshotMetaView<NID, NV>) -> Self {
        if self.is_new_snapshot(meta) {
            EngineView {
                snapshot_meta: meta,
                metrics_flags: MetricsChangeFlags { local_data: true, ..self.metrics_flags },
                ..self
            }
        } else {
            self
        }
    }

    /// A built snapshot can be recorded if what to purge can be calculated with it.
    pub open spec fn can_finish_building_snapshot(self, meta: SnapshotMetaView<NID, NV>) -> bool {
        self.is_new_snapshot(meta) ==> self.update_snapshot(meta).can_calc_purge_upto()
    }

    /// A snapshot is built.
    pub open spec fn finish_building_snapshot(self, meta: SnapshotMetaView<NID, NV>) -> Self {
        if self.is_new_snapshot(meta) {
            self.update_snapshot(meta).purge_in_snapshot_log()
        } else {
            self
        }
    }

    /// Whether the local log at the end of a snapshot is another one.
    pub open spec fn conflicts_with(self, snapshot_last: LogId<NID>) -> bool {
        let local = self.state.log_ids.get(snapshot_last.index as int);
        local is Some && local->0 != snapshot_last
    }

    /// With the logs from the end of a snapshot on deleted, if they conflict with it.
    pub open spec fn delete_conflicting(self, snapshot_last: LogId<NID>) -> Self {
        if self.conflicts_with(snapshot_last) {
            self.truncate_logs(snapshot_last.index as int)
        } else {
            self
        }
    }

    /// A snapshot can be installed if the logs that conflict with it can be deleted.
    pub open spec fn can_install_snapshot(self, meta: SnapshotMetaView<NID, NV>) -> bool {
        let last = meta.last_log_id;
        crate::log_id::opt_lt(self.state.committed, last) && self.is_new_snapshot(meta)
            && self.conflicts_with(last->0) ==> self.can_truncate_logs(last->0.index as int)
    }

    /// A snapshot is received: it is dropped if it holds nothing but committed logs, and installed
    /// if it is greater than the last one.
    pub open spec fn install_snapshot(self, meta: SnapshotMetaView<NID, NV>) -> Self {
        let last = meta.last_log_id;
        if crate::log_id::opt_le(last, self.state.committed) {
            self.push(CommandView::CancelSnapshot { snapshot_meta: meta })
        } else if !self.is_new_snapshot(meta) {
            self
        } else {
            let cleaned = self.update_snapshot(meta).delete_conflicting(last->0);
            cleaned.with_state(
                RaftStateView { committed: last, ..cleaned.state },
            ).update_committed_membership(meta.last_membership).push(
                CommandView::InstallSnapshot { snapshot_meta: meta },
            ).purge_log(last->0)
        }
    }
}

/// The memberships in `entries`, each with the log that holds it.
pub open spec fn memberships_in<NID, NV>(entries: Seq<EntryView<NID, NV>>) -> Seq<
    EffectiveMembershipView<NID, NV>,
> {
    entries.filter(|e: EntryView<NID, NV>| e.membership is Some).map_values(
        |e: EntryView<NID, NV>|
            EffectiveMembershipView { log_id: Some(e.log_id), membership: e.membership->0 },
    )
}

/// The last two memberships in `entries`, or all if there are less.
pub open spec fn last_two_memberships<NID, NV>(entries: Seq<EntryView<NID, NV>>) -> Seq<
    EffectiveMembershipView<NID, NV>,
> {
    let all = memberships_in(entries);
    if all.len() <= 2 {
        all
    } else {
        all.skip(all.len() - 2)
    }
}

/// The memberships in two lists of entries are those in the first and then those in the second.
pub proof fn memberships_in_parts<NID, NV>(
    a: Seq<EntryView<NID, NV>>,
    b: Seq<EntryView<NID, NV>>,
)
    ensures
        memberships_in(a + b) == memberships_in(a) + memberships_in(b),
{
    let p = |e: EntryView<NID, NV>| e.membership is Some;
    Seq::filter_distributes_over_add(a, b, p);
    assert(memberships_in(a + b) =~= memberships_in(a) + memberships_in(b));
}

} // verus!
