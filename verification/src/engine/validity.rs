//! The invariant of an engine that follows the protocol, and the events that the protocol allows.
//!
//! The laws here say that the invariant is never broken, and that an engine can handle every event
//! that the protocol allows, however many there were before.
use vstd::prelude::*;

use crate::command::CommandView;
use crate::engine::event::Event;
use crate::engine::model::{EngineConfig, EngineView};
use crate::entry::EntryView;
use crate::leader::{InternalStateView, LeaderView};
use crate::log_id::LogId;
use crate::log_id_list::LogIds;
use crate::membership::{EffectiveMembershipView, MembershipStateView, MembershipView};
use crate::message::VoteResponse;
use crate::node::NodeId;
use crate::progress::{Matched, ProgressView};
use crate::raft_state::{RaftStateView, ServerState};
use crate::snapshot::SnapshotMetaView;
use crate::vote::Vote;

verus! {

impl<NID: NodeId> ProgressView<NID> {
    /// Whether what is known to be held by other nodes is in `logs`.
    pub open spec fn is_in(self, logs: LogIds<NID>) -> bool {
        &&& logs.holds(self.granted)
        &&& forall|i: int| 0 <= i < self.vector.len() ==> logs.holds((#[trigger] self.vector[i]).1)
    }

    /// Whether nothing is known to be held by other nodes.
    pub open spec fn is_blank(self) -> bool {
        &&& self.granted is None
        &&& forall|i: int| 0 <= i < self.vector.len() ==> (#[trigger] self.vector[i]).1 is None
    }

    proof fn greatest_granted_is_in(self, n: int, least: Option<LogId<NID>>, logs: LogIds<NID>)
        requires
            self.wf(),
            n <= self.voter_count,
            self.is_in(logs),
            logs.holds(least),
        ensures
            logs.holds(self.greatest_granted(n, least)),
        decreases n,
    {
        if n > 0 {
            self.greatest_granted_is_in(n - 1, least, logs);
            assert(logs.holds(self.vector[n - 1].1));
        }
    }

    /// What a quorum holds is in the logs too.
    pub proof fn granted_is_in_the_logs(self, logs: LogIds<NID>)
        requires
            self.wf(),
            self.is_in(logs),
        ensures
            logs.holds(self.with_granted().granted),
    {
        self.greatest_granted_is_in(self.voter_count as int, self.granted, logs);
    }

    proof fn update_is_in(self, id: NID, log_id: Option<LogId<NID>>, logs: LogIds<NID>)
        requires
            self.wf(),
            self.is_in(logs),
            logs.holds(log_id),
        ensures
            self.update(id, log_id).wf(),
            self.update(id, log_id).is_in(logs),
    {
        crate::progress::position_is_of_the_node(self.vector, id);
        if let Some(i) = crate::progress::position_of(self.vector, id) {
            let updated = ProgressView { vector: self.vector.update(i, (id, log_id)), ..self };
            updated.greatest_granted_is_in(updated.voter_count as int, updated.granted, logs);
        }
    }

    proof fn upgrade_is_in(
        self,
        configs: Seq<Seq<NID>>,
        learner_ids: Seq<NID>,
        logs: LogIds<NID>,
    )
        requires
            self.is_in(logs),
        ensures
            self.upgrade(configs, learner_ids).wf(),
            self.upgrade(configs, learner_ids).is_in(logs),
    {
        let fresh = Self::initial(configs, learner_ids);
        let kept = ProgressView {
            vector: fresh.vector.map_values(|x: Matched<NID>| (x.0, self.matched(x.0))),
            ..fresh
        };
        assert forall|i: int| 0 <= i < kept.vector.len() implies logs.holds(
            (#[trigger] kept.vector[i]).1,
        ) by {
            crate::progress::position_is_of_the_node(self.vector, fresh.vector[i].0);
        }
        kept.greatest_granted_is_in(kept.voter_count as int, kept.granted, logs);
    }
}

impl<NID: NodeId> InternalStateView<NID> {
    /// Whether what a leading node knows to be held by other nodes is in `logs`.
    pub open spec fn is_in(self, logs: LogIds<NID>) -> bool {
        match self {
            InternalStateView::Leading(l) => l.progress.is_in(logs),
            InternalStateView::Following => true,
        }
    }

    /// Whether what is granted to a leading node is the greatest log that a quorum holds.
    pub open spec fn granted_is_greatest(self) -> bool {
        match self {
            InternalStateView::Leading(l) => l.progress.granted_is_greatest(),
            InternalStateView::Following => true,
        }
    }

    /// Whether nothing is known to be held by other nodes.
    pub open spec fn is_blank(self) -> bool {
        match self {
            InternalStateView::Leading(l) => l.progress.is_blank(),
            InternalStateView::Following => true,
        }
    }
}

impl<NID: NodeId, NV> EngineView<NID, NV> {
    /// The index after the last log.
    pub open spec fn log_end(self) -> int {
        crate::log_id::next_index(self.last_log_id())
    }

    /// The invariant of an engine:
    ///
    /// - The log ids are in total order, and none is of a leader after the vote.
    /// - What a leading node knows to be held by others is in its own log, and what is granted is the
    ///   greatest log that a quorum holds.
    /// - Committed logs are in the log, and only committed logs are in a snapshot or purged.
    /// - The memberships are in the log or purged, and the effective one is not before the committed
    ///   one.
    pub open spec fn valid(self) -> bool {
        let logs = self.state.log_ids;
        let committed_end = crate::log_id::next_index(self.state.committed);
        let m = self.state.membership_state;
        &&& logs.ordered()
        &&& logs.last() is Some ==> logs.last()->0.leader_id.le(self.state.vote.spec_leader_id())
        &&& self.state.internal_server_state.wf()
        &&& self.state.internal_server_state.is_in(logs)
        &&& self.state.internal_server_state.granted_is_greatest()
        &&& logs.holds(self.state.committed)
        &&& crate::log_id::next_index(logs.last_purged()) <= committed_end
        &&& crate::log_id::next_index(self.snapshot_meta.last_log_id) <= committed_end
        &&& logs.holds(m.committed.log_id)
        &&& logs.holds(m.effective.log_id)
        &&& crate::log_id::next_index(m.committed.log_id) <= crate::log_id::next_index(
            m.effective.log_id,
        )
    }

    /// Whether `log_id` of a leader is a log of this node, if it is not after the logs and the
    /// membership that are committed.
    pub open spec fn agrees_with(self, log_id: LogId<NID>) -> bool {
        log_id.index < crate::log_id::next_index(self.state.committed) || log_id.index
            < crate::log_id::next_index(self.state.membership_state.committed.log_id)
            ==> self.state.log_ids.holds(Some(log_id))
    }

    /// Whether the protocol allows a leader to send this request:
    ///
    /// - The entries directly follow `prev_log_id`, in total order, and are not of a later leader.
    /// - They agree with the logs and the membership that are committed.
    /// - If `leader_committed` is less than the last of them, it is one of them, or it is before them
    ///   and a log of this node, if this node has the log before the entries.
    pub open spec fn allows_append(
        self,
        vote: Vote<NID>,
        prev_log_id: Option<LogId<NID>>,
        entries: Seq<EntryView<NID, NV>>,
        leader_committed: Option<LogId<NID>>,
    ) -> bool {
        let ids = crate::entry::entry_log_ids(entries);
        let last = if ids.len() > 0 {
            Some(ids.last())
        } else {
            prev_log_id
        };
        &&& crate::log_id::follow_in_order(prev_log_id, ids)
        &&& forall|i: int|
            0 <= i < ids.len() ==> {
                &&& (#[trigger] ids[i]).leader_id.le(vote.spec_leader_id())
                &&& self.agrees_with(ids[i])
            }
        &&& prev_log_id is Some ==> self.agrees_with(prev_log_id->0)
        &&& leader_committed is Some && crate::log_id::opt_lt(leader_committed, last) ==> {
            ||| ids.contains(leader_committed->0)
            ||| {
                &&& crate::log_id::next_index(leader_committed) <= crate::log_id::next_index(
                    prev_log_id,
                )
                &&& self.matches(prev_log_id) ==> self.state.log_ids.holds(leader_committed)
            }
        }
    }

    /// Whether the protocol allows a snapshot to arrive that is to be installed:
    ///
    /// - The node follows, and the snapshot is of a leader that is not after its vote.
    /// - The snapshot ends after the committed logs, and its membership is in it.
    /// - If its last log is not a local one, then it is after the logs that are purged, after the
    ///   committed membership, and after the effective one unless this is replaced.
    pub open spec fn allows_snapshot(self, meta: SnapshotMetaView<NID, NV>) -> bool {
        let last = meta.last_log_id->0;
        let end = crate::log_id::next_index(meta.last_membership.log_id);
        let m = self.state.membership_state;
        &&& self.state.internal_server_state is Following
        &&& last.leader_id.le(self.state.vote.spec_leader_id())
        &&& crate::log_id::next_index(self.state.committed) <= last.index
        &&& meta.last_membership.log_id == Some(last) || (end <= last.index
            && crate::log_id::opt_lt(meta.last_membership.log_id, Some(last)))
        &&& self.state.log_ids.get(last.index as int) != Some(last) ==> {
            &&& crate::log_id::opt_lt(self.state.log_ids.last_purged(), Some(last))
            &&& crate::log_id::opt_lt(m.committed.log_id, Some(last))
            &&& crate::log_id::next_index(m.committed.log_id) <= last.index
            &&& crate::log_id::next_index(m.effective.log_id) <= last.index ==> {
                ||| crate::log_id::next_index(m.effective.log_id) <= end
                ||| crate::log_id::opt_lt(m.effective.log_id, Some(last))
            }
        }
    }

    /// Whether the protocol allows `event`, and no term or index runs out of range.
    pub open spec fn allows(self, event: Event<NID, NV>) -> bool {
        match event {
            Event::Initialize { membership } => true,
            Event::Elect => self.can_elect(),
            Event::SeeVote { vote } => true,
            Event::HandleVoteReq { req } => true,
            Event::HandleVoteResp { target, resp } => self.can_handle_vote_resp(target, resp),
            Event::LeaderAppend { entries } => entries.len() > 0 ==> self.can_assign(entries.len()),
            Event::HandleAppendEntries { vote, prev_log_id, entries, leader_committed } =>
                self.grants(vote) ==> self.allows_append(
                    vote,
                    prev_log_id,
                    entries,
                    leader_committed,
                ),
            Event::UpdateProgress { node_id, log_id } => self.state.log_ids.holds(log_id),
            Event::InstallSnapshot { meta } => crate::log_id::opt_lt(
                self.state.committed,
                meta.last_log_id,
            ) && self.is_new_snapshot(meta) ==> self.allows_snapshot(meta),
            Event::FinishBuildingSnapshot { meta } => {
                let end = crate::log_id::next_index(meta.last_log_id);
                &&& end <= crate::log_id::next_index(self.state.committed)
                &&& end <= u64::MAX
                &&& crate::log_id::next_index(self.state.log_ids.last_purged()) <= u64::MAX
            },
        }
    }

    // ---- Votes and elections

    /// A vote that is seen keeps the invariant, and changes no log and no membership. If it is
    /// granted, nothing is known of the logs of other nodes any more.
    pub proof fn vote_change_keeps_valid(self, vote: Vote<NID>)
        requires
            self.valid(),
        ensures
            ({
                let after = self.handle_vote_change(vote);
                &&& after.valid()
                &&& after.id == self.id
                &&& after.config == self.config
                &&& after.snapshot_meta == self.snapshot_meta
                &&& after.state.log_ids == self.state.log_ids
                &&& after.state.committed == self.state.committed
                &&& after.state.membership_state == self.state.membership_state
                &&& self.grants(vote) ==> after.state.vote == vote
                &&& self.grants(vote) ==> after.state.internal_server_state.is_blank()
            }),
    {
        let m = self.state.membership_state.effective.membership;
        assert(ProgressView::initial(m.configs, m.learner_ids()).is_blank());
        crate::progress::nothing_is_granted_at_first(m.configs, m.learner_ids());
        crate::vote::vote_order_is_total(self.state.vote, vote, vote);
    }

    proof fn leader_commit_keeps_valid(self, granted: Option<LogId<NID>>)
        requires
            self.valid(),
            self.state.log_ids.holds(granted),
        ensures
            self.leader_commit(granted).valid(),
    {
        if crate::log_id::opt_lt(self.state.committed, granted) {
            self.state.log_ids.held_logs_are_in_order(self.state.committed, granted);
        }
    }

    proof fn update_progress_keeps_valid(self, node_id: NID, log_id: Option<LogId<NID>>)
        requires
            self.valid(),
            self.state.log_ids.holds(log_id),
        ensures
            ({
                let after = self.update_progress(node_id, log_id);
                &&& after.valid()
                &&& after.id == self.id
                &&& after.state.vote == self.state.vote
                &&& after.state.log_ids == self.state.log_ids
                &&& after.state.membership_state.effective == self.state.membership_state.effective
            }),
    {
        if let InternalStateView::Leading(leader) = self.state.internal_server_state {
            leader.progress.update_is_in(node_id, log_id, self.state.log_ids);
            crate::progress::updating_keeps_granted_the_greatest(
                leader.progress,
                node_id,
                log_id,
            );
            let progress = leader.progress.update(node_id, log_id);
            let updated = self.with_state(
                RaftStateView {
                    internal_server_state: InternalStateView::Leading(
                        LeaderView { progress, ..leader },
                    ),
                    ..self.state
                },
            );
            updated.leader_commit_keeps_valid(progress.granted);
        }
    }

    /// New logs of this leader follow its logs in order, and appending them keeps the invariant.
    pub proof fn new_logs_follow_in_order(self, n: nat)
        requires
            self.valid(),
            self.log_end() + n <= u64::MAX + 1,
        ensures
            crate::log_id::follow_in_order(self.last_log_id(), self.new_log_ids(n)),
            self.extend_log_ids(self.new_log_ids(n)).valid(),
    {
        let ids = self.new_log_ids(n);
        let logs = self.state.log_ids;
        let leader = self.state.vote.spec_leader_id();
        if logs.last() is Some && logs.last()->0.leader_id.node_id.rank()
            == leader.node_id.rank() {
            NID::rank_is_injective(logs.last()->0.leader_id.node_id, leader.node_id);
        }
        logs.extending_keeps_the_order(ids);
        logs.held_is_not_after_the_last(self.state.committed);
    }

    proof fn establish_leader_keeps_valid(self)
        requires
            self.valid(),
            self.has_room(),
        ensures
            self.establish_leader().valid(),
    {
        let vote = Vote { committed: true, ..self.state.vote };
        let saved = self.with_state(RaftStateView { vote, ..self.state }).push(
            CommandView::SaveVote { vote },
        );
        let streaming = saved.set_server_state(ServerState::Leader).update_replications();
        assert(streaming.valid());
        streaming.new_logs_follow_in_order(1);
        let log_id = streaming.new_log_ids(1)[0];
        assert(streaming.new_log_ids(1) =~= seq![log_id]);
        let logs = streaming.state.log_ids;
        logs.extending_keeps_the_order(seq![log_id]);
        assert(logs.extend(seq![log_id]).get(seq![log_id][0].index as int) == Some(log_id));
        let appended = streaming.extend_log_ids(seq![log_id]).push(
            CommandView::AppendBlankLog { log_id },
        );
        assert(appended.state.log_ids.holds(Some(log_id)));
        appended.update_progress_keeps_valid(streaming.id, Some(log_id));
    }

    proof fn elect_keeps_valid(self)
        requires
            self.valid(),
            self.can_elect(),
        ensures
            self.elect().valid(),
    {
        let vote = Vote {
            term: (self.state.vote.term + 1) as u64,
            node_id: self.id,
            committed: false,
        };
        self.vote_change_keeps_valid(vote);
        let voted = self.vote_for_self();
        assert(voted.valid());
        if self.is_quorum_alone() {
            voted.establish_leader_keeps_valid();
        }
    }

    proof fn vote_resp_keeps_valid(self, target: NID, resp: VoteResponse<NID>)
        requires
            self.valid(),
            self.can_handle_vote_resp(target, resp),
        ensures
            self.handle_vote_resp(target, resp).valid(),
    {
        if let InternalStateView::Leading(leader) = self.state.internal_server_state {
            if resp.vote_granted {
                let granted = self.vote_granted_by(leader, target);
                assert(granted.valid());
                if leader.grant_vote_by(target).is_vote_granted() {
                    granted.establish_leader_keeps_valid();
                }
            }
        }
    }

    // ---- Membership and appending by a leader

    proof fn effective_membership_keeps_valid(
        self,
        log_id: LogId<NID>,
        m: MembershipView<NID, NV>,
    )
        requires
            self.valid(),
            self.state.log_ids.holds(Some(log_id)),
            crate::log_id::next_index(self.state.membership_state.effective.log_id)
                <= log_id.index + 1,
        ensures
            ({
                let after = self.update_effective_membership(log_id, m);
                &&& after.valid()
                &&& after.id == self.id
                &&& after.state.vote == self.state.vote
                &&& after.state.log_ids == self.state.log_ids
                &&& after.state.membership_state.effective.log_id == Some(log_id)
            }),
    {
        if let InternalStateView::Leading(leader) = self.state.internal_server_state {
            leader.progress.upgrade_is_in(m.configs, m.learner_ids(), self.state.log_ids);
            crate::progress::upgrading_grants_the_greatest(
                leader.progress,
                m.configs,
                m.learner_ids(),
            );
        }
    }

    proof fn lead_entries_keep_valid(self, entries: Seq<EntryView<NID, NV>>)
        requires
            self.valid(),
            forall|i: int|
                0 <= i < entries.len() ==> {
                    &&& self.state.log_ids.get((#[trigger] entries[i]).log_id.index as int)
                        == Some(entries[i].log_id)
                    &&& entries[i].log_id.index == entries[0].log_id.index + i
                },
            entries.len() > 0 ==> crate::log_id::next_index(
                self.state.membership_state.effective.log_id,
            ) <= entries[0].log_id.index,
        ensures
            ({
                let after = self.lead_entries(entries);
                &&& after.valid()
                &&& after.id == self.id
                &&& after.state.vote == self.state.vote
                &&& after.state.log_ids == self.state.log_ids
                &&& entries.len() > 0 ==> crate::log_id::next_index(
                    after.state.membership_state.effective.log_id,
                ) <= entries[0].log_id.index + entries.len()
            }),
        decreases entries.len(),
    {
        if entries.len() > 0 {
            let front = entries.drop_last();
            let entry = entries.last();
            assert forall|i: int| 0 <= i < front.len() implies front[i] == #[trigger] entries[i] by {
            }
            self.lead_entries_keep_valid(front);
            let before = self.lead_entries(front);
            let logs = self.state.log_ids;
            assert(entry == entries[entries.len() - 1]);
            assert(logs.get(entry.log_id.index as int) == Some(entry.log_id));
            if front.len() == 0 {
                assert(before == self);
            }
            if let Some(m) = entry.membership {
                let prev = logs.get(entry.log_id.index - 1);
                if prev is Some {
                    assert(prev->0.index == entry.log_id.index - 1);
                    before.update_progress_keeps_valid(before.id, prev);
                }
                let progressed = if prev is Some {
                    before.update_progress(before.id, prev)
                } else {
                    before
                };
                progressed.effective_membership_keeps_valid(entry.log_id, m);
            }
        }
    }

    proof fn leader_append_keeps_valid(self, entries: Seq<EntryView<NID, NV>>)
        requires
            self.valid(),
            entries.len() > 0 ==> self.can_assign(entries.len()),
        ensures
            self.leader_append_entries(entries).valid(),
            self.leader_append_entries(entries).state.log_ids == self.state.log_ids.extend(
                self.new_log_ids(entries.len()),
            ),
    {
        let n = entries.len();
        let ids = self.new_log_ids(n);
        let logs = self.state.log_ids;
        if n > 0 {
            self.new_logs_follow_in_order(n);
            logs.extending_keeps_the_order(ids);
            let appended = self.extend_log_ids(ids).push(
                CommandView::AppendInputEntries { start: 0, end: n as int },
            );
            let assigned = self.assign_log_ids(entries);
            assert forall|i: int| 0 <= i < n implies {
                &&& appended.state.log_ids.get((#[trigger] assigned[i]).log_id.index as int)
                    == Some(assigned[i].log_id)
                &&& assigned[i].log_id.index == assigned[0].log_id.index + i
            } by {
                assert(assigned[i].log_id == ids[i]);
                assert(assigned[0].log_id == ids[0]);
            }
            logs.held_is_not_after_the_last(self.state.membership_state.effective.log_id);
            assert(assigned[0].log_id == ids[0]);
            appended.lead_entries_keep_valid(assigned);
            let led = appended.lead_entries(assigned);
            assert(ids.last() == ids[n - 1]);
            led.update_progress_keeps_valid(self.id, Some(ids.last()));
        } else {
            assert(logs.extend(ids) =~= logs);
        }
    }

    proof fn initialize_keeps_valid(self, m: Option<MembershipView<NID, NV>>)
        requires
            self.valid(),
        ensures
            self.initialize(m).valid(),
    {
        if self.check_initialize() is Ok {
            let ids = self.new_log_ids(1);
            let logs = self.state.log_ids;
            self.new_logs_follow_in_order(1);
            logs.extending_keeps_the_order(ids);
            assert(logs.extend(ids).get(ids[0].index as int) == Some(ids[0]));
            let appended = self.extend_log_ids(ids).push(
                CommandView::AppendInputEntries { start: 0, end: 1 },
            );
            if self.check_initial_membership(m) is Ok {
                logs.held_is_not_after_the_last(self.state.membership_state.effective.log_id);
                appended.effective_membership_keeps_valid(ids[0], m->0);
                let moved = appended.update_effective_membership(ids[0], m->0).push(
                    CommandView::MoveInputCursorBy { n: 1 },
                );
                assert(moved.valid());
                moved.elect_keeps_valid();
            }
        }
    }

    // ---- Appending by a follower

    proof fn truncate_keeps_valid(self, at: int)
        requires
            self.valid(),
            self.state.internal_server_state.is_blank(),
            self.can_truncate_logs(at),
            crate::log_id::next_index(self.state.committed) <= at,
        ensures
            ({
                let after = self.truncate_logs(at);
                &&& after.valid()
                &&& after.state.internal_server_state.is_blank()
                &&& after.id == self.id
                &&& after.config == self.config
                &&& after.snapshot_meta == self.snapshot_meta
                &&& after.state.vote == self.state.vote
                &&& after.state.committed == self.state.committed
                &&& after.state.log_ids == self.state.log_ids.truncate(at)
                &&& after.state.membership_state.committed == self.state.membership_state.committed
                &&& after.state.membership_state.effective
                    == self.state.membership_state.effective || at < crate::log_id::next_index(
                    self.state.membership_state.effective.log_id,
                )
                &&& crate::log_id::next_index(after.state.membership_state.effective.log_id) <= at
            }),
    {
        let logs = self.state.log_ids;
        logs.truncating_keeps_the_order(at);
        logs.held_is_not_after_the_last(self.state.membership_state.effective.log_id);
        if logs.ids.len() > 0 {
            assert(logs.ids[logs.ids.len() - 1].index == logs.ids[0].index + (logs.ids.len() - 1));
        }
        if logs.get(at) is None {
            assert(logs.truncate(at) =~= logs);
        } else {
            let t = logs.truncate(at);
            if t.ids.len() > 0 {
                // The last log that is left is not after the last one before.
                let last = logs.ids[logs.ids.len() - 1];
                let left = logs.ids[t.ids.len() - 1];
                assert(t.last() == Some(left));
                assert(left.lt(last));
            }
        }
    }

    proof fn follower_append_keeps_valid(self, entries: Seq<EntryView<NID, NV>>, since: int)
        requires
            self.valid(),
            0 <= since <= entries.len(),
            crate::log_id::follow_in_order(
                self.last_log_id(),
                crate::entry::entry_log_ids(entries.skip(since)),
            ),
            forall|i: int|
                0 <= i < entries.len() ==> (#[trigger] entries[i]).log_id.leader_id.le(
                    self.state.vote.spec_leader_id(),
                ),
        ensures
            self.can_follower_append(entries, since),
            ({
                let after = self.follower_do_append_entries(entries, since);
                &&& after.valid()
                &&& after.state.committed == self.state.committed
                &&& after.state.log_ids == self.state.log_ids.extend(
                    crate::entry::entry_log_ids(entries.skip(since)),
                )
            }),
    {
        let new = entries.skip(since);
        let ids = crate::entry::entry_log_ids(new);
        let logs = self.state.log_ids;
        logs.extending_keeps_the_order(ids);
        if since == entries.len() {
            assert(logs.extend(ids) =~= logs);
        } else {
            assert forall|i: int| 0 <= i < new.len() implies #[trigger] new[i] == entries[since
                + i] by {}
            assert(new.last() == entries[entries.len() - 1]);
            let appended = self.extend_log_ids(ids).push(
                CommandView::AppendInputEntries { start: since, end: entries.len() as int },
            );
            assert(ids.last() == ids[ids.len() - 1]);
            assert(appended.valid());
            assert(ids[0] == new[0].log_id);
            let effective = self.state.membership_state.effective.log_id;
            logs.held_is_not_after_the_last(effective);
            assert forall|i: int| 0 <= i < new.len() implies (#[trigger] new[i]).log_id.index
                == new[0].log_id.index + i by {
                assert(ids[i] == new[i].log_id);
            }
            memberships_are_in_order(new);
            let all = crate::engine::model::memberships_in(new);
            let found = crate::engine::model::last_two_memberships(new);
            assert forall|k: int| 0 <= k < found.len() implies {
                &&& appended.state.log_ids.holds((#[trigger] found[k]).log_id)
                &&& crate::log_id::opt_lt(effective, found[k].log_id)
                &&& crate::log_id::next_index(effective) <= crate::log_id::next_index(
                    found[k].log_id,
                )
            } by {
                let l = if all.len() <= 2 {
                    k
                } else {
                    k + all.len() - 2
                };
                assert(found[k] == all[l]);
                let i = choose|i: int|
                    0 <= i < new.len() && Some((#[trigger] new[i]).log_id) == all[l].log_id;
                assert(ids[i] == new[i].log_id);
                assert(logs.extend(ids).get(ids[i].index as int) == Some(ids[i]));
                crate::log_id::opt_order_is_total(effective, logs.last(), Some(ids[0]));
                crate::log_id::opt_order_is_total(effective, Some(ids[0]), Some(ids[i]));
                crate::log_id::opt_order_is_total(effective, Some(ids[0]), effective);
                if crate::log_id::opt_le(Some(ids[0]), effective) {
                    crate::log_id::opt_order_is_total(Some(ids[0]), effective, logs.last());
                }
                if i > 0 {
                    assert(ids[0].lt(ids[i]));
                }
            }
            if found.len() > 0 {
                assert(found[0] == found[0]);
                if found.len() == 2 {
                    assert(found[1] == all[all.len() - 1] && found[0] == all[all.len() - 2]);
                }
            }
        }
    }

    /// A log that is present, and agrees with what is committed, is held.
    proof fn present_log_is_held(self, log_id: LogId<NID>)
        requires
            self.valid(),
            self.agrees_with(log_id),
            self.state.has_log_id(log_id),
        ensures
            self.state.log_ids.holds(Some(log_id)),
            log_id.index < self.log_end(),
    {
        let logs = self.state.log_ids;
        if logs.ids.len() > 0 {
            assert(logs.ids[logs.ids.len() - 1].index == logs.ids[0].index + (logs.ids.len() - 1));
        }
        logs.held_is_not_after_the_last(self.state.committed);
    }

    /// A log that is held is present.
    pub proof fn held_log_is_present(self, log_id: LogId<NID>)
        requires
            self.valid(),
            self.state.log_ids.holds(Some(log_id)),
        ensures
            self.state.has_log_id(log_id),
    {
    }

    /// A missing log is after what is committed, and the logs from there on can be deleted.
    proof fn missing_log_can_be_replaced(self, log_id: LogId<NID>)
        requires
            self.valid(),
            self.agrees_with(log_id),
            !self.state.has_log_id(log_id),
        ensures
            crate::log_id::next_index(self.state.committed) <= log_id.index,
            self.can_truncate_logs(log_id.index as int),
    {
        let logs = self.state.log_ids;
        let committed = self.state.membership_state.committed.log_id;
        if log_id.index < crate::log_id::next_index(committed) {
            assert(logs.holds(Some(log_id)));
            assert(logs.get(log_id.index as int) == Some(log_id));
        }
    }

    /// What a request does to the logs of a node that has the log before the entries: all entries
    /// are held then, and nothing before the first missing one has changed.
    pub proof fn replacing_follows_the_leader(
        self,
        vote: Vote<NID>,
        prev_log_id: Option<LogId<NID>>,
        entries: Seq<EntryView<NID, NV>>,
        leader_committed: Option<LogId<NID>>,
    )
        requires
            self.valid(),
            self.state.internal_server_state.is_blank(),
            self.state.vote == vote,
            self.matches(prev_log_id),
            self.allows_append(vote, prev_log_id, entries, leader_committed),
        ensures
            self.can_replace(entries),
            ({
                let after = self.replace(entries);
                let ids = crate::entry::entry_log_ids(entries);
                let since = self.first_conflicting_index(entries);
                let at = crate::log_id::next_index(prev_log_id) + since;
                let logs = self.state.log_ids;
                &&& after.valid()
                &&& after.state.committed == self.state.committed
                &&& after.state.log_ids.holds(prev_log_id)
                &&& forall|i: int|
                    0 <= i < ids.len() ==> after.state.log_ids.holds(Some(#[trigger] ids[i]))
                &&& forall|x: Option<LogId<NID>>| #[trigger]
                    logs.holds(x) && crate::log_id::next_index(x) <= at
                        ==> after.state.log_ids.holds(x)
                &&& since < ids.len() ==> {
                    &&& crate::log_id::next_index(self.state.committed) <= at
                    &&& after.state.log_ids == logs.truncate(at).extend(ids.skip(since))
                    &&& forall|i: int|
                        i < at ==> #[trigger] after.state.log_ids.get(i) == logs.get(i)
                    &&& forall|i: int|
                        since <= i < ids.len() ==> after.state.log_ids.get(
                            (#[trigger] ids[i]).index as int,
                        ) == Some(ids[i])
                    &&& after.last_log_id() == Some(ids.last())
                }
            }),
    {
        let ids = crate::entry::entry_log_ids(entries);
        let since = self.first_conflicting_index(entries);
        self.first_missing_is_in_range(ids, 0);
        let logs = self.state.log_ids;
        let at = crate::log_id::next_index(prev_log_id) + since;
        if prev_log_id is Some {
            self.present_log_is_held(prev_log_id->0);
        }
        assert forall|i: int| 0 <= i < since implies logs.holds(Some(#[trigger] ids[i]))
            && ids[i].index < self.log_end() by {
            self.present_log_is_held(ids[i]);
        }
        if since < ids.len() {
            assert(ids[since].index == at);
            assert(entries[since].log_id == ids[since]);
            self.missing_log_can_be_replaced(ids[since]);
            self.truncate_keeps_valid(at);
            logs.replacing_keeps_the_order(prev_log_id, ids, since);
            assert(crate::entry::entry_log_ids(entries.skip(since)) =~= ids.skip(since));
            assert forall|i: int| 0 <= i < entries.len() implies (
            #[trigger] entries[i]).log_id.leader_id.le(vote.spec_leader_id()) by {
                assert(ids[i] == entries[i].log_id);
            }
            self.truncate_logs(at).follower_append_keeps_valid(entries, since);
        }
    }

    proof fn follower_commit_keeps_valid(self, committed: Option<LogId<NID>>)
        requires
            self.valid(),
            crate::log_id::opt_lt(self.state.committed, committed) ==> self.state.log_ids.holds(
                committed,
            ),
        ensures
            self.follower_commit(committed).valid(),
    {
        if crate::log_id::opt_lt(self.state.committed, committed) {
            self.state.log_ids.held_logs_are_in_order(self.state.committed, committed);
        }
    }

    /// A request that the protocol allows can be handled and keeps the invariant.
    pub proof fn append_entries_keeps_valid(
        self,
        vote: Vote<NID>,
        prev_log_id: Option<LogId<NID>>,
        entries: Seq<EntryView<NID, NV>>,
        leader_committed: Option<LogId<NID>>,
    )
        requires
            self.valid(),
            self.grants(vote) ==> self.allows_append(vote, prev_log_id, entries, leader_committed),
        ensures
            self.can_handle_append_entries_req(vote, prev_log_id, entries),
            self.handle_append_entries_req(
                vote,
                prev_log_id,
                entries,
                leader_committed,
            ).valid(),
    {
        if self.grants(vote) {
            self.vote_change_keeps_valid(vote);
            let voted = self.handle_vote_change(vote);
            let ids = crate::entry::entry_log_ids(entries);
            assert(voted.allows_append(vote, prev_log_id, entries, leader_committed)) by {
                assert forall|i: int| 0 <= i < ids.len() implies voted.agrees_with(
                    #[trigger] ids[i],
                ) by {
                    assert(self.agrees_with(ids[i]));
                }
            }
            if voted.matches(prev_log_id) {
                voted.replacing_follows_the_leader(vote, prev_log_id, entries, leader_committed);
                let after = voted.replace(entries);
                let last = if ids.len() > 0 {
                    Some(ids.last())
                } else {
                    prev_log_id
                };
                let committed = Self::committed_by_leader(leader_committed, prev_log_id, entries);
                assert(committed == crate::log_id::opt_min(leader_committed, last)) by {
                    if ids.len() > 0 {
                        assert(ids.last() == ids[ids.len() - 1]);
                        assert(entries.last().log_id == ids.last());
                        crate::log_id::opt_order_is_total(
                            prev_log_id,
                            Some(ids[0]),
                            Some(ids.last()),
                        );
                    }
                }
                assert(after.state.log_ids.holds(last)) by {
                    if ids.len() > 0 {
                        assert(ids.last() == ids[ids.len() - 1]);
                    }
                }
                crate::log_id::opt_order_is_total(leader_committed, last, leader_committed);
                if committed is Some && committed != last {
                    assert(committed == leader_committed);
                    assert(crate::log_id::opt_lt(leader_committed, last));
                    voted.first_missing_is_in_range(ids, 0);
                    if ids.contains(leader_committed->0) {
                        let i = ids.index_of(leader_committed->0);
                        assert(after.state.log_ids.holds(Some(ids[i])));
                    } else {
                        assert(voted.state.log_ids.holds(leader_committed));
                    }
                }
                after.follower_commit_keeps_valid(committed);
            } else {
                voted.missing_log_can_be_replaced(prev_log_id->0);
                voted.truncate_keeps_valid(prev_log_id->0.index as int);
            }
        }
    }

    // ---- Snapshots

    proof fn building_snapshot_keeps_valid(self, meta: SnapshotMetaView<NID, NV>)
        requires
            self.valid(),
            self.allows(Event::FinishBuildingSnapshot { meta }),
        ensures
            self.can_finish_building_snapshot(meta),
            self.finish_building_snapshot(meta).valid(),
    {
        let updated = self.update_snapshot(meta);
        let logs = self.state.log_ids;
        logs.held_is_not_after_the_last(self.state.committed);
        if self.is_new_snapshot(meta) && updated.purge_end() > 0 && updated.has_batch_to_purge() {
            let i = updated.purge_end() - 1;
            assert(logs.get(i) is Some) by {
                let n = logs.ids.len() as int;
                if n > 0 {
                    assert(logs.ids[n - 1].index == logs.ids[0].index + (n - 1));
                }
            }
            let upto = logs.get(i)->0;
            assert(upto.index == i);
            logs.purging_keeps_the_order(upto);
        }
    }

    /// Adopting a membership that is held keeps the memberships held and in order.
    proof fn adopted_membership_is_in_order(
        logs: LogIds<NID>,
        old: MembershipStateView<NID, NV>,
        m: EffectiveMembershipView<NID, NV>,
    )
        requires
            logs.holds(m.log_id),
            logs.holds(old.committed.log_id),
            logs.holds(old.effective.log_id) || crate::log_id::next_index(old.effective.log_id)
                <= crate::log_id::next_index(m.log_id),
            crate::log_id::next_index(old.committed.log_id) <= crate::log_id::next_index(
                old.effective.log_id,
            ),
        ensures
            ({
                let new = old.adopt(m);
                &&& logs.holds(new.committed.log_id)
                &&& logs.holds(new.effective.log_id)
                &&& crate::log_id::next_index(new.committed.log_id) <= crate::log_id::next_index(
                    new.effective.log_id,
                )
            }),
    {
    }

    /// What is left after the logs that conflict with a snapshot are deleted.
    pub proof fn deleting_conflicting_keeps_valid(self, meta: SnapshotMetaView<NID, NV>)
        requires
            self.valid(),
            self.allows_snapshot(meta),
        ensures
            self.conflicts_with(meta.last_log_id->0) ==> self.can_truncate_logs(
                meta.last_log_id->0.index as int,
            ),
            self.delete_conflicting(meta.last_log_id->0).valid(),
            self.delete_conflicting(meta.last_log_id->0).allows_snapshot(meta),
            !self.delete_conflicting(meta.last_log_id->0).conflicts_with(meta.last_log_id->0),
    {
        let last = meta.last_log_id->0;
        let at = last.index as int;
        if self.conflicts_with(last) {
            self.truncate_keeps_valid(at);
            self.state.log_ids.truncating_keeps_the_order(at);
            let cleaned = self.truncate_logs(at);
            assert(cleaned.state.log_ids.get(at) is None);
        }
    }

    /// The logs and memberships after a snapshot, with which no local log conflicts, is installed.
    pub proof fn installed_snapshot_is_in_order(self, meta: SnapshotMetaView<NID, NV>)
        requires
            self.valid(),
            self.allows_snapshot(meta),
            !self.conflicts_with(meta.last_log_id->0),
        ensures
            ({
                let last = meta.last_log_id->0;
                let logs = self.state.log_ids.purge(last);
                let m = self.state.membership_state.adopt(meta.last_membership);
                &&& crate::log_id::opt_lt(self.state.log_ids.last_purged(), Some(last))
                &&& logs.ordered()
                &&& logs.last_purged() == Some(last)
                &&& logs.holds(Some(last))
                &&& logs.last()->0.leader_id.le(self.state.vote.spec_leader_id())
                &&& logs.holds(m.committed.log_id)
                &&& logs.holds(m.effective.log_id)
                &&& crate::log_id::next_index(m.committed.log_id) <= crate::log_id::next_index(
                    m.effective.log_id,
                )
                &&& forall|i: int|
                    i > last.index ==> #[trigger] logs.get(i) == self.state.log_ids.get(i)
            }),
    {
        let last = meta.last_log_id->0;
        let at = last.index as int;
        let before = self.state.log_ids;
        let after = before.purge(last);
        before.held_is_not_after_the_last(self.state.membership_state.effective.log_id);
        before.held_is_not_after_the_last(self.state.membership_state.committed.log_id);
        if before.ids.len() > 0 {
            assert(before.ids[before.ids.len() - 1].index == before.ids[0].index + (
            before.ids.len() - 1));
        }
        before.purging_keeps_the_order(last);
        if before.get(at) == Some(last) {
            assert(before.ids[at - before.ids[0].index] == last);
            if before.purged {
                assert(before.ids[0].lt(last));
            }
        }
        assert(after.ids[0] == last);
        Self::adopted_membership_is_in_order(
            after,
            self.state.membership_state,
            meta.last_membership,
        );
    }

    proof fn installing_snapshot_keeps_valid(self, meta: SnapshotMetaView<NID, NV>)
        requires
            self.valid(),
            self.allows(Event::InstallSnapshot { meta }),
        ensures
            self.can_install_snapshot(meta),
            self.install_snapshot(meta).valid(),
    {
        let last = meta.last_log_id;
        if crate::log_id::opt_lt(self.state.committed, last) && self.is_new_snapshot(meta) {
            self.deleting_conflicting_keeps_valid(meta);
            let cleaned = self.delete_conflicting(last->0);
            cleaned.installed_snapshot_is_in_order(meta);
            let updated = self.update_snapshot(meta).delete_conflicting(last->0);
            assert(updated.state == cleaned.state);
            let committed = updated.with_state(
                RaftStateView { committed: last, ..updated.state },
            );
            let member = committed.update_committed_membership(meta.last_membership);
            assert(member.state.log_ids == cleaned.state.log_ids);
            assert(member.state.membership_state == cleaned.state.membership_state.adopt(
                meta.last_membership,
            ));
        }
    }

    proof fn step_keeps_valid(self, event: Event<NID, NV>)
        requires
            self.valid(),
            self.allows(event),
        ensures
            self.can_step(event),
            self.step(event).valid(),
    {
        reveal(EngineView::step);
        match event {
            Event::Initialize { membership } => self.initialize_keeps_valid(membership),
            Event::Elect => self.elect_keeps_valid(),
            Event::SeeVote { vote } => self.vote_change_keeps_valid(vote),
            Event::HandleVoteReq { req } => self.vote_change_keeps_valid(req.vote),
            Event::HandleVoteResp { target, resp } => self.vote_resp_keeps_valid(target, resp),
            Event::LeaderAppend { entries } => self.leader_append_keeps_valid(entries),
            Event::HandleAppendEntries { vote, prev_log_id, entries, leader_committed } => self
                .append_entries_keeps_valid(vote, prev_log_id, entries, leader_committed),
            Event::UpdateProgress { node_id, log_id } => self.update_progress_keeps_valid(
                node_id,
                log_id,
            ),
            Event::InstallSnapshot { meta } => self.installing_snapshot_keeps_valid(meta),
            Event::FinishBuildingSnapshot { meta } => self.building_snapshot_keeps_valid(meta),
        }
    }

    /// Whether the protocol allows `events`, one after the other.
    pub open spec fn allows_run(self, events: Seq<Event<NID, NV>>) -> bool
        decreases events.len(),
    {
        events.len() > 0 ==> {
            &&& self.allows_run(events.drop_last())
            &&& self.run(events.drop_last()).allows(events.last())
        }
    }
}

/// A node that has never run satisfies the invariant.
pub proof fn a_new_engine_is_valid<NID: NodeId, NV>(id: NID, config: EngineConfig)
    ensures
        EngineView::<NID, NV>::initial(id, RaftStateView::pristine(), config).valid(),
{
}

/// An engine that satisfies the invariant can handle every event that the protocol allows, and
/// satisfies the invariant afterwards.
pub proof fn allowed_events_keep_the_invariant<NID: NodeId, NV>(
    s: EngineView<NID, NV>,
    event: Event<NID, NV>,
)
    requires
        s.valid(),
        s.allows(event),
    ensures
        s.can_step(event),
        s.step(event).valid(),
{
    s.step_keeps_valid(event);
}

/// The invariant holds after any run of events that the protocol allows.
pub proof fn allowed_runs_keep_the_invariant<NID: NodeId, NV>(
    s: EngineView<NID, NV>,
    events: Seq<Event<NID, NV>>,
)
    requires
        s.valid(),
        s.allows_run(events),
    ensures
        s.run(events).valid(),
    decreases events.len(),
{
    if events.len() > 0 {
        allowed_runs_keep_the_invariant(s, events.drop_last());
        s.run(events.drop_last()).step_keeps_valid(events.last());
    }
}

/// The memberships in entries that are in order are held by entries, and are in the same order.
pub proof fn memberships_are_in_order<NID: NodeId, NV>(entries: Seq<EntryView<NID, NV>>)
    requires
        forall|i: int|
            0 <= i < entries.len() ==> (#[trigger] entries[i]).log_id.index
                == entries[0].log_id.index + i,
    ensures
        ({
            let all = crate::engine::model::memberships_in(entries);
            &&& forall|k: int|
                0 <= k < all.len() ==> exists|i: int|
                    0 <= i < entries.len() && Some((#[trigger] entries[i]).log_id) == (
                    #[trigger] all[k]).log_id
            &&& forall|k: int, l: int|
                0 <= k < l < all.len() ==> crate::log_id::next_index((#[trigger] all[k]).log_id)
                    < crate::log_id::next_index((#[trigger] all[l]).log_id)
        }),
    decreases entries.len(),
{
    let all = crate::engine::model::memberships_in(entries);
    let p = |e: EntryView<NID, NV>| e.membership is Some;
    reveal(Seq::filter);
    if entries.len() > 0 {
        let front = entries.drop_last();
        let before = crate::engine::model::memberships_in(front);
        assert forall|i: int| 0 <= i < front.len() implies (#[trigger] front[i]).log_id.index
            == front[0].log_id.index + i by {
            assert(front[i] == entries[i] && front[0] == entries[0]);
        }
        memberships_are_in_order(front);
        let last = entries.last();
        assert(last == entries[entries.len() - 1]);
        if p(last) {
            let m = EffectiveMembershipView {
                log_id: Some(last.log_id),
                membership: last.membership->0,
            };
            assert(all =~= before.push(m));
        } else {
            assert(all =~= before);
        }
        assert forall|k: int| 0 <= k < before.len() implies exists|i: int|
            0 <= i < front.len() && Some((#[trigger] entries[i]).log_id) == (
            #[trigger] before[k]).log_id by {
            let i = choose|i: int|
                0 <= i < front.len() && Some((#[trigger] front[i]).log_id) == before[k].log_id;
            assert(entries[i] == front[i]);
        }
        assert forall|k: int| 0 <= k < all.len() implies exists|i: int|
            0 <= i < entries.len() && Some((#[trigger] entries[i]).log_id) == (
            #[trigger] all[k]).log_id by {
            if k < before.len() {
                assert(all[k] == before[k]);
            } else {
                assert(Some(entries[entries.len() - 1].log_id) == all[k].log_id);
            }
        }
        assert forall|k: int, l: int| 0 <= k < l < all.len() implies crate::log_id::next_index(
            (#[trigger] all[k]).log_id,
        ) < crate::log_id::next_index((#[trigger] all[l]).log_id) by {
            assert(all[k] == before[k]);
            if l < before.len() {
                assert(all[l] == before[l]);
            } else {
                let i = choose|i: int|
                    0 <= i < front.len() && Some((#[trigger] entries[i]).log_id)
                        == before[k].log_id;
                assert(entries[i].log_id.index == entries[0].log_id.index + i);
            }
        }
    }
}

} // verus!
