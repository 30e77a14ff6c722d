//! What the protocol relies on, proved of the transitions of the engine.
use vstd::prelude::*;

use crate::command::CommandView;
use crate::engine::event::Event;
use crate::engine::model::EngineView;
use crate::entry::EntryView;
use crate::leader::{InternalStateView, LeaderView};
use crate::log_id::LogId;
use crate::log_id_list::LogIds;
use crate::membership::MembershipView;
use crate::message::{
    AppendEntriesResponse, InitializeErrorView, NotAllowed, VoteRequest, VoteResponse,
};
use crate::node::NodeId;
use crate::progress::{Matched, ProgressView};
use crate::raft_state::{RaftStateView, ServerState};
use crate::snapshot::SnapshotMetaView;
use crate::vote::Vote;

verus! {

/// Nothing goes back in any run of events that the protocol allows: the vote, the committed log and
/// the snapshot never become lesser, and no queued command is withdrawn.
pub proof fn runs_never_go_back<NID: NodeId, NV>(
    s: EngineView<NID, NV>,
    events: Seq<Event<NID, NV>>,
)
    requires
        s.valid(),
        s.allows_run(events),
    ensures
        s.advances_to(s.run(events)),
    decreases events.len(),
{
    if events.len() == 0 {
        advancing_is_transitive(s, s, s);
    } else {
        let front = events.drop_last();
        runs_never_go_back(s, front);
        crate::engine::validity::allowed_runs_keep_the_invariant(s, front);
        crate::engine::effect::events_never_go_back(s.run(front), events.last());
        advancing_is_transitive(s, s.run(front), s.run(events));
    }
}

/// What never goes back in one step never goes back in two.
proof fn advancing_is_transitive<NID: NodeId, NV>(
    a: EngineView<NID, NV>,
    b: EngineView<NID, NV>,
    c: EngineView<NID, NV>,
)
    ensures
        a.advances_to(a),
        a.advances_to(b) && b.advances_to(c) ==> a.advances_to(c),
{
    crate::vote::vote_order_is_total(a.state.vote, b.state.vote, c.state.vote);
    crate::log_id::opt_order_is_total(a.state.committed, b.state.committed, c.state.committed);
    crate::log_id::opt_order_is_total(
        a.snapshot_meta.last_log_id,
        b.snapshot_meta.last_log_id,
        c.snapshot_meta.last_log_id,
    );
    if a.advances_to(b) && b.advances_to(c) {
        let n = a.commands.len() as int;
        assert(b.commands =~= c.commands.subrange(0, b.commands.len() as int));
        assert(a.commands =~= c.commands.subrange(0, n));
    }
}

/// However many events there were: the log ids are in total order, the committed logs are in the log
/// or purged, only committed logs are purged, and the effective membership is in the log or purged.
pub proof fn only_committed_logs_are_purged<NID: NodeId, NV>(
    s: EngineView<NID, NV>,
    events: Seq<Event<NID, NV>>,
)
    requires
        s.valid(),
        s.allows_run(events),
    ensures
        ({
            let after = s.run(events);
            let logs = after.state.log_ids;
            let committed_end = crate::log_id::next_index(after.state.committed);
            &&& logs.ascending()
            &&& crate::log_id::next_index(logs.last_purged()) <= committed_end
            &&& committed_end <= after.log_end()
            &&& crate::log_id::opt_le(after.state.committed, after.last_log_id())
            &&& crate::log_id::opt_le(
                after.state.membership_state.effective.log_id,
                after.last_log_id(),
            )
        }),
{
    crate::engine::validity::allowed_runs_keep_the_invariant(s, events);
    let after = s.run(events);
    let logs = after.state.log_ids;
    logs.held_is_not_after_the_last(after.state.committed);
    logs.held_is_not_after_the_last(after.state.membership_state.effective.log_id);
}

// ---- Votes and elections

/// A node that has granted a vote has this vote, and grants no lesser one any more.
pub proof fn a_granted_vote_excludes_lesser_ones<NID: NodeId, NV>(
    s: EngineView<NID, NV>,
    req: VoteRequest<NID>,
    other: VoteRequest<NID>,
)
    requires
        s.grants_request(req),
        other.vote.lt(req.vote),
    ensures
        s.handle_vote_req(req).state.vote == req.vote,
        !s.handle_vote_req(req).grants_request(other),
{
    crate::vote::vote_order_is_total(s.state.vote, req.vote, req.vote);
}

/// A node never votes for a candidate that lacks a log this node has: neither the vote nor anything
/// else changes.
pub proof fn a_candidate_that_is_behind_is_rejected<NID: NodeId, NV>(
    s: EngineView<NID, NV>,
    req: VoteRequest<NID>,
)
    requires
        crate::log_id::opt_lt(req.last_log_id, s.last_log_id()) || req.vote.lt(s.state.vote),
    ensures
        !s.grants_request(req),
        s.handle_vote_req(req) == s,
{
}

/// A vote for another node makes a leading node follow, and a vote for this node makes it lead.
pub proof fn a_granted_vote_decides_who_leads<NID: NodeId, NV>(
    s: EngineView<NID, NV>,
    vote: Vote<NID>,
)
    requires
        s.grants(vote),
    ensures
        s.handle_vote_change(vote).is_becoming_leader() <==> vote.node_id == s.id,
{
    crate::vote::vote_order_is_total(s.state.vote, vote, vote);
}

/// An election is for the next term. The vote is committed at once only if this node is a quorum on
/// its own.
pub proof fn an_election_is_for_the_next_term<NID: NodeId, NV>(s: EngineView<NID, NV>)
    requires
        s.can_elect(),
    ensures
        s.elect().state.vote == (Vote {
            term: (s.state.vote.term + 1) as u64,
            node_id: s.id,
            committed: s.is_quorum_alone(),
        }),
        s.state.vote.lt(s.elect().state.vote),
{
    let vote = Vote { term: (s.state.vote.term + 1) as u64, node_id: s.id, committed: false };
    let voted = s.vote_for_self();
    assert(voted.state.vote == vote);
    if s.is_quorum_alone() {
        establishing_commits_the_vote(voted);
    }
}

proof fn establishing_commits_the_vote<NID: NodeId, NV>(s: EngineView<NID, NV>)
    ensures
        s.establish_leader().state.vote == (Vote { committed: true, ..s.state.vote }),
{
}

/// A response makes a candidate the leader if and only if the nodes that have granted its vote are
/// a quorum with the one that responds.
pub proof fn only_a_quorum_makes_a_leader<NID: NodeId, NV>(
    s: EngineView<NID, NV>,
    leader: LeaderView<NID>,
    target: NID,
    resp: VoteResponse<NID>,
)
    requires
        s.state.internal_server_state == InternalStateView::Leading(leader),
        !s.state.vote.committed,
        !resp.vote.committed,
    ensures
        s.handle_vote_resp(target, resp).state.vote.committed <==> resp.vote_granted
            && crate::quorum::is_quorum(
            leader.progress.configs,
            crate::node_set::with_id(leader.vote_granted_by, target),
        ),
{
    if resp.vote_granted {
        establishing_commits_the_vote(s.vote_granted_by(leader, target));
    }
}

/// A node that does not lead ignores responses to its former requests.
pub proof fn late_responses_are_ignored<NID: NodeId, NV>(
    s: EngineView<NID, NV>,
    target: NID,
    resp: VoteResponse<NID>,
)
    requires
        s.state.internal_server_state is Following,
    ensures
        s.handle_vote_resp(target, resp) == s,
{
}

// ---- Committing

/// A leader commits only logs that it has proposed itself, only what its progress grants, and never
/// goes back.
pub proof fn a_leader_commits_only_its_own_logs<NID: NodeId, NV>(
    s: EngineView<NID, NV>,
    node_id: NID,
    log_id: Option<LogId<NID>>,
)
    ensures
        ({
            let after = s.update_progress(node_id, log_id);
            after.state.committed != s.state.committed ==> {
                &&& after.state.committed is Some
                &&& after.state.committed->0.leader_id == s.state.vote.spec_leader_id()
                &&& crate::log_id::opt_lt(s.state.committed, after.state.committed)
                &&& after.state.internal_server_state is Leading
                &&& after.state.committed
                    == after.state.internal_server_state->Leading_0.progress.granted
            }
        }),
{
}

impl<NID: NodeId, NV> EngineView<NID, NV> {
    spec fn grants_the_greatest(self) -> bool {
        self.state.internal_server_state.wf()
            && self.state.internal_server_state.granted_is_greatest()
    }

    proof fn vote_change_grants_the_greatest(self, vote: Vote<NID>)
        requires
            self.grants_the_greatest(),
        ensures
            self.handle_vote_change(vote).grants_the_greatest(),
    {
        let m = self.state.membership_state.effective.membership;
        crate::progress::nothing_is_granted_at_first(m.configs, m.learner_ids());
    }

    proof fn progress_grants_the_greatest(self, node_id: NID, log_id: Option<LogId<NID>>)
        requires
            self.grants_the_greatest(),
        ensures
            self.update_progress(node_id, log_id).grants_the_greatest(),
    {
        if let InternalStateView::Leading(leader) = self.state.internal_server_state {
            crate::progress::position_is_of_the_node(leader.progress.vector, node_id);
            crate::progress::updating_keeps_granted_the_greatest(
                leader.progress,
                node_id,
                log_id,
            );
        }
    }

    proof fn membership_grants_the_greatest(self, log_id: LogId<NID>, m: MembershipView<NID, NV>)
        requires
            self.grants_the_greatest(),
        ensures
            self.update_effective_membership(log_id, m).grants_the_greatest(),
    {
        if let InternalStateView::Leading(leader) = self.state.internal_server_state {
            crate::progress::upgrading_grants_the_greatest(
                leader.progress,
                m.configs,
                m.learner_ids(),
            );
        }
    }

    proof fn lead_entries_grants_the_greatest(self, entries: Seq<EntryView<NID, NV>>)
        requires
            self.grants_the_greatest(),
        ensures
            self.lead_entries(entries).grants_the_greatest(),
        decreases entries.len(),
    {
        if entries.len() > 0 {
            self.lead_entries_grants_the_greatest(entries.drop_last());
            let before = self.lead_entries(entries.drop_last());
            let entry = entries.last();
            if let Some(m) = entry.membership {
                let prev = before.state.log_ids.get(entry.log_id.index - 1);
                before.progress_grants_the_greatest(before.id, prev);
                let progressed = if prev is Some {
                    before.update_progress(before.id, prev)
                } else {
                    before
                };
                progressed.membership_grants_the_greatest(entry.log_id, m);
            }
        }
    }

    proof fn establishing_grants_the_greatest(self)
        requires
            self.grants_the_greatest(),
        ensures
            self.establish_leader().grants_the_greatest(),
    {
        let vote = Vote { committed: true, ..self.state.vote };
        let streaming = self.with_state(RaftStateView { vote, ..self.state }).push(
            CommandView::SaveVote { vote },
        ).set_server_state(ServerState::Leader).update_replications();
        let log_id = streaming.new_log_ids(1)[0];
        let appended = streaming.extend_log_ids(seq![log_id]).push(
            CommandView::AppendBlankLog { log_id },
        );
        assert(appended.state.internal_server_state == self.state.internal_server_state);
        appended.progress_grants_the_greatest(streaming.id, Some(log_id));
    }

    proof fn electing_grants_the_greatest(self)
        requires
            self.grants_the_greatest(),
            self.can_elect(),
        ensures
            self.elect().grants_the_greatest(),
    {
        let vote = Vote {
            term: (self.state.vote.term + 1) as u64,
            node_id: self.id,
            committed: false,
        };
        self.vote_change_grants_the_greatest(vote);
        let voted = self.vote_for_self();
        assert(voted.grants_the_greatest());
        if self.is_quorum_alone() {
            voted.establishing_grants_the_greatest();
        }
    }

    proof fn initializing_grants_the_greatest(self, m: Option<MembershipView<NID, NV>>)
        requires
            self.grants_the_greatest(),
        ensures
            self.initialize(m).grants_the_greatest(),
    {
        if self.check_initialize() is Ok {
            let ids = self.new_log_ids(1);
            let appended = self.extend_log_ids(ids).push(
                CommandView::AppendInputEntries { start: 0, end: 1 },
            );
            if self.check_initial_membership(m) is Ok {
                appended.membership_grants_the_greatest(ids[0], m->0);
                let moved = appended.update_effective_membership(ids[0], m->0).push(
                    CommandView::MoveInputCursorBy { n: 1 },
                );
                assert(moved.state.vote == self.state.vote);
                assert(moved.state.log_ids.ids =~= ids);
                moved.electing_grants_the_greatest();
            }
        }
    }

    proof fn vote_resp_grants_the_greatest(self, target: NID, resp: VoteResponse<NID>)
        requires
            self.grants_the_greatest(),
        ensures
            self.handle_vote_resp(target, resp).grants_the_greatest(),
    {
        if let InternalStateView::Leading(leader) = self.state.internal_server_state {
            if resp.vote_granted {
                self.vote_granted_by(leader, target).establishing_grants_the_greatest();
            }
        }
    }

    proof fn leader_append_grants_the_greatest(self, entries: Seq<EntryView<NID, NV>>)
        requires
            self.grants_the_greatest(),
        ensures
            self.leader_append_entries(entries).grants_the_greatest(),
    {
        let n = entries.len();
        let ids = self.new_log_ids(n);
        if n > 0 {
            let appended = self.extend_log_ids(ids).push(
                CommandView::AppendInputEntries { start: 0, end: n as int },
            );
            let assigned = self.assign_log_ids(entries);
            appended.lead_entries_grants_the_greatest(assigned);
            appended.lead_entries(assigned).progress_grants_the_greatest(
                self.id,
                Some(ids.last()),
            );
        }
    }

    proof fn request_grants_the_greatest(
        self,
        vote: Vote<NID>,
        prev_log_id: Option<LogId<NID>>,
        entries: Seq<EntryView<NID, NV>>,
        leader_committed: Option<LogId<NID>>,
    )
        requires
            self.grants_the_greatest(),
        ensures
            self.handle_append_entries_req(
                vote,
                prev_log_id,
                entries,
                leader_committed,
            ).grants_the_greatest(),
    {
        self.vote_change_grants_the_greatest(vote);
        let voted = self.handle_vote_change(vote);
        assert(voted.replace(entries).state.internal_server_state
            == voted.state.internal_server_state);
    }

    proof fn snapshot_grants_the_greatest(self, meta: SnapshotMetaView<NID, NV>)
        requires
            self.grants_the_greatest(),
        ensures
            self.install_snapshot(meta).grants_the_greatest(),
    {
        let cleaned = self.update_snapshot(meta).delete_conflicting(meta.last_log_id->0);
        assert(cleaned.state.internal_server_state == self.state.internal_server_state);
    }

    proof fn step_grants_the_greatest(self, event: Event<NID, NV>)
        requires
            self.grants_the_greatest(),
            self.can_step(event),
        ensures
            self.step(event).grants_the_greatest(),
    {
        reveal(EngineView::step);
        match event {
            Event::Initialize { membership } => self.initializing_grants_the_greatest(membership),
            Event::Elect => self.electing_grants_the_greatest(),
            Event::SeeVote { vote } => self.vote_change_grants_the_greatest(vote),
            Event::HandleVoteReq { req } => self.vote_change_grants_the_greatest(req.vote),
            Event::HandleVoteResp { target, resp } => self.vote_resp_grants_the_greatest(
                target,
                resp,
            ),
            Event::LeaderAppend { entries } => self.leader_append_grants_the_greatest(entries),
            Event::HandleAppendEntries { vote, prev_log_id, entries, leader_committed } => self
                .request_grants_the_greatest(vote, prev_log_id, entries, leader_committed),
            Event::UpdateProgress { node_id, log_id } => self.progress_grants_the_greatest(
                node_id,
                log_id,
            ),
            Event::InstallSnapshot { meta } => self.snapshot_grants_the_greatest(meta),
            Event::FinishBuildingSnapshot { meta } => {},
        }
    }
}

/// However many events there were, whether the protocol allows them or not: no last log of a voter
/// that a quorum is known to hold is greater than what is granted to a leading node.
pub proof fn granted_is_always_the_greatest<NID: NodeId, NV>(
    s: EngineView<NID, NV>,
    events: Seq<Event<NID, NV>>,
)
    requires
        s.state.internal_server_state.wf(),
        s.state.internal_server_state.granted_is_greatest(),
        s.can_run(events),
    ensures
        s.run(events).state.internal_server_state.wf(),
        s.run(events).state.internal_server_state.granted_is_greatest(),
    decreases events.len(),
{
    if events.len() > 0 {
        granted_is_always_the_greatest(s, events.drop_last());
        s.run(events.drop_last()).step_grants_the_greatest(events.last());
    }
}

/// A log that is newly granted is held by a quorum.
pub proof fn a_newly_granted_log_is_held_by_a_quorum<NID: NodeId>(
    p: ProgressView<NID>,
    id: NID,
    log_id: Option<LogId<NID>>,
)
    requires
        p.wf(),
    ensures
        ({
            let after = p.update(id, log_id);
            &&& crate::log_id::opt_le(p.granted, after.granted)
            &&& after.granted != p.granted ==> after.is_granted(after.granted)
        }),
{
    crate::log_id::opt_order_is_total(p.granted, p.granted, p.granted);
    crate::progress::position_is_of_the_node(p.vector, id);
    if let Some(i) = crate::progress::position_of(p.vector, id) {
        let updated = ProgressView { vector: p.vector.update(i, (id, log_id)), ..p };
        crate::progress::granted_is_the_greatest_held_by_a_quorum(updated);
        let after = p.update(id, log_id);
        if after.granted != p.granted {
            assert(after.voters() == updated.voters());
        }
    }
}

/// A follower commits what the leader has committed, but nothing after the logs that are known to
/// match.
pub proof fn a_follower_commits_only_what_matches<NID: NodeId, NV>(
    s: EngineView<NID, NV>,
    leader_committed: Option<LogId<NID>>,
    prev_log_id: Option<LogId<NID>>,
    entries: Seq<EntryView<NID, NV>>,
)
    ensures
        ({
            let after = s.follower_commit_entries(leader_committed, prev_log_id, entries);
            let last = if entries.len() == 0 {
                None
            } else {
                Some(entries.last().log_id)
            };
            let matching = crate::log_id::opt_max(last, prev_log_id);
            &&& after.state.committed == crate::log_id::opt_max(
                s.state.committed,
                crate::log_id::opt_min(leader_committed, matching),
            )
            &&& after.state.committed == s.state.committed || (crate::log_id::opt_le(
                after.state.committed,
                matching,
            ) && crate::log_id::opt_le(after.state.committed, leader_committed))
        }),
{
    let c = EngineView::<NID, NV>::committed_by_leader(leader_committed, prev_log_id, entries);
    crate::log_id::opt_order_is_total(s.state.committed, c, s.state.committed);
    crate::log_id::opt_order_is_total(c, leader_committed, c);
    let last = if entries.len() == 0 {
        None
    } else {
        Some(entries.last().log_id)
    };
    let matching = crate::log_id::opt_max(last, prev_log_id);
    crate::log_id::opt_order_is_total(matching, leader_committed, matching);
    crate::log_id::opt_order_is_total(leader_committed, leader_committed, leader_committed);
}

// ---- Membership

/// A leader does not quit at once if a new membership does not have it as a voter: its role stays
/// until the membership is committed.
pub proof fn a_leader_does_not_quit_at_once<NID: NodeId, NV>(
    s: EngineView<NID, NV>,
    log_id: LogId<NID>,
    m: MembershipView<NID, NV>,
)
    requires
        s.calc_server_state() == ServerState::Leader,
    ensures
        ({
            let after = s.update_effective_membership(log_id, m);
            &&& after.state.server_state == s.state.server_state
            &&& after.state.vote == s.state.vote
            &&& after.is_becoming_leader() == s.is_becoming_leader()
        }),
{
}

/// A change of membership changes what a quorum is, but keeps what a leader knows of every node
/// that stays.
pub proof fn a_new_membership_keeps_the_progress<NID: NodeId, NV>(
    s: EngineView<NID, NV>,
    leader: LeaderView<NID>,
    log_id: LogId<NID>,
    m: MembershipView<NID, NV>,
    id: NID,
)
    requires
        s.state.internal_server_state == InternalStateView::Leading(leader),
        m.is_voter(id) || m.learner_ids().contains(id),
    ensures
        ({
            let after = s.update_effective_membership(log_id, m).state.internal_server_state;
            &&& after is Leading
            &&& after->Leading_0.progress.configs == m.configs
            &&& after->Leading_0.progress.matched(id) == leader.progress.matched(id)
        }),
{
    crate::quorum::union_holds_every_member(m.configs);
    crate::progress::upgrading_keeps_what_is_known(
        leader.progress,
        m.configs,
        m.learner_ids(),
        id,
    );
}

// ---- Appending and deleting logs

/// Deleting logs leaves none from `since` on and changes none before, and an effective membership
/// that is deleted gives way to the committed one.
pub proof fn deleting_logs_keeps_the_earlier_ones<NID: NodeId, NV>(
    s: EngineView<NID, NV>,
    since: int,
)
    requires
        s.state.log_ids.ordered(),
        s.can_truncate_logs(since),
    ensures
        ({
            let after = s.truncate_logs(since);
            let m = s.state.membership_state;
            &&& forall|i: int| #[trigger]
                after.state.log_ids.get(i) == (if i < since {
                    s.state.log_ids.get(i)
                } else {
                    None
                })
            &&& after.state.membership_state.committed == m.committed
            &&& after.state.membership_state.effective == (if s.state.log_ids.get(since) is Some
                && since < crate::log_id::next_index(m.effective.log_id) {
                m.committed
            } else {
                m.effective
            })
            &&& s.state.log_ids.get(since) is Some ==> crate::log_id::next_index(
                after.state.membership_state.effective.log_id,
            ) <= since
        }),
{
    let logs = s.state.log_ids;
    logs.truncating_keeps_the_order(since);
    if logs.ids.len() > 0 {
        assert(logs.ids[logs.ids.len() - 1].index == logs.ids[0].index + (logs.ids.len() - 1));
    }
    if logs.get(since) is None {
        assert(logs.truncate(since) =~= logs);
    }
}

/// A leader only appends: its logs stay, and the new ones follow with its own leader id.
pub proof fn a_leader_only_appends<NID: NodeId, NV>(
    s: EngineView<NID, NV>,
    entries: Seq<EntryView<NID, NV>>,
)
    ensures
        s.leader_append_entries(entries).state.log_ids == s.state.log_ids.extend(
            s.new_log_ids(entries.len()),
        ),
        forall|i: int|
            0 <= i < entries.len() ==> (#[trigger] s.new_log_ids(entries.len())[i]).leader_id
                == s.state.vote.spec_leader_id(),
{
    let n = entries.len();
    let ids = s.new_log_ids(n);
    if n == 0 {
        assert(s.state.log_ids.extend(ids) =~= s.state.log_ids);
    } else {
        let appended = s.extend_log_ids(ids).push(
            CommandView::AppendInputEntries { start: 0, end: n as int },
        );
        leading_entries_keeps_the_logs(appended, s.assign_log_ids(entries));
    }
}

proof fn leading_entries_keeps_the_logs<NID: NodeId, NV>(
    s: EngineView<NID, NV>,
    entries: Seq<EntryView<NID, NV>>,
)
    ensures
        s.lead_entries(entries).state.log_ids == s.state.log_ids,
    decreases entries.len(),
{
    if entries.len() > 0 {
        leading_entries_keeps_the_logs(s, entries.drop_last());
    }
}

/// A request is accepted if and only if its vote is not behind and the log before the entries is
/// present.
pub proof fn a_request_is_accepted_if_the_logs_match<NID: NodeId, NV>(
    s: EngineView<NID, NV>,
    vote: Vote<NID>,
    prev_log_id: Option<LogId<NID>>,
)
    ensures
        s.append_entries_response(vote, prev_log_id) == AppendEntriesResponse::<NID>::Success
            <==> s.state.vote.le(vote) && (prev_log_id is Some ==> s.state.has_log_id(
            prev_log_id->0,
        )),
        s.append_entries_response(vote, prev_log_id) == AppendEntriesResponse::HigherVote(
            s.state.vote,
        ) <==> vote.lt(s.state.vote),
{
}

proof fn voting_keeps_the_logs<NID: NodeId, NV>(
    s: EngineView<NID, NV>,
    vote: Vote<NID>,
    prev_log_id: Option<LogId<NID>>,
    entries: Seq<EntryView<NID, NV>>,
    leader_committed: Option<LogId<NID>>,
)
    requires
        s.valid(),
        s.grants(vote),
        s.allows_append(vote, prev_log_id, entries, leader_committed),
    ensures
        ({
            let voted = s.handle_vote_change(vote);
            &&& voted.valid()
            &&& voted.state.internal_server_state.is_blank()
            &&& voted.state.vote == vote
            &&& voted.state.log_ids == s.state.log_ids
            &&& voted.state.committed == s.state.committed
            &&& voted.state.membership_state == s.state.membership_state
            &&& voted.allows_append(vote, prev_log_id, entries, leader_committed)
        }),
{
    let voted = s.handle_vote_change(vote);
    s.vote_change_keeps_valid(vote);
    let ids = crate::entry::entry_log_ids(entries);
    assert forall|i: int| 0 <= i < ids.len() implies voted.agrees_with(#[trigger] ids[i]) by {
        assert(s.agrees_with(ids[i]));
    }
}

/// A request that is accepted leaves all its entries, and the log before them, in the log.
pub proof fn accepted_entries_are_in_the_log<NID: NodeId, NV>(
    s: EngineView<NID, NV>,
    vote: Vote<NID>,
    prev_log_id: Option<LogId<NID>>,
    entries: Seq<EntryView<NID, NV>>,
    leader_committed: Option<LogId<NID>>,
)
    requires
        s.valid(),
        s.allows_append(vote, prev_log_id, entries, leader_committed),
        s.append_entries_response(vote, prev_log_id) == AppendEntriesResponse::<NID>::Success,
    ensures
        ({
            let after = s.handle_append_entries_req(vote, prev_log_id, entries, leader_committed);
            &&& after.matches(prev_log_id)
            &&& forall|i: int|
                0 <= i < entries.len() ==> after.state.has_log_id((#[trigger] entries[i]).log_id)
                    && after.state.log_ids.holds(Some(entries[i].log_id))
        }),
{
    voting_keeps_the_logs(s, vote, prev_log_id, entries, leader_committed);
    let voted = s.handle_vote_change(vote);
    voted.replacing_follows_the_leader(vote, prev_log_id, entries, leader_committed);
    let replaced = voted.replace(entries);
    let after = s.handle_append_entries_req(vote, prev_log_id, entries, leader_committed);
    s.append_entries_keeps_valid(vote, prev_log_id, entries, leader_committed);
    assert(after.state.log_ids == replaced.state.log_ids);
    let ids = crate::entry::entry_log_ids(entries);
    assert forall|i: int| 0 <= i < entries.len() implies after.state.has_log_id(
        (#[trigger] entries[i]).log_id,
    ) && after.state.log_ids.holds(Some(entries[i].log_id)) by {
        assert(ids[i] == entries[i].log_id);
        after.held_log_is_present(ids[i]);
    }
    if prev_log_id is Some {
        after.held_log_is_present(prev_log_id->0);
    }
}

/// A request that does not match leaves no log from the one before its entries on, and changes none
/// before that.
pub proof fn a_conflicting_request_deletes_the_conflict<NID: NodeId, NV>(
    s: EngineView<NID, NV>,
    vote: Vote<NID>,
    prev_log_id: Option<LogId<NID>>,
    entries: Seq<EntryView<NID, NV>>,
    leader_committed: Option<LogId<NID>>,
)
    requires
        s.state.log_ids.ordered(),
        s.can_handle_append_entries_req(vote, prev_log_id, entries),
        s.append_entries_response(vote, prev_log_id) == AppendEntriesResponse::<NID>::Conflict,
    ensures
        ({
            let after = s.handle_append_entries_req(vote, prev_log_id, entries, leader_committed);
            &&& after.state.committed == s.state.committed
            &&& forall|i: int| #[trigger]
                after.state.log_ids.get(i) == (if i < prev_log_id->0.index {
                    s.state.log_ids.get(i)
                } else {
                    None
                })
        }),
{
    let voted = s.handle_vote_change(vote);
    assert(voted.state.log_ids == s.state.log_ids);
    deleting_logs_keeps_the_earlier_ones(voted, prev_log_id->0.index as int);
}

/// No request of a leader replaces or deletes a committed log.
pub proof fn requests_keep_committed_logs<NID: NodeId, NV>(
    s: EngineView<NID, NV>,
    vote: Vote<NID>,
    prev_log_id: Option<LogId<NID>>,
    entries: Seq<EntryView<NID, NV>>,
    leader_committed: Option<LogId<NID>>,
    index: int,
)
    requires
        s.valid(),
        s.can_handle_append_entries_req(vote, prev_log_id, entries),
        0 <= index < crate::log_id::next_index(s.state.committed),
    ensures
        s.handle_append_entries_req(
            vote,
            prev_log_id,
            entries,
            leader_committed,
        ).state.log_ids.get(index) == s.state.log_ids.get(index),
{
    if s.grants(vote) {
        s.vote_change_keeps_valid(vote);
        let voted = s.handle_vote_change(vote);
        let logs = s.state.log_ids;
        logs.held_is_not_after_the_last(s.state.committed);
        if voted.matches(prev_log_id) {
            let ids = crate::entry::entry_log_ids(entries);
            let since = voted.first_conflicting_index(entries);
            voted.first_missing_is_in_range(ids, 0);
            if since < entries.len() {
                assert(ids[since] == entries[since].log_id);
                let at = entries[since].log_id.index as int;
                deleting_logs_keeps_the_earlier_ones(voted, at);
                let cut = voted.truncate_logs(at).state.log_ids;
                assert(cut.get(index) == logs.get(index));
                let new = crate::entry::entry_log_ids(entries.skip(since));
                let e = cut.extend(new);
                if cut.ids.len() > 0 {
                    assert(e.ids[0] == cut.ids[0]);
                    if cut.get(index) is Some {
                        assert(e.ids[index - e.ids[0].index] == cut.ids[index - cut.ids[0].index]);
                    } else {
                        logs.truncating_keeps_the_order(at);
                    }
                }
            }
        } else {
            deleting_logs_keeps_the_earlier_ones(voted, prev_log_id->0.index as int);
        }
    }
}

/// Logs that replace those from `at` on are found, and so are the ones before them.
proof fn replaced_logs_are_found<NID: NodeId>(logs: LogIds<NID>, at: int, new: Seq<LogId<NID>>)
    requires
        logs.consecutive(),
        new.len() > 0,
        new[0].index == at,
        (if logs.get(at) is Some {
            logs.truncate(at)
        } else {
            logs
        }).continues(new),
    ensures
        ({
            let cut = if logs.get(at) is Some {
                logs.truncate(at)
            } else {
                logs
            };
            let after = cut.extend(new);
            &&& forall|i: int|
                i < at && logs.get(i) is Some ==> #[trigger] after.get(i) == logs.get(i)
            &&& forall|k: int|
                0 <= k < new.len() ==> after.get((#[trigger] new[k]).index as int) == Some(new[k])
        }),
{
    let cut = if logs.get(at) is Some {
        logs.truncate(at)
    } else {
        logs
    };
    let after = cut.extend(new);
    let n = cut.ids.len() as int;
    if n > 0 {
        assert(cut.ids[0] == logs.ids[0]);
        assert(cut.ids[n - 1] == logs.ids[n - 1]);
        assert(logs.ids[n - 1].index == logs.ids[0].index + (n - 1));
        assert(after.ids[0] == cut.ids[0]);
    } else {
        assert(after.ids[0] == new[0]);
    }
    assert forall|k: int| 0 <= k < new.len() implies after.get((#[trigger] new[k]).index as int)
        == Some(new[k]) by {
        assert(after.ids[n + k] == new[k]);
    }
    assert forall|i: int| i < at && logs.get(i) is Some implies #[trigger] after.get(i) == logs.get(
        i,
    ) by {
        let k = i - logs.ids[0].index;
        assert(after.ids[k] == cut.ids[k] && cut.ids[k] == logs.ids[k]);
    }
}

/// Replacing logs keeps the vote, what is committed, and who leads. Every log of the leader is then
/// present if it was before, or if it is one of the entries from the first missing one on.
proof fn replacing_keeps_present_logs<NID: NodeId, NV>(
    s: EngineView<NID, NV>,
    prev_log_id: Option<LogId<NID>>,
    entries: Seq<EntryView<NID, NV>>,
)
    requires
        s.state.log_ids.consecutive(),
        s.matches(prev_log_id),
        s.can_replace(entries),
        forall|i: int|
            0 <= i < entries.len() ==> (#[trigger] entries[i]).log_id.index
                == crate::log_id::next_index(prev_log_id) + i,
    ensures
        ({
            let after = s.replace(entries);
            &&& after.id == s.id
            &&& after.state.vote == s.state.vote
            &&& after.state.committed == s.state.committed
            &&& after.state.internal_server_state == s.state.internal_server_state
            &&& after.matches(prev_log_id)
            &&& forall|i: int|
                0 <= i < entries.len() ==> after.state.has_log_id((#[trigger] entries[i]).log_id)
            &&& forall|x: LogId<NID>|
                (x.index < crate::log_id::next_index(s.state.committed) || x.index
                    < crate::log_id::next_index(prev_log_id)) && s.state.log_ids.get(
                    x.index as int,
                ) == Some(x) ==> #[trigger] after.state.log_ids.get(x.index as int) == Some(x)
        }),
{
    let ids = crate::entry::entry_log_ids(entries);
    let since = s.first_conflicting_index(entries);
    s.first_missing_is_in_range(ids, 0);
    let logs = s.state.log_ids;
    assert forall|i: int| 0 <= i < since implies s.state.has_log_id(
        (#[trigger] entries[i]).log_id,
    ) by {
        assert(ids[i] == entries[i].log_id);
    }
    if since < entries.len() {
        let at = entries[since].log_id.index as int;
        assert(ids[since] == entries[since].log_id);
        let new = crate::entry::entry_log_ids(entries.skip(since));
        assert(new[0] == entries[since].log_id);
        let after = s.replace(entries);
        replaced_logs_are_found(logs, at, new);
        assert forall|i: int| 0 <= i < entries.len() implies after.state.has_log_id(
            (#[trigger] entries[i]).log_id,
        ) by {
            if i >= since {
                assert(new[i - since] == entries[i].log_id);
            } else {
                assert(s.state.has_log_id(entries[i].log_id));
            }
        }
    }
}

impl<NID: NodeId, NV> EngineView<NID, NV> {
    /// Whether a log that is not after the committed one, and so is taken to be present, has to be
    /// present in `after` too: it is not after the committed one there, or it is the local log.
    pub open spec fn stays_present(self, after: Self, log_id: LogId<NID>) -> bool {
        log_id.index < crate::log_id::next_index(self.state.committed) ==> log_id.index
            < crate::log_id::next_index(after.state.committed) || self.state.log_ids.get(
            log_id.index as int,
        ) == Some(log_id)
    }

    /// Whether the log before the entries of a request, and the entries, stay present when the
    /// request is handled.
    pub open spec fn request_stays_present(
        self,
        vote: Vote<NID>,
        prev_log_id: Option<LogId<NID>>,
        entries: Seq<EntryView<NID, NV>>,
        leader_committed: Option<LogId<NID>>,
    ) -> bool {
        let after = self.handle_append_entries_req(vote, prev_log_id, entries, leader_committed);
        &&& prev_log_id is Some ==> self.stays_present(after, prev_log_id->0)
        &&& forall|i: int|
            0 <= i < entries.len() ==> self.stays_present(after, (#[trigger] entries[i]).log_id)
    }
}

/// A request that is accepted leaves all its entries, and the log before them, present.
///
/// The entries directly follow `prev_log_id`. A request that makes the committed index lesser is left
/// out, if it holds a log between the two indexes that is not the local one.
pub proof fn accepted_entries_are_present<NID: NodeId, NV>(
    s: EngineView<NID, NV>,
    vote: Vote<NID>,
    prev_log_id: Option<LogId<NID>>,
    entries: Seq<EntryView<NID, NV>>,
    leader_committed: Option<LogId<NID>>,
)
    requires
        s.state.log_ids.consecutive(),
        s.can_handle_append_entries_req(vote, prev_log_id, entries),
        s.append_entries_response(vote, prev_log_id) == AppendEntriesResponse::<NID>::Success,
        forall|i: int|
            0 <= i < entries.len() ==> (#[trigger] entries[i]).log_id.index
                == crate::log_id::next_index(prev_log_id) + i,
        s.request_stays_present(vote, prev_log_id, entries, leader_committed),
    ensures
        ({
            let after = s.handle_append_entries_req(vote, prev_log_id, entries, leader_committed);
            &&& after.matches(prev_log_id)
            &&& forall|i: int|
                0 <= i < entries.len() ==> after.state.has_log_id((#[trigger] entries[i]).log_id)
        }),
{
    let voted = s.handle_vote_change(vote);
    crate::vote::vote_order_is_total(s.state.vote, vote, vote);
    assert(voted.state.log_ids == s.state.log_ids);
    assert(voted.state.committed == s.state.committed);
    assert(voted.state.vote == vote);
    replacing_keeps_present_logs(voted, prev_log_id, entries);
    let replaced = voted.replace(entries);
    let once = s.handle_append_entries_req(vote, prev_log_id, entries, leader_committed);
    let c = EngineView::<NID, NV>::committed_by_leader(leader_committed, prev_log_id, entries);
    assert(once == replaced.follower_commit(c));
    assert(once.state.log_ids == replaced.state.log_ids);
    assert(once.state.vote == vote);
    assert(once.matches(prev_log_id)) by {
        if prev_log_id is Some {
            assert(s.stays_present(once, prev_log_id->0));
        }
    }
    assert forall|i: int| 0 <= i < entries.len() implies once.state.has_log_id(
        (#[trigger] entries[i]).log_id,
    ) by {
        assert(s.stays_present(once, entries[i].log_id));
        assert(replaced.state.has_log_id(entries[i].log_id));
    }
}

/// A request that is accepted and sent again is accepted again. If the vote is for another node, the
/// second time changes no state and only queues another election timer. If it is for this node, the
/// second time only makes it lead afresh.
///
/// The entries directly follow `prev_log_id`. A request that makes the committed index lesser is left
/// out, if it holds a log between the two indexes that is not the local one.
pub proof fn a_repeated_request_changes_nothing<NID: NodeId, NV>(
    s: EngineView<NID, NV>,
    vote: Vote<NID>,
    prev_log_id: Option<LogId<NID>>,
    entries: Seq<EntryView<NID, NV>>,
    leader_committed: Option<LogId<NID>>,
)
    requires
        s.state.log_ids.consecutive(),
        s.can_handle_append_entries_req(vote, prev_log_id, entries),
        s.append_entries_response(vote, prev_log_id) == AppendEntriesResponse::<NID>::Success,
        forall|i: int|
            0 <= i < entries.len() ==> (#[trigger] entries[i]).log_id.index
                == crate::log_id::next_index(prev_log_id) + i,
        s.request_stays_present(vote, prev_log_id, entries, leader_committed),
    ensures
        ({
            let once = s.handle_append_entries_req(vote, prev_log_id, entries, leader_committed);
            let twice = once.handle_append_entries_req(
                vote,
                prev_log_id,
                entries,
                leader_committed,
            );
            let timer = CommandView::InstallElectionTimer { can_be_leader: !vote.committed };
            &&& once.can_handle_append_entries_req(vote, prev_log_id, entries)
            &&& once.append_entries_response(vote, prev_log_id) == AppendEntriesResponse::<
                NID,
            >::Success
            &&& vote.node_id != s.id ==> {
                &&& twice.state == once.state
                &&& twice.commands == once.commands.push(timer)
                &&& twice == once.push(timer)
            }
            &&& vote.node_id == s.id ==> twice == once.enter_leading()
        }),
{
    let voted = s.handle_vote_change(vote);
    crate::vote::vote_order_is_total(s.state.vote, vote, vote);
    assert(voted.state.log_ids == s.state.log_ids && voted.state.vote == vote);
    replacing_keeps_present_logs(voted, prev_log_id, entries);
    let once = s.handle_append_entries_req(vote, prev_log_id, entries, leader_committed);
    let c = EngineView::<NID, NV>::committed_by_leader(leader_committed, prev_log_id, entries);
    assert(once == voted.replace(entries).follower_commit(c));
    accepted_entries_are_present(s, vote, prev_log_id, entries, leader_committed);
    handling_present_entries_only_votes(once, vote, prev_log_id, entries, leader_committed);
    crate::log_id::opt_order_is_total(c, c, c);
}

/// A request whose entries are all present, and that commits nothing new, is only a vote.
proof fn handling_present_entries_only_votes<NID: NodeId, NV>(
    s: EngineView<NID, NV>,
    vote: Vote<NID>,
    prev_log_id: Option<LogId<NID>>,
    entries: Seq<EntryView<NID, NV>>,
    leader_committed: Option<LogId<NID>>,
)
    requires
        s.state.vote == vote,
        s.matches(prev_log_id),
        forall|i: int|
            0 <= i < entries.len() ==> s.state.has_log_id((#[trigger] entries[i]).log_id),
        !crate::log_id::opt_lt(
            s.state.committed,
            EngineView::<NID, NV>::committed_by_leader(leader_committed, prev_log_id, entries),
        ),
    ensures
        s.can_handle_append_entries_req(vote, prev_log_id, entries),
        s.append_entries_response(vote, prev_log_id) == AppendEntriesResponse::<NID>::Success,
        s.handle_append_entries_req(vote, prev_log_id, entries, leader_committed)
            == s.switch_internal_server_state(),
{
    crate::vote::vote_order_is_total(vote, vote, vote);
    let voted = s.handle_vote_change(vote);
    assert(voted == s.switch_internal_server_state());
    assert(voted.state.log_ids == s.state.log_ids);
    assert(voted.state.committed == s.state.committed);
    let ids = crate::entry::entry_log_ids(entries);
    voted.first_missing_is_in_range(ids, 0);
    let since = voted.first_conflicting_index(entries);
    if since < ids.len() {
        assert(entries[since].log_id == ids[since]);
        assert(s.state.has_log_id(entries[since].log_id));
    }
}

/// A request that the protocol allows does not make the committed index lesser, so that sending it
/// again changes nothing.
pub proof fn a_repeated_allowed_request_changes_nothing<NID: NodeId, NV>(
    s: EngineView<NID, NV>,
    vote: Vote<NID>,
    prev_log_id: Option<LogId<NID>>,
    entries: Seq<EntryView<NID, NV>>,
    leader_committed: Option<LogId<NID>>,
)
    requires
        s.valid(),
        s.allows_append(vote, prev_log_id, entries, leader_committed),
        s.append_entries_response(vote, prev_log_id) == AppendEntriesResponse::<NID>::Success,
        vote.node_id != s.id,
    ensures
        ({
            let once = s.handle_append_entries_req(vote, prev_log_id, entries, leader_committed);
            let twice = once.handle_append_entries_req(
                vote,
                prev_log_id,
                entries,
                leader_committed,
            );
            let timer = CommandView::InstallElectionTimer { can_be_leader: !vote.committed };
            &&& crate::log_id::next_index(s.state.committed) <= crate::log_id::next_index(
                once.state.committed,
            )
            &&& once.append_entries_response(vote, prev_log_id) == AppendEntriesResponse::<
                NID,
            >::Success
            &&& twice.state == once.state
            &&& twice.commands == once.commands.push(timer)
        }),
{
    s.append_entries_keeps_valid(vote, prev_log_id, entries, leader_committed);
    voting_keeps_the_logs(s, vote, prev_log_id, entries, leader_committed);
    let voted = s.handle_vote_change(vote);
    voted.replacing_follows_the_leader(vote, prev_log_id, entries, leader_committed);
    let replaced = voted.replace(entries);
    let once = s.handle_append_entries_req(vote, prev_log_id, entries, leader_committed);
    let logs = once.state.log_ids;
    assert(logs == replaced.state.log_ids);
    if crate::log_id::opt_lt(s.state.committed, once.state.committed) {
        assert(replaced.valid());
        logs.held_logs_are_in_order(s.state.committed, once.state.committed);
    }
    let ids = crate::entry::entry_log_ids(entries);
    assert forall|i: int| 0 <= i < entries.len() implies (#[trigger] entries[i]).log_id.index
        == crate::log_id::next_index(prev_log_id) + i by {
        assert(ids[i] == entries[i].log_id);
    }
    a_repeated_request_changes_nothing(s, vote, prev_log_id, entries, leader_committed);
}

// ---- Purging and snapshots

/// Purging stops where the configured number of logs in the snapshot is left, and starts only if
/// there is a log to purge and a whole batch of them. With nothing to keep, every log in the snapshot
/// is purged.
pub proof fn purging_keeps_the_configured_number_of_logs<NID: NodeId, NV>(s: EngineView<NID, NV>)
    requires
        s.state.log_ids.consecutive(),
        s.can_calc_purge_upto(),
    ensures
        ({
            let purged_end = crate::log_id::next_index(s.state.log_ids.last_purged());
            let snapshot_end = crate::log_id::next_index(s.snapshot_meta.last_log_id);
            let keep = s.config.max_in_snapshot_log_to_keep;
            match s.calc_purge_upto() {
                Some(upto) => {
                    &&& s.state.log_ids.get(upto.index as int) == Some(upto)
                    &&& upto.index + 1 + keep == snapshot_end
                    &&& upto.index + 1 >= purged_end + s.config.purge_batch_size
                    &&& keep == 0 ==> upto.index == s.snapshot_meta.last_log_id->0.index
                },
                None => snapshot_end <= keep || snapshot_end
                    < purged_end + s.config.purge_batch_size + keep,
            }
        }),
{
    if s.purge_end() > 0 && s.has_batch_to_purge() {
        let i = s.purge_end() - 1;
        assert(s.state.log_ids.get(i)->0.index == i);
    }
}

/// Purging makes the given log the last purged one and keeps every later log, if the given log is
/// present or after all of them, and is not purged yet.
pub proof fn purging_keeps_the_later_logs<NID: NodeId, NV>(
    s: EngineView<NID, NV>,
    upto: LogId<NID>,
)
    requires
        s.state.log_ids.ordered(),
        s.state.log_ids.get(upto.index as int) == Some(upto) || s.log_end() <= upto.index,
        crate::log_id::opt_lt(s.state.log_ids.last_purged(), Some(upto)),
    ensures
        ({
            let after = s.purge_log(upto);
            &&& after.state.log_ids.last_purged() == Some(upto)
            &&& after.commands == s.commands.push(CommandView::PurgeLog { upto })
            &&& forall|i: int|
                i > upto.index ==> #[trigger] after.state.log_ids.get(i) == s.state.log_ids.get(i)
        }),
{
    s.state.log_ids.purging_keeps_the_order(upto);
}

/// Purging up to a log that is purged already changes nothing.
pub proof fn purging_twice_is_purging_once<NID: NodeId, NV>(
    s: EngineView<NID, NV>,
    upto: LogId<NID>,
)
    requires
        s.state.log_ids.ordered(),
        s.state.log_ids.get(upto.index as int) == Some(upto) || s.log_end() <= upto.index,
    ensures
        s.purge_log(upto).purge_log(upto) == s.purge_log(upto),
{
    s.state.log_ids.purging_keeps_the_order(upto);
    crate::log_id::log_id_order_is_total(upto, upto, upto);
}

/// The last snapshot is the greatest that was seen.
pub proof fn the_greatest_snapshot_is_kept<NID: NodeId, NV>(
    s: EngineView<NID, NV>,
    meta: SnapshotMetaView<NID, NV>,
)
    ensures
        s.update_snapshot(meta).snapshot_meta.last_log_id == crate::log_id::opt_max(
            s.snapshot_meta.last_log_id,
            meta.last_log_id,
        ),
        s.update_snapshot(meta).state == s.state,
        s.update_snapshot(meta).commands == s.commands,
{
    crate::log_id::opt_order_is_total(
        s.snapshot_meta.last_log_id,
        meta.last_log_id,
        s.snapshot_meta.last_log_id,
    );
}

/// A snapshot that holds only committed logs is dropped: nothing changes but that the runtime is told
/// to drop it. One that is not greater than the last one changes nothing at all.
pub proof fn an_old_snapshot_is_not_installed<NID: NodeId, NV>(
    s: EngineView<NID, NV>,
    meta: SnapshotMetaView<NID, NV>,
)
    ensures
        crate::log_id::opt_le(meta.last_log_id, s.state.committed) ==> {
            let after = s.install_snapshot(meta);
            &&& after.state == s.state
            &&& after.snapshot_meta == s.snapshot_meta
            &&& after.commands == s.commands.push(
                CommandView::CancelSnapshot { snapshot_meta: meta },
            )
        },
        crate::log_id::opt_lt(s.state.committed, meta.last_log_id) && !s.is_new_snapshot(meta)
            ==> s.install_snapshot(meta) == s,
{
}

/// A snapshot that is installed is the last one, its last log is the last committed and the last
/// purged one, and the logs after it stay only if they follow it.
pub proof fn an_installed_snapshot_replaces_the_logs_in_it<NID: NodeId, NV>(
    s: EngineView<NID, NV>,
    meta: SnapshotMetaView<NID, NV>,
)
    requires
        s.valid(),
        s.allows_snapshot(meta),
        crate::log_id::opt_lt(s.state.committed, meta.last_log_id),
        s.is_new_snapshot(meta),
    ensures
        ({
            let after = s.install_snapshot(meta);
            let last = meta.last_log_id->0;
            &&& after.snapshot_meta == meta
            &&& after.state.committed == meta.last_log_id
            &&& after.state.log_ids.last_purged() == meta.last_log_id
            &&& forall|i: int|
                i > last.index ==> #[trigger] after.state.log_ids.get(i) == (if s.conflicts_with(
                    last,
                ) {
                    None
                } else {
                    s.state.log_ids.get(i)
                })
        }),
{
    let last = meta.last_log_id->0;
    s.deleting_conflicting_keeps_valid(meta);
    if s.conflicts_with(last) {
        deleting_logs_keeps_the_earlier_ones(s, last.index as int);
    }
    let cleaned = s.delete_conflicting(last);
    cleaned.installed_snapshot_is_in_order(meta);
    let updated = s.update_snapshot(meta).delete_conflicting(last);
    assert(updated.state == cleaned.state);
}

// ---- Initialization

/// A node is initialized if and only if it has no log, its vote is the minimal one, and the entry
/// holds a membership that has the node as a voter.
pub proof fn a_node_is_initialized_from_nothing<NID: NodeId, NV>(
    s: EngineView<NID, NV>,
    m: Option<MembershipView<NID, NV>>,
)
    ensures
        s.initialize_result(m) is Ok <==> {
            &&& s.last_log_id() is None
            &&& s.state.vote == Vote::<NID>::spec_default_vote()
            &&& m is Some
            &&& m->0.is_voter(s.id)
        },
{
}

/// A node accepts an initial entry only once: after it has appended one, whether it holds a proper
/// membership or not, no other is accepted.
pub proof fn a_node_is_initialized_only_once<NID: NodeId, NV>(
    s: EngineView<NID, NV>,
    m: Option<MembershipView<NID, NV>>,
    other: Option<MembershipView<NID, NV>>,
)
    requires
        s.check_initialize() is Ok,
    ensures
        ({
            let after = s.initialize(m);
            after.initialize_result(other) == Err::<(), InitializeErrorView<NID, NV>>(
                InitializeErrorView::NotAllowed(
                    NotAllowed { last_log_id: after.last_log_id(), vote: after.state.vote },
                ),
            )
        }),
{
    let ids = s.new_log_ids(1);
    let appended = s.extend_log_ids(ids).push(CommandView::AppendInputEntries { start: 0, end: 1 });
    assert(appended.state.log_ids.ids.len() == 1);
    if s.check_initial_membership(m) is Ok {
        let effective = appended.update_effective_membership(ids[0], m->0);
        assert(effective.state.log_ids == appended.state.log_ids);
        electing_keeps_the_logs(effective.push(CommandView::MoveInputCursorBy { n: 1 }));
    }
}

proof fn electing_keeps_the_logs<NID: NodeId, NV>(s: EngineView<NID, NV>)
    ensures
        s.elect().state.log_ids.ids.len() >= s.state.log_ids.ids.len(),
{
    let voted = s.vote_for_self();
    assert(voted.state.log_ids == s.state.log_ids);
    if s.is_quorum_alone() {
        let vote = Vote { committed: true, ..voted.state.vote };
        let streaming = voted.with_state(RaftStateView { vote, ..voted.state }).push(
            CommandView::SaveVote { vote },
        ).set_server_state(ServerState::Leader).update_replications();
        assert(streaming.state.log_ids == s.state.log_ids);
        assert(voted.establish_leader() == streaming.append_blank_log());
    }
}

// ---- A voter that is a quorum on its own

/// If one voter is a quorum on its own, its last log is granted as soon as it holds it.
pub proof fn a_lone_voter_grants_its_last_log<NID: NodeId>(
    p: ProgressView<NID>,
    logs: LogIds<NID>,
    id: NID,
)
    requires
        p.wf(),
        logs.ordered(),
        logs.last() is Some,
        p.is_in(logs),
        crate::progress::position_of(p.vector, id) is Some,
        crate::progress::position_of(p.vector, id)->0 < p.voter_count,
        p.matched(id) != logs.last(),
        crate::quorum::is_quorum(p.configs, seq![id]),
    ensures
        p.update(id, logs.last()).granted == logs.last(),
{
    let last = logs.last();
    let i = crate::progress::position_of(p.vector, id)->0;
    crate::progress::position_is_of_the_node(p.vector, id);
    let updated = ProgressView { vector: p.vector.update(i, (id, last)), ..p };
    crate::log_id::opt_order_is_total(last, last, last);
    let voters = updated.voters();
    let holds = |x: Matched<NID>| crate::log_id::opt_le(last, x.1);
    assert(voters[i] == (id, last));
    assert(voters.filter(holds).contains(voters[i])) by {
        voters.lemma_filter_contains(holds, i);
    }
    let held = voters.filter(holds);
    let k = held.index_of(voters[i]);
    assert(updated.holders(last)[k] == id);
    assert forall|x: NID| #[trigger] seq![id].contains(x) implies updated.holders(
        last,
    ).contains(x) by {}
    crate::quorum::more_nodes_keep_a_quorum(p.configs, seq![id], updated.holders(last));
    assert(updated.is_granted(updated.vector[i].1));
    crate::progress::granted_is_the_greatest_held_by_a_quorum(updated);
    // Nothing greater is known to be held.
    logs.held_is_not_after_the_last(p.granted);
    updated.granted_is_in_the_logs(logs);
    let granted = updated.with_granted().granted;
    logs.held_is_not_after_the_last(granted);
    crate::log_id::opt_order_is_total(last, granted, last);
}

proof fn leading_plain_entries_changes_nothing<NID: NodeId, NV>(
    s: EngineView<NID, NV>,
    entries: Seq<EntryView<NID, NV>>,
)
    requires
        forall|i: int| 0 <= i < entries.len() ==> (#[trigger] entries[i]).membership is None,
    ensures
        s.lead_entries(entries) == s,
    decreases entries.len(),
{
    if entries.len() > 0 {
        let front = entries.drop_last();
        assert forall|i: int| 0 <= i < front.len() implies (#[trigger] front[i]).membership is None by {
            assert(front[i] == entries[i]);
        }
        assert(entries.last() == entries[entries.len() - 1]);
        leading_plain_entries_changes_nothing(s, front);
    }
}

/// A leader that is a quorum on its own commits entries as soon as it appends them, as long as they
/// do not change the membership.
pub proof fn a_lone_leader_commits_at_once<NID: NodeId, NV>(
    s: EngineView<NID, NV>,
    leader: LeaderView<NID>,
    entries: Seq<EntryView<NID, NV>>,
)
    requires
        s.valid(),
        s.state.internal_server_state == InternalStateView::Leading(leader),
        crate::progress::position_of(leader.progress.vector, s.id) is Some,
        crate::progress::position_of(leader.progress.vector, s.id)->0
            < leader.progress.voter_count,
        crate::quorum::is_quorum(leader.progress.configs, seq![s.id]),
        entries.len() > 0,
        s.can_assign(entries.len()),
        forall|i: int| 0 <= i < entries.len() ==> (#[trigger] entries[i]).membership is None,
    ensures
        s.leader_append_entries(entries).state.committed == Some(
            s.new_log_ids(entries.len()).last(),
        ),
{
    let n = entries.len();
    let ids = s.new_log_ids(n);
    let logs = s.state.log_ids;
    s.new_logs_follow_in_order(n);
    logs.extending_keeps_the_order(ids);
    let appended = s.extend_log_ids(ids).push(
        CommandView::AppendInputEntries { start: 0, end: n as int },
    );
    let assigned = s.assign_log_ids(entries);
    assert forall|i: int| 0 <= i < assigned.len() implies (
    #[trigger] assigned[i]).membership is None by {
        assert(entries[i].membership is None);
    }
    leading_plain_entries_changes_nothing(appended, assigned);
    let last = ids[n - 1];
    assert(appended.state.log_ids.last() == Some(last));
    // The new last log is greater than everything before.
    assert(crate::log_id::opt_lt(logs.last(), Some(last))) by {
        crate::log_id::opt_order_is_total(logs.last(), Some(ids[0]), Some(last));
    }
    logs.held_is_not_after_the_last(s.state.committed);
    let matched = leader.progress.matched(s.id);
    crate::progress::position_is_of_the_node(leader.progress.vector, s.id);
    assert(logs.holds(matched));
    logs.held_is_not_after_the_last(matched);
    assert(crate::log_id::next_index(Some(last)) > crate::log_id::next_index(logs.last()));
    crate::log_id::opt_order_is_total(s.state.committed, logs.last(), Some(last));
    crate::log_id::opt_order_is_total(Some(last), s.state.committed, logs.last());
    a_lone_voter_grants_its_last_log(leader.progress, appended.state.log_ids, s.id);
}

/// A node that is a quorum on its own becomes the leader as soon as it starts an election, and
/// appends and commits a blank log.
pub proof fn a_lone_voter_is_elected_at_once<NID: NodeId, NV>(s: EngineView<NID, NV>)
    requires
        s.valid(),
        s.can_elect(),
        s.is_quorum_alone(),
        s.state.membership_state.effective.membership.configs.len() > 0,
    ensures
        ({
            let after = s.elect();
            let blank = LogId {
                leader_id: after.state.vote.spec_leader_id(),
                index: s.log_end() as u64,
            };
            &&& after.is_leader()
            &&& after.state.server_state == ServerState::Leader
            &&& after.last_log_id() == Some(blank)
            &&& after.state.committed == Some(blank)
        }),
{
    let vote = Vote { term: (s.state.vote.term + 1) as u64, node_id: s.id, committed: false };
    s.vote_change_keeps_valid(vote);
    let voted = s.vote_for_self();
    let m = s.state.membership_state.effective.membership;
    let leader = LeaderView::initial(m.configs, m.learner_ids()).grant_vote_by(s.id);
    assert(voted.state.internal_server_state == InternalStateView::Leading(leader));
    a_lone_quorum_is_a_member(m.configs, s.id);
    crate::progress::a_voter_counts_as_a_voter(m.configs, m.learner_ids(), s.id);
    crate::progress::position_is_of_the_node(leader.progress.vector, s.id);
    assert(leader.progress.matched(s.id) is None);
    let committed_vote = Vote { committed: true, ..vote };
    let streaming = voted.with_state(RaftStateView { vote: committed_vote, ..voted.state }).push(
        CommandView::SaveVote { vote: committed_vote },
    ).set_server_state(ServerState::Leader).update_replications();
    assert(streaming.valid());
    assert(streaming.state.internal_server_state == InternalStateView::Leading(leader));
    streaming.new_logs_follow_in_order(1);
    let log_id = streaming.new_log_ids(1)[0];
    assert(streaming.new_log_ids(1) =~= seq![log_id]);
    let logs = streaming.state.log_ids;
    logs.extending_keeps_the_order(seq![log_id]);
    let appended = streaming.extend_log_ids(seq![log_id]).push(
        CommandView::AppendBlankLog { log_id },
    );
    assert(appended.state.log_ids.last() == Some(log_id));
    logs.held_is_not_after_the_last(s.state.committed);
    crate::log_id::opt_order_is_total(s.state.committed, logs.last(), Some(log_id));
    crate::log_id::opt_order_is_total(Some(log_id), s.state.committed, logs.last());
    a_lone_voter_grants_its_last_log(leader.progress, appended.state.log_ids, s.id);
    assert(voted.establish_leader() == streaming.append_blank_log());
}

proof fn a_lone_quorum_is_a_member<NID: NodeId>(configs: Seq<Seq<NID>>, id: NID)
    requires
        configs.len() > 0,
        crate::quorum::is_quorum(configs, seq![id]),
    ensures
        crate::quorum::union_ids(configs).contains(id),
{
    let p = |x: NID| seq![id].contains(x);
    assert(crate::quorum::is_majority(configs[0], seq![id]));
    let found = configs[0].filter(p);
    assert(found.contains(found[0]));
    configs[0].lemma_filter_pred(p, 0);
    configs[0].lemma_filter_contains_rev(p, found[0]);
    assert(configs[0].contains(id));
    crate::quorum::union_holds_every_member(configs);
}

} // verus!
