//! The state of a Raft node.
use vstd::prelude::*;

use crate::entry::RaftLogId;
use crate::leader::{InternalServerState, InternalStateView, Leader, LeaderView};
use crate::log_id::LogId;
use crate::log_id_list::{LogIdList, LogIds};
use crate::membership::{EffectiveMembershipView, MembershipState, MembershipStateView};
use crate::node::{Node, NodeId};
use crate::vote::Vote;

verus! {

/// The role of a node, as the application sees it.
#[derive(Clone, Copy, Debug, PartialEq, Eq, Structural)]
pub enum ServerState {
    /// The node only receives logs.
    Learner,
    /// The node follows a leader.
    Follower,
    /// The node tries to become the leader.
    Candidate,
    /// The node is the leader.
    Leader,
    /// The node is shut down.
    Shutdown,
}

/// The mathematical view of a [`RaftState`].
#[verifier::ext_equal]
pub struct RaftStateView<NID, NV> {
    /// The vote of the node.
    pub vote: Vote<NID>,
    /// The last log that is known to be committed.
    pub committed: Option<LogId<NID>>,
    /// The ids of all logs of the node.
    pub log_ids: LogIds<NID>,
    /// The memberships that the node knows of.
    pub membership_state: MembershipStateView<NID, NV>,
    /// Whether the node leads or follows.
    pub internal_server_state: InternalStateView<NID>,
    /// The role of the node.
    pub server_state: ServerState,
}

impl<NID: NodeId, NV> RaftStateView<NID, NV> {
    /// The state of a node that has never run.
    pub open spec fn pristine() -> Self {
        RaftStateView {
            vote: Vote::spec_default_vote(),
            committed: None,
            log_ids: LogIds { ids: Seq::empty(), purged: false },
            membership_state: MembershipStateView {
                committed: EffectiveMembershipView::empty(),
                effective: EffectiveMembershipView::empty(),
            },
            internal_server_state: InternalStateView::Following,
            server_state: ServerState::Learner,
        }
    }

    /// Whether the node has the log `log_id`: a committed log is always taken to be present.
    pub open spec fn has_log_id(self, log_id: LogId<NID>) -> bool {
        log_id.index < crate::log_id::next_index(self.committed) || self.log_ids.get(
            log_id.index as int,
        ) == Some(log_id)
    }

    /// With `committed` raised to `committed`; the effective membership becomes committed with the
    /// log that holds it.
    pub open spec fn update_committed(self, committed: Option<LogId<NID>>) -> Self {
        if crate::log_id::opt_lt(self.committed, committed) {
            RaftStateView {
                committed,
                membership_state: if crate::log_id::opt_le(
                    self.membership_state.effective.log_id,
                    committed,
                ) {
                    MembershipStateView {
                        committed: self.membership_state.effective,
                        effective: self.membership_state.effective,
                    }
                } else {
                    self.membership_state
                },
                ..self
            }
        } else {
            self
        }
    }

    /// In leading state, with nobody having granted the vote yet.
    pub open spec fn new_leader(self) -> Self {
        let m = self.membership_state.effective.membership;
        RaftStateView {
            internal_server_state: InternalStateView::Leading(
                LeaderView::initial(m.configs, m.learner_ids()),
            ),
            ..self
        }
    }
}

/// The state of a Raft node.
#[derive(Debug, PartialEq, Eq)]
pub struct RaftState<NID, N> {
    /// The vote of the node.
    pub vote: Vote<NID>,
    /// The last log that is known to be committed.
    pub committed: Option<LogId<NID>>,
    /// The ids of all logs of the node.
    pub log_ids: LogIdList<NID>,
    /// The memberships that the node knows of.
    pub membership_state: MembershipState<NID, N>,
    /// Whether the node leads or follows.
    pub internal_server_state: InternalServerState<NID>,
    /// The role of the node, as the application sees it.
    pub server_state: ServerState,
}

impl<NID, N: Node> View for RaftState<NID, N> {
    type V = RaftStateView<NID, N::V>;

    open spec fn view(&self) -> RaftStateView<NID, N::V> {
        RaftStateView {
            vote: self.vote,
            committed: self.committed,
            log_ids: self.log_ids@,
            membership_state: self.membership_state@,
            internal_server_state: self.internal_server_state@,
            server_state: self.server_state,
        }
    }
}

impl<NID: NodeId, N: Node> Clone for RaftState<NID, N> {
    fn clone(&self) -> (r: Self)
        ensures
            r@ == self@,
            self.wf() ==> r.wf(),
    {
        RaftState {
            vote: self.vote,
            committed: self.committed,
            log_ids: self.log_ids.clone(),
            membership_state: self.membership_state.clone(),
            internal_server_state: self.internal_server_state.clone(),
            server_state: self.server_state,
        }
    }
}

impl<NID: NodeId, N: Node> RaftState<NID, N> {
    /// Whether the parts of the state are well-formed.
    pub open spec fn wf(&self) -> bool {
        &&& self.log_ids.wf()
        &&& self.internal_server_state@.wf()
    }

    /// The state of a node that has never run.
    pub fn pristine() -> (r: Self)
        ensures
            r@ == RaftStateView::<NID, N::V>::pristine(),
            r.wf(),
    {
        RaftState {
            vote: Vote::default_vote(),
            committed: None,
            log_ids: LogIdList::empty(),
            membership_state: MembershipState::empty(),
            internal_server_state: InternalServerState::Following,
            server_state: ServerState::Learner,
        }
    }

    /// Appends log ids that follow the last one and are all of one leader.
    pub fn extend_log_ids_from_same_leader<Ent: RaftLogId<NID>>(&mut self, new: &[Ent])
        requires
            old(self).wf(),
            old(self)@.log_ids.continues(crate::entry::carried_log_ids(new@)),
            forall|i: int|
                0 <= i < new@.len() ==> (#[trigger] new@[i]).spec_log_id().leader_id
                    == new@[0].spec_log_id().leader_id,
        ensures
            final(self).wf(),
            final(self)@ == (RaftStateView {
                log_ids: old(self)@.log_ids.extend(crate::entry::carried_log_ids(new@)),
                ..old(self)@
            }),
    {
        self.log_ids.extend_from_same_leader(new);
    }

    /// Appends log ids that follow the last one.
    pub fn extend_log_ids<Ent: RaftLogId<NID>>(&mut self, new: &[Ent])
        requires
            old(self).wf(),
            old(self)@.log_ids.continues(crate::entry::carried_log_ids(new@)),
        ensures
            final(self).wf(),
            final(self)@ == (RaftStateView {
                log_ids: old(self)@.log_ids.extend(crate::entry::carried_log_ids(new@)),
                ..old(self)@
            }),
    {
        self.log_ids.extend(new);
    }

    /// The log id at `index`; that of the last purged log if `index` is its index.
    pub fn get_log_id(&self, index: u64) -> (r: Option<LogId<NID>>)
        requires
            self.wf(),
        ensures
            r == self@.log_ids.get(index as int),
    {
        self.log_ids.get(index)
    }

    /// Whether the node has the log `log_id`.
    pub fn has_log_id(&self, log_id: &LogId<NID>) -> (b: bool)
        requires
            self.wf(),
        ensures
            b == self@.has_log_id(*log_id),
    {
        if let Some(committed) = self.committed {
            if log_id.index <= committed.index {
                return true;
            }
        }
        match self.log_ids.get(log_id.index) {
            Some(local) => local.same_as(log_id),
            None => false,
        }
    }

    /// The last log of the node.
    pub fn last_log_id(&self) -> (r: Option<LogId<NID>>)
        requires
            self.wf(),
        ensures
            r == self@.log_ids.last(),
    {
        self.log_ids.last()
    }

    /// The last log that was purged.
    pub fn last_purged_log_id(&self) -> (r: Option<LogId<NID>>)
        requires
            self.wf(),
        ensures
            r == self@.log_ids.last_purged(),
    {
        self.log_ids.last_purged()
    }

    /// Enters leading state, with nobody having granted the vote yet.
    pub fn new_leader(&mut self)
        requires
            old(self).wf(),
        ensures
            final(self).wf(),
            final(self)@ == old(self)@.new_leader(),
    {
        let learner_ids = self.membership_state.effective.membership.learner_ids();
        let quorum_set = self.membership_state.effective.membership.to_quorum_set();
        self.internal_server_state = InternalServerState::Leading(
            Leader::new(quorum_set, &learner_ids),
        );
    }

    /// Raises `committed` if `committed` is greater.
    ///
    /// It returns the previous value if it is raised.
    pub fn update_committed(&mut self, committed: &Option<LogId<NID>>) -> (r: Option<
        Option<LogId<NID>>,
    >)
        requires
            old(self).wf(),
        ensures
            final(self).wf(),
            final(self)@ == old(self)@.update_committed(*committed),
            r == (if crate::log_id::opt_lt(old(self)@.committed, *committed) {
                Some(old(self)@.committed)
            } else {
                None
            }),
    {
        if !crate::log_id::opt_less_than(&self.committed, committed) {
            return None;
        }
        let prev = self.committed;
        self.committed = *committed;
        if !crate::log_id::opt_less_than(
            &self.committed,
            &self.membership_state.effective.log_id,
        ) {
            self.membership_state.committed = self.membership_state.effective.clone();
        }
        Some(prev)
    }
}

/// A log is present if its index is not after the committed one, or if it is the local log.
pub proof fn committed_and_local_logs_are_present<NID: NodeId, NV>(
    s: RaftStateView<NID, NV>,
    x: LogId<NID>,
)
    requires
        s.log_ids.consecutive(),
    ensures
        s.has_log_id(x) <==> (s.committed is Some && x.index <= (s.committed->0).index)
            || s.log_ids.ids.contains(x),
{
    crate::log_id_list::get_finds_the_log_with_the_index(s.log_ids, x.index as int, x);
}

/// Committing raises the committed log to a greater one and never lowers it. The effective membership is
/// committed with the log that holds it. Nothing else changes.
pub proof fn committing_commits_the_membership<NID: NodeId, NV>(
    s: RaftStateView<NID, NV>,
    committed: Option<LogId<NID>>,
)
    ensures
        ({
            let after = s.update_committed(committed);
            let m = s.membership_state;
            &&& after.vote == s.vote
            &&& after.log_ids == s.log_ids
            &&& after.internal_server_state == s.internal_server_state
            &&& after.server_state == s.server_state
            &&& after.membership_state.effective == m.effective
            &&& !crate::log_id::opt_lt(s.committed, committed) ==> after == s
            &&& crate::log_id::opt_lt(s.committed, committed) ==> {
                &&& after.committed == committed
                &&& crate::log_id::opt_le(m.effective.log_id, committed)
                    ==> after.membership_state.committed == m.effective
                &&& crate::log_id::opt_lt(committed, m.effective.log_id)
                    ==> after.membership_state.committed == m.committed
            }
        }),
{
}

/// A node that has never run has no log, no vote and no membership, and follows as a learner.
pub proof fn a_pristine_node_has_nothing<NID: NodeId, NV>()
    ensures
        ({
            let s = RaftStateView::<NID, NV>::pristine();
            &&& s.vote.term == 0 && s.vote.node_id == NID::spec_default_id() && !s.vote.committed
            &&& s.committed is None
            &&& s.log_ids.ids.len() == 0 && !s.log_ids.purged
            &&& s.membership_state.committed == s.membership_state.effective
            &&& s.membership_state.effective.log_id is None
            &&& s.membership_state.effective.membership.configs.len() == 0
            &&& s.membership_state.effective.membership.nodes.len() == 0
            &&& s.internal_server_state is Following
            &&& s.server_state == ServerState::Learner
        }),
{
}

} // verus!
