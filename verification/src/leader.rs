//! The state of a node that leads, or tries to.
use vstd::prelude::*;

use crate::node::NodeId;
use crate::node_set::NodeSet;
use crate::progress::{Progress, ProgressView};
use crate::quorum::QuorumSet;

verus! {

/// The mathematical view of a [`Leader`].
#[verifier::ext_equal]
pub struct LeaderView<NID> {
    /// The nodes that have granted the vote, in ascending order.
    pub vote_granted_by: Seq<NID>,
    /// The replication progress of every node.
    pub progress: ProgressView<NID>,
}

impl<NID: NodeId> LeaderView<NID> {
    /// A leader that nobody has voted for yet.
    pub open spec fn initial(configs: Seq<Seq<NID>>, learner_ids: Seq<NID>) -> Self {
        LeaderView {
            vote_granted_by: Seq::empty(),
            progress: ProgressView::initial(configs, learner_ids),
        }
    }

    /// With the vote granted by `id`.
    pub open spec fn grant_vote_by(self, id: NID) -> Self {
        LeaderView {
            vote_granted_by: crate::node_set::with_id(self.vote_granted_by, id),
            ..self
        }
    }

    /// Whether a quorum has granted the vote.
    pub open spec fn is_vote_granted(self) -> bool {
        crate::quorum::is_quorum(self.progress.configs, self.vote_granted_by)
    }
}

/// A node in leading state.
///
/// There are two phases: at first it collects votes, and once a quorum has granted its vote it
/// replicates logs.
#[derive(Debug, PartialEq, Eq)]
pub struct Leader<NID> {
    /// The nodes that have granted the vote.
    pub vote_granted_by: NodeSet<NID>,
    /// The replication progress of every node.
    pub progress: Progress<NID>,
}

impl<NID> View for Leader<NID> {
    type V = LeaderView<NID>;

    open spec fn view(&self) -> LeaderView<NID> {
        LeaderView { vote_granted_by: self.vote_granted_by@, progress: self.progress@ }
    }
}

impl<NID: NodeId> Clone for Leader<NID> {
    fn clone(&self) -> (r: Self)
        ensures
            r@ == self@,
    {
        Leader { vote_granted_by: self.vote_granted_by.clone(), progress: self.progress.clone() }
    }
}

impl<NID: NodeId> Leader<NID> {
    /// Creates a leader that nobody has voted for yet.
    pub fn new(quorum_set: QuorumSet<NID>, learner_ids: &Vec<NID>) -> (r: Self)
        ensures
            r@ == LeaderView::initial(quorum_set@, learner_ids@),
            r@.progress.wf(),
    {
        Leader {
            vote_granted_by: NodeSet::new(),
            progress: Progress::new(quorum_set, learner_ids),
        }
    }

    /// Records that `id` has granted the vote.
    pub fn grant_vote_by(&mut self, id: NID)
        ensures
            final(self)@ == old(self)@.grant_vote_by(id),
    {
        self.vote_granted_by.insert(id);
    }

    /// Whether a quorum has granted the vote.
    pub fn is_vote_granted(&self) -> (b: bool)
        ensures
            b == self@.is_vote_granted(),
    {
        self.progress.quorum_set().is_quorum(&self.vote_granted_by)
    }
}

/// The mathematical view of an [`InternalServerState`].
#[verifier::ext_equal]
pub enum InternalStateView<NID> {
    /// The node leads, or tries to.
    Leading(LeaderView<NID>),
    /// The node follows a leader or waits for one.
    Following,
}

impl<NID: NodeId> InternalStateView<NID> {
    /// Whether the progress of a leader is well-formed.
    pub open spec fn wf(self) -> bool {
        match self {
            InternalStateView::Leading(l) => l.progress.wf(),
            InternalStateView::Following => true,
        }
    }
}

/// Whether a node leads or follows.
#[derive(Debug, PartialEq, Eq)]
pub enum InternalServerState<NID> {
    /// The node leads, or tries to.
    Leading(Leader<NID>),
    /// The node follows a leader or waits for one.
    Following,
}

impl<NID> View for InternalServerState<NID> {
    type V = InternalStateView<NID>;

    open spec fn view(&self) -> InternalStateView<NID> {
        match self {
            InternalServerState::Leading(l) => InternalStateView::Leading(l@),
            InternalServerState::Following => InternalStateView::Following,
        }
    }
}

impl<NID: NodeId> Clone for InternalServerState<NID> {
    fn clone(&self) -> (r: Self)
        ensures
            r@ == self@,
    {
        match self {
            InternalServerState::Leading(l) => InternalServerState::Leading(l.clone()),
            InternalServerState::Following => InternalServerState::Following,
        }
    }
}

impl<NID: NodeId> InternalServerState<NID> {
    /// Whether the node leads, or tries to.
    pub fn is_leading(&self) -> (b: bool)
        ensures
            b == (self@ is Leading),
    {
        match self {
            InternalServerState::Leading(_) => true,
            InternalServerState::Following => false,
        }
    }

    /// Whether the node follows.
    pub fn is_following(&self) -> (b: bool)
        ensures
            b == (self@ is Following),
    {
        !self.is_leading()
    }
}

/// A new leader has no vote, not even its own, and a progress that knows of nothing. A vote that is
/// granted counts once, and a leader is elected when the nodes that have granted their vote are a
/// quorum of every config.
pub proof fn a_leader_collects_votes<NID: NodeId>(
    configs: Seq<Seq<NID>>,
    learner_ids: Seq<NID>,
    leader: LeaderView<NID>,
    id: NID,
)
    ensures
        LeaderView::initial(configs, learner_ids).vote_granted_by.len() == 0,
        LeaderView::initial(configs, learner_ids).progress == ProgressView::initial(
            configs,
            learner_ids,
        ),
        leader.grant_vote_by(id).progress == leader.progress,
        forall|x: NID| #[trigger]
            leader.grant_vote_by(id).vote_granted_by.contains(x)
                <==> leader.vote_granted_by.contains(x) || x == id,
        leader.is_vote_granted() <==> forall|i: int|
            0 <= i < leader.progress.configs.len() ==> (
            #[trigger] leader.progress.configs[i]).filter(
                |x: NID| leader.vote_granted_by.contains(x),
            ).len() > leader.progress.configs[i].filter(
                |x: NID| !leader.vote_granted_by.contains(x),
            ).len(),
{
    crate::node_set::with_id_adds_the_id(leader.vote_granted_by, id);
    crate::quorum::a_quorum_outnumbers_the_rest(leader.progress.configs, leader.vote_granted_by);
}

} // verus!
