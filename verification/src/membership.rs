//! Membership configs, and which of them are effective and committed.
use std::sync::Arc;

use vstd::prelude::*;

use crate::log_id::LogId;
use crate::node::{Node, NodeId};
use crate::node_set::{NodeMap, NodeSet};
use crate::quorum::QuorumSet;

verus! {

/// The mathematical view of a [`Membership`].
#[verifier::ext_equal]
pub struct MembershipView<NID, NV> {
    /// The voter configs; more than one during a joint change of membership.
    pub configs: Seq<Seq<NID>>,
    /// Every node with its data, in ascending order of the id.
    pub nodes: Seq<(NID, NV)>,
}

impl<NID: NodeId, NV> MembershipView<NID, NV> {
    /// A membership without any node.
    pub open spec fn empty() -> Self {
        MembershipView { configs: Seq::empty(), nodes: Seq::empty() }
    }

    /// Whether `id` is a voter in some config.
    pub open spec fn is_voter(self, id: NID) -> bool {
        exists|i: int| 0 <= i < self.configs.len() && (#[trigger] self.configs[i]).contains(id)
    }

    /// The nodes that are not voters, in ascending order.
    pub open spec fn learner_ids(self) -> Seq<NID> {
        self.nodes.map_values(|x: (NID, NV)| x.0).filter(|id: NID| !self.is_voter(id))
    }
}

/// A membership config: who votes, and the data of every node.
#[derive(Debug, PartialEq, Eq)]
pub struct Membership<NID, N> {
    /// The voter configs; more than one during a joint change of membership.
    pub configs: Vec<NodeSet<NID>>,
    /// Every node, voter or learner, with its data.
    pub nodes: NodeMap<NID, N>,
}

impl<NID, N: Node> View for Membership<NID, N> {
    type V = MembershipView<NID, N::V>;

    open spec fn view(&self) -> MembershipView<NID, N::V> {
        MembershipView {
            configs: crate::quorum::configs_view(self.configs@),
            nodes: self.nodes@,
        }
    }
}

impl<NID: NodeId, N: Node> Clone for Membership<NID, N> {
    fn clone(&self) -> (r: Self)
        ensures
            r@ == self@,
    {
        Membership {
            configs: crate::quorum::copy_configs(&self.configs),
            nodes: self.nodes.clone(),
        }
    }
}

impl<NID: NodeId, N: Node> Membership<NID, N> {
    /// Creates a membership config.
    pub fn new(configs: Vec<NodeSet<NID>>, nodes: NodeMap<NID, N>) -> (r: Self)
        ensures
            r@ == (MembershipView {
                configs: crate::quorum::configs_view(configs@),
                nodes: nodes@,
            }),
    {
        Membership { configs, nodes }
    }

    /// A membership without any node.
    pub fn empty() -> (r: Self)
        ensures
            r@ == MembershipView::<NID, N::V>::empty(),
    {
        let r = Membership { configs: Vec::new(), nodes: NodeMap::new() };
        assert(r@ =~= MembershipView::<NID, N::V>::empty());
        r
    }

    /// Whether `id` is a voter in some config.
    pub fn is_voter(&self, id: &NID) -> (b: bool)
        ensures
            b == self@.is_voter(*id),
    {
        let mut i: usize = 0;
        while i < self.configs.len()
            invariant
                i <= self.configs.len(),
                forall|j: int| 0 <= j < i ==> !(#[trigger] self@.configs[j]).contains(*id),
            decreases self.configs.len() - i,
        {
            if self.configs[i].contains(id) {
                assert(self@.configs[i as int].contains(*id));
                return true;
            }
            i += 1;
        }
        false
    }

    /// The nodes that are not voters, in ascending order.
    pub fn learner_ids(&self) -> (r: Vec<NID>)
        ensures
            r@ == self@.learner_ids(),
    {
        let ghost ids = self@.nodes.map_values(|x: (NID, N::V)| x.0);
        let ghost p = |id: NID| !self@.is_voter(id);
        let mut r: Vec<NID> = Vec::new();
        let mut i: usize = 0;
        assert(ids.take(0).filter(p) =~= Seq::<NID>::empty()) by {
            reveal(Seq::filter);
        }
        while i < self.nodes.len()
            invariant
                ids == self@.nodes.map_values(|x: (NID, N::V)| x.0),
                p == (|id: NID| !self@.is_voter(id)),
                i <= self@.nodes.len(),
                r@ == ids.take(i as int).filter(p),
            decreases self@.nodes.len() - i,
        {
            let id = self.nodes.id_at(i);
            proof {
                reveal(Seq::filter);
                assert(ids.take(i + 1).drop_last() == ids.take(i as int));
                assert(ids.take(i + 1).last() == id);
            }
            if !self.is_voter(&id) {
                r.push(id);
            }
            i += 1;
        }
        assert(ids.take(i as int) == ids);
        r
    }

    /// The quorum set of this membership.
    pub fn to_quorum_set(&self) -> (r: QuorumSet<NID>)
        ensures
            r@ == self@.configs,
    {
        QuorumSet::new(&self.configs)
    }

    /// Whether two memberships are the same.
    pub fn same_as(&self, other: &Self) -> (b: bool)
        ensures
            b == (self@ == other@),
    {
        if self.configs.len() != other.configs.len() {
            assert(self@.configs.len() != other@.configs.len());
            return false;
        }
        let mut i: usize = 0;
        while i < self.configs.len()
            invariant
                i <= self.configs.len(),
                self.configs.len() == other.configs.len(),
                forall|j: int| 0 <= j < i ==> self@.configs[j] == other@.configs[j],
            decreases self.configs.len() - i,
        {
            if !self.configs[i].same_as(&other.configs[i]) {
                assert(self@.configs[i as int] != other@.configs[i as int]);
                return false;
            }
            i += 1;
        }
        assert(self@.configs =~= other@.configs);
        self.nodes.same_as(&other.nodes)
    }
}

/// The mathematical view of an [`EffectiveMembership`].
#[verifier::ext_equal]
pub struct EffectiveMembershipView<NID, NV> {
    /// The log that holds the config.
    pub log_id: Option<LogId<NID>>,
    /// The config.
    pub membership: MembershipView<NID, NV>,
}

impl<NID: NodeId, NV> EffectiveMembershipView<NID, NV> {
    /// The membership of a node that knows of none.
    pub open spec fn empty() -> Self {
        EffectiveMembershipView { log_id: None, membership: MembershipView::empty() }
    }
}

/// A membership config and the id of the log that holds it.
#[derive(Debug, PartialEq, Eq)]
pub struct EffectiveMembership<NID, N> {
    /// The log that holds the config.
    pub log_id: Option<LogId<NID>>,
    /// The config.
    pub membership: Membership<NID, N>,
}

impl<NID, N: Node> View for EffectiveMembership<NID, N> {
    type V = EffectiveMembershipView<NID, N::V>;

    open spec fn view(&self) -> EffectiveMembershipView<NID, N::V> {
        EffectiveMembershipView { log_id: self.log_id, membership: self.membership@ }
    }
}

impl<NID: NodeId, N: Node> Clone for EffectiveMembership<NID, N> {
    fn clone(&self) -> (r: Self)
        ensures
            r@ == self@,
    {
        EffectiveMembership { log_id: self.log_id, membership: self.membership.clone() }
    }
}

impl<NID: NodeId, N: Node> EffectiveMembership<NID, N> {
    /// Creates a membership that is held by the log `log_id`.
    pub fn new(log_id: Option<LogId<NID>>, membership: Membership<NID, N>) -> (r: Self)
        ensures
            r@ == (EffectiveMembershipView { log_id, membership: membership@ }),
    {
        EffectiveMembership { log_id, membership }
    }

    /// The membership of a node that knows of none.
    pub fn empty() -> (r: Self)
        ensures
            r@ == EffectiveMembershipView::<NID, N::V>::empty(),
    {
        EffectiveMembership { log_id: None, membership: Membership::empty() }
    }

    /// Whether two memberships are the same config held by the same log.
    pub fn same_as(&self, other: &Self) -> (b: bool)
        ensures
            b == (self@ == other@),
    {
        crate::log_id::opt_same(&self.log_id, &other.log_id) && self.membership.same_as(
            &other.membership,
        )
    }
}

/// The mathematical view of a [`MembershipState`].
#[verifier::ext_equal]
pub struct MembershipStateView<NID, NV> {
    /// The last committed membership.
    pub committed: EffectiveMembershipView<NID, NV>,
    /// The last membership, in effect whether committed or not.
    pub effective: EffectiveMembershipView<NID, NV>,
}

impl<NID: NodeId, NV> MembershipStateView<NID, NV> {
    /// With a membership that is known to be committed: it replaces a committed one of a lesser log
    /// id, and an effective one that is not after it in the log.
    ///
    /// A local effective membership may conflict with the leader, so it is compared by index.
    pub open spec fn adopt(self, m: EffectiveMembershipView<NID, NV>) -> Self {
        MembershipStateView {
            committed: if crate::log_id::opt_lt(self.committed.log_id, m.log_id) {
                m
            } else {
                self.committed
            },
            effective: if crate::log_id::next_index(self.effective.log_id)
                <= crate::log_id::next_index(m.log_id) {
                m
            } else {
                self.effective
            },
        }
    }
}

/// The membership configs that a node knows of.
#[derive(Debug, PartialEq, Eq)]
pub struct MembershipState<NID, N> {
    /// The last committed membership.
    pub committed: Arc<EffectiveMembership<NID, N>>,
    /// The last membership, in effect whether committed or not.
    pub effective: Arc<EffectiveMembership<NID, N>>,
}

impl<NID, N: Node> View for MembershipState<NID, N> {
    type V = MembershipStateView<NID, N::V>;

    open spec fn view(&self) -> MembershipStateView<NID, N::V> {
        MembershipStateView { committed: self.committed@, effective: self.effective@ }
    }
}

impl<NID: NodeId, N: Node> Clone for MembershipState<NID, N> {
    fn clone(&self) -> (r: Self)
        ensures
            r@ == self@,
    {
        MembershipState { committed: self.committed.clone(), effective: self.effective.clone() }
    }
}

impl<NID: NodeId, N: Node> MembershipState<NID, N> {
    /// The state of a node that knows of no membership.
    pub fn empty() -> (r: Self)
        ensures
            r@ == (MembershipStateView {
                committed: EffectiveMembershipView::<NID, N::V>::empty(),
                effective: EffectiveMembershipView::<NID, N::V>::empty(),
            }),
    {
        MembershipState {
            committed: Arc::new(EffectiveMembership::empty()),
            effective: Arc::new(EffectiveMembership::empty()),
        }
    }

    /// Whether `id` is a voter in the effective membership.
    pub fn is_voter(&self, id: &NID) -> (b: bool)
        ensures
            b == self@.effective.membership.is_voter(*id),
    {
        self.effective.membership.is_voter(id)
    }
}

/// A voter is a member of some config. The learners are the nodes that are not voters.
pub proof fn a_node_is_a_voter_or_a_learner<NID: NodeId, NV>(m: MembershipView<NID, NV>, id: NID)
    ensures
        m.is_voter(id) <==> crate::quorum::union_ids(m.configs).contains(id),
        m.is_voter(id) <==> exists|i: int|
            0 <= i < m.configs.len() && (#[trigger] m.configs[i]).contains(id),
        m.learner_ids().contains(id) <==> !m.is_voter(id) && exists|i: int|
            0 <= i < m.nodes.len() && (#[trigger] m.nodes[i]).0 == id,
{
    crate::quorum::union_holds_every_member(m.configs);
    let ids = m.nodes.map_values(|x: (NID, NV)| x.0);
    let p = |id: NID| !m.is_voter(id);
    if m.learner_ids().contains(id) {
        ids.lemma_filter_contains_rev(p, id);
        let k = ids.filter(p).index_of(id);
        ids.lemma_filter_pred(p, k);
        let i = ids.index_of(id);
        assert(m.nodes[i].0 == id);
    }
    if !m.is_voter(id) && exists|i: int|
        0 <= i < m.nodes.len() && (#[trigger] m.nodes[i]).0 == id {
        let i = choose|i: int| 0 <= i < m.nodes.len() && (#[trigger] m.nodes[i]).0 == id;
        assert(ids[i] == id);
        ids.lemma_filter_contains(p, i);
    }
}

/// A membership that is known to be committed is the committed one if its log id is greater, and the
/// effective one if its index is not less. Otherwise both stay.
pub proof fn a_committed_membership_is_adopted<NID: NodeId, NV>(
    old: MembershipStateView<NID, NV>,
    m: EffectiveMembershipView<NID, NV>,
)
    ensures
        crate::log_id::opt_lt(old.committed.log_id, m.log_id) ==> old.adopt(m).committed == m,
        crate::log_id::opt_le(m.log_id, old.committed.log_id) ==> old.adopt(m).committed
            == old.committed,
        old.effective.log_id is None ==> old.adopt(m).effective == m,
        m.log_id is None && old.effective.log_id is Some ==> old.adopt(m).effective
            == old.effective,
        m.log_id is Some && old.effective.log_id is Some ==> old.adopt(m).effective == (if (
        m.log_id->0).index >= (old.effective.log_id->0).index {
            m
        } else {
            old.effective
        }),
{
}

/// The learners are in the order of the nodes: one more node is one more learner at the end, unless it is
/// a voter.
pub proof fn learners_are_in_order<NID: NodeId, NV>(m: MembershipView<NID, NV>, x: (NID, NV))
    ensures
        m.nodes.len() == 0 ==> m.learner_ids().len() == 0,
        ({
            let more = MembershipView { configs: m.configs, nodes: m.nodes.push(x) };
            more.learner_ids() == (if crate::quorum::union_ids(m.configs).contains(x.0) {
                m.learner_ids()
            } else {
                m.learner_ids().push(x.0)
            })
        }),
{
    reveal(Seq::filter);
    a_node_is_a_voter_or_a_learner(m, x.0);
    let more = MembershipView { configs: m.configs, nodes: m.nodes.push(x) };
    let ids = m.nodes.map_values(|x: (NID, NV)| x.0);
    let longer = more.nodes.map_values(|x: (NID, NV)| x.0);
    assert(longer =~= ids.push(x.0));
    assert(longer.drop_last() =~= ids);
    let p = |id: NID| !m.is_voter(id);
    let q = |id: NID| !more.is_voter(id);
    assert forall|id: NID| #[trigger] p(id) == q(id) by {
        a_node_is_a_voter_or_a_learner(m, id);
        a_node_is_a_voter_or_a_learner(more, id);
    }
    assert(p =~= q);
}

} // verus!
