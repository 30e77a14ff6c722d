//! Leader ids and votes.
use vstd::prelude::*;

use crate::node::NodeId;

verus! {

/// Identifies a leader: the term it was elected in and its node id.
///
/// Leader ids are ordered by term, then by node id.
#[derive(Copy, Debug, PartialEq, Eq)]
pub struct LeaderId<NID> {
    /// The term of the leader.
    pub term: u64,
    /// The node that is the leader.
    pub node_id: NID,
}

impl<NID: Copy> Clone for LeaderId<NID> {
    fn clone(&self) -> (r: Self)
        ensures
            r == *self,
    {
        *self
    }
}

impl<NID: NodeId> LeaderId<NID> {
    /// The strict order of leader ids.
    pub open spec fn lt(self, other: Self) -> bool {
        self.term < other.term || (self.term == other.term && self.node_id.rank()
            < other.node_id.rank())
    }

    /// The order of leader ids.
    pub open spec fn le(self, other: Self) -> bool {
        !other.lt(self)
    }

    /// Creates a leader id.
    pub fn new(term: u64, node_id: NID) -> (r: Self)
        ensures
            r == (LeaderId { term, node_id }),
    {
        LeaderId { term, node_id }
    }

    /// Whether this leader id is less than `other`.
    pub fn less_than(&self, other: &Self) -> (b: bool)
        ensures
            b == self.lt(*other),
    {
        self.term < other.term || (self.term == other.term && self.node_id.precedes(&other.node_id))
    }

    /// Whether this leader id equals `other`.
    pub fn same_as(&self, other: &Self) -> (b: bool)
        ensures
            b == (*self == *other),
    {
        self.term == other.term && self.node_id.same_id(&other.node_id)
    }
}

/// A vote for a node to lead in a term.
///
/// Votes are ordered by term, then by node id; a committed vote is greater than the same vote
/// that is not committed.
#[derive(Copy, Debug, PartialEq, Eq)]
pub struct Vote<NID> {
    /// The term of the election.
    pub term: u64,
    /// The node that is voted for.
    pub node_id: NID,
    /// Whether a quorum has granted this vote.
    pub committed: bool,
}

impl<NID: Copy> Clone for Vote<NID> {
    fn clone(&self) -> (r: Self)
        ensures
            r == *self,
    {
        *self
    }
}

impl<NID: NodeId> Vote<NID> {
    /// The strict order of votes.
    pub open spec fn lt(self, other: Self) -> bool {
        self.spec_leader_id().lt(other.spec_leader_id()) || (self.spec_leader_id()
            == other.spec_leader_id() && !self.committed && other.committed)
    }

    /// The order of votes.
    pub open spec fn le(self, other: Self) -> bool {
        !other.lt(self)
    }

    /// The leader that this vote is for.
    pub open spec fn spec_leader_id(self) -> LeaderId<NID> {
        LeaderId { term: self.term, node_id: self.node_id }
    }

    /// The vote of a node that has not voted for anyone: the minimal vote.
    pub open spec fn spec_default_vote() -> Self {
        Vote { term: 0, node_id: NID::spec_default_id(), committed: false }
    }

    /// Creates a vote that is not committed.
    pub fn new(term: u64, node_id: NID) -> (r: Self)
        ensures
            r == (Vote { term, node_id, committed: false }),
    {
        Vote { term, node_id, committed: false }
    }

    /// Creates a committed vote.
    pub fn new_committed(term: u64, node_id: NID) -> (r: Self)
        ensures
            r == (Vote { term, node_id, committed: true }),
    {
        Vote { term, node_id, committed: true }
    }

    /// The vote of a node that has not voted for anyone.
    pub fn default_vote() -> (r: Self)
        ensures
            r == Self::spec_default_vote(),
    {
        Vote { term: 0, node_id: NID::default_id(), committed: false }
    }

    /// Marks the vote as granted by a quorum.
    pub fn commit(&mut self)
        ensures
            *final(self) == (Vote { committed: true, ..*old(self) }),
    {
        self.committed = true;
    }

    /// The leader that this vote is for.
    pub fn leader_id(&self) -> (r: LeaderId<NID>)
        ensures
            r == self.spec_leader_id(),
    {
        LeaderId { term: self.term, node_id: self.node_id }
    }

    /// Whether this vote is less than `other`.
    pub fn less_than(&self, other: &Self) -> (b: bool)
        ensures
            b == self.lt(*other),
    {
        let a = self.leader_id();
        let b = other.leader_id();
        a.less_than(&b) || (a.same_as(&b) && !self.committed && other.committed)
    }

    /// Whether this vote equals `other`.
    pub fn same_as(&self, other: &Self) -> (b: bool)
        ensures
            b == (*self == *other),
    {
        self.term == other.term && self.node_id.same_id(&other.node_id) && self.committed
            == other.committed
    }
}

/// Votes are totally ordered: the order is transitive, and two votes of which neither is less are
/// equal.
pub proof fn vote_order_is_total<NID: NodeId>(a: Vote<NID>, b: Vote<NID>, c: Vote<NID>)
    ensures
        !a.lt(a),
        a.lt(b) && b.lt(c) ==> a.lt(c),
        a.le(b) && b.le(c) ==> a.le(c),
        a.le(b) && b.le(a) ==> a == b,
        a.lt(b) ==> a.le(b),
{
    if a.node_id.rank() == b.node_id.rank() {
        NID::rank_is_injective(a.node_id, b.node_id);
    }
    if b.node_id.rank() == c.node_id.rank() {
        NID::rank_is_injective(b.node_id, c.node_id);
    }
    if a.node_id.rank() == c.node_id.rank() {
        NID::rank_is_injective(a.node_id, c.node_id);
    }
}

/// Votes are ordered by the term, then by the node, and a committed vote is greater than the same vote
/// that is not. Two votes are for the same leader if the term and the node are the same.
pub proof fn votes_are_ordered_by_term_and_node<NID: NodeId>(a: Vote<NID>, b: Vote<NID>)
    ensures
        a.term < b.term ==> a.lt(b),
        a.term == b.term && a.node_id.rank() < b.node_id.rank() ==> a.lt(b),
        a.term == b.term && a.node_id == b.node_id ==> (a.lt(b) <==> !a.committed && b.committed),
        a.lt(b) || b.lt(a) || a == b,
        !(a.lt(b) && b.lt(a)),
        a.le(b) <==> a.lt(b) || a == b,
        a.spec_leader_id() == b.spec_leader_id() <==> a.term == b.term && a.node_id == b.node_id,
        a.spec_leader_id().term == a.term && a.spec_leader_id().node_id == a.node_id,
{
    if a.node_id.rank() == b.node_id.rank() {
        NID::rank_is_injective(a.node_id, b.node_id);
    }
}

/// Leader ids are ordered by the term, then by the node.
pub proof fn leaders_are_ordered_by_term_and_node<NID: NodeId>(a: LeaderId<NID>, b: LeaderId<NID>)
    ensures
        a.term < b.term ==> a.lt(b),
        a.term == b.term && a.node_id.rank() < b.node_id.rank() ==> a.lt(b),
        a.lt(b) || b.lt(a) || a == b,
        !(a.lt(b) && b.lt(a)),
        a.le(b) <==> a.lt(b) || a == b,
{
    if a.node_id.rank() == b.node_id.rank() {
        NID::rank_is_injective(a.node_id, b.node_id);
    }
}

/// The vote of a node that has not voted is for term 0 and not committed.
pub proof fn the_default_vote_is_for_no_term<NID: NodeId>()
    ensures
        Vote::<NID>::spec_default_vote().term == 0,
        Vote::<NID>::spec_default_vote().node_id == NID::spec_default_id(),
        !Vote::<NID>::spec_default_vote().committed,
{
}

} // verus!
