//! What the engine needs to know of node ids and of the data attached to a node.
use vstd::prelude::*;

verus! {

/// The id of a node in the cluster.
///
/// Ids are totally ordered. An id is a fixed-size value, so the order is given by an integer,
/// the rank of the id.
pub trait NodeId: Copy + Sized {
    /// The position of this id in the total order of ids.
    spec fn rank(self) -> int;

    /// The id that a vote holds before the node has voted for anyone.
    spec fn spec_default_id() -> Self;

    /// Two ids of the same rank are the same id.
    proof fn rank_is_injective(a: Self, b: Self)
        requires
            a.rank() == b.rank(),
        ensures
            a == b,
    ;

    /// The default id.
    fn default_id() -> (id: Self)
        ensures
            id == Self::spec_default_id(),
    ;

    /// Whether this id is less than `other`.
    fn precedes(&self, other: &Self) -> (b: bool)
        ensures
            b == (self.rank() < other.rank()),
    ;

    /// Whether this id equals `other`.
    fn same_id(&self, other: &Self) -> (b: bool)
        ensures
            b == (*self == *other),
    ;
}

impl NodeId for u64 {
    open spec fn rank(self) -> int {
        self as int
    }

    open spec fn spec_default_id() -> u64 {
        0
    }

    proof fn rank_is_injective(a: u64, b: u64) {
    }

    fn default_id() -> (id: u64) {
        0
    }

    fn precedes(&self, other: &u64) -> (b: bool) {
        *self < *other
    }

    fn same_id(&self, other: &u64) -> (b: bool) {
        *self == *other
    }
}

/// Application data attached to a node in a membership config, such as its address.
///
/// The engine only carries it, copies it and compares it.
pub trait Node: View + Sized {
    /// A copy of the node data.
    fn copy_node(&self) -> (n: Self)
        ensures
            n@ == self@,
    ;

    /// Whether two nodes hold the same data.
    fn same_node(&self, other: &Self) -> (b: bool)
        ensures
            b == (self@ == other@),
    ;
}

impl Node for () {
    fn copy_node(&self) -> (n: ()) {
    }

    fn same_node(&self, other: &()) -> (b: bool) {
        true
    }
}

/// A node that is reached at an address.
#[derive(Debug, PartialEq, Eq)]
pub struct BasicNode {
    /// The address of the node.
    pub addr: String,
}

impl View for BasicNode {
    type V = Seq<char>;

    open spec fn view(&self) -> Seq<char> {
        self.addr@
    }
}

impl Clone for BasicNode {
    fn clone(&self) -> (r: Self)
        ensures
            r == *self,
    {
        BasicNode { addr: self.addr.clone() }
    }
}

impl Node for BasicNode {
    fn copy_node(&self) -> (n: BasicNode) {
        BasicNode { addr: self.addr.clone() }
    }

    fn same_node(&self, other: &BasicNode) -> (b: bool) {
        self.addr == other.addr
    }
}

/// Ids that are numbers are ordered as numbers, and the default one is 0.
pub proof fn numbers_are_ordered_by_value(a: u64, b: u64)
    ensures
        a.rank() < b.rank() <==> a < b,
        <u64 as NodeId>::spec_default_id() == 0,
{
}

/// Two nodes hold the same data if and only if their addresses are the same.
pub proof fn nodes_are_told_apart_by_address(a: BasicNode, b: BasicNode)
    ensures
        a@ == b@ <==> a.addr@ == b.addr@,
{
}

} // verus!
