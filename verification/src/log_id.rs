//! Log ids, and the order of optional log ids.
use vstd::prelude::*;

use crate::node::NodeId;
use crate::vote::LeaderId;

verus! {

/// Identifies a log entry: the leader that proposed it and its position in the log.
///
/// Log ids are ordered by leader id, then by index.
#[derive(Copy, Debug, PartialEq, Eq)]
pub struct LogId<NID> {
    /// The leader that proposed the entry.
    pub leader_id: LeaderId<NID>,
    /// The position of the entry in the log; the first entry has index 0.
    pub index: u64,
}

impl<NID: Copy> Clone for LogId<NID> {
    fn clone(&self) -> (r: Self)
        ensures
            r == *self,
    {
        *self
    }
}

impl<NID: NodeId> LogId<NID> {
    /// The strict order of log ids.
    pub open spec fn lt(self, other: Self) -> bool {
        self.leader_id.lt(other.leader_id) || (self.leader_id == other.leader_id && self.index
            < other.index)
    }

    /// The order of log ids.
    pub open spec fn le(self, other: Self) -> bool {
        !other.lt(self)
    }

    /// Creates a log id.
    pub fn new(leader_id: LeaderId<NID>, index: u64) -> (r: Self)
        ensures
            r == (LogId { leader_id, index }),
    {
        LogId { leader_id, index }
    }

    /// Whether this log id is less than `other`.
    pub fn less_than(&self, other: &Self) -> (b: bool)
        ensures
            b == self.lt(*other),
    {
        self.leader_id.less_than(&other.leader_id) || (self.leader_id.same_as(&other.leader_id)
            && self.index < other.index)
    }

    /// Whether this log id equals `other`.
    pub fn same_as(&self, other: &Self) -> (b: bool)
        ensures
            b == (*self == *other),
    {
        self.leader_id.same_as(&other.leader_id) && self.index == other.index
    }
}

/// The strict order of optional log ids: `None` is less than every log id.
pub open spec fn opt_lt<NID: NodeId>(a: Option<LogId<NID>>, b: Option<LogId<NID>>) -> bool {
    match (a, b) {
        (_, None) => false,
        (None, Some(_)) => true,
        (Some(x), Some(y)) => x.lt(y),
    }
}

/// The order of optional log ids.
pub open spec fn opt_le<NID: NodeId>(a: Option<LogId<NID>>, b: Option<LogId<NID>>) -> bool {
    !opt_lt(b, a)
}

/// The greater of two optional log ids.
pub open spec fn opt_max<NID: NodeId>(
    a: Option<LogId<NID>>,
    b: Option<LogId<NID>>,
) -> Option<LogId<NID>> {
    if opt_lt(b, a) {
        a
    } else {
        b
    }
}

/// The lesser of two optional log ids.
pub open spec fn opt_min<NID: NodeId>(
    a: Option<LogId<NID>>,
    b: Option<LogId<NID>>,
) -> Option<LogId<NID>> {
    if opt_lt(b, a) {
        b
    } else {
        a
    }
}

/// The index that follows `log_id`: 0 if there is no log id.
///
/// It orders optional log ids by their index alone.
pub open spec fn next_index<NID>(log_id: Option<LogId<NID>>) -> int {
    match log_id {
        None => 0,
        Some(x) => x.index + 1,
    }
}

/// Whether `ids` directly follow `prev`, with consecutive indexes and in total order.
pub open spec fn follow_in_order<NID: NodeId>(
    prev: Option<LogId<NID>>,
    ids: Seq<LogId<NID>>,
) -> bool {
    &&& forall|i: int|
        0 <= i < ids.len() ==> (#[trigger] ids[i]).index == next_index(prev) + i
    &&& ids.len() > 0 ==> opt_lt(prev, Some(ids[0]))
    &&& forall|i: int, j: int|
        #![trigger ids[i], ids[j]]
        0 <= i < j < ids.len() ==> ids[i].lt(ids[j])
}

/// Whether `a` is less than `b`.
pub fn opt_less_than<NID: NodeId>(a: &Option<LogId<NID>>, b: &Option<LogId<NID>>) -> (r: bool)
    ensures
        r == opt_lt(*a, *b),
{
    match (a, b) {
        (_, None) => false,
        (None, Some(_)) => true,
        (Some(x), Some(y)) => x.less_than(y),
    }
}

/// Whether two optional log ids are equal.
pub fn opt_same<NID: NodeId>(a: &Option<LogId<NID>>, b: &Option<LogId<NID>>) -> (r: bool)
    ensures
        r == (*a == *b),
{
    match (a, b) {
        (None, None) => true,
        (Some(x), Some(y)) => x.same_as(y),
        _ => false,
    }
}

/// Whether the index of `a` is at most the index of `b`; no index is less than any index.
pub fn index_at_most<NID: NodeId>(a: &Option<LogId<NID>>, b: &Option<LogId<NID>>) -> (r: bool)
    ensures
        r == (next_index(*a) <= next_index(*b)),
{
    match (a, b) {
        (None, _) => true,
        (Some(_), None) => false,
        (Some(x), Some(y)) => x.index <= y.index,
    }
}

/// The index that follows `log_id`.
pub fn following_index<NID: NodeId>(log_id: &Option<LogId<NID>>) -> (r: u64)
    requires
        next_index(*log_id) <= u64::MAX,
    ensures
        r == next_index(*log_id),
{
    match log_id {
        None => 0,
        Some(x) => x.index + 1,
    }
}

/// Log ids are totally ordered: the order is transitive, and two log ids of which neither is less
/// are equal.
pub proof fn log_id_order_is_total<NID: NodeId>(a: LogId<NID>, b: LogId<NID>, c: LogId<NID>)
    ensures
        !a.lt(a),
        a.lt(b) && b.lt(c) ==> a.lt(c),
        a.le(b) && b.le(c) ==> a.le(c),
        a.le(b) && b.le(a) ==> a == b,
        a.lt(b) ==> a.le(b),
{
    if a.leader_id.node_id.rank() == b.leader_id.node_id.rank() {
        NID::rank_is_injective(a.leader_id.node_id, b.leader_id.node_id);
    }
    if b.leader_id.node_id.rank() == c.leader_id.node_id.rank() {
        NID::rank_is_injective(b.leader_id.node_id, c.leader_id.node_id);
    }
    if a.leader_id.node_id.rank() == c.leader_id.node_id.rank() {
        NID::rank_is_injective(a.leader_id.node_id, c.leader_id.node_id);
    }
}

/// Optional log ids are totally ordered.
pub proof fn opt_order_is_total<NID: NodeId>(
    a: Option<LogId<NID>>,
    b: Option<LogId<NID>>,
    c: Option<LogId<NID>>,
)
    ensures
        !opt_lt(a, a),
        opt_lt(a, b) && opt_lt(b, c) ==> opt_lt(a, c),
        opt_le(a, b) && opt_le(b, c) ==> opt_le(a, c),
        opt_le(a, b) && opt_le(b, a) ==> a == b,
        opt_lt(a, b) ==> opt_le(a, b),
{
    if a is Some && b is Some && c is Some {
        log_id_order_is_total(a->0, b->0, c->0);
    } else if a is Some && b is Some {
        log_id_order_is_total(a->0, b->0, b->0);
    } else if b is Some && c is Some {
        log_id_order_is_total(b->0, c->0, c->0);
    } else if a is Some {
        log_id_order_is_total(a->0, a->0, a->0);
    }
}

/// Log ids are ordered by the leader, and those of the same leader by the index. No log id is less than
/// any log id.
pub proof fn log_ids_are_ordered_by_leader_and_index<NID: NodeId>(a: LogId<NID>, b: LogId<NID>)
    ensures
        a.leader_id.lt(b.leader_id) ==> a.lt(b),
        a.leader_id == b.leader_id ==> (a.lt(b) <==> a.index < b.index),
        a.lt(b) || b.lt(a) || a == b,
        !(a.lt(b) && b.lt(a)),
        a.le(b) <==> a.lt(b) || a == b,
        opt_lt(Some(a), Some(b)) <==> a.lt(b),
        opt_lt(None, Some(a)),
        !opt_lt(Some(a), None),
        !opt_lt(None::<LogId<NID>>, None),
        opt_le(Some(a), Some(b)) <==> a.le(b),
        opt_le(None, Some(a)),
        !opt_le(Some(a), None),
        opt_le(None::<LogId<NID>>, None),
        next_index(Some(a)) == a.index + 1,
        next_index(None::<LogId<NID>>) == 0,
{
    crate::vote::leaders_are_ordered_by_term_and_node(a.leader_id, b.leader_id);
}

/// The greater and the lesser of two optional log ids are these two, in order.
pub proof fn max_and_min_are_in_order<NID: NodeId>(a: Option<LogId<NID>>, b: Option<LogId<NID>>)
    ensures
        opt_max(a, b) == a || opt_max(a, b) == b,
        opt_le(a, opt_max(a, b)) && opt_le(b, opt_max(a, b)),
        opt_min(a, b) == a || opt_min(a, b) == b,
        opt_le(opt_min(a, b), a) && opt_le(opt_min(a, b), b),
{
    opt_order_is_total(a, b, a);
    opt_order_is_total(b, a, b);
}

} // verus!
