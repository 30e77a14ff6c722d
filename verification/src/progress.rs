//! How far the logs of a leader are replicated, and which of them a quorum holds.
use vstd::prelude::*;

use crate::log_id::LogId;
use crate::node::NodeId;
use crate::node_set::NodeSet;
use crate::quorum::QuorumSet;

verus! {

/// The last log that a node is known to hold.
pub type Matched<NID> = (NID, Option<LogId<NID>>);

/// The position of the first element for node `id`.
pub open spec fn position_of<NID>(vector: Seq<Matched<NID>>, id: NID) -> Option<int>
    decreases vector.len(),
{
    if vector.len() == 0 {
        None
    } else {
        match position_of(vector.drop_last(), id) {
            Some(i) => Some(i),
            None => if vector.last().0 == id {
                Some(vector.len() - 1)
            } else {
                None
            },
        }
    }
}

proof fn lemma_position_in_prefix<NID>(vector: Seq<Matched<NID>>, n: int, id: NID)
    requires
        0 <= n <= vector.len(),
        position_of(vector.take(n), id) is Some,
    ensures
        position_of(vector, id) == position_of(vector.take(n), id),
    decreases vector.len(),
{
    if n < vector.len() {
        assert(vector.drop_last().take(n) == vector.take(n));
        lemma_position_in_prefix(vector.drop_last(), n, id);
    } else {
        assert(vector.take(n) == vector);
    }
}

/// The position of a node is that of an element for this node, and there is none only if no
/// element is for it.
pub proof fn position_is_of_the_node<NID>(vector: Seq<Matched<NID>>, id: NID)
    ensures
        match position_of(vector, id) {
            Some(i) => 0 <= i < vector.len() && vector[i].0 == id,
            None => forall|i: int| 0 <= i < vector.len() ==> (#[trigger] vector[i]).0 != id,
        },
    decreases vector.len(),
{
    if vector.len() > 0 {
        let front = vector.drop_last();
        position_is_of_the_node(front, id);
        assert forall|i: int|
            position_of(vector, id) is None && 0 <= i
                < vector.len() implies (#[trigger] vector[i]).0 != id by {
            if i < front.len() {
                assert(front[i] == vector[i]);
            }
        }
    }
}

/// Those of `voters` that hold `log_id`.
pub open spec fn holders_among<NID: NodeId>(
    voters: Seq<Matched<NID>>,
    log_id: Option<LogId<NID>>,
) -> Seq<NID> {
    voters.filter(|x: Matched<NID>| crate::log_id::opt_le(log_id, x.1)).map_values(
        |x: Matched<NID>| x.0,
    )
}

/// The mathematical view of a [`Progress`].
#[verifier::ext_equal]
pub struct ProgressView<NID> {
    /// The configs that determine what a quorum is.
    pub configs: Seq<Seq<NID>>,
    /// The greatest log that a quorum is known to hold.
    pub granted: Option<LogId<NID>>,
    /// The number of voters.
    pub voter_count: nat,
    /// The last log of every node: first the voters, then the learners.
    pub vector: Seq<Matched<NID>>,
}

impl<NID: NodeId> ProgressView<NID> {
    /// Whether the voters are among the nodes.
    pub open spec fn wf(self) -> bool {
        self.voter_count <= self.vector.len()
    }

    /// The progress of the voters.
    pub open spec fn voters(self) -> Seq<Matched<NID>> {
        self.vector.take(self.voter_count as int)
    }

    /// The voters that hold `log_id`.
    pub open spec fn holders(self, log_id: Option<LogId<NID>>) -> Seq<NID> {
        holders_among(self.voters(), log_id)
    }

    /// Whether a quorum holds `log_id`.
    pub open spec fn is_granted(self, log_id: Option<LogId<NID>>) -> bool {
        crate::quorum::is_quorum(self.configs, self.holders(log_id))
    }

    /// The greatest of `least` and of those last logs of the first `n` voters that a quorum holds.
    pub open spec fn greatest_granted(self, n: int, least: Option<LogId<NID>>) -> Option<LogId<NID>>
        decreases n,
    {
        if n <= 0 {
            least
        } else {
            let best = self.greatest_granted(n - 1, least);
            let log_id = self.vector[n - 1].1;
            if crate::log_id::opt_lt(best, log_id) && self.is_granted(log_id) {
                log_id
            } else {
                best
            }
        }
    }

    /// With `granted` raised to the greatest log that a quorum holds.
    pub open spec fn with_granted(self) -> Self {
        ProgressView {
            granted: self.greatest_granted(self.voter_count as int, self.granted),
            ..self
        }
    }

    /// Whether no last log of a voter is greater than `granted` and held by a quorum.
    pub open spec fn granted_is_greatest(self) -> bool {
        forall|i: int|
            0 <= i < self.voter_count && self.is_granted((#[trigger] self.vector[i]).1)
                ==> crate::log_id::opt_le(self.vector[i].1, self.granted)
    }

    /// Whether a quorum holds `granted`, if there is one.
    pub open spec fn granted_is_held(self) -> bool {
        self.granted is Some ==> self.is_granted(self.granted)
    }

    /// The last log that node `id` is known to hold.
    pub open spec fn matched(self, id: NID) -> Option<LogId<NID>> {
        match position_of(self.vector, id) {
            Some(i) => self.vector[i].1,
            None => None,
        }
    }

    /// Nothing is known of any node yet.
    pub open spec fn initial(configs: Seq<Seq<NID>>, learner_ids: Seq<NID>) -> Self {
        let voter_ids = crate::quorum::union_ids(configs);
        ProgressView {
            configs,
            granted: None,
            voter_count: voter_ids.len(),
            vector: (voter_ids + learner_ids).map_values(|id: NID| (id, None::<LogId<NID>>)),
        }
    }

    /// Node `id` holds `log_id`: what a quorum holds is recalculated if the node is a voter.
    pub open spec fn update(self, id: NID, log_id: Option<LogId<NID>>) -> Self {
        match position_of(self.vector, id) {
            None => self,
            Some(i) => {
                let updated = ProgressView {
                    vector: self.vector.update(i, (id, log_id)),
                    ..self
                };
                if i < self.voter_count && log_id != self.vector[i].1 {
                    updated.with_granted()
                } else {
                    updated
                }
            },
        }
    }

    /// The progress for another quorum set, with what is known of each node kept.
    pub open spec fn upgrade(self, configs: Seq<Seq<NID>>, learner_ids: Seq<NID>) -> Self {
        let fresh = Self::initial(configs, learner_ids);
        ProgressView {
            vector: fresh.vector.map_values(|x: Matched<NID>| (x.0, self.matched(x.0))),
            ..fresh
        }.with_granted()
    }
}

proof fn lemma_greatest_granted<NID: NodeId>(p: ProgressView<NID>, n: int, least: Option<LogId<NID>>)
    requires
        p.wf(),
        0 <= n <= p.voter_count,
    ensures
        ({
            let g = p.greatest_granted(n, least);
            &&& crate::log_id::opt_le(least, g)
            &&& g == least || p.is_granted(g)
            &&& forall|i: int|
                0 <= i < n && p.is_granted((#[trigger] p.vector[i]).1) ==> crate::log_id::opt_le(
                    p.vector[i].1,
                    g,
                )
        }),
    decreases n,
{
    if n <= 0 {
        crate::log_id::opt_order_is_total(least, least, least);
    } else {
        lemma_greatest_granted(p, n - 1, least);
        let best = p.greatest_granted(n - 1, least);
        let g = p.greatest_granted(n, least);
        crate::log_id::opt_order_is_total(least, best, g);
        assert forall|i: int| 0 <= i < n && p.is_granted((#[trigger] p.vector[i]).1) implies
            crate::log_id::opt_le(p.vector[i].1, g) by {
            crate::log_id::opt_order_is_total(p.vector[i].1, best, g);
        }
        crate::log_id::opt_order_is_total(best, g, g);
    }
}

/// What is granted is held by a quorum (unless it was granted before), never goes back, and no
/// voter's last log that a quorum holds is greater.
pub proof fn granted_is_the_greatest_held_by_a_quorum<NID: NodeId>(p: ProgressView<NID>)
    requires
        p.wf(),
    ensures
        ({
            let g = p.with_granted().granted;
            &&& crate::log_id::opt_le(p.granted, g)
            &&& g == p.granted || p.is_granted(g)
            &&& forall|i: int|
                0 <= i < p.voter_count && p.is_granted((#[trigger] p.vector[i]).1)
                    ==> crate::log_id::opt_le(p.vector[i].1, g)
        }),
{
    lemma_greatest_granted(p, p.voter_count as int, p.granted);
}

/// A progress that knows nothing grants nothing, and there is nothing that it could grant.
pub proof fn nothing_is_granted_at_first<NID: NodeId>(
    configs: Seq<Seq<NID>>,
    learner_ids: Seq<NID>,
)
    ensures
        ProgressView::initial(configs, learner_ids).granted_is_greatest(),
        ProgressView::initial(configs, learner_ids).granted_is_held(),
{
}

/// Whatever a node is said to hold, what is granted stays the greatest log that a quorum holds.
pub proof fn updating_keeps_granted_the_greatest<NID: NodeId>(
    p: ProgressView<NID>,
    id: NID,
    log_id: Option<LogId<NID>>,
)
    requires
        p.wf(),
        p.granted_is_greatest(),
    ensures
        p.update(id, log_id).granted_is_greatest(),
{
    position_is_of_the_node(p.vector, id);
    if let Some(i) = position_of(p.vector, id) {
        let updated = ProgressView { vector: p.vector.update(i, (id, log_id)), ..p };
        let after = p.update(id, log_id);
        assert(after.voters() == updated.voters());
        if i < p.voter_count && log_id != p.vector[i].1 {
            granted_is_the_greatest_held_by_a_quorum(updated);
            assert forall|k: int|
                0 <= k < after.voter_count && after.is_granted(
                    (#[trigger] after.vector[k]).1,
                ) implies crate::log_id::opt_le(after.vector[k].1, after.granted) by {
                assert(updated.is_granted(updated.vector[k].1));
            }
        } else {
            assert(after.voters() =~= p.voters());
            assert forall|k: int|
                0 <= k < after.voter_count && after.is_granted(
                    (#[trigger] after.vector[k]).1,
                ) implies crate::log_id::opt_le(after.vector[k].1, after.granted) by {
                assert(after.vector[k].1 == p.vector[k].1);
                assert(p.is_granted(p.vector[k].1));
            }
        }
    }
}

/// A quorum holds what is granted, as long as no node loses logs.
pub proof fn updating_keeps_granted_held<NID: NodeId>(
    p: ProgressView<NID>,
    id: NID,
    log_id: Option<LogId<NID>>,
)
    requires
        p.wf(),
        p.granted_is_held(),
        crate::log_id::opt_le(p.matched(id), log_id),
    ensures
        p.update(id, log_id).granted_is_held(),
{
    position_is_of_the_node(p.vector, id);
    if let Some(i) = position_of(p.vector, id) {
        let updated = ProgressView { vector: p.vector.update(i, (id, log_id)), ..p };
        let after = p.update(id, log_id);
        assert(after.voters() == updated.voters());
        if p.granted is Some {
            let granted = p.granted;
            let before = p.voters();
            let voters = updated.voters();
            let holds = |x: Matched<NID>| crate::log_id::opt_le(granted, x.1);
            assert forall|n: NID| #[trigger] p.holders(granted).contains(n) implies updated.holders(
                granted,
            ).contains(n) by {
                let j = p.holders(granted).index_of(n);
                let x = before.filter(holds)[j];
                before.lemma_filter_pred(holds, j);
                assert(before.filter(holds).contains(x));
                before.lemma_filter_contains_rev(holds, x);
                let k = before.index_of(x);
                assert(voters[k].0 == n);
                crate::log_id::opt_order_is_total(granted, before[k].1, voters[k].1);
                assert(holds(voters[k]));
                voters.lemma_filter_contains(holds, k);
                let l = voters.filter(holds).index_of(voters[k]);
                assert(updated.holders(granted)[l] == n);
            }
            crate::quorum::more_nodes_keep_a_quorum(
                p.configs,
                p.holders(granted),
                updated.holders(granted),
            );
        }
        granted_is_the_greatest_held_by_a_quorum(updated);
    }
}

/// A change of membership makes the greatest log that a quorum of the new membership holds the
/// granted one.
pub proof fn upgrading_grants_the_greatest<NID: NodeId>(
    p: ProgressView<NID>,
    configs: Seq<Seq<NID>>,
    learner_ids: Seq<NID>,
)
    ensures
        p.upgrade(configs, learner_ids).granted_is_greatest(),
        p.upgrade(configs, learner_ids).granted_is_held(),
{
    let fresh = ProgressView::initial(configs, learner_ids);
    let kept = ProgressView {
        vector: fresh.vector.map_values(|x: Matched<NID>| (x.0, p.matched(x.0))),
        ..fresh
    };
    let after = p.upgrade(configs, learner_ids);
    granted_is_the_greatest_held_by_a_quorum(kept);
    assert(after.voters() == kept.voters());
    assert forall|k: int|
        0 <= k < after.voter_count && after.is_granted((#[trigger] after.vector[k]).1) implies
        crate::log_id::opt_le(after.vector[k].1, after.granted) by {
        assert(kept.is_granted(kept.vector[k].1));
    }
}

/// A voter is found among the voters, also if it is listed as a learner too.
pub proof fn a_voter_counts_as_a_voter<NID: NodeId>(
    configs: Seq<Seq<NID>>,
    learner_ids: Seq<NID>,
    id: NID,
)
    requires
        crate::quorum::union_ids(configs).contains(id),
    ensures
        ({
            let p = ProgressView::initial(configs, learner_ids);
            position_of(p.vector, id) matches Some(i) && 0 <= i < p.voter_count
        }),
{
    let p = ProgressView::initial(configs, learner_ids);
    let ids = crate::quorum::union_ids(configs);
    let voters = p.vector.take(p.voter_count as int);
    position_is_of_the_node(voters, id);
    assert(voters[ids.index_of(id)].0 == id);
    lemma_position_in_prefix(p.vector, p.voter_count as int, id);
}

/// A change of membership keeps what is known of every node that stays.
pub proof fn upgrading_keeps_what_is_known<NID: NodeId>(
    p: ProgressView<NID>,
    configs: Seq<Seq<NID>>,
    learner_ids: Seq<NID>,
    id: NID,
)
    requires
        crate::quorum::union_ids(configs).contains(id) || learner_ids.contains(id),
    ensures
        p.upgrade(configs, learner_ids).matched(id) == p.matched(id),
{
    let ids = crate::quorum::union_ids(configs) + learner_ids;
    let after = p.upgrade(configs, learner_ids);
    position_is_of_the_node(after.vector, id);
    let i = if crate::quorum::union_ids(configs).contains(id) {
        crate::quorum::union_ids(configs).index_of(id)
    } else {
        crate::quorum::union_ids(configs).len() + learner_ids.index_of(id)
    };
    assert(ids[i] == id);
    assert(after.vector[i].0 == id);
}

/// The replication progress of every node, as the leader knows it.
#[derive(Debug, PartialEq, Eq)]
pub struct Progress<NID> {
    quorum_set: QuorumSet<NID>,
    granted: Option<LogId<NID>>,
    voter_count: usize,
    vector: Vec<(NID, Option<LogId<NID>>)>,
}

impl<NID> View for Progress<NID> {
    type V = ProgressView<NID>;

    closed spec fn view(&self) -> ProgressView<NID> {
        ProgressView {
            configs: self.quorum_set@,
            granted: self.granted,
            voter_count: self.voter_count as nat,
            vector: self.vector@,
        }
    }
}

impl<NID: NodeId> Clone for Progress<NID> {
    fn clone(&self) -> (r: Self)
        ensures
            r@ == self@,
    {
        let mut vector: Vec<(NID, Option<LogId<NID>>)> = Vec::new();
        let mut i: usize = 0;
        while i < self.vector.len()
            invariant
                i <= self.vector.len(),
                vector@ == self.vector@.take(i as int),
            decreases self.vector.len() - i,
        {
            vector.push((self.vector[i].0, self.vector[i].1));
            i += 1;
        }
        assert(vector@ == self.vector@);
        Progress {
            quorum_set: self.quorum_set.clone(),
            granted: self.granted,
            voter_count: self.voter_count,
            vector,
        }
    }
}

impl<NID: NodeId> Progress<NID> {
    /// Creates a progress that knows nothing of any node.
    pub fn new(quorum_set: QuorumSet<NID>, learner_ids: &Vec<NID>) -> (r: Self)
        ensures
            r@ == ProgressView::initial(quorum_set@, learner_ids@),
            r@.wf(),
    {
        let voter_ids = quorum_set.ids();
        let ghost fresh = (voter_ids@ + learner_ids@).map_values(
            |id: NID| (id, None::<LogId<NID>>),
        );
        let voter_count = voter_ids.len();
        let mut vector: Vec<(NID, Option<LogId<NID>>)> = Vec::new();
        let mut i: usize = 0;
        while i < voter_count
            invariant
                voter_count == voter_ids@.len(),
                i <= voter_count,
                fresh == (voter_ids@ + learner_ids@).map_values(
                    |id: NID| (id, None::<LogId<NID>>),
                ),
                vector@ == fresh.take(i as int),
            decreases voter_count - i,
        {
            vector.push((voter_ids.get(i), None));
            i += 1;
            assert(vector@ =~= fresh.take(i as int));
        }
        let mut k: usize = 0;
        while k < learner_ids.len()
            invariant
                voter_count == voter_ids@.len(),
                k <= learner_ids.len(),
                fresh == (voter_ids@ + learner_ids@).map_values(
                    |id: NID| (id, None::<LogId<NID>>),
                ),
                vector@ == fresh.take(voter_count + k),
            decreases learner_ids.len() - k,
        {
            vector.push((learner_ids[k], None));
            k += 1;
            assert(vector@ =~= fresh.take(voter_count + k));
        }
        assert(vector@ =~= fresh);
        Progress { quorum_set, granted: None, voter_count, vector }
    }

    /// The number of nodes.
    pub fn len(&self) -> (n: usize)
        ensures
            n == self@.vector.len(),
    {
        self.vector.len()
    }

    /// The node at position `i`, and the last log it is known to hold.
    pub fn get(&self, i: usize) -> (r: (NID, Option<LogId<NID>>))
        requires
            i < self@.vector.len(),
        ensures
            r == self@.vector[i as int],
    {
        (self.vector[i].0, self.vector[i].1)
    }

    /// The quorum set.
    pub fn quorum_set(&self) -> (r: &QuorumSet<NID>)
        ensures
            r@ == self@.configs,
    {
        &self.quorum_set
    }

    /// The greatest log that a quorum is known to hold.
    pub fn granted(&self) -> (r: Option<LogId<NID>>)
        ensures
            r == self@.granted,
    {
        self.granted
    }

    /// The position of node `id`.
    fn index(&self, id: &NID) -> (r: Option<usize>)
        ensures
            match r {
                Some(i) => i < self@.vector.len() && position_of(self@.vector, *id) == Some(i as int),
                None => position_of(self@.vector, *id) is None,
            },
    {
        let mut i: usize = 0;
        assert(self@.vector.take(0).len() == 0);
        while i < self.vector.len()
            invariant
                i <= self.vector.len(),
                position_of(self@.vector.take(i as int), *id) is None,
            decreases self.vector.len() - i,
        {
            assert(self@.vector.take(i + 1).drop_last() == self@.vector.take(i as int));
            if self.vector[i].0.same_id(id) {
                proof {
                    lemma_position_in_prefix(self@.vector, i + 1, *id);
                }
                return Some(i);
            }
            i += 1;
        }
        assert(self@.vector.take(i as int) == self@.vector);
        None
    }

    /// Whether a quorum holds `log_id`.
    fn is_granted(&self, log_id: &Option<LogId<NID>>) -> (b: bool)
        requires
            self@.wf(),
        ensures
            b == self@.is_granted(*log_id),
    {
        let ghost voters = self@.voters();
        let ghost p = |x: Matched<NID>| crate::log_id::opt_le(*log_id, x.1);
        let mut ids = NodeSet::new();
        let mut i: usize = 0;
        while i < self.voter_count
            invariant
                self@.wf(),
                voters == self@.voters(),
                p == (|x: Matched<NID>| crate::log_id::opt_le(*log_id, x.1)),
                i <= self.voter_count,
                forall|id: NID| #[trigger]
                    ids@.contains(id) <==> exists|k: int|
                        0 <= k < i && (#[trigger] voters[k]).0 == id && p(voters[k]),
            decreases self.voter_count - i,
        {
            let ghost before = ids@;
            let ghost i0 = i as int;
            assert(voters[i0] == self.vector@[i0]);
            if !crate::log_id::opt_less_than(&self.vector[i].1, log_id) {
                assert(p(voters[i0]));
                proof {
                    crate::node_set::with_id_adds_the_id(before, voters[i0].0);
                }
                ids.insert(self.vector[i].0);
            }
            i += 1;
            assert forall|id: NID| #[trigger] ids@.contains(id) <==> exists|k: int|
                0 <= k < i && (#[trigger] voters[k]).0 == id && p(voters[k]) by {
                if before.contains(id) {
                    let k = choose|k: int|
                        0 <= k < i0 && (#[trigger] voters[k]).0 == id && p(voters[k]);
                    assert(voters[k].0 == id);
                }
                if ids@.contains(id) && !before.contains(id) {
                    assert(voters[i0].0 == id && p(voters[i0]));
                }
                if exists|k: int| 0 <= k < i && (#[trigger] voters[k]).0 == id && p(voters[k]) {
                    let k = choose|k: int|
                        0 <= k < i && (#[trigger] voters[k]).0 == id && p(voters[k]);
                    if k < i0 {
                        assert(before.contains(id));
                    }
                }
            }
        }
        let b = self.quorum_set.is_quorum(&ids);
        proof {
            let holders = self@.holders(*log_id);
            lemma_holders(voters, *log_id);
            assert forall|id: NID| ids@.contains(id) == #[trigger] holders.contains(id) by {
                if ids@.contains(id) {
                    let k = choose|k: int|
                        0 <= k < i && (#[trigger] voters[k]).0 == id && p(voters[k]);
                    assert(voters[k].0 == id && crate::log_id::opt_le(*log_id, voters[k].1));
                }
                if holders.contains(id) {
                    let k = choose|k: int|
                        0 <= k < voters.len() && (#[trigger] voters[k]).0 == id
                            && crate::log_id::opt_le(*log_id, voters[k].1);
                    assert(voters[k].0 == id && p(voters[k]));
                }
            }
            lemma_quorum_of_same_ids(self@.configs, ids@, holders);
        }
        b
    }

    /// Raises `granted` to the greatest log that a quorum holds.
    fn recalculate(&mut self)
        requires
            old(self)@.wf(),
        ensures
            final(self)@ == old(self)@.with_granted(),
    {
        let mut best = self.granted;
        let mut i: usize = 0;
        while i < self.voter_count
            invariant
                self@.wf(),
                *self == *old(self),
                i <= self.voter_count,
                best == self@.greatest_granted(i as int, self@.granted),
            decreases self.voter_count - i,
        {
            let log_id = self.vector[i].1;
            if crate::log_id::opt_less_than(&best, &log_id) && self.is_granted(&log_id) {
                best = log_id;
            }
            i += 1;
        }
        self.granted = best;
    }

    /// Records that node `id` holds `log_id`, and recalculates what a quorum holds.
    ///
    /// It returns what a quorum holds: as an error if there is no node `id`.
    pub fn update(&mut self, id: &NID, log_id: Option<LogId<NID>>) -> (r: Result<
        Option<LogId<NID>>,
        Option<LogId<NID>>,
    >)
        requires
            old(self)@.wf(),
        ensures
            final(self)@ == old(self)@.update(*id, log_id),
            final(self)@.wf(),
            r == (if position_of(old(self)@.vector, *id) is Some {
                Ok(final(self)@.granted)
            } else {
                Err(final(self)@.granted)
            }),
    {
        let i = match self.index(id) {
            None => {
                return Err(self.granted);
            },
            Some(i) => i,
        };
        let prev = self.vector[i].1;
        self.vector[i] = (*id, log_id);
        if i < self.voter_count && !crate::log_id::opt_same(&prev, &log_id) {
            self.recalculate();
        }
        Ok(self.granted)
    }

    /// Builds a progress for another quorum set, with what is known of each node kept.
    pub fn upgrade_quorum_set(&self, quorum_set: QuorumSet<NID>, learner_ids: &Vec<NID>) -> (r: Self)
        ensures
            r@ == self@.upgrade(quorum_set@, learner_ids@),
            r@.wf(),
    {
        let mut r = Progress::new(quorum_set, learner_ids);
        let ghost fresh = r@;
        let ghost kept = fresh.vector.map_values(|x: Matched<NID>| (x.0, self@.matched(x.0)));
        let mut i: usize = 0;
        while i < r.vector.len()
            invariant
                kept == fresh.vector.map_values(|x: Matched<NID>| (x.0, self@.matched(x.0))),
                fresh.wf(),
                i <= r.vector@.len(),
                r@ == (ProgressView { vector: r@.vector, ..fresh }),
                r@.vector.len() == fresh.vector.len(),
                forall|k: int| 0 <= k < i ==> r@.vector[k] == kept[k],
                forall|k: int| i <= k < r@.vector.len() ==> r@.vector[k] == fresh.vector[k],
            decreases r.vector@.len() - i,
        {
            let id = r.vector[i].0;
            let log_id = match self.index(&id) {
                Some(k) => self.vector[k].1,
                None => None,
            };
            r.vector[i] = (id, log_id);
            i += 1;
        }
        assert(r@.vector =~= kept);
        r.recalculate();
        r
    }
}

proof fn lemma_holders<NID: NodeId>(voters: Seq<Matched<NID>>, log_id: Option<LogId<NID>>)
    ensures
        forall|id: NID| #[trigger]
            holders_among(voters, log_id).contains(id) <==> exists|k: int|
                0 <= k < voters.len() && (#[trigger] voters[k]).0 == id && crate::log_id::opt_le(
                    log_id,
                    voters[k].1,
                ),
    decreases voters.len(),
{
    reveal(Seq::filter);
    let p = |x: Matched<NID>| crate::log_id::opt_le(log_id, x.1);
    let all = holders_among(voters, log_id);
    if voters.len() > 0 {
        let front = voters.drop_last();
        lemma_holders(front, log_id);
        let some = holders_among(front, log_id);
        if p(voters.last()) {
            assert(all =~= some.push(voters.last().0));
        } else {
            assert(all =~= some);
        }
        assert forall|id: NID| #[trigger] all.contains(id) <==> exists|k: int|
            0 <= k < voters.len() && (#[trigger] voters[k]).0 == id && crate::log_id::opt_le(
                log_id,
                voters[k].1,
            ) by {
            if some.contains(id) {
                let k = choose|k: int|
                    0 <= k < front.len() && (#[trigger] front[k]).0 == id && crate::log_id::opt_le(
                        log_id,
                        front[k].1,
                    );
                assert(voters[k] == front[k]);
                let m = choose|m: int| 0 <= m < some.len() && some[m] == id;
                assert(all[m] == id);
            }
            if all.contains(id) && !some.contains(id) {
                let m = choose|m: int| 0 <= m < all.len() && all[m] == id;
                if m < some.len() {
                    assert(some[m] == id);
                }
                assert(voters[voters.len() - 1].0 == id);
            }
            if exists|k: int|
                0 <= k < voters.len() && (#[trigger] voters[k]).0 == id && crate::log_id::opt_le(
                    log_id,
                    voters[k].1,
                ) {
                let k = choose|k: int|
                    0 <= k < voters.len() && (#[trigger] voters[k]).0 == id
                        && crate::log_id::opt_le(log_id, voters[k].1);
                if k < front.len() {
                    assert(front[k] == voters[k]);
                    assert(some.contains(id));
                } else {
                    assert(all[some.len() as int] == id);
                }
            }
        }
    }
}

proof fn lemma_quorum_of_same_ids<NID>(configs: Seq<Seq<NID>>, a: Seq<NID>, b: Seq<NID>)
    requires
        forall|id: NID| a.contains(id) == #[trigger] b.contains(id),
    ensures
        crate::quorum::is_quorum(configs, a) == crate::quorum::is_quorum(configs, b),
{
    let p = |x: NID| a.contains(x);
    let q = |x: NID| b.contains(x);
    assert(p =~= q);
    assert forall|i: int| 0 <= i < configs.len() implies crate::quorum::is_majority(configs[i], a)
        == #[trigger] crate::quorum::is_majority(configs[i], b) by {}
    if crate::quorum::is_quorum(configs, b) {
        assert forall|i: int| 0 <= i < configs.len() implies #[trigger] crate::quorum::is_majority(
            configs[i],
            a,
        ) by {
            assert(crate::quorum::is_majority(configs[i], b));
        }
    }
}

/// The position of a node is the first one that is for this node.
pub proof fn position_is_the_first<NID>(vector: Seq<Matched<NID>>, id: NID)
    ensures
        position_of(vector, id) matches Some(i) ==> forall|k: int|
            0 <= k < i ==> (#[trigger] vector[k]).0 != id,
    decreases vector.len(),
{
    if vector.len() > 0 {
        let front = vector.drop_last();
        position_is_the_first(front, id);
        position_is_of_the_node(front, id);
        if let Some(i) = position_of(vector, id) {
            assert forall|k: int| 0 <= k < i implies (#[trigger] vector[k]).0 != id by {
                assert(front[k] == vector[k]);
            }
        }
    }
}

/// What a node is known to hold is what the first element for it says, and nothing if there is none.
pub proof fn matched_is_what_the_node_holds<NID: NodeId>(p: ProgressView<NID>, id: NID, i: int)
    ensures
        0 <= i < p.vector.len() && p.vector[i].0 == id && (forall|k: int|
            0 <= k < i ==> (#[trigger] p.vector[k]).0 != id) ==> p.matched(id) == p.vector[i].1,
        (forall|k: int| 0 <= k < p.vector.len() ==> (#[trigger] p.vector[k]).0 != id) ==> p.matched(
            id,
        ) is None,
{
    position_is_of_the_node(p.vector, id);
    position_is_the_first(p.vector, id);
    if 0 <= i < p.vector.len() && p.vector[i].0 == id && (forall|k: int|
        0 <= k < i ==> (#[trigger] p.vector[k]).0 != id) {
        let j = position_of(p.vector, id)->0;
        if j < i {
            assert(p.vector[j].0 != id);
        }
        if i < j {
            assert(p.vector[i].0 != id);
        }
    }
}

/// A node holds a log if it is a voter whose last log is not less.
pub proof fn holders_are_the_voters_that_have_the_log<NID: NodeId>(
    p: ProgressView<NID>,
    log_id: Option<LogId<NID>>,
    id: NID,
)
    requires
        p.wf(),
    ensures
        p.holders(log_id).contains(id) <==> exists|i: int|
            0 <= i < p.voter_count && (#[trigger] p.vector[i]).0 == id && crate::log_id::opt_le(
                log_id,
                p.vector[i].1,
            ),
{
    let voters = p.voters();
    let holds = |x: Matched<NID>| crate::log_id::opt_le(log_id, x.1);
    let held = voters.filter(holds);
    if p.holders(log_id).contains(id) {
        let j = p.holders(log_id).index_of(id);
        let x = held[j];
        assert(p.holders(log_id)[j] == x.0);
        voters.lemma_filter_pred(holds, j);
        assert(held.contains(x));
        voters.lemma_filter_contains_rev(holds, x);
        let k = voters.index_of(x);
        assert(p.vector[k] == x);
    }
    if exists|i: int|
        0 <= i < p.voter_count && (#[trigger] p.vector[i]).0 == id && crate::log_id::opt_le(
            log_id,
            p.vector[i].1,
        ) {
        let i = choose|i: int|
            0 <= i < p.voter_count && (#[trigger] p.vector[i]).0 == id && crate::log_id::opt_le(
                log_id,
                p.vector[i].1,
            );
        assert(voters[i] == p.vector[i]);
        assert(holds(voters[i]));
        voters.lemma_filter_contains(holds, i);
        let l = held.index_of(voters[i]);
        assert(p.holders(log_id)[l] == id);
    }
}

/// A log is granted if and only if the voters whose last log is not less are a quorum.
pub proof fn a_log_is_granted_by_a_quorum_of_holders<NID: NodeId>(
    p: ProgressView<NID>,
    log_id: Option<LogId<NID>>,
    ids: Seq<NID>,
)
    requires
        p.wf(),
        forall|id: NID| #[trigger]
            ids.contains(id) <==> exists|i: int|
                0 <= i < p.voter_count && (#[trigger] p.vector[i]).0 == id && crate::log_id::opt_le(
                    log_id,
                    p.vector[i].1,
                ),
    ensures
        p.is_granted(log_id) <==> crate::quorum::is_quorum(p.configs, ids),
{
    let holders = p.holders(log_id);
    assert forall|id: NID| #[trigger] holders.contains(id) <==> ids.contains(id) by {
        holders_are_the_voters_that_have_the_log(p, log_id, id);
    }
    if p.is_granted(log_id) {
        crate::quorum::more_nodes_keep_a_quorum(p.configs, holders, ids);
    }
    if crate::quorum::is_quorum(p.configs, ids) {
        assert forall|id: NID| #[trigger] ids.contains(id) implies holders.contains(id) by {
            assert(holders.contains(id) <==> ids.contains(id));
        }
        crate::quorum::more_nodes_keep_a_quorum(p.configs, ids, holders);
    }
}

/// A new progress lists the voters, then the learners, and knows of no log of any of them.
pub proof fn a_new_progress_lists_every_node<NID: NodeId>(
    configs: Seq<Seq<NID>>,
    learner_ids: Seq<NID>,
)
    ensures
        ({
            let p = ProgressView::initial(configs, learner_ids);
            let voters = crate::quorum::union_ids(configs);
            &&& p.configs == configs
            &&& p.granted is None
            &&& p.voter_count == voters.len()
            &&& p.vector.len() == voters.len() + learner_ids.len()
            &&& forall|i: int|
                0 <= i < p.vector.len() ==> (#[trigger] p.vector[i]).1 is None && p.vector[i].0
                    == (if i < voters.len() {
                    voters[i]
                } else {
                    learner_ids[i - voters.len()]
                })
        }),
{
}

proof fn lemma_greatest_is_of_a_voter<NID: NodeId>(
    p: ProgressView<NID>,
    n: int,
    least: Option<LogId<NID>>,
)
    ensures
        p.greatest_granted(n, least) == least || exists|i: int|
            0 <= i < n && (#[trigger] p.vector[i]).1 == p.greatest_granted(n, least),
    decreases n,
{
    if n > 0 {
        lemma_greatest_is_of_a_voter(p, n - 1, least);
        let g = p.greatest_granted(n, least);
        let best = p.greatest_granted(n - 1, least);
        if g == best && best != least {
            let i = choose|i: int| 0 <= i < n - 1 && (#[trigger] p.vector[i]).1 == best;
            assert(p.vector[i].1 == g);
        } else if g != best {
            assert(p.vector[n - 1].1 == g);
        }
    }
}

/// Recording what a node holds sets this for the node and changes nothing for the others. What is
/// granted is raised to the last log of a voter that a quorum holds, or stays.
pub proof fn updating_changes_only_the_node<NID: NodeId>(
    p: ProgressView<NID>,
    id: NID,
    log_id: Option<LogId<NID>>,
)
    requires
        p.wf(),
    ensures
        ({
            let after = p.update(id, log_id);
            let known = exists|i: int| 0 <= i < p.vector.len() && (#[trigger] p.vector[i]).0 == id;
            &&& !known ==> after == p
            &&& known ==> after.matched(id) == log_id
            &&& after.configs == p.configs
            &&& after.voter_count == p.voter_count
            &&& after.vector.len() == p.vector.len()
            &&& forall|i: int|
                0 <= i < p.vector.len() ==> (#[trigger] after.vector[i]).0 == p.vector[i].0
            &&& forall|i: int|
                0 <= i < p.vector.len() && p.vector[i].0 != id ==> (#[trigger] after.vector[i]).1
                    == p.vector[i].1
            &&& forall|other: NID|
                other != id ==> #[trigger] after.matched(other) == p.matched(other)
            &&& forall|k: int, i: int|
                0 <= k < i < p.vector.len() && (#[trigger] p.vector[k]).0 == id ==> (
                #[trigger] after.vector[i]) == p.vector[i]
            &&& after.granted == p.granted || (crate::log_id::opt_lt(p.granted, after.granted)
                && after.is_granted(after.granted) && exists|i: int|
                0 <= i < after.voter_count && (#[trigger] after.vector[i]).1 == after.granted)
        }),
{
    position_is_of_the_node(p.vector, id);
    position_is_the_first(p.vector, id);
    let after = p.update(id, log_id);
    match position_of(p.vector, id) {
        None => {},
        Some(i) => {
            let updated = ProgressView { vector: p.vector.update(i, (id, log_id)), ..p };
            assert(p.vector[i].0 == id);
            assert(after.vector == updated.vector);
            assert forall|k: int| 0 <= k < i implies (#[trigger] after.vector[k]).0 != id by {
                assert(p.vector[k].0 != id);
            }
            matched_is_what_the_node_holds(after, id, i);
            assert forall|other: NID| other != id implies #[trigger] after.matched(other)
                == p.matched(other) by {
                position_is_of_the_node(p.vector, other);
                position_is_the_first(p.vector, other);
                position_is_of_the_node(after.vector, other);
                match position_of(p.vector, other) {
                    Some(j) => {
                        assert(p.vector[j].0 == other);
                        assert(after.vector[j] == p.vector[j]);
                        assert forall|k: int| 0 <= k < j implies (#[trigger] after.vector[k]).0
                            != other by {
                            assert(p.vector[k].0 != other);
                        }
                        matched_is_what_the_node_holds(after, other, j);
                    },
                    None => {
                        assert forall|k: int| 0 <= k < after.vector.len() implies (
                        #[trigger] after.vector[k]).0 != other by {
                            assert(p.vector[k].0 != other);
                        }
                        matched_is_what_the_node_holds(after, other, 0);
                    },
                }
            }
            granted_is_the_greatest_held_by_a_quorum(updated);
            lemma_greatest_is_of_a_voter(updated, updated.voter_count as int, updated.granted);
            crate::log_id::opt_order_is_total(p.granted, after.granted, p.granted);
            assert(after.voters() == updated.voters());
            if after.granted != p.granted {
                let k = choose|k: int|
                    0 <= k < updated.voter_count && (#[trigger] updated.vector[k]).1
                        == after.granted;
                assert(after.vector[k].1 == after.granted);
            }
        },
    }
}

/// A progress for another membership lists its voters, then its learners, with what was known of each.
/// What is granted is the last log of a voter, or nothing.
pub proof fn an_upgraded_progress_lists_every_node<NID: NodeId>(
    p: ProgressView<NID>,
    configs: Seq<Seq<NID>>,
    learner_ids: Seq<NID>,
)
    ensures
        ({
            let after = p.upgrade(configs, learner_ids);
            let voters = crate::quorum::union_ids(configs);
            &&& after.configs == configs
            &&& after.voter_count == voters.len()
            &&& after.vector.len() == voters.len() + learner_ids.len()
            &&& forall|i: int|
                0 <= i < after.vector.len() ==> (#[trigger] after.vector[i]).0 == (if i
                    < voters.len() {
                    voters[i]
                } else {
                    learner_ids[i - voters.len()]
                }) && after.vector[i].1 == p.matched(after.vector[i].0)
            &&& after.granted is None || exists|i: int|
                0 <= i < after.voter_count && (#[trigger] after.vector[i]).1 == after.granted
        }),
{
    let fresh = ProgressView::initial(configs, learner_ids);
    let kept = ProgressView {
        vector: fresh.vector.map_values(|x: Matched<NID>| (x.0, p.matched(x.0))),
        ..fresh
    };
    lemma_greatest_is_of_a_voter(kept, kept.voter_count as int, None);
    let after = p.upgrade(configs, learner_ids);
    if after.granted is Some {
        let k = choose|k: int|
            0 <= k < kept.voter_count && (#[trigger] kept.vector[k]).1 == after.granted;
        assert(after.vector[k].1 == after.granted);
    }
}

} // verus!
