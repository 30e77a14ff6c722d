//! Quorums of a joint config: a set of nodes is a quorum if it holds a majority of every config.
use vstd::prelude::*;

use crate::node::NodeId;
use crate::node_set::NodeSet;

verus! {

/// Whether `ids` hold more than half of `config`.
pub open spec fn is_majority<NID>(config: Seq<NID>, ids: Seq<NID>) -> bool {
    2 * config.filter(|x: NID| ids.contains(x)).len() > config.len()
}

/// Whether `ids` hold a majority of every config.
pub open spec fn is_quorum<NID>(configs: Seq<Seq<NID>>, ids: Seq<NID>) -> bool {
    forall|i: int| 0 <= i < configs.len() ==> #[trigger] is_majority(configs[i], ids)
}

/// The members of all configs, in ascending order.
pub open spec fn union_ids<NID: NodeId>(configs: Seq<Seq<NID>>) -> Seq<NID>
    decreases configs.len(),
{
    if configs.len() == 0 {
        Seq::empty()
    } else {
        crate::node_set::with_ids(union_ids(configs.drop_last()), configs.last())
    }
}

/// The union of all configs is ascending and holds exactly the members of the configs.
pub proof fn union_holds_every_member<NID: NodeId>(configs: Seq<Seq<NID>>)
    ensures
        crate::node_set::ascending(union_ids(configs)),
        forall|x: NID| #[trigger]
            union_ids(configs).contains(x) <==> exists|i: int|
                0 <= i < configs.len() && (#[trigger] configs[i]).contains(x),
    decreases configs.len(),
{
    if configs.len() > 0 {
        let front = configs.drop_last();
        union_holds_every_member(front);
        crate::node_set::with_ids_adds_the_ids(union_ids(front), configs.last());
        assert forall|x: NID| #[trigger] union_ids(configs).contains(x) <==> exists|i: int|
            0 <= i < configs.len() && (#[trigger] configs[i]).contains(x) by {
            if front_has(front, x) {
                let i = choose|i: int| 0 <= i < front.len() && (#[trigger] front[i]).contains(x);
                assert(configs[i].contains(x));
            }
            if configs.last().contains(x) {
                assert(configs[configs.len() - 1].contains(x));
            }
            if exists|i: int| 0 <= i < configs.len() && (#[trigger] configs[i]).contains(x) {
                let i = choose|i: int|
                    0 <= i < configs.len() && (#[trigger] configs[i]).contains(x);
                if i < front.len() {
                    assert(front[i].contains(x));
                }
            }
        }
    }
}

spec fn front_has<NID>(configs: Seq<Seq<NID>>, x: NID) -> bool {
    exists|i: int| 0 <= i < configs.len() && (#[trigger] configs[i]).contains(x)
}

proof fn lemma_filters_meet<NID>(config: Seq<NID>, p: spec_fn(NID) -> bool, q: spec_fn(NID) -> bool)
    requires
        config.filter(p).len() + config.filter(q).len() > config.len(),
    ensures
        exists|i: int| 0 <= i < config.len() && p(#[trigger] config[i]) && q(config[i]),
    decreases config.len(),
{
    reveal(Seq::filter);
    if config.len() > 0 {
        let front = config.drop_last();
        if p(config.last()) && q(config.last()) {
            let i = config.len() - 1;
            assert(p(config[i]) && q(config[i]));
        } else {
            lemma_filters_meet(front, p, q);
            let i = choose|i: int|
                0 <= i < front.len() && p(#[trigger] front[i]) && q(front[i]);
            assert(config[i] == front[i]);
        }
    }
}

/// Two quorums of the same configs have a member in common, unless there is no config at all.
pub proof fn quorums_intersect<NID>(configs: Seq<Seq<NID>>, a: Seq<NID>, b: Seq<NID>)
    requires
        configs.len() > 0,
        is_quorum(configs, a),
        is_quorum(configs, b),
    ensures
        exists|x: NID| #[trigger] a.contains(x) && b.contains(x),
{
    assert(is_majority(configs[0], a) && is_majority(configs[0], b));
    let p = |x: NID| a.contains(x);
    let q = |x: NID| b.contains(x);
    lemma_filters_meet(configs[0], p, q);
    let i = choose|i: int|
        0 <= i < configs[0].len() && p(#[trigger] configs[0][i]) && q(configs[0][i]);
    assert(a.contains(configs[0][i]));
}

proof fn lemma_filter_grows<NID>(config: Seq<NID>, p: spec_fn(NID) -> bool, q: spec_fn(NID) -> bool)
    requires
        forall|x: NID| #[trigger] p(x) ==> q(x),
    ensures
        config.filter(p).len() <= config.filter(q).len(),
    decreases config.len(),
{
    reveal(Seq::filter);
    if config.len() > 0 {
        lemma_filter_grows(config.drop_last(), p, q);
        assert(p(config.last()) ==> q(config.last()));
    }
}

/// What holds a quorum is a quorum.
pub proof fn more_nodes_keep_a_quorum<NID>(configs: Seq<Seq<NID>>, a: Seq<NID>, b: Seq<NID>)
    requires
        is_quorum(configs, a),
        forall|x: NID| #[trigger] a.contains(x) ==> b.contains(x),
    ensures
        is_quorum(configs, b),
{
    let p = |x: NID| a.contains(x);
    let q = |x: NID| b.contains(x);
    assert forall|x: NID| #[trigger] p(x) implies q(x) by {
        assert(a.contains(x));
    }
    assert forall|i: int| 0 <= i < configs.len() implies #[trigger] is_majority(configs[i], b) by {
        assert(is_majority(configs[i], a));
        lemma_filter_grows(configs[i], p, q);
    }
}

/// A quorum set: the configs of a membership, of which every one has to be satisfied.
#[derive(Debug, PartialEq, Eq)]
pub struct QuorumSet<NID> {
    configs: Vec<NodeSet<NID>>,
}

/// The view of a list of configs.
pub open spec fn configs_view<NID>(configs: Seq<NodeSet<NID>>) -> Seq<Seq<NID>> {
    configs.map_values(|c: NodeSet<NID>| c@)
}

impl<NID> View for QuorumSet<NID> {
    type V = Seq<Seq<NID>>;

    closed spec fn view(&self) -> Seq<Seq<NID>> {
        configs_view(self.configs@)
    }
}

impl<NID: NodeId> Clone for QuorumSet<NID> {
    fn clone(&self) -> (r: Self)
        ensures
            r@ == self@,
    {
        QuorumSet::new(&self.configs)
    }
}

/// A copy of a list of configs.
pub fn copy_configs<NID: NodeId>(configs: &Vec<NodeSet<NID>>) -> (r: Vec<NodeSet<NID>>)
    ensures
        configs_view(r@) == configs_view(configs@),
{
    let mut r: Vec<NodeSet<NID>> = Vec::new();
    let mut i: usize = 0;
    while i < configs.len()
        invariant
            i <= configs.len(),
            configs_view(r@) == configs_view(configs@).take(i as int),
        decreases configs.len() - i,
    {
        let ghost r0 = r@;
        r.push(configs[i].clone());
        assert(configs_view(r@) =~= configs_view(r0).push(configs@[i as int]@));
        i += 1;
        assert(configs_view(r@) =~= configs_view(configs@).take(i as int));
    }
    assert(configs_view(r@) =~= configs_view(configs@));
    r
}

impl<NID: NodeId> QuorumSet<NID> {
    /// The quorum set of a list of configs.
    pub fn new(configs: &Vec<NodeSet<NID>>) -> (r: Self)
        ensures
            r@ == configs_view(configs@),
    {
        QuorumSet { configs: copy_configs(configs) }
    }

    /// Whether `ids` constitute a quorum.
    pub fn is_quorum(&self, ids: &NodeSet<NID>) -> (b: bool)
        ensures
            b == is_quorum(self@, ids@),
    {
        let mut i: usize = 0;
        while i < self.configs.len()
            invariant
                i <= self.configs.len(),
                forall|j: int| 0 <= j < i ==> #[trigger] is_majority(self@[j], ids@),
            decreases self.configs.len() - i,
        {
            let ghost config = self@[i as int];
            let ghost p = |x: NID| ids@.contains(x);
            let c = &self.configs[i];
            let mut count: usize = 0;
            let mut k: usize = 0;
            assert(config.take(0).filter(p).len() == 0) by {
                reveal(Seq::filter);
            }
            while k < c.len()
                invariant
                    c@ == config,
                    p == (|x: NID| ids@.contains(x)),
                    k <= c@.len(),
                    count <= k,
                    count == config.take(k as int).filter(p).len(),
                decreases c@.len() - k,
            {
                proof {
                    reveal(Seq::filter);
                    assert(config.take(k + 1).drop_last() == config.take(k as int));
                }
                if ids.contains(&c.get(k)) {
                    count += 1;
                }
                k += 1;
            }
            assert(config.take(k as int) == config);
            if count <= c.len() - count {
                assert(!is_majority(self@[i as int], ids@));
                return false;
            }
            assert(is_majority(self@[i as int], ids@));
            i += 1;
        }
        true
    }

    /// The members of all configs, in ascending order.
    pub fn ids(&self) -> (r: NodeSet<NID>)
        ensures
            r@ == union_ids(self@),
            r.wf(),
    {
        let mut r = NodeSet::new();
        let mut i: usize = 0;
        assert(self@.take(0) == Seq::<Seq<NID>>::empty());
        while i < self.configs.len()
            invariant
                i <= self.configs.len(),
                r@ == union_ids(self@.take(i as int)),
                r.wf(),
            decreases self.configs.len() - i,
        {
            let c = &self.configs[i];
            let ghost base = r@;
            let mut k: usize = 0;
            assert(c@.take(0) == Seq::<NID>::empty());
            while k < c.len()
                invariant
                    k <= c@.len(),
                    r@ == crate::node_set::with_ids(base, c@.take(k as int)),
                    r.wf(),
                decreases c@.len() - k,
            {
                r.insert(c.get(k));
                assert(c@.take(k + 1).drop_last() == c@.take(k as int));
                k += 1;
            }
            assert(c@.take(k as int) == c@);
            assert(self@.take(i + 1).drop_last() == self@.take(i as int));
            i += 1;
        }
        assert(self@.take(i as int) == self@);
        r
    }
}

proof fn lemma_filter_splits<NID>(config: Seq<NID>, p: spec_fn(NID) -> bool, q: spec_fn(NID) -> bool)
    requires
        forall|x: NID| #[trigger] p(x) <==> !q(x),
    ensures
        config.filter(p).len() + config.filter(q).len() == config.len(),
    decreases config.len(),
{
    reveal(Seq::filter);
    if config.len() > 0 {
        lemma_filter_splits(config.drop_last(), p, q);
        assert(p(config.last()) <==> !q(config.last()));
    }
}

/// A set of nodes is a quorum if and only if more members of every config are in it than are not.
pub proof fn a_quorum_outnumbers_the_rest<NID>(configs: Seq<Seq<NID>>, ids: Seq<NID>)
    ensures
        is_quorum(configs, ids) <==> forall|i: int|
            0 <= i < configs.len() ==> (#[trigger] configs[i]).filter(
                |x: NID| ids.contains(x),
            ).len() > configs[i].filter(|x: NID| !ids.contains(x)).len(),
{
    let p = |x: NID| ids.contains(x);
    let q = |x: NID| !ids.contains(x);
    assert forall|i: int| 0 <= i < configs.len() implies (is_majority(#[trigger] configs[i], ids)
        <==> configs[i].filter(p).len() > configs[i].filter(q).len()) by {
        lemma_filter_splits(configs[i], p, q);
    }
    if is_quorum(configs, ids) {
        assert forall|i: int| 0 <= i < configs.len() implies (#[trigger] configs[i]).filter(
            p,
        ).len() > configs[i].filter(q).len() by {
            assert(is_majority(configs[i], ids));
        }
    }
}

/// All members of a membership are a quorum, if no config is empty.
pub proof fn all_members_are_a_quorum<NID: NodeId>(configs: Seq<Seq<NID>>)
    requires
        forall|i: int| 0 <= i < configs.len() ==> (#[trigger] configs[i]).len() > 0,
    ensures
        is_quorum(configs, union_ids(configs)),
{
    let ids = union_ids(configs);
    union_holds_every_member(configs);
    a_quorum_outnumbers_the_rest(configs, ids);
    let q = |x: NID| !ids.contains(x);
    assert forall|i: int| 0 <= i < configs.len() implies (#[trigger] configs[i]).filter(
        |x: NID| ids.contains(x),
    ).len() > configs[i].filter(q).len() by {
        lemma_filter_splits(configs[i], |x: NID| ids.contains(x), q);
        assert forall|k: int| 0 <= k < configs[i].len() implies !q(#[trigger] configs[i][k]) by {
            assert(configs[i].contains(configs[i][k]));
        }
        configs[i].lemma_all_neg_filter_empty(q);
    }
}

} // verus!
