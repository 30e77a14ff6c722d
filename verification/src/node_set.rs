//! Sets and maps of nodes, kept in ascending order of the node id.
use vstd::prelude::*;

use crate::node::{Node, NodeId};

verus! {

/// Whether `ids` are in strictly ascending order.
pub open spec fn ascending<NID: NodeId>(ids: Seq<NID>) -> bool {
    forall|i: int, j: int|
        #![trigger ids[i], ids[j]]
        0 <= i < j < ids.len() ==> ids[i].rank() < ids[j].rank()
}

/// `ids` with `id` added: what is below `id`, then `id`, then what is above it.
pub open spec fn with_id<NID: NodeId>(ids: Seq<NID>, id: NID) -> Seq<NID> {
    ids.filter(|x: NID| x.rank() < id.rank()) + seq![id] + ids.filter(|x: NID| id.rank() < x.rank())
}

/// `ids` with every element of `more` added.
pub open spec fn with_ids<NID: NodeId>(ids: Seq<NID>, more: Seq<NID>) -> Seq<NID>
    decreases more.len(),
{
    if more.len() == 0 {
        ids
    } else {
        with_id(with_ids(ids, more.drop_last()), more.last())
    }
}

proof fn lemma_filter_keeps<A>(s: Seq<A>, p: spec_fn(A) -> bool)
    ensures
        forall|i: int|
            0 <= i < s.filter(p).len() ==> p(#[trigger] s.filter(p)[i]) && s.contains(
                s.filter(p)[i],
            ),
        forall|x: A| s.contains(x) && p(x) ==> #[trigger] s.filter(p).contains(x),
    decreases s.len(),
{
    reveal(Seq::filter);
    if s.len() > 0 {
        let front = s.drop_last();
        lemma_filter_keeps(front, p);
        let kept = s.filter(p);
        let kept_front = front.filter(p);
        assert(s == front.push(s.last()));
        assert forall|i: int| 0 <= i < kept.len() implies p(#[trigger] kept[i]) && s.contains(
            kept[i],
        ) by {
            if i < kept_front.len() {
                assert(kept[i] == kept_front[i]);
                let k = choose|k: int| 0 <= k < front.len() && front[k] == kept_front[i];
                assert(s[k] == kept[i]);
            } else {
                assert(kept[i] == s.last());
                assert(s[s.len() - 1] == kept[i]);
            }
        }
        assert forall|x: A| s.contains(x) && p(x) implies #[trigger] kept.contains(x) by {
            let i = choose|i: int| 0 <= i < s.len() && s[i] == x;
            if i < front.len() {
                assert(front[i] == x);
                assert(kept_front.contains(x));
                let k = choose|k: int| 0 <= k < kept_front.len() && kept_front[k] == x;
                assert(kept[k] == x);
            } else {
                assert(kept[kept_front.len() as int] == x);
            }
        }
    }
}

proof fn lemma_filter_ascending<NID: NodeId>(s: Seq<NID>, p: spec_fn(NID) -> bool)
    requires
        ascending(s),
    ensures
        ascending(s.filter(p)),
    decreases s.len(),
{
    reveal(Seq::filter);
    if s.len() > 0 {
        let front = s.drop_last();
        assert(ascending(front));
        lemma_filter_ascending(front, p);
        lemma_filter_keeps(front, p);
        let kept = front.filter(p);
        assert forall|i: int| 0 <= i < kept.len() implies (#[trigger] kept[i]).rank() < s.last().rank() by {
            assert(front.contains(kept[i]));
            let k = choose|k: int| 0 <= k < front.len() && front[k] == kept[i];
            assert(s[k] == kept[i]);
            assert(s[s.len() - 1] == s.last());
        }
        assert(ascending(kept.push(s.last())));
    }
}

/// Adding an id to an ascending sequence keeps it ascending, and adds that id and no other.
pub proof fn with_id_adds_the_id<NID: NodeId>(ids: Seq<NID>, id: NID)
    ensures
        ascending(ids) ==> ascending(with_id(ids, id)),
        forall|x: NID| #[trigger] with_id(ids, id).contains(x) <==> ids.contains(x) || x == id,
{
    let below = |x: NID| x.rank() < id.rank();
    let above = |x: NID| id.rank() < x.rank();
    let s = with_id(ids, id);
    lemma_filter_keeps(ids, below);
    lemma_filter_keeps(ids, above);
    let b = ids.filter(below);
    let a = ids.filter(above);
    assert(s == b + seq![id] + a);
    if ascending(ids) {
        lemma_filter_ascending(ids, below);
        lemma_filter_ascending(ids, above);
        assert forall|i: int, j: int| #![trigger s[i], s[j]] 0 <= i < j < s.len() implies s[i].rank() < s[j].rank() by {
            let n = b.len() as int;
            if j < n {
                assert(s[i] == b[i] && s[j] == b[j]);
            } else if i < n {
                assert(s[i] == b[i]);
                if j > n {
                    assert(s[j] == a[j - n - 1]);
                }
            } else {
                assert(s[j] == a[j - n - 1]);
                if i > n {
                    assert(s[i] == a[i - n - 1]);
                }
            }
        }
    }
    assert forall|x: NID| #[trigger] s.contains(x) <==> ids.contains(x) || x == id by {
        if s.contains(x) {
            let i = choose|i: int| 0 <= i < s.len() && s[i] == x;
            let n = b.len() as int;
            if i < n {
                assert(b[i] == x);
            } else if i > n {
                assert(a[i - n - 1] == x);
            }
        }
        if x == id {
            assert(s[b.len() as int] == x);
        }
        if ids.contains(x) && x != id {
            if x.rank() == id.rank() {
                NID::rank_is_injective(x, id);
            }
            if below(x) {
                let i = choose|i: int| 0 <= i < b.len() && b[i] == x;
                assert(b.contains(x));
                assert(s[i] == x);
            } else {
                assert(above(x));
                assert(a.contains(x));
                let i = choose|i: int| 0 <= i < a.len() && a[i] == x;
                assert(s[b.len() + 1 + i] == x);
            }
        }
    }
}

/// Adding ids keeps a sequence ascending, and adds those ids and no others.
pub proof fn with_ids_adds_the_ids<NID: NodeId>(ids: Seq<NID>, more: Seq<NID>)
    ensures
        ascending(ids) ==> ascending(with_ids(ids, more)),
        forall|x: NID| #[trigger] with_ids(ids, more).contains(x) <==> ids.contains(x) || more.contains(x),
    decreases more.len(),
{
    if more.len() > 0 {
        let front = more.drop_last();
        with_ids_adds_the_ids(ids, front);
        with_id_adds_the_id(with_ids(ids, front), more.last());
        assert(more == front.push(more.last()));
        assert forall|x: NID| #[trigger] with_ids(ids, more).contains(x) <==> ids.contains(x) || more.contains(x) by {
            assert(with_ids(ids, more) == with_id(with_ids(ids, front), more.last()));
            if more.contains(x) && x != more.last() {
                let i = choose|i: int| 0 <= i < more.len() && more[i] == x;
                assert(front[i] == x);
            }
            if front.contains(x) {
                let i = choose|i: int| 0 <= i < front.len() && front[i] == x;
                assert(more[i] == x);
            }
            if x == more.last() {
                assert(more[more.len() - 1] == x);
            }
        }
    }
}

/// A set of node ids, in ascending order.
#[derive(Debug, PartialEq, Eq)]
pub struct NodeSet<NID> {
    ids: Vec<NID>,
}

impl<NID> View for NodeSet<NID> {
    type V = Seq<NID>;

    closed spec fn view(&self) -> Seq<NID> {
        self.ids@
    }
}

impl<NID: NodeId> Clone for NodeSet<NID> {
    fn clone(&self) -> (r: Self)
        ensures
            r@ == self@,
    {
        let mut ids: Vec<NID> = Vec::new();
        let mut i: usize = 0;
        while i < self.ids.len()
            invariant
                i <= self.ids.len(),
                ids@ == self.ids@.take(i as int),
            decreases self.ids.len() - i,
        {
            ids.push(self.ids[i]);
            i += 1;
        }
        NodeSet { ids }
    }
}

impl<NID: NodeId> NodeSet<NID> {
    /// Whether the ids are in ascending order; the constructors and methods keep them so.
    pub open spec fn wf(&self) -> bool {
        ascending(self@)
    }

    /// An empty set.
    pub fn new() -> (r: Self)
        ensures
            r@ == Seq::<NID>::empty(),
            r.wf(),
    {
        NodeSet { ids: Vec::new() }
    }

    /// The set of the elements of `ids`.
    pub fn from_ids(ids: &Vec<NID>) -> (r: Self)
        ensures
            r@ == with_ids(Seq::empty(), ids@),
            r.wf(),
    {
        let mut r = NodeSet::new();
        let mut i: usize = 0;
        while i < ids.len()
            invariant
                i <= ids.len(),
                r@ == with_ids(Seq::empty(), ids@.take(i as int)),
                r.wf(),
            decreases ids.len() - i,
        {
            r.insert(ids[i]);
            assert(ids@.take(i + 1).drop_last() == ids@.take(i as int));
            i += 1;
        }
        assert(ids@.take(i as int) == ids@);
        r
    }

    /// The number of ids.
    pub fn len(&self) -> (n: usize)
        ensures
            n == self@.len(),
    {
        self.ids.len()
    }

    /// The id at position `i` in ascending order.
    pub fn get(&self, i: usize) -> (id: NID)
        requires
            i < self@.len(),
        ensures
            id == self@[i as int],
    {
        self.ids[i]
    }

    /// Whether `id` is in the set.
    pub fn contains(&self, id: &NID) -> (b: bool)
        ensures
            b == self@.contains(*id),
    {
        let mut i: usize = 0;
        while i < self.ids.len()
            invariant
                i <= self.ids.len(),
                forall|j: int| 0 <= j < i ==> self.ids@[j] != *id,
            decreases self.ids.len() - i,
        {
            if self.ids[i].same_id(id) {
                assert(self@[i as int] == *id);
                return true;
            }
            i += 1;
        }
        false
    }

    /// Adds `id` to the set.
    pub fn insert(&mut self, id: NID)
        ensures
            final(self)@ == with_id(old(self)@, id),
            old(self).wf() ==> final(self).wf(),
    {
        let ghost below = |x: NID| x.rank() < id.rank();
        let ghost above = |x: NID| id.rank() < x.rank();
        let mut low: Vec<NID> = Vec::new();
        let mut high: Vec<NID> = Vec::new();
        let mut i: usize = 0;
        assert(self.ids@.take(0).filter(below) == Seq::<NID>::empty()) by {
            reveal(Seq::filter);
        }
        assert(self.ids@.take(0).filter(above) == Seq::<NID>::empty()) by {
            reveal(Seq::filter);
        }
        while i < self.ids.len()
            invariant
                i <= self.ids.len(),
                self@ == old(self)@,
                below == (|x: NID| x.rank() < id.rank()),
                above == (|x: NID| id.rank() < x.rank()),
                low@ == self.ids@.take(i as int).filter(below),
                high@ == self.ids@.take(i as int).filter(above),
            decreases self.ids.len() - i,
        {
            let x = self.ids[i];
            proof {
                reveal(Seq::filter);
                assert(self.ids@.take(i + 1).drop_last() == self.ids@.take(i as int));
                assert(self.ids@.take(i + 1).last() == x);
            }
            if x.precedes(&id) {
                low.push(x);
            }
            if id.precedes(&x) {
                high.push(x);
            }
            i += 1;
        }
        assert(self.ids@.take(i as int) == self.ids@);
        low.push(id);
        low.append(&mut high);
        self.ids = low;
        proof {
            assert(self@ == with_id(old(self)@, id));
            with_id_adds_the_id(old(self)@, id);
        }
    }

    /// Whether two sets hold the same ids.
    pub fn same_as(&self, other: &Self) -> (b: bool)
        ensures
            b == (self@ == other@),
    {
        if self.ids.len() != other.ids.len() {
            return false;
        }
        let mut i: usize = 0;
        while i < self.ids.len()
            invariant
                i <= self.ids.len(),
                self.ids.len() == other.ids.len(),
                forall|j: int| 0 <= j < i ==> self.ids@[j] == other.ids@[j],
            decreases self.ids.len() - i,
        {
            if !self.ids[i].same_id(&other.ids[i]) {
                assert(self@[i as int] != other@[i as int]);
                return false;
            }
            i += 1;
        }
        assert(self@ == other@);
        true
    }
}

/// `nodes` with the data of `id` set to `node`: what is below `id`, then `id`, then what is above
/// it.
pub open spec fn with_node<NID: NodeId, NV>(nodes: Seq<(NID, NV)>, id: NID, node: NV) -> Seq<
    (NID, NV),
> {
    nodes.filter(|x: (NID, NV)| x.0.rank() < id.rank()) + seq![(id, node)] + nodes.filter(
        |x: (NID, NV)| id.rank() < x.0.rank(),
    )
}

/// The data of nodes, in ascending order of the node id.
#[derive(Debug, PartialEq, Eq)]
pub struct NodeMap<NID, N> {
    nodes: Vec<(NID, N)>,
}

/// The view of a list of nodes: each id with the view of its data.
pub open spec fn nodes_view<NID, N: Node>(nodes: Seq<(NID, N)>) -> Seq<(NID, N::V)> {
    nodes.map_values(|x: (NID, N)| (x.0, x.1@))
}

impl<NID, N: Node> View for NodeMap<NID, N> {
    type V = Seq<(NID, N::V)>;

    closed spec fn view(&self) -> Seq<(NID, N::V)> {
        nodes_view(self.nodes@)
    }
}

impl<NID: NodeId, N: Node> Clone for NodeMap<NID, N> {
    fn clone(&self) -> (r: Self)
        ensures
            r@ == self@,
    {
        let mut nodes: Vec<(NID, N)> = Vec::new();
        let mut i: usize = 0;
        while i < self.nodes.len()
            invariant
                i <= self.nodes.len(),
                nodes_view(nodes@) == self@.take(i as int),
            decreases self.nodes.len() - i,
        {
            let ghost nodes0 = nodes@;
            nodes.push((self.nodes[i].0, self.nodes[i].1.copy_node()));
            assert(nodes_view(nodes@) =~= nodes_view(nodes0).push(self@[i as int]));
            i += 1;
            assert(nodes_view(nodes@) =~= self@.take(i as int));
        }
        let r = NodeMap { nodes };
        assert(r@ =~= self@);
        r
    }
}

impl<NID: NodeId, N: Node> NodeMap<NID, N> {
    /// An empty map.
    pub fn new() -> (r: Self)
        ensures
            r@ == Seq::<(NID, N::V)>::empty(),
    {
        let r = NodeMap { nodes: Vec::new() };
        assert(r@ =~= Seq::<(NID, N::V)>::empty());
        r
    }

    /// The number of nodes.
    pub fn len(&self) -> (n: usize)
        ensures
            n == self@.len(),
    {
        self.nodes.len()
    }

    /// The id of the node at position `i` in ascending order.
    pub fn id_at(&self, i: usize) -> (id: NID)
        requires
            i < self@.len(),
        ensures
            id == self@[i as int].0,
    {
        self.nodes[i].0
    }

    /// Sets the data of node `id`.
    pub fn insert(&mut self, id: NID, node: N)
        ensures
            final(self)@ == with_node(old(self)@, id, node@),
    {
        let ghost below = |x: (NID, N::V)| x.0.rank() < id.rank();
        let ghost above = |x: (NID, N::V)| id.rank() < x.0.rank();
        let ghost all = self@;
        let mut low: Vec<(NID, N)> = Vec::new();
        let mut high: Vec<(NID, N)> = Vec::new();
        let mut i: usize = 0;
        proof {
            reveal(Seq::filter);
            assert(nodes_view(low@) =~= all.take(0).filter(below));
            assert(nodes_view(high@) =~= all.take(0).filter(above));
        }
        while i < self.nodes.len()
            invariant
                i <= self.nodes.len(),
                all == self@,
                below == (|x: (NID, N::V)| x.0.rank() < id.rank()),
                above == (|x: (NID, N::V)| id.rank() < x.0.rank()),
                nodes_view(low@) == all.take(i as int).filter(below),
                nodes_view(high@) == all.take(i as int).filter(above),
            decreases self.nodes.len() - i,
        {
            let x = self.nodes[i].0;
            proof {
                reveal(Seq::filter);
                assert(all.take(i + 1).drop_last() == all.take(i as int));
                assert(all.take(i + 1).last() == (x, self.nodes@[i as int].1@));
            }
            let ghost low0 = low@;
            let ghost high0 = high@;
            if x.precedes(&id) {
                low.push((x, self.nodes[i].1.copy_node()));
                assert(nodes_view(low@) =~= nodes_view(low0).push((x, self.nodes@[i as int].1@)));
            }
            if id.precedes(&x) {
                high.push((x, self.nodes[i].1.copy_node()));
                assert(nodes_view(high@) =~= nodes_view(high0).push((x, self.nodes@[i as int].1@)));
            }
            i += 1;
        }
        assert(all.take(i as int) == all);
        let ghost low0 = low@;
        let ghost high0 = high@;
        low.push((id, node));
        low.append(&mut high);
        self.nodes = low;
        assert(self@ =~= nodes_view(low0) + seq![(id, node@)] + nodes_view(high0));
    }

    /// Whether two maps hold the same nodes with the same data.
    pub fn same_as(&self, other: &Self) -> (b: bool)
        ensures
            b == (self@ == other@),
    {
        if self.nodes.len() != other.nodes.len() {
            assert(self@.len() != other@.len());
            return false;
        }
        let mut i: usize = 0;
        while i < self.nodes.len()
            invariant
                i <= self.nodes.len(),
                self.nodes.len() == other.nodes.len(),
                forall|j: int| 0 <= j < i ==> self@[j] == other@[j],
            decreases self.nodes.len() - i,
        {
            if !self.nodes[i].0.same_id(&other.nodes[i].0) || !self.nodes[i].1.same_node(
                &other.nodes[i].1,
            ) {
                assert(self@[i as int] != other@[i as int]);
                return false;
            }
            i += 1;
        }
        assert(self@ =~= other@);
        true
    }
}

/// Setting the data of a node sets it, removes what was there for this node, and keeps the others.
pub proof fn with_node_sets_the_node<NID: NodeId, NV>(nodes: Seq<(NID, NV)>, id: NID, node: NV)
    ensures
        forall|x: (NID, NV)| #[trigger]
            with_node(nodes, id, node).contains(x) <==> x == (id, node) || (x.0 != id
                && nodes.contains(x)),
{
    let below = |x: (NID, NV)| x.0.rank() < id.rank();
    let above = |x: (NID, NV)| id.rank() < x.0.rank();
    lemma_filter_keeps(nodes, below);
    lemma_filter_keeps(nodes, above);
    let b = nodes.filter(below);
    let a = nodes.filter(above);
    let s = with_node(nodes, id, node);
    assert(s == b + seq![(id, node)] + a);
    let n = b.len() as int;
    assert forall|x: (NID, NV)| #[trigger] s.contains(x) <==> x == (id, node) || (x.0 != id
        && nodes.contains(x)) by {
        if s.contains(x) {
            let i = choose|i: int| 0 <= i < s.len() && s[i] == x;
            if i < n {
                assert(b[i] == x);
            } else if i > n {
                assert(a[i - n - 1] == x);
            }
        }
        if x == (id, node) {
            assert(s[n] == x);
        }
        if x.0 != id && nodes.contains(x) {
            if x.0.rank() == id.rank() {
                NID::rank_is_injective(x.0, id);
            }
            if below(x) {
                assert(b.contains(x));
                let i = choose|i: int| 0 <= i < b.len() && b[i] == x;
                assert(s[i] == x);
            } else {
                assert(a.contains(x));
                let i = choose|i: int| 0 <= i < a.len() && a[i] == x;
                assert(s[n + 1 + i] == x);
            }
        }
    }
}

/// Setting the data of a node keeps the nodes in ascending order.
pub proof fn with_node_keeps_the_order<NID: NodeId, NV>(nodes: Seq<(NID, NV)>, id: NID, node: NV)
    requires
        forall|i: int, j: int|
            #![trigger nodes[i], nodes[j]]
            0 <= i < j < nodes.len() ==> nodes[i].0.rank() < nodes[j].0.rank(),
    ensures
        ({
            let s = with_node(nodes, id, node);
            forall|i: int, j: int|
                #![trigger s[i], s[j]]
                0 <= i < j < s.len() ==> s[i].0.rank() < s[j].0.rank()
        }),
{
    let below = |x: (NID, NV)| x.0.rank() < id.rank();
    let above = |x: (NID, NV)| id.rank() < x.0.rank();
    lemma_filter_keeps(nodes, below);
    lemma_filter_keeps(nodes, above);
    lemma_filter_nodes_ascending(nodes, below);
    lemma_filter_nodes_ascending(nodes, above);
    let b = nodes.filter(below);
    let a = nodes.filter(above);
    let s = with_node(nodes, id, node);
    let n = b.len() as int;
    assert(s == b + seq![(id, node)] + a);
    assert forall|i: int, j: int| #![trigger s[i], s[j]] 0 <= i < j < s.len() implies s[i].0.rank()
        < s[j].0.rank() by {
        if j < n {
            assert(s[i] == b[i] && s[j] == b[j]);
        } else if i < n {
            assert(s[i] == b[i]);
            if j > n {
                assert(s[j] == a[j - n - 1]);
            }
        } else {
            assert(s[j] == a[j - n - 1]);
            if i > n {
                assert(s[i] == a[i - n - 1]);
            }
        }
    }
}

proof fn lemma_filter_nodes_ascending<NID: NodeId, NV>(
    s: Seq<(NID, NV)>,
    p: spec_fn((NID, NV)) -> bool,
)
    requires
        forall|i: int, j: int|
            #![trigger s[i], s[j]]
            0 <= i < j < s.len() ==> s[i].0.rank() < s[j].0.rank(),
    ensures
        forall|i: int, j: int|
            #![trigger s.filter(p)[i], s.filter(p)[j]]
            0 <= i < j < s.filter(p).len() ==> s.filter(p)[i].0.rank() < s.filter(p)[j].0.rank(),
    decreases s.len(),
{
    reveal(Seq::filter);
    if s.len() > 0 {
        let front = s.drop_last();
        lemma_filter_nodes_ascending(front, p);
        lemma_filter_keeps(front, p);
        let kept = front.filter(p);
        assert forall|i: int| 0 <= i < kept.len() implies (#[trigger] kept[i]).0.rank()
            < s.last().0.rank() by {
            assert(front.contains(kept[i]));
            let k = choose|k: int| 0 <= k < front.len() && front[k] == kept[i];
            assert(s[k] == kept[i]);
            assert(s[s.len() - 1] == s.last());
        }
    }
}

} // verus!
