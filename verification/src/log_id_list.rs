//! The ids of all logs of a node, in a compact form.
use vstd::prelude::*;

use crate::entry::RaftLogId;
use crate::log_id::LogId;
use crate::node::NodeId;
use crate::vote::LeaderId;

verus! {

/// The log ids of a node: a run of consecutive indexes.
///
/// If `purged` is set, the first one is the id of the last log that was purged; the log itself is
/// gone. The others are present.
#[verifier::ext_equal]
pub struct LogIds<NID> {
    /// The known log ids, by ascending index.
    pub ids: Seq<LogId<NID>>,
    /// Whether the log of the first id is purged.
    pub purged: bool,
}

impl<NID: NodeId> LogIds<NID> {
    /// Whether the indexes are consecutive.
    pub open spec fn consecutive(self) -> bool {
        forall|i: int|
            0 <= i < self.ids.len() ==> (#[trigger] self.ids[i]).index == self.ids[0].index + i
    }

    /// Whether the log ids are in total order.
    pub open spec fn ascending(self) -> bool {
        forall|i: int, j: int|
            #![trigger self.ids[i], self.ids[j]]
            0 <= i < j < self.ids.len() ==> self.ids[i].lt(self.ids[j])
    }

    /// The least known log id.
    pub open spec fn first(self) -> Option<LogId<NID>> {
        if self.ids.len() == 0 {
            None
        } else {
            Some(self.ids[0])
        }
    }

    /// The greatest known log id.
    pub open spec fn last(self) -> Option<LogId<NID>> {
        if self.ids.len() == 0 {
            None
        } else {
            Some(self.ids.last())
        }
    }

    /// The id of the last log that was purged.
    pub open spec fn last_purged(self) -> Option<LogId<NID>> {
        if self.purged {
            self.first()
        } else {
            None
        }
    }

    /// The log id at `index`.
    pub open spec fn get(self, index: int) -> Option<LogId<NID>> {
        if self.ids.len() > 0 && self.ids[0].index <= index < self.ids[0].index + self.ids.len() {
            Some(self.ids[index - self.ids[0].index])
        } else {
            None
        }
    }

    /// Whether `new` are the ids of logs that directly follow the last one.
    pub open spec fn continues(self, new: Seq<LogId<NID>>) -> bool {
        forall|i: int|
            0 <= i < new.len() ==> (#[trigger] new[i]).index == crate::log_id::next_index(
                self.last(),
            ) + i
    }

    /// With `new` appended.
    pub open spec fn extend(self, new: Seq<LogId<NID>>) -> Self {
        LogIds { ids: self.ids + new, ..self }
    }

    /// With every log since index `at` removed.
    pub open spec fn truncate(self, at: int) -> Self {
        let n = if self.ids.len() == 0 || at <= self.ids[0].index {
            0
        } else if at - self.ids[0].index < self.ids.len() {
            at - self.ids[0].index
        } else {
            self.ids.len() as int
        };
        LogIds { ids: self.ids.take(n), purged: self.purged && n > 0 }
    }

    /// With every log up to the index of `upto` purged.
    ///
    /// The last purged log is then the local one at that index, whether it is `upto` or another one.
    /// A list that ends before `upto` holds `upto` alone, as the last purged log. Nothing changes if
    /// `upto` is before the first index.
    pub open spec fn purge(self, upto: LogId<NID>) -> Self {
        if self.ids.len() == 0 || self.ids.last().index < upto.index {
            LogIds { ids: seq![upto], purged: true }
        } else if upto.index < self.ids[0].index {
            self
        } else {
            LogIds { ids: self.ids.skip(upto.index - self.ids[0].index), purged: true }
        }
    }
}

impl<NID: NodeId> LogIds<NID> {
    /// Whether the log ids are those of a log that follows the protocol: the indexes are
    /// consecutive, the ids are in total order, and the first index is 0 if no log is purged.
    pub open spec fn ordered(self) -> bool {
        &&& self.consecutive()
        &&& self.ascending()
        &&& self.purged ==> self.ids.len() > 0
        &&& !self.purged && self.ids.len() > 0 ==> self.ids[0].index == 0
    }

    /// Whether `log_id` is that of a log in this list, or can be that of a log that was purged.
    pub open spec fn holds(self, log_id: Option<LogId<NID>>) -> bool {
        match log_id {
            None => true,
            Some(x) => self.ids.len() > 0 && if x.index < self.ids[0].index {
                x.lt(self.ids[0])
            } else {
                self.get(x.index as int) == Some(x)
            },
        }
    }

    /// A log that is held is not after the last one.
    pub proof fn held_is_not_after_the_last(self, log_id: Option<LogId<NID>>)
        requires
            self.ordered(),
            self.holds(log_id),
        ensures
            crate::log_id::opt_le(log_id, self.last()),
            crate::log_id::next_index(log_id) <= crate::log_id::next_index(self.last()),
    {
        if let Some(x) = log_id {
            let n = self.ids.len() as int;
            let first = self.ids[0];
            let last = self.ids[n - 1];
            assert(last.index == first.index + (n - 1));
            crate::log_id::log_id_order_is_total(x, first, last);
            crate::log_id::log_id_order_is_total(first, last, last);
            crate::log_id::log_id_order_is_total(x, last, last);
            if n > 1 {
                assert(first.lt(last));
            }
            if x.index >= first.index {
                let i = x.index - first.index;
                assert(self.ids[i] == x);
                if i < n - 1 {
                    assert(self.ids[i].lt(last));
                }
            }
        }
    }

    /// Of two logs that are held, the lesser one comes first, unless both are purged.
    pub proof fn held_logs_are_in_order(self, a: Option<LogId<NID>>, b: Option<LogId<NID>>)
        requires
            self.ordered(),
            self.holds(a),
            self.holds(b),
            crate::log_id::opt_lt(a, b),
            crate::log_id::next_index(self.last_purged()) <= crate::log_id::next_index(a),
        ensures
            crate::log_id::next_index(a) < crate::log_id::next_index(b),
    {
        if let Some(x) = a {
            let y = b->0;
            let i = x.index - self.ids[0].index;
            assert(self.ids[i] == x);
            if i > 0 {
                assert(self.ids[0].lt(self.ids[i]));
            }
            crate::log_id::log_id_order_is_total(x, y, x);
            crate::log_id::log_id_order_is_total(y, self.ids[0], x);
            if self.ids[0].index <= y.index <= x.index {
                let j = y.index - self.ids[0].index;
                assert(self.ids[j] == y);
            }
        }
    }

    /// Appending logs that follow in order keeps the order and every log.
    pub proof fn extending_keeps_the_order(self, new: Seq<LogId<NID>>)
        requires
            self.ordered(),
            crate::log_id::follow_in_order(self.last(), new),
        ensures
            self.extend(new).ordered(),
            forall|x: Option<LogId<NID>>| #[trigger] self.holds(x) ==> self.extend(new).holds(x),
            forall|i: int|
                self.get(i) is Some ==> #[trigger] self.extend(new).get(i) == self.get(i),
            forall|i: int|
                0 <= i < new.len() ==> self.extend(new).get((#[trigger] new[i]).index as int)
                    == Some(new[i]),
            new.len() > 0 ==> self.extend(new).last() == Some(new.last()),
            new.len() == 0 ==> self.extend(new).last() == self.last(),
            self.extend(new).last_purged() == self.last_purged(),
    {
        let e = self.extend(new);
        let n = self.ids.len() as int;
        if n > 0 {
            assert(self.ids[n - 1].index == self.ids[0].index + (n - 1));
            assert(e.ids[0] == self.ids[0]);
        }
        assert forall|i: int| 0 <= i < e.ids.len() implies (#[trigger] e.ids[i]).index
            == e.ids[0].index + i by {
            if i >= n {
                assert(e.ids[i] == new[i - n]);
                if n == 0 {
                    assert(e.ids[0] == new[0]);
                }
            } else {
                assert(e.ids[i] == self.ids[i]);
            }
        }
        assert forall|i: int, j: int|
            #![trigger e.ids[i], e.ids[j]]
            0 <= i < j < e.ids.len() implies e.ids[i].lt(e.ids[j]) by {
            if j >= n {
                assert(e.ids[j] == new[j - n]);
                if i < n {
                    let last = self.ids[n - 1];
                    assert(self.ids[i] == last || self.ids[i].lt(last));
                    crate::log_id::log_id_order_is_total(self.ids[i], last, new[0]);
                    crate::log_id::log_id_order_is_total(self.ids[i], new[0], new[j - n]);
                } else {
                    assert(e.ids[i] == new[i - n]);
                }
            }
        }
        if n == 0 && new.len() > 0 {
            assert(e.ids[0] == new[0]);
        }
        assert forall|i: int| self.get(i) is Some implies #[trigger] e.get(i) == self.get(i) by {
            assert(e.ids[i - self.ids[0].index] == self.ids[i - self.ids[0].index]);
        }
        assert forall|i: int| 0 <= i < new.len() implies e.get((#[trigger] new[i]).index as int)
            == Some(new[i]) by {
            assert(e.ids[n + i] == new[i]);
            assert(e.ids[n + i].index == e.ids[0].index + (n + i));
        }
        assert forall|x: Option<LogId<NID>>| #[trigger] self.holds(x) implies e.holds(x) by {
            if let Some(y) = x {
                if y.index >= self.ids[0].index {
                    assert(e.get(y.index as int) == self.get(y.index as int));
                }
            }
        }
    }

    /// Deleting logs that are not purged keeps the order and every log before them.
    pub proof fn truncating_keeps_the_order(self, at: int)
        requires
            self.ordered(),
            crate::log_id::next_index(self.last_purged()) <= at,
        ensures
            self.truncate(at).ordered(),
            forall|i: int|
                #[trigger] self.truncate(at).get(i) == (if i < at {
                    self.get(i)
                } else {
                    None
                }),
            forall|x: Option<LogId<NID>>|
                #[trigger] self.holds(x) && crate::log_id::next_index(x) <= at ==> self.truncate(
                    at,
                ).holds(x),
            crate::log_id::next_index(self.truncate(at).last()) == (if at
                <= crate::log_id::next_index(self.last()) {
                at
            } else {
                crate::log_id::next_index(self.last())
            }),
            self.truncate(at).last_purged() == self.last_purged(),
    {
        let t = self.truncate(at);
        let n = t.ids.len() as int;
        if self.ids.len() > 0 {
            assert(self.ids[self.ids.len() - 1].index == self.ids[0].index + (self.ids.len() - 1));
        }
        assert forall|i: int| 0 <= i < n implies #[trigger] t.ids[i] == self.ids[i] by {}
        if n > 0 {
            assert(t.ids[n - 1] == self.ids[n - 1]);
            assert(t.ids[0] == self.ids[0]);
        }
        assert forall|i: int| #[trigger] t.get(i) == (if i < at {
            self.get(i)
        } else {
            None
        }) by {
            if t.get(i) is Some {
                assert(t.ids[i - t.ids[0].index] == self.ids[i - t.ids[0].index]);
            }
        }
        assert forall|x: Option<LogId<NID>>|
            #[trigger] self.holds(x) && crate::log_id::next_index(x) <= at implies t.holds(x) by {
            if let Some(y) = x {
                assert(t.get(y.index as int) == self.get(y.index as int));
            }
        }
    }

    /// Replacing the logs after a common one with those of a leader: `prev` and the first `since` of
    /// `ids` are held, and the others replace what is there. Then all are held, and what comes
    /// before is the same.
    pub proof fn replacing_keeps_the_order(
        self,
        prev: Option<LogId<NID>>,
        ids: Seq<LogId<NID>>,
        since: int,
    )
        requires
            self.ordered(),
            crate::log_id::follow_in_order(prev, ids),
            0 <= since < ids.len(),
            self.holds(prev),
            forall|i: int| 0 <= i < since ==> self.holds(Some(#[trigger] ids[i])),
            crate::log_id::next_index(self.last_purged()) <= ids[since].index,
        ensures
            ({
                let at = ids[since].index as int;
                let cut = self.truncate(at);
                let after = cut.extend(ids.skip(since));
                &&& crate::log_id::follow_in_order(cut.last(), ids.skip(since))
                &&& after.ordered()
                &&& after.holds(prev)
                &&& forall|i: int| 0 <= i < ids.len() ==> after.holds(Some(#[trigger] ids[i]))
                &&& forall|i: int|
                    since <= i < ids.len() ==> after.get((#[trigger] ids[i]).index as int) == Some(
                        ids[i],
                    )
                &&& forall|i: int| i < at ==> #[trigger] after.get(i) == self.get(i)
                &&& forall|x: Option<LogId<NID>>|
                    #[trigger] self.holds(x) && crate::log_id::next_index(x) <= at ==> after.holds(
                        x,
                    )
                &&& after.last() == Some(ids.last())
            }),
    {
        let at = ids[since].index as int;
        let t = self.truncate(at);
        self.truncating_keeps_the_order(at);
        // The log before the first one to replace is the one that precedes it in `ids`.
        let pred = if since > 0 {
            Some(ids[since - 1])
        } else {
            prev
        };
        assert(crate::log_id::next_index(pred) == at);
        assert(self.holds(pred));
        self.held_is_not_after_the_last(pred);
        assert(crate::log_id::next_index(t.last()) == at);
        assert(t.last() == pred) by {
            assert(t.holds(pred));
            if pred is Some {
                let n = t.ids.len() as int;
                assert(t.ids[n - 1].index == t.ids[0].index + (n - 1));
                assert(t.get(at - 1) == pred);
            }
        }
        let new = ids.skip(since);
        assert(crate::log_id::follow_in_order(t.last(), new)) by {
            assert forall|i: int| 0 <= i < new.len() implies (#[trigger] new[i]).index
                == crate::log_id::next_index(t.last()) + i by {
                assert(new[i] == ids[since + i]);
            }
            assert(new[0] == ids[since]);
            assert forall|i: int, j: int|
                #![trigger new[i], new[j]]
                0 <= i < j < new.len() implies new[i].lt(new[j]) by {
                assert(new[i] == ids[since + i] && new[j] == ids[since + j]);
            }
        }
        t.extending_keeps_the_order(new);
        let after = t.extend(new);
        assert forall|i: int| since <= i < ids.len() implies after.get(
            (#[trigger] ids[i]).index as int,
        ) == Some(ids[i]) by {
            assert(new[i - since] == ids[i]);
        }
        assert forall|x: Option<LogId<NID>>|
            #[trigger] self.holds(x) && crate::log_id::next_index(x) <= at implies after.holds(
            x,
        ) by {
            assert(t.holds(x));
        }
        assert forall|i: int| 0 <= i < ids.len() implies after.holds(Some(#[trigger] ids[i])) by {
            if i < since {
                assert(self.holds(Some(ids[i])));
            } else {
                assert(after.get(ids[i].index as int) == Some(ids[i]));
                assert(after.ids.len() > 0);
            }
        }
        assert(self.holds(prev));
        assert forall|i: int| i < at implies #[trigger] after.get(i) == self.get(i) by {
            assert(t.get(i) == self.get(i));
            if t.get(i) is None && after.get(i) is Some {
                if t.ids.len() > 0 {
                    assert(after.ids[0] == t.ids[0]);
                    let n = t.ids.len() as int;
                    assert(t.ids[n - 1].index == t.ids[0].index + (n - 1));
                } else {
                    assert(after.ids[0] == new[0]);
                }
            }
        }
        assert(new.last() == ids.last());
    }

    /// Purging up to a log that is present, or that is after all of them, makes it the last purged
    /// one and keeps the order and every later log.
    pub proof fn purging_keeps_the_order(self, upto: LogId<NID>)
        requires
            self.ordered(),
            self.get(upto.index as int) == Some(upto) || crate::log_id::next_index(self.last())
                <= upto.index,
        ensures
            self.purge(upto).ordered(),
            self.purge(upto).last_purged() == Some(upto),
            forall|i: int|
                i > upto.index ==> #[trigger] self.purge(upto).get(i) == self.get(i),
            self.get(upto.index as int) == Some(upto) ==> {
                &&& self.purge(upto).last() == self.last()
                &&& forall|x: Option<LogId<NID>>| #[trigger]
                    self.holds(x) ==> self.purge(upto).holds(x)
            },
            self.get(upto.index as int) is None ==> self.purge(upto).last() == Some(upto),
    {
        let p = self.purge(upto);
        if self.ids.len() > 0 {
            assert(self.ids[self.ids.len() - 1].index == self.ids[0].index + (self.ids.len() - 1));
        }
        if self.get(upto.index as int) == Some(upto) {
            let k = upto.index - self.ids[0].index;
            assert(self.ids[k] == upto);
            assert forall|i: int| 0 <= i < p.ids.len() implies #[trigger] p.ids[i] == self.ids[k
                + i] by {}
            assert(p.ids[0] == upto);
            assert forall|i: int| 0 <= i < p.ids.len() implies (#[trigger] p.ids[i]).index
                == p.ids[0].index + i by {
                assert(p.ids[i] == self.ids[k + i]);
            }
            assert forall|i: int, j: int|
                #![trigger p.ids[i], p.ids[j]]
                0 <= i < j < p.ids.len() implies p.ids[i].lt(p.ids[j]) by {
                assert(p.ids[i] == self.ids[k + i] && p.ids[j] == self.ids[k + j]);
            }
            assert forall|i: int| i > upto.index implies #[trigger] p.get(i) == self.get(i) by {
                if p.get(i) is Some {
                    assert(p.ids[i - upto.index] == self.ids[k + (i - upto.index)]);
                }
            }
            assert(p.ids[p.ids.len() - 1] == self.ids[self.ids.len() - 1]);
            assert forall|x: Option<LogId<NID>>| #[trigger] self.holds(x) implies p.holds(x) by {
                if let Some(y) = x {
                    if y.index >= upto.index {
                        if y.index > upto.index {
                            assert(p.get(y.index as int) == self.get(y.index as int));
                        }
                    } else if y.index >= self.ids[0].index {
                        let i = y.index - self.ids[0].index;
                        assert(self.ids[i] == y && self.ids[i].lt(self.ids[k]));
                    } else if k > 0 {
                        assert(self.ids[0].lt(self.ids[k]));
                        crate::log_id::log_id_order_is_total(y, self.ids[0], upto);
                    }
                }
            }
        }
    }
}

spec fn increasing<NID>(keys: Seq<LogId<NID>>) -> bool {
    forall|i: int, j: int|
        #![trigger keys[i], keys[j]]
        0 <= i < j < keys.len() ==> keys[i].index < keys[j].index
}

/// The leader of the last key that is not after `index`.
spec fn leader_at<NID>(keys: Seq<LogId<NID>>, index: int) -> LeaderId<NID>
    decreases keys.len(),
{
    if keys.len() == 0 {
        arbitrary()
    } else if keys.last().index <= index {
        keys.last().leader_id
    } else {
        leader_at(keys.drop_last(), index)
    }
}

/// The log ids that a list of keys stands for.
spec fn expand<NID>(keys: Seq<LogId<NID>>) -> Seq<LogId<NID>> {
    if keys.len() == 0 {
        Seq::empty()
    } else {
        Seq::new(
            (keys.last().index - keys[0].index + 1) as nat,
            |i: int|
                LogId {
                    leader_id: leader_at(keys, keys[0].index + i),
                    index: (keys[0].index + i) as u64,
                },
        )
    }
}

proof fn lemma_leader_in_segment<NID>(keys: Seq<LogId<NID>>, k: int, index: int)
    requires
        increasing(keys),
        0 <= k < keys.len(),
        keys[k].index <= index,
        k + 1 < keys.len() ==> index < keys[k + 1].index,
    ensures
        leader_at(keys, index) == keys[k].leader_id,
    decreases keys.len(),
{
    if k + 1 < keys.len() {
        assert(keys[k + 1].index <= keys.last().index);
        let front = keys.drop_last();
        assert(increasing(front));
        lemma_leader_in_segment(front, k, index);
    }
}

proof fn lemma_leader_of_prefix<NID>(keys: Seq<LogId<NID>>, n: int, index: int)
    requires
        0 <= n <= keys.len(),
        forall|j: int| n <= j < keys.len() ==> (#[trigger] keys[j]).index > index,
    ensures
        leader_at(keys.take(n), index) == leader_at(keys, index),
    decreases keys.len(),
{
    if n < keys.len() {
        let front = keys.drop_last();
        assert(keys.last() == keys[keys.len() - 1]);
        assert forall|j: int| n <= j < front.len() implies (#[trigger] front[j]).index > index by {
            assert(front[j] == keys[j]);
        }
        lemma_leader_of_prefix(front, n, index);
        assert(front.take(n) == keys.take(n));
    } else {
        assert(keys.take(n) == keys);
    }
}

proof fn lemma_leader_of_suffix<NID>(keys: Seq<LogId<NID>>, n: int, index: int)
    requires
        increasing(keys),
        0 <= n < keys.len(),
        keys[n].index <= index,
    ensures
        leader_at(keys.skip(n), index) == leader_at(keys, index),
    decreases keys.len(),
{
    let s = keys.skip(n);
    assert(s.last() == keys.last());
    if keys.last().index > index {
        assert(n < keys.len() - 1);
        let front = keys.drop_last();
        lemma_leader_of_suffix(front, n, index);
        assert(front.skip(n) == s.drop_last());
    }
}

proof fn lemma_leader_with_later_first<NID>(keys: Seq<LogId<NID>>, first: LogId<NID>, index: int)
    requires
        keys.len() > 0,
        first.leader_id == keys[0].leader_id,
        keys[0].index <= first.index <= index,
    ensures
        leader_at(keys.update(0, first), index) == leader_at(keys, index),
    decreases keys.len(),
{
    let moved = keys.update(0, first);
    if keys.len() > 1 {
        let front = keys.drop_last();
        lemma_leader_with_later_first(front, first, index);
        assert(front.update(0, first) == moved.drop_last());
    }
}

/// The ids of all logs of a node.
///
/// It stores only the ids of logs that have a different leader than the log before, and the last
/// log id.
#[derive(Debug, PartialEq, Eq)]
pub struct LogIdList<NID> {
    key_log_ids: Vec<LogId<NID>>,
    purged: bool,
}

impl<NID> View for LogIdList<NID> {
    type V = LogIds<NID>;

    closed spec fn view(&self) -> LogIds<NID> {
        LogIds { ids: expand(self.key_log_ids@), purged: self.purged }
    }
}

impl<NID: NodeId> Clone for LogIdList<NID> {
    fn clone(&self) -> (r: Self)
        ensures
            r@ == self@,
            self.wf() ==> r.wf(),
    {
        let mut keys: Vec<LogId<NID>> = Vec::new();
        let mut i: usize = 0;
        while i < self.key_log_ids.len()
            invariant
                i <= self.key_log_ids.len(),
                keys@ == self.key_log_ids@.take(i as int),
            decreases self.key_log_ids.len() - i,
        {
            keys.push(self.key_log_ids[i]);
            i += 1;
        }
        assert(keys@ == self.key_log_ids@);
        LogIdList { key_log_ids: keys, purged: self.purged }
    }
}

impl<NID: NodeId> LogIdList<NID> {
    /// Whether the stored log ids have increasing indexes, and there is one if a log is purged.
    pub closed spec fn wf(&self) -> bool {
        &&& increasing(self.key_log_ids@)
        &&& self.purged ==> self.key_log_ids@.len() > 0
    }

    /// What is known of a well-formed list: its indexes are consecutive.
    pub proof fn lemma_consecutive(&self)
        requires
            self.wf(),
        ensures
            self@.consecutive(),
            self@.ids.len() <= u64::MAX + 1,
    {
        let keys = self.key_log_ids@;
        if keys.len() > 0 {
            assert(keys[0].index <= keys.last().index);
        }
    }

    proof fn lemma_ends(&self)
        requires
            self.wf(),
        ensures
            self.key_log_ids@.len() == 0 <==> self@.ids.len() == 0,
            self.key_log_ids@.len() > 0 ==> {
                &&& self.key_log_ids@[0] == self@.ids[0]
                &&& self.key_log_ids@.last() == self@.ids.last()
                &&& self.key_log_ids@[0].index <= self.key_log_ids@.last().index
                &&& self@.ids.len() == self.key_log_ids@.last().index - self.key_log_ids@[0].index
                    + 1
            },
    {
        let keys = self.key_log_ids@;
        if keys.len() > 0 {
            assert(keys[0].index <= keys.last().index);
            if keys.len() > 1 {
                assert(keys[0].index < keys[1].index);
            }
            lemma_leader_in_segment(keys, 0, keys[0].index as int);
        }
    }

    /// An empty list.
    pub fn empty() -> (r: Self)
        ensures
            r@ == (LogIds::<NID> { ids: Seq::empty(), purged: false }),
            r.wf(),
    {
        LogIdList { key_log_ids: Vec::new(), purged: false }
    }

    /// The log ids that `ids` list one by one, of which none is purged unless the first index is
    /// not 0: then the first one is the last purged log.
    pub fn from_log_ids(ids: &Vec<LogId<NID>>) -> (r: Self)
        requires
            forall|i: int| 0 <= i < ids@.len() ==> (#[trigger] ids@[i]).index == ids@[0].index + i,
        ensures
            r@ == (LogIds { ids: ids@, purged: ids@.len() > 0 && ids@[0].index > 0 }),
            r.wf(),
    {
        let mut r = LogIdList::empty();
        let mut i: usize = 0;
        while i < ids.len()
            invariant
                forall|i: int|
                    0 <= i < ids@.len() ==> (#[trigger] ids@[i]).index == ids@[0].index + i,
                i <= ids.len(),
                r.wf(),
                r@.ids == ids@.take(i as int),
                !r@.purged,
            decreases ids.len() - i,
        {
            assert(i > 0 ==> r@.ids.last() == ids@[i - 1]);
            r.append(ids[i]);
            assert(r@.ids =~= ids@.take(i + 1));
            i += 1;
        }
        assert(ids@.take(i as int) == ids@);
        if ids.len() > 0 && ids[0].index > 0 {
            r.purged = true;
        }
        r
    }

    /// The least known log id.
    pub fn first(&self) -> (r: Option<LogId<NID>>)
        requires
            self.wf(),
        ensures
            r == self@.first(),
    {
        proof {
            self.lemma_ends();
        }
        if self.key_log_ids.len() == 0 {
            None
        } else {
            Some(self.key_log_ids[0])
        }
    }

    /// The greatest known log id.
    pub fn last(&self) -> (r: Option<LogId<NID>>)
        requires
            self.wf(),
        ensures
            r == self@.last(),
    {
        proof {
            self.lemma_ends();
        }
        if self.key_log_ids.len() == 0 {
            None
        } else {
            Some(self.key_log_ids[self.key_log_ids.len() - 1])
        }
    }

    /// The id of the last log that was purged.
    pub fn last_purged(&self) -> (r: Option<LogId<NID>>)
        requires
            self.wf(),
        ensures
            r == self@.last_purged(),
    {
        if self.purged {
            self.first()
        } else {
            None
        }
    }

    /// The position of the first stored log id that is not before `index`.
    fn position(&self, index: u64) -> (p: usize)
        requires
            self.wf(),
        ensures
            p <= self.key_log_ids@.len(),
            forall|j: int| 0 <= j < p ==> (#[trigger] self.key_log_ids@[j]).index < index,
            forall|j: int|
                p <= j < self.key_log_ids@.len() ==> (#[trigger] self.key_log_ids@[j]).index
                    >= index,
    {
        let mut lo: usize = 0;
        let mut hi: usize = self.key_log_ids.len();
        while lo < hi
            invariant
                self.wf(),
                lo <= hi <= self.key_log_ids@.len(),
                forall|j: int| 0 <= j < lo ==> (#[trigger] self.key_log_ids@[j]).index < index,
                forall|j: int|
                    hi <= j < self.key_log_ids@.len() ==> (#[trigger] self.key_log_ids@[j]).index
                        >= index,
            decreases hi - lo,
        {
            let mid: usize = lo + (hi - lo) / 2;
            if self.key_log_ids[mid].index < index {
                lo = mid + 1;
            } else {
                hi = mid;
            }
        }
        lo
    }

    /// The log id at `index`.
    pub fn get(&self, index: u64) -> (r: Option<LogId<NID>>)
        requires
            self.wf(),
        ensures
            r == self@.get(index as int),
    {
        proof {
            self.lemma_ends();
        }
        let p = self.position(index);
        let ghost keys = self.key_log_ids@;
        if p < self.key_log_ids.len() && self.key_log_ids[p].index == index {
            proof {
                assert(keys[0].index <= keys[p as int].index <= keys.last().index);
                if p + 1 < keys.len() {
                    assert(keys[p as int].index < keys[p + 1].index);
                }
                lemma_leader_in_segment(keys, p as int, index as int);
            }
            Some(LogId { leader_id: self.key_log_ids[p].leader_id, index })
        } else if p == 0 || p == self.key_log_ids.len() {
            proof {
                if keys.len() > 0 {
                    if p == 0 {
                        assert(keys[0].index >= index);
                    } else {
                        assert(keys[keys.len() - 1].index < index);
                    }
                }
            }
            None
        } else {
            proof {
                assert(keys[p - 1].index < index);
                assert(keys[p as int].index >= index);
                assert(keys[0].index <= keys[p - 1].index);
                assert(keys[p as int].index <= keys.last().index);
                lemma_leader_in_segment(keys, p - 1, index as int);
            }
            Some(LogId { leader_id: self.key_log_ids[p - 1].leader_id, index })
        }
    }

    /// Appends `new`, after the logs between the last one and `new`, which are taken to be of the
    /// last leader.
    pub fn append(&mut self, new: LogId<NID>)
        requires
            old(self).wf(),
            old(self)@.ids.len() > 0 ==> old(self)@.ids.last().index < new.index,
        ensures
            final(self).wf(),
            final(self)@.purged == old(self)@.purged,
            old(self)@.ids.len() == 0 ==> final(self)@.ids == seq![new],
            old(self)@.ids.len() > 0 ==> final(self)@.ids == old(self)@.ids + Seq::new(
                (new.index - old(self)@.ids.last().index - 1) as nat,
                |i: int|
                    LogId {
                        leader_id: old(self)@.ids.last().leader_id,
                        index: (old(self)@.ids.last().index + 1 + i) as u64,
                    },
            ) + seq![new],
    {
        proof {
            self.lemma_ends();
        }
        let ghost keys = self.key_log_ids@;
        let l = self.key_log_ids.len();
        if l == 0 {
            self.key_log_ids.push(new);
            assert(self@.ids =~= seq![new]) by {
                lemma_leader_in_segment(self.key_log_ids@, 0, new.index as int);
            }
            return ;
        }
        let ghost last = keys.last();
        let ghost gap = Seq::new(
            (new.index - last.index - 1) as nat,
            |i: int| LogId { leader_id: last.leader_id, index: (last.index + 1 + i) as u64 },
        );
        if l >= 2 && self.key_log_ids[l - 2].leader_id.same_as(
            &self.key_log_ids[l - 1].leader_id,
        ) {
            // The last one is not the first log of its leader: it is replaced.
            self.key_log_ids[l - 1] = new;
            proof {
                let front = keys.drop_last();
                let now = self.key_log_ids@;
                assert(now == front.push(new));
                assert(keys[l - 2].index < keys[l - 1].index);
                assert forall|index: int| keys[0].index <= index < new.index implies leader_at(
                    now,
                    index,
                ) == leader_at(keys, index) by {
                    assert(now.drop_last() == front);
                    if index >= last.index {
                        assert(front.last() == keys[l - 2]);
                        assert(leader_at(front, index) == front.last().leader_id);
                    }
                }
                assert(increasing(now)) by {
                    assert forall|i: int, j: int|
                        #![trigger now[i], now[j]]
                        0 <= i < j < now.len() implies now[i].index < now[j].index by {
                        assert(now[i] == keys[i]);
                        assert(keys[i].index <= last.index);
                    }
                }
                assert(self@.ids =~= expand(keys) + gap + seq![new]);
            }
            return ;
        }
        self.key_log_ids.push(new);
        proof {
            let now = self.key_log_ids@;
            assert(now == keys.push(new));
            assert(now.drop_last() == keys);
            assert(increasing(now)) by {
                assert forall|i: int, j: int|
                    #![trigger now[i], now[j]]
                    0 <= i < j < now.len() implies now[i].index < now[j].index by {
                    assert(now[i] == keys[i]);
                    assert(keys[i].index <= last.index);
                }
            }
            assert forall|index: int| keys[0].index <= index < new.index implies leader_at(
                now,
                index,
            ) == leader_at(keys, index) by {}
            assert(self@.ids =~= expand(keys) + gap + seq![new]);
        }
    }

    /// Appends the log ids of `new`, which follow the last one and are all of one leader.
    pub fn extend_from_same_leader<Ent: RaftLogId<NID>>(&mut self, new: &[Ent])
        requires
            old(self).wf(),
            old(self)@.continues(crate::entry::carried_log_ids(new@)),
            forall|i: int|
                0 <= i < new@.len() ==> (#[trigger] new@[i]).spec_log_id().leader_id
                    == new@[0].spec_log_id().leader_id,
        ensures
            final(self).wf(),
            final(self)@ == old(self)@.extend(crate::entry::carried_log_ids(new@)),
    {
        let ghost ids = crate::entry::carried_log_ids(new@);
        proof {
            assert forall|i: int| 0 <= i < new@.len() implies #[trigger] ids[i]
                == new@[i].spec_log_id() by {}
        }
        let n = new.len();
        if n == 0 {
            assert(self@.ids =~= self@.ids + ids);
            return ;
        }
        let first = *new[0].get_log_id();
        assert(ids[0] == first);
        self.append(first);
        assert(self@.ids =~= old(self)@.ids + ids.take(1));
        if n > 1 {
            let last = *new[n - 1].get_log_id();
            assert(ids[n - 1] == last);
            let ghost before = self@.ids;
            assert(before.last() == first);
            self.append(last);
            proof {
                let all = old(self)@.ids + ids;
                assert(self@.ids.len() == all.len());
                assert forall|i: int| 0 <= i < all.len() implies self@.ids[i] == all[i] by {
                    let k = i - old(self)@.ids.len();
                    if k >= 1 && k < n - 1 {
                        assert(ids[k] == new@[k].spec_log_id());
                        assert(ids[k].index == crate::log_id::next_index(old(self)@.last()) + k);
                        assert(all[i] == ids[k]);
                    }
                }
                assert(self@.ids =~= all);
            }
        } else {
            assert(ids.take(1) == ids);
        }
    }

    /// Appends the log ids of `new`, which follow the last one.
    pub fn extend<Ent: RaftLogId<NID>>(&mut self, new: &[Ent])
        requires
            old(self).wf(),
            old(self)@.continues(crate::entry::carried_log_ids(new@)),
        ensures
            final(self).wf(),
            final(self)@ == old(self)@.extend(crate::entry::carried_log_ids(new@)),
    {
        let ghost ids = crate::entry::carried_log_ids(new@);
        let ghost start = old(self)@.ids;
        let n = new.len();
        let mut i: usize = 0;
        // How many of the new ids are in the list; the others are of the last leader.
        let ghost mut done: int = 0;
        assert(start + ids.take(0) =~= start);
        while i < n
            invariant
                n == new@.len(),
                ids == crate::entry::carried_log_ids(new@),
                start == old(self)@.ids,
                old(self)@.continues(ids),
                i <= n,
                0 <= done <= i,
                self.wf(),
                self@.purged == old(self)@.purged,
                self@.ids == start + ids.take(done),
                done < i ==> self@.ids.len() > 0,
                forall|k: int|
                    done <= k < i ==> (#[trigger] ids[k]).leader_id == self@.ids.last().leader_id,
            decreases n - i,
        {
            let log_id = *new[i].get_log_id();
            assert(ids[i as int] == log_id);
            let is_new_leader = match self.last() {
                None => true,
                Some(last) => !last.leader_id.same_as(&log_id.leader_id),
            };
            if is_new_leader {
                proof {
                    lemma_extended_last(*old(self), ids, done);
                }
                let ghost before = self@.ids;
                self.append(log_id);
                proof {
                    lemma_extended(*old(self), ids, done, i as int, before, self@.ids);
                    done = i + 1;
                }
            }
            i += 1;
        }
        if n > 0 {
            let log_id = *new[n - 1].get_log_id();
            assert(ids[n - 1] == log_id);
            proof {
                lemma_extended_last(*old(self), ids, done);
            }
            let is_last = match self.last() {
                None => false,
                Some(last) => last.same_as(&log_id),
            };
            if !is_last {
                proof {
                    if done == n {
                        assert(self@.ids.last() == ids[n - 1]);
                    }
                }
                let ghost before = self@.ids;
                self.append(log_id);
                proof {
                    lemma_extended(*old(self), ids, done, n - 1, before, self@.ids);
                    done = n as int;
                }
            } else {
                proof {
                    if done < n {
                        assert(ids[n - 1].index == crate::log_id::next_index(old(self)@.last()) + n - 1);
                        if done > 0 {
                            assert(self@.ids.last() == ids[done - 1]);
                            assert(ids[done - 1].index == crate::log_id::next_index(old(self)@.last()) + done - 1);
                        }
                        assert(false);
                    }
                }
            }
        }
        assert(ids.take(n as int) == ids);
    }

    /// Deletes the logs since index `at`.
    pub fn truncate(&mut self, at: u64)
        requires
            old(self).wf(),
        ensures
            final(self).wf(),
            final(self)@ == old(self)@.truncate(at as int),
    {
        proof {
            self.lemma_ends();
            self.lemma_consecutive();
        }
        let ghost keys = self.key_log_ids@;
        let p = self.position(at);
        if p == self.key_log_ids.len() {
            proof {
                if keys.len() > 0 {
                    assert(keys[keys.len() - 1].index < at);
                }
                assert(self@ =~= self@.truncate(at as int));
            }
            return ;
        }
        self.key_log_ids.truncate(p);
        if p == 0 {
            self.purged = false;
            assert(keys[0].index >= at);
            assert(self@ =~= old(self)@.truncate(at as int));
            return ;
        }
        let last = self.key_log_ids[p - 1];
        proof {
            let now = self.key_log_ids@;
            assert(now == keys.take(p as int));
            assert(increasing(now));
            assert(keys[p - 1].index < at);
            assert(keys[p as int].index >= at);
            assert(keys[0].index <= last.index);
            assert(keys[p as int].index <= keys.last().index);
            assert forall|index: int| keys[0].index <= index < at implies leader_at(now, index)
                == leader_at(keys, index) by {
                assert forall|j: int| p <= j < keys.len() implies (#[trigger] keys[j]).index
                    > index by {}
                lemma_leader_of_prefix(keys, p as int, index);
            }
            self.lemma_ends();
            assert(self@.ids =~= old(self)@.ids.take(last.index - keys[0].index + 1));
        }
        if last.index < at - 1 {
            let ghost before = self@.ids;
            self.append(LogId { leader_id: last.leader_id, index: at - 1 });
            proof {
                assert forall|index: int| last.index <= index < at implies leader_at(keys, index)
                    == last.leader_id by {
                    lemma_leader_in_segment(keys, p - 1, index);
                }
                assert(self@.ids =~= old(self)@.ids.take(at - keys[0].index));
            }
        }
        assert(self@ =~= old(self)@.truncate(at as int));
    }

    /// Forgets the logs before `upto`, and keeps its id as that of the last purged log.
    pub fn purge(&mut self, upto: &LogId<NID>)
        requires
            old(self).wf(),
        ensures
            final(self).wf(),
            final(self)@ == old(self)@.purge(*upto),
    {
        proof {
            self.lemma_ends();
        }
        let ghost keys = self.key_log_ids@;
        let l = self.key_log_ids.len();
        if l == 0 || self.key_log_ids[l - 1].index < upto.index {
            let mut fresh: Vec<LogId<NID>> = Vec::new();
            fresh.push(*upto);
            self.key_log_ids = fresh;
            self.purged = true;
            proof {
                lemma_leader_in_segment(self.key_log_ids@, 0, upto.index as int);
                assert(self@.ids =~= seq![*upto]);
            }
            return ;
        }
        if upto.index < self.key_log_ids[0].index {
            return ;
        }
        let p = self.position(upto.index);
        self.purged = true;
        let ghost cut = old(self)@.ids.skip(upto.index - keys[0].index);
        if self.key_log_ids[p].index == upto.index {
            let rest = self.key_log_ids.split_off(p);
            self.key_log_ids = rest;
            proof {
                let now = self.key_log_ids@;
                assert(now == keys.skip(p as int));
                assert(increasing(now));
                assert(now.last() == keys.last());
                assert forall|index: int| upto.index <= index implies leader_at(now, index)
                    == leader_at(keys, index) by {
                    lemma_leader_of_suffix(keys, p as int, index);
                }
                assert(self@.ids =~= cut);
            }
        } else {
            assert(p > 0) by {
                if p == 0 {
                    assert(keys[0].index >= upto.index);
                }
            }
            let mut rest = self.key_log_ids.split_off(p - 1);
            let first = LogId { leader_id: rest[0].leader_id, index: upto.index };
            let ghost suffix = rest@;
            rest[0] = first;
            self.key_log_ids = rest;
            proof {
                let now = self.key_log_ids@;
                assert(suffix == keys.skip(p - 1));
                assert(now == suffix.update(0, first));
                assert(keys[p - 1].index < upto.index);
                assert(keys[p as int].index > upto.index);
                assert(increasing(now)) by {
                    assert forall|i: int, j: int|
                        #![trigger now[i], now[j]]
                        0 <= i < j < now.len() implies now[i].index < now[j].index by {
                        assert(now[j] == keys[j + p - 1]);
                        if i == 0 {
                            assert(keys[p as int].index <= keys[j + p - 1].index);
                        } else {
                            assert(now[i] == keys[i + p - 1]);
                        }
                    }
                }
                assert(now.last() == keys.last());
                assert forall|index: int| upto.index <= index implies leader_at(now, index)
                    == leader_at(keys, index) by {
                    lemma_leader_of_suffix(keys, p - 1, index);
                    lemma_leader_with_later_first(suffix, first, index);
                }
                assert(self@.ids =~= cut);
            }
        }
    }
}

proof fn lemma_extended_last<NID: NodeId>(list: LogIdList<NID>, ids: Seq<LogId<NID>>, done: int)
    requires
        list@.continues(ids),
        0 <= done <= ids.len(),
    ensures
        (list@.ids + ids.take(done)).len() > 0 ==> (list@.ids + ids.take(done)).last().index
            == crate::log_id::next_index(list@.last()) + done - 1,
{
    let s = list@.ids + ids.take(done);
    if done > 0 {
        assert(s.last() == ids[done - 1]);
    } else if s.len() > 0 {
        assert(s =~= list@.ids);
    }
}

proof fn lemma_extended<NID: NodeId>(
    list: LogIdList<NID>,
    ids: Seq<LogId<NID>>,
    done: int,
    i: int,
    before: Seq<LogId<NID>>,
    after: Seq<LogId<NID>>,
)
    requires
        list@.continues(ids),
        0 <= done <= i < ids.len(),
        before == list@.ids + ids.take(done),
        done < i ==> before.len() > 0,
        forall|k: int| done <= k < i ==> (#[trigger] ids[k]).leader_id == before.last().leader_id,
        before.len() == 0 ==> after == seq![ids[i]],
        before.len() > 0 ==> after == before + Seq::new(
            (ids[i].index - before.last().index - 1) as nat,
            |k: int|
                LogId {
                    leader_id: before.last().leader_id,
                    index: (before.last().index + 1 + k) as u64,
                },
        ) + seq![ids[i]],
    ensures
        after == list@.ids + ids.take(i + 1),
{
    lemma_extended_last(list, ids, done);
    let want = list@.ids + ids.take(i + 1);
    assert(after.len() == want.len());
    assert forall|k: int| 0 <= k < want.len() implies after[k] == want[k] by {
        let m = k - list@.ids.len();
        if k >= before.len() && k < want.len() - 1 {
            assert(want[k] == ids[m]);
            assert(ids[m].index == crate::log_id::next_index(list@.last()) + m);
        }
    }
    assert(after =~= want);
}

/// The log at an index is the one that has this index.
pub proof fn get_finds_the_log_with_the_index<NID: NodeId>(
    logs: LogIds<NID>,
    index: int,
    x: LogId<NID>,
)
    requires
        logs.consecutive(),
    ensures
        logs.get(index) == Some(x) <==> logs.ids.contains(x) && x.index == index,
{
    if logs.ids.contains(x) {
        let i = logs.ids.index_of(x);
        assert(logs.ids[i] == x);
    }
    if logs.get(index) == Some(x) {
        assert(logs.ids[index - logs.ids[0].index] == x);
    }
}

/// The first and the last log are those with the least and the greatest index, and the last purged log
/// is the first one if a log is purged.
pub proof fn first_and_last_are_the_ends<NID: NodeId>(logs: LogIds<NID>, x: LogId<NID>)
    requires
        logs.consecutive(),
    ensures
        logs.first() is None <==> logs.ids.len() == 0,
        logs.last() is None <==> logs.ids.len() == 0,
        logs.first() == Some(x) <==> logs.ids.contains(x) && (forall|y: LogId<NID>| #[trigger]
            logs.ids.contains(y) ==> x.index <= y.index),
        logs.last() == Some(x) <==> logs.ids.contains(x) && (forall|y: LogId<NID>| #[trigger]
            logs.ids.contains(y) ==> y.index <= x.index),
        logs.purged ==> logs.last_purged() == logs.first(),
        !logs.purged ==> logs.last_purged() is None,
{
    let n = logs.ids.len() as int;
    if n > 0 {
        assert(logs.ids.contains(logs.ids[0]) && logs.ids.contains(logs.ids[n - 1]));
        assert forall|y: LogId<NID>| #[trigger] logs.ids.contains(y) implies logs.ids[0].index
            <= y.index && y.index <= logs.ids[n - 1].index by {
            let k = logs.ids.index_of(y);
            assert(logs.ids[k] == y);
        }
        if logs.ids.contains(x) {
            let k = logs.ids.index_of(x);
            assert(logs.ids[k] == x);
        }
    }
}

/// Appending, deleting and purging change the log ids by index: appending adds the new ones at the end,
/// deleting removes exactly those from `at` on, and purging removes exactly those before `upto`, unless
/// the list ends before it.
pub proof fn changing_the_list_keeps_the_other_logs<NID: NodeId>(
    logs: LogIds<NID>,
    new: Seq<LogId<NID>>,
    at: int,
    upto: LogId<NID>,
)
    requires
        logs.consecutive(),
    ensures
        logs.extend(new).ids == logs.ids + new,
        logs.extend(new).purged == logs.purged,
        logs.truncate(at).consecutive(),
        forall|x: LogId<NID>| #[trigger]
            logs.truncate(at).ids.contains(x) <==> logs.ids.contains(x) && x.index < at,
        logs.truncate(at).purged <==> logs.purged && logs.truncate(at).ids.len() > 0,
        logs.purge(upto).consecutive(),
        (forall|y: LogId<NID>| #[trigger] logs.ids.contains(y) ==> y.index < upto.index)
            ==> logs.purge(upto).ids == seq![upto],
        (exists|y: LogId<NID>| #[trigger] logs.ids.contains(y) && y.index >= upto.index)
            ==> forall|x: LogId<NID>| #[trigger]
            logs.purge(upto).ids.contains(x) <==> logs.ids.contains(x) && x.index >= upto.index,
        logs.purge(upto).purged <==> logs.purged || logs.ids.len() == 0 || upto.index
            >= logs.ids[0].index,
{
    let n = logs.ids.len() as int;
    let t = logs.truncate(at);
    assert forall|x: LogId<NID>| #[trigger] t.ids.contains(x) <==> logs.ids.contains(x) && x.index
        < at by {
        if t.ids.contains(x) {
            let k = t.ids.index_of(x);
            assert(logs.ids[k] == x);
        }
        if logs.ids.contains(x) && x.index < at {
            let k = logs.ids.index_of(x);
            assert(logs.ids[k].index == logs.ids[0].index + k);
            assert(t.ids[k] == x);
        }
    }
    let p = logs.purge(upto);
    if n > 0 {
        let last = logs.ids[n - 1];
        assert(logs.ids.contains(last));
        assert(last.index == logs.ids[0].index + (n - 1));
        if last.index >= upto.index {
            let c = if upto.index < logs.ids[0].index {
                0
            } else {
                upto.index - logs.ids[0].index
            };
            assert(p.ids =~= logs.ids.skip(c));
            assert forall|i: int| 0 <= i < p.ids.len() implies (#[trigger] p.ids[i]).index
                == p.ids[0].index + i by {
                assert(p.ids[i] == logs.ids[c + i] && p.ids[0] == logs.ids[c]);
            }
            assert forall|x: LogId<NID>| #[trigger] p.ids.contains(x) <==> logs.ids.contains(x)
                && x.index >= upto.index by {
                if p.ids.contains(x) {
                    let k = p.ids.index_of(x);
                    assert(logs.ids[c + k] == x);
                }
                if logs.ids.contains(x) && x.index >= upto.index {
                    let k = logs.ids.index_of(x);
                    assert(logs.ids[k].index == logs.ids[0].index + k);
                    assert(p.ids[k - c] == x);
                }
            }
        } else {
            assert forall|y: LogId<NID>| #[trigger] logs.ids.contains(y) implies y.index
                < upto.index by {
                let k = logs.ids.index_of(y);
                assert(logs.ids[k] == y);
            }
        }
    }
}

} // verus!
