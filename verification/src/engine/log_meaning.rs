//! What each operation on logs and snapshots is for, stated of the fields of the engine, of the entries
//! by position, and of the commands it queues.
use vstd::prelude::*;

use crate::command::CommandView;
use crate::engine::model::EngineView;
use crate::entry::EntryView;
use crate::leader::InternalStateView;
use crate::log_id::LogId;
use crate::log_id_list::LogIds;
use crate::membership::{EffectiveMembershipView, MembershipStateView};
use crate::message::AppendEntriesResponse;
use crate::metrics::MetricsChangeFlags;
use crate::node::NodeId;
use crate::raft_state::RaftStateView;
use crate::snapshot::SnapshotMetaView;
use crate::vote::Vote;

verus! {

/// The membership that an entry holds, with the log that holds it.
pub open spec fn held_by<NID, NV>(e: EntryView<NID, NV>) -> EffectiveMembershipView<NID, NV> {
    EffectiveMembershipView { log_id: Some(e.log_id), membership: e.membership->0 }
}

/// No entry from `start` up to but not including `end` holds a membership.
pub open spec fn no_membership<NID, NV>(
    entries: Seq<EntryView<NID, NV>>,
    start: int,
    end: int,
) -> bool {
    forall|k: int| start <= k < end ==> (#[trigger] entries[k]).membership is None
}

/// The memberships of a follower after it has appended the entries since `since`: the last one that an
/// appended entry holds is effective, and the one before it, in the appended entries or effective
/// before, is committed.
pub open spec fn follows_memberships<NID, NV>(
    old: MembershipStateView<NID, NV>,
    new: MembershipStateView<NID, NV>,
    entries: Seq<EntryView<NID, NV>>,
    since: int,
) -> bool {
    &&& no_membership(entries, since, entries.len() as int) ==> new == old
    &&& forall|i: int|
        since <= i < entries.len() && (#[trigger] entries[i]).membership is Some && no_membership(
            entries,
            i + 1,
            entries.len() as int,
        ) ==> {
            &&& new.effective == held_by(entries[i])
            &&& no_membership(entries, since, i) ==> new.committed == old.effective
            &&& forall|j: int|
                since <= j < i && (#[trigger] entries[j]).membership is Some && no_membership(
                    entries,
                    j + 1,
                    i,
                ) ==> new.committed == held_by(entries[j])
        }
}

// ---- Memberships in entries

proof fn lemma_no_memberships<NID, NV>(entries: Seq<EntryView<NID, NV>>)
    requires
        no_membership(entries, 0, entries.len() as int),
    ensures
        crate::engine::model::memberships_in(entries).len() == 0,
{
    entries.lemma_all_neg_filter_empty(|e: EntryView<NID, NV>| e.membership is Some);
}

proof fn lemma_one_membership<NID, NV>(e: EntryView<NID, NV>)
    requires
        e.membership is Some,
    ensures
        crate::engine::model::memberships_in(seq![e]) == seq![held_by(e)],
{
    reveal_with_fuel(Seq::filter, 2);
    assert(seq![e].drop_last() =~= Seq::empty());
    assert(crate::engine::model::memberships_in(seq![e]) =~= seq![held_by(e)]);
}

proof fn lemma_memberships_up_to<NID, NV>(entries: Seq<EntryView<NID, NV>>, i: int)
    requires
        0 <= i < entries.len(),
        entries[i].membership is Some,
        no_membership(entries, i + 1, entries.len() as int),
    ensures
        crate::engine::model::memberships_in(entries) == crate::engine::model::memberships_in(
            entries.take(i),
        ).push(held_by(entries[i])),
{
    let front = entries.take(i);
    let back = entries.skip(i + 1);
    let e = entries[i];
    crate::engine::model::memberships_in_parts(front, seq![e]);
    crate::engine::model::memberships_in_parts(front + seq![e], back);
    assert(front + seq![e] + back =~= entries);
    assert forall|k: int| 0 <= k < back.len() implies (#[trigger] back[k]).membership is None by {
        assert(back[k] == entries[i + 1 + k]);
    }
    lemma_no_memberships(back);
    lemma_one_membership(e);
    let a = crate::engine::model::memberships_in(front);
    assert(crate::engine::model::memberships_in(entries) =~= a.push(held_by(e)));
}

proof fn lemma_last_two_at<NID, NV>(entries: Seq<EntryView<NID, NV>>, i: int, j: int)
    requires
        -1 <= j < i < entries.len(),
        entries[i].membership is Some,
        no_membership(entries, i + 1, entries.len() as int),
        j >= 0 ==> entries[j].membership is Some,
        no_membership(entries, j + 1, i),
    ensures
        crate::engine::model::last_two_memberships(entries) == (if j < 0 {
            seq![held_by(entries[i])]
        } else {
            seq![held_by(entries[j]), held_by(entries[i])]
        }),
{
    let found = crate::engine::model::last_two_memberships(entries);
    let front = entries.take(i);
    lemma_memberships_up_to(entries, i);
    assert forall|k: int| j + 1 <= k < front.len() implies (
    #[trigger] front[k]).membership is None by {
        assert(front[k] == entries[k]);
    }
    if j < 0 {
        lemma_no_memberships(front);
        assert(found =~= seq![held_by(entries[i])]);
    } else {
        assert(front[j] == entries[j]);
        lemma_memberships_up_to(front, j);
        assert(found =~= seq![held_by(entries[j]), held_by(entries[i])]);
    }
}

/// The last two memberships in entries are those of the last two entries that hold one, whatever these
/// memberships are.
pub proof fn last_two_memberships_are_the_last_two<NID, NV>(entries: Seq<EntryView<NID, NV>>)
    ensures
        ({
            let found = crate::engine::model::last_two_memberships(entries);
            let n = entries.len() as int;
            &&& no_membership(entries, 0, n) <==> found.len() == 0
            &&& forall|i: int|
                0 <= i < n && (#[trigger] entries[i]).membership is Some && no_membership(
                    entries,
                    i + 1,
                    n,
                ) ==> {
                    &&& no_membership(entries, 0, i) ==> found == seq![held_by(entries[i])]
                    &&& forall|j: int|
                        0 <= j < i && (#[trigger] entries[j]).membership is Some && no_membership(
                            entries,
                            j + 1,
                            i,
                        ) ==> found == seq![held_by(entries[j]), held_by(entries[i])]
                }
        }),
{
    let n = entries.len() as int;
    let all = crate::engine::model::memberships_in(entries);
    let found = crate::engine::model::last_two_memberships(entries);
    if no_membership(entries, 0, n) {
        lemma_no_memberships(entries);
    }
    if found.len() == 0 {
        assert(all.len() == 0);
        let p = |e: EntryView<NID, NV>| e.membership is Some;
        assert forall|k: int| 0 <= k < n implies (#[trigger] entries[k]).membership is None by {
            if p(entries[k]) {
                entries.lemma_filter_contains(p, k);
            }
        }
    }
    assert forall|i: int|
        0 <= i < n && (#[trigger] entries[i]).membership is Some && no_membership(
            entries,
            i + 1,
            n,
        ) implies {
        &&& no_membership(entries, 0, i) ==> found == seq![held_by(entries[i])]
        &&& forall|j: int|
            0 <= j < i && (#[trigger] entries[j]).membership is Some && no_membership(
                entries,
                j + 1,
                i,
            ) ==> found == seq![held_by(entries[j]), held_by(entries[i])]
    } by {
        if no_membership(entries, 0, i) {
            lemma_last_two_at(entries, i, -1);
        }
        assert forall|j: int|
            0 <= j < i && (#[trigger] entries[j]).membership is Some && no_membership(
                entries,
                j + 1,
                i,
            ) implies found == seq![held_by(entries[j]), held_by(entries[i])] by {
            lemma_last_two_at(entries, i, j);
        }
    }
}

/// The greatest position of an entry with a membership.
proof fn lemma_last_membership<NID, NV>(
    entries: Seq<EntryView<NID, NV>>,
    start: int,
    end: int,
) -> (i: int)
    requires
        0 <= start <= end <= entries.len(),
        !no_membership(entries, start, end),
    ensures
        start <= i < end,
        entries[i].membership is Some,
        no_membership(entries, i + 1, end),
    decreases end - start,
{
    if end > start && entries[end - 1].membership is Some {
        end - 1
    } else {
        let k = choose|k: int| start <= k < end && (#[trigger] entries[k]).membership is Some;
        assert(!no_membership(entries, start, end - 1)) by {
            assert(entries[k].membership is Some);
        }
        lemma_last_membership(entries, start, end - 1)
    }
}

/// The last one or two memberships replace those of a follower: the last takes effect, and the other
/// one, or the former effective one, is committed. Nothing else changes.
pub proof fn the_last_membership_takes_effect<NID: NodeId, NV>(
    s: EngineView<NID, NV>,
    a: EffectiveMembershipView<NID, NV>,
    b: EffectiveMembershipView<NID, NV>,
)
    ensures
        crate::engine::meaning::changes_to(
            s,
            s.update_membership_state(seq![a]),
            RaftStateView {
                membership_state: MembershipStateView {
                    committed: s.state.membership_state.effective,
                    effective: a,
                },
                ..s.state
            },
            Seq::empty(),
        ),
        crate::engine::meaning::changes_to(
            s,
            s.update_membership_state(seq![a, b]),
            RaftStateView {
                membership_state: MembershipStateView { committed: a, effective: b },
                ..s.state
            },
            Seq::empty(),
        ),
{
    assert(s.commands + Seq::<CommandView<NID, NV>>::empty() =~= s.commands);
}

/// A follower follows the memberships in entries that it appends. If there is one, the runtime is told
/// the effective one, and the role if it changes. If there is none, nothing changes.
pub proof fn a_follower_follows_the_last_membership<NID: NodeId, NV>(
    s: EngineView<NID, NV>,
    entries: Seq<EntryView<NID, NV>>,
)
    ensures
        ({
            let after = s.follower_update_membership(entries);
            let old = s.state.membership_state;
            let new = after.state.membership_state;
            let leading = s.state.internal_server_state is Leading;
            let was = crate::engine::meaning::role_of(
                s.id,
                old.effective.membership,
                s.state.vote,
                leading,
            );
            let now = crate::engine::meaning::role_of(
                s.id,
                new.effective.membership,
                s.state.vote,
                leading,
            );
            &&& follows_memberships(old, new, entries, 0)
            &&& no_membership(entries, 0, entries.len() as int) ==> after == s
            &&& !no_membership(entries, 0, entries.len() as int)
                ==> crate::engine::meaning::changes_to(
                s,
                after,
                RaftStateView {
                    membership_state: new,
                    server_state: if was == now {
                        s.state.server_state
                    } else {
                        now
                    },
                    ..s.state
                },
                seq![CommandView::UpdateMembership { membership: new.effective }]
                    + crate::engine::meaning::telling_role(was, now),
            )
        }),
{
    let n = entries.len() as int;
    let found = crate::engine::model::last_two_memberships(entries);
    let old = s.state.membership_state;
    let updated = s.update_membership_state(found);
    let new = updated.state.membership_state;
    assert(entries.skip(0) =~= entries);
    lemma_found_memberships_are_followed(old, entries, 0);
    if !no_membership(entries, 0, n) {
        let told = CommandView::UpdateMembership { membership: new.effective };
        crate::engine::meaning::the_role_follows_from_membership_and_vote(s);
        crate::engine::meaning::the_role_follows_from_membership_and_vote(updated.push(told));
        let was = s.calc_server_state();
        crate::engine::meaning::setting_the_role_tells_a_change(updated.push(told), was, was);
        let role = crate::engine::meaning::telling_role::<NID, NV>(
            was,
            updated.push(told).calc_server_state(),
        );
        assert(s.follower_update_membership(entries).commands =~= s.commands + (seq![told] + role));
    }
}

proof fn lemma_no_membership_in_tail<NID, NV>(
    entries: Seq<EntryView<NID, NV>>,
    since: int,
    start: int,
    end: int,
)
    requires
        0 <= since <= start,
        end <= entries.len(),
    ensures
        no_membership(entries, start, end) <==> no_membership(
            entries.skip(since),
            start - since,
            end - since,
        ),
{
    let tail = entries.skip(since);
    if no_membership(entries, start, end) {
        assert forall|k: int| start - since <= k < end - since implies (
        #[trigger] tail[k]).membership is None by {
            assert(entries[since + k].membership is None);
        }
    }
    if no_membership(tail, start - since, end - since) {
        assert forall|k: int| start <= k < end implies (
        #[trigger] entries[k]).membership is None by {
            assert(tail[k - since].membership is None);
        }
    }
}

proof fn lemma_found_memberships_are_followed<NID, NV>(
    old: MembershipStateView<NID, NV>,
    entries: Seq<EntryView<NID, NV>>,
    since: int,
)
    requires
        0 <= since <= entries.len(),
    ensures
        ({
            let found = crate::engine::model::last_two_memberships(entries.skip(since));
            &&& no_membership(entries, since, entries.len() as int) <==> found.len() == 0
            &&& found.len() <= 2
            &&& follows_memberships(
                old,
                if found.len() == 0 {
                    old
                } else if found.len() == 1 {
                    MembershipStateView { committed: old.effective, effective: found[0] }
                } else {
                    MembershipStateView { committed: found[0], effective: found[1] }
                },
                entries,
                since,
            )
        }),
{
    let n = entries.len() as int;
    let tail = entries.skip(since);
    let found = crate::engine::model::last_two_memberships(tail);
    lemma_no_membership_in_tail(entries, since, since, n);
    if no_membership(entries, since, n) {
        lemma_no_memberships(tail);
    } else {
        let i = lemma_last_membership(entries, since, n);
        let j = if no_membership(entries, since, i) {
            since - 1
        } else {
            lemma_last_membership(entries, since, i)
        };
        lemma_no_membership_in_tail(entries, since, i + 1, n);
        lemma_no_membership_in_tail(entries, since, j + 1, i);
        assert(tail[i - since] == entries[i]);
        if j >= since {
            assert(tail[j - since] == entries[j]);
        }
        lemma_last_two_at(tail, i - since, j - since);
        let new = if found.len() == 1 {
            MembershipStateView { committed: old.effective, effective: found[0] }
        } else {
            MembershipStateView { committed: found[0], effective: found[1] }
        };
        assert forall|k: int|
            since <= k < n && (#[trigger] entries[k]).membership is Some && no_membership(
                entries,
                k + 1,
                n,
            ) implies {
            &&& new.effective == held_by(entries[k])
            &&& no_membership(entries, since, k) ==> new.committed == old.effective
            &&& forall|l: int|
                since <= l < k && (#[trigger] entries[l]).membership is Some && no_membership(
                    entries,
                    l + 1,
                    k,
                ) ==> new.committed == held_by(entries[l])
        } by {
            assert(k == i) by {
                if k < i {
                    assert(entries[i].membership is None);
                }
                if i < k {
                    assert(entries[k].membership is None);
                }
            }
            assert forall|l: int|
                since <= l < k && (#[trigger] entries[l]).membership is Some && no_membership(
                    entries,
                    l + 1,
                    k,
                ) implies new.committed == held_by(entries[l]) by {
                if j < l {
                    assert(entries[l].membership is None);
                }
                if l < j {
                    assert(entries[j].membership is None);
                }
            }
            if j >= since {
                assert(entries[j].membership is Some);
            }
        }
    }
}

// ---- Appending by a leader

/// New logs of a leader follow its last log, one index after the other, with the leader id of its vote.
/// Entries that get them keep what they hold.
pub proof fn new_logs_follow_the_last_one<NID: NodeId, NV>(
    s: EngineView<NID, NV>,
    entries: Seq<EntryView<NID, NV>>,
)
    requires
        crate::log_id::next_index(s.state.log_ids.last()) + entries.len() <= u64::MAX,
    ensures
        s.can_assign(entries.len()),
        s.new_log_ids(entries.len()).len() == entries.len(),
        s.assign_log_ids(entries).len() == entries.len(),
        forall|i: int|
            #![trigger entries[i]]
            #![trigger s.new_log_ids(entries.len())[i]]
            0 <= i < entries.len() ==> {
                let id = s.new_log_ids(entries.len())[i];
                &&& id.leader_id.term == s.state.vote.term
                &&& id.leader_id.node_id == s.state.vote.node_id
                &&& id.index == crate::log_id::next_index(s.state.log_ids.last()) + i
                &&& s.assign_log_ids(entries)[i].log_id == id
                &&& s.assign_log_ids(entries)[i].membership == entries[i].membership
            },
{
}

/// A leader deals with its new entries one by one. One without a membership changes nothing. One with a
/// membership first counts the logs before it as held by this node, under the former membership, and
/// takes effect then.
pub proof fn a_leader_deals_with_entries_one_by_one<NID: NodeId, NV>(
    s: EngineView<NID, NV>,
    entries: Seq<EntryView<NID, NV>>,
    e: EntryView<NID, NV>,
)
    ensures
        entries.len() == 0 ==> s.lead_entries(entries) == s,
        ({
            let before = s.lead_entries(entries);
            let after = s.lead_entries(entries.push(e));
            let prev = before.state.log_ids.get(e.log_id.index - 1);
            &&& e.membership is None ==> after == before
            &&& e.membership is Some && prev is None ==> after
                == before.update_effective_membership(e.log_id, e.membership->0)
            &&& e.membership is Some && prev is Some ==> after == before.update_progress(
                before.id,
                prev,
            ).update_effective_membership(e.log_id, e.membership->0)
        }),
{
    assert(entries.push(e).drop_last() =~= entries);
}

proof fn lemma_lead_entry<NID: NodeId, NV>(s: EngineView<NID, NV>, e: EntryView<NID, NV>)
    ensures
        ({
            let after = s.lead_entry(e);
            &&& after.id == s.id
            &&& after.state.log_ids == s.state.log_ids
            &&& after.state.vote == s.state.vote
            &&& s.commands.is_prefix_of(after.commands)
            &&& after.state.membership_state.effective == (if e.membership is Some {
                held_by(e)
            } else {
                s.state.membership_state.effective
            })
        }),
{
    let prev = s.state.log_ids.get(e.log_id.index - 1);
    crate::engine::meaning::progress_commits_what_a_quorum_holds(s, s.id, prev);
    if let Some(m) = e.membership {
        let progressed = if prev is Some {
            s.update_progress(s.id, prev)
        } else {
            s
        };
        crate::engine::meaning::a_membership_takes_effect(progressed, e.log_id, m);
    }
    assert(s.commands =~= s.lead_entry(e).commands.subrange(0, s.commands.len() as int));
}

/// The last membership in the entries of a leader is the effective one.
proof fn lemma_lead_entries<NID: NodeId, NV>(
    s: EngineView<NID, NV>,
    entries: Seq<EntryView<NID, NV>>,
    i: int,
)
    requires
        -1 <= i < entries.len(),
        i >= 0 ==> entries[i].membership is Some,
        no_membership(entries, i + 1, entries.len() as int),
    ensures
        ({
            let after = s.lead_entries(entries);
            &&& after.id == s.id
            &&& after.state.log_ids == s.state.log_ids
            &&& after.state.vote == s.state.vote
            &&& s.commands.is_prefix_of(after.commands)
            &&& after.state.membership_state.effective == (if i < 0 {
                s.state.membership_state.effective
            } else {
                held_by(entries[i])
            })
        }),
    decreases entries.len(),
{
    let n = entries.len() as int;
    if n > 0 {
        let front = entries.drop_last();
        let before = s.lead_entries(front);
        lemma_lead_entry(before, entries.last());
        if i == n - 1 {
            let j = if no_membership(front, 0, n - 1) {
                -1
            } else {
                lemma_last_membership(front, 0, n - 1)
            };
            lemma_lead_entries(s, front, j);
        } else {
            assert(entries[n - 1].membership is None);
            assert forall|k: int| i + 1 <= k < front.len() implies (
            #[trigger] front[k]).membership is None by {
                assert(entries[k].membership is None);
            }
            if i >= 0 {
                assert(front[i] == entries[i]);
            }
            lemma_lead_entries(s, front, i);
        }
        let after = s.lead_entries(entries);
        assert(s.commands =~= after.commands.subrange(0, s.commands.len() as int)) by {
            assert(s.commands =~= before.commands.subrange(0, s.commands.len() as int));
            assert(before.commands =~= after.commands.subrange(0, before.commands.len() as int));
        }
    }
}

/// What a leader that appends entries does: they are stored, dealt with one by one, counted as held by
/// this node, replicated, and done with. No entry changes nothing.
pub proof fn a_leader_appends_and_replicates<NID: NodeId, NV>(
    s: EngineView<NID, NV>,
    entries: Seq<EntryView<NID, NV>>,
)
    ensures
        entries.len() == 0 ==> s.leader_append_entries(entries) == s,
        entries.len() > 0 ==> {
            let n = entries.len() as int;
            let ids = s.new_log_ids(entries.len());
            let stored = s.with_state(
                RaftStateView {
                    log_ids: LogIds {
                        ids: s.state.log_ids.ids + ids,
                        purged: s.state.log_ids.purged,
                    },
                    ..s.state
                },
            ).push(CommandView::AppendInputEntries { start: 0, end: n });
            s.leader_append_entries(entries) == stored.lead_entries(
                s.assign_log_ids(entries),
            ).update_progress(s.id, Some(ids[n - 1])).push(
                CommandView::ReplicateEntries { upto: Some(ids[n - 1]) },
            ).push(CommandView::MoveInputCursorBy { n })
        },
{
}

/// After a leader has appended entries, its logs are longer by these, and the last membership in them is
/// effective, with the log that holds it. The runtime is told to append all of them first, and to
/// replicate up to the last one.
pub proof fn the_last_membership_of_a_leader_takes_effect<NID: NodeId, NV>(
    s: EngineView<NID, NV>,
    entries: Seq<EntryView<NID, NV>>,
)
    requires
        entries.len() > 0,
    ensures
        ({
            let after = s.leader_append_entries(entries);
            let ids = s.new_log_ids(entries.len());
            let n = entries.len() as int;
            let c = after.commands.len() as int;
            &&& after.state.log_ids.ids == s.state.log_ids.ids + ids
            &&& after.state.log_ids.purged == s.state.log_ids.purged
            &&& after.state.vote == s.state.vote
            &&& no_membership(entries, 0, n) ==> after.state.membership_state.effective
                == s.state.membership_state.effective
            &&& forall|i: int|
                0 <= i < n && (#[trigger] entries[i]).membership is Some && no_membership(
                    entries,
                    i + 1,
                    n,
                ) ==> after.state.membership_state.effective == (EffectiveMembershipView {
                    log_id: Some(ids[i]),
                    membership: entries[i].membership->0,
                })
            &&& c >= s.commands.len() + 3
            &&& after.commands[s.commands.len() as int] == (CommandView::<
                NID,
                NV,
            >::AppendInputEntries {
                start: 0,
                end: n,
            })
            &&& after.commands[c - 2] == (CommandView::<NID, NV>::ReplicateEntries {
                upto: Some(ids[n - 1]),
            })
            &&& after.commands[c - 1] == (CommandView::<NID, NV>::MoveInputCursorBy { n })
        }),
{
    let n = entries.len() as int;
    let ids = s.new_log_ids(entries.len());
    let stored = s.extend_log_ids(ids).push(CommandView::AppendInputEntries { start: 0, end: n });
    let assigned = s.assign_log_ids(entries);
    assert forall|k: int| 0 <= k < n implies (#[trigger] assigned[k]).membership
        == entries[k].membership && assigned[k].log_id == ids[k] by {}
    let last = if no_membership(assigned, 0, n) {
        -1
    } else {
        lemma_last_membership(assigned, 0, n)
    };
    lemma_lead_entries(stored, assigned, last);
    let led = stored.lead_entries(assigned);
    crate::engine::meaning::progress_commits_what_a_quorum_holds(led, s.id, Some(ids.last()));
    let progressed = led.update_progress(s.id, Some(ids.last()));
    let after = s.leader_append_entries(entries);
    if no_membership(entries, 0, n) {
        assert(last == -1) by {
            if last >= 0 {
                assert(entries[last].membership is None);
            }
        }
    }
    assert forall|i: int|
        0 <= i < n && (#[trigger] entries[i]).membership is Some && no_membership(
            entries,
            i + 1,
            n,
        ) implies i == last by {
        assert(assigned[i].membership is Some);
        if i < last {
            assert(entries[last].membership is None);
        }
    }
    let k = s.commands.len() as int;
    assert(stored.commands[k] == led.commands.subrange(0, k + 1)[k]);
    assert(led.commands[k] == progressed.commands[k]);
    assert(progressed.commands[k] == after.commands[k]);
}

// ---- Appending by a follower

/// Deleting logs where there is none changes nothing. Otherwise the logs from there on are deleted and
/// the runtime is told the first of them. An effective membership in them gives way to the committed
/// one, and this is told too, with the role if it changes.
pub proof fn deleting_logs_is_told<NID: NodeId, NV>(s: EngineView<NID, NV>, since: int)
    ensures
        s.state.log_ids.get(since) is None ==> s.truncate_logs(since) == s,
        s.state.log_ids.get(since) matches Some(first) ==> {
            let old = s.state.membership_state;
            let deleted = old.effective.log_id is Some && (old.effective.log_id->0).index >= since;
            let leading = s.state.internal_server_state is Leading;
            let was = crate::engine::meaning::role_of(
                s.id,
                old.effective.membership,
                s.state.vote,
                leading,
            );
            let now = crate::engine::meaning::role_of(
                s.id,
                old.committed.membership,
                s.state.vote,
                leading,
            );
            crate::engine::meaning::changes_to(
                s,
                s.truncate_logs(since),
                RaftStateView {
                    log_ids: s.state.log_ids.truncate(since),
                    membership_state: MembershipStateView {
                        committed: old.committed,
                        effective: if deleted {
                            old.committed
                        } else {
                            old.effective
                        },
                    },
                    server_state: if deleted && was != now {
                        now
                    } else {
                        s.state.server_state
                    },
                    ..s.state
                },
                seq![CommandView::DeleteConflictLog { since: first }] + (if deleted {
                    seq![CommandView::UpdateMembership { membership: old.committed }]
                        + crate::engine::meaning::telling_role(was, now)
                } else {
                    Seq::empty()
                }),
            )
        },
{
    if let Some(first) = s.state.log_ids.get(since) {
        let old = s.state.membership_state;
        let cmd = CommandView::<NID, NV>::DeleteConflictLog { since: first };
        let deleted = s.with_state(
            RaftStateView { log_ids: s.state.log_ids.truncate(since), ..s.state },
        ).push(cmd);
        let none = Seq::<CommandView<NID, NV>>::empty();
        assert(deleted.commands =~= s.commands + (seq![cmd] + none));
        if since < crate::log_id::next_index(old.effective.log_id) {
            let revert = CommandView::<NID, NV>::UpdateMembership { membership: old.committed };
            let reverted = deleted.with_state(
                RaftStateView {
                    membership_state: MembershipStateView { effective: old.committed, ..old },
                    ..deleted.state
                },
            ).push(revert);
            crate::engine::meaning::the_role_follows_from_membership_and_vote(s);
            crate::engine::meaning::the_role_follows_from_membership_and_vote(reverted);
            let was = s.calc_server_state();
            crate::engine::meaning::setting_the_role_tells_a_change(reverted, was, was);
            let role = crate::engine::meaning::telling_role::<NID, NV>(
                was,
                reverted.calc_server_state(),
            );
            assert(s.truncate_logs(since).commands =~= s.commands + (seq![cmd] + (seq![revert]
                + role)));
        }
    }
}

/// The first conflicting entry is the first one that is not present: all before it are.
pub proof fn the_first_conflicting_entry_is_missing<NID: NodeId, NV>(
    s: EngineView<NID, NV>,
    entries: Seq<EntryView<NID, NV>>,
)
    ensures
        ({
            let since = s.first_conflicting_index(entries);
            &&& 0 <= since <= entries.len()
            &&& forall|i: int|
                0 <= i < since ==> s.state.has_log_id((#[trigger] entries[i]).log_id)
            &&& since < entries.len() ==> !s.state.has_log_id(entries[since].log_id)
        }),
{
    let ids = crate::entry::entry_log_ids(entries);
    s.first_missing_is_in_range(ids, 0);
    assert forall|i: int| 0 <= i < s.first_conflicting_index(entries) implies s.state.has_log_id(
        (#[trigger] entries[i]).log_id,
    ) by {
        assert(ids[i] == entries[i].log_id);
    }
}

/// A follower that appends the entries since `since` has them at the end of its log, in order. It follows
/// the memberships in them, and tells the runtime to append just these and to be done with all. What is
/// committed stays.
pub proof fn a_follower_appends_the_rest<NID: NodeId, NV>(
    s: EngineView<NID, NV>,
    entries: Seq<EntryView<NID, NV>>,
    since: int,
)
    requires
        0 <= since <= entries.len(),
    ensures
        since == entries.len() ==> s.follower_do_append_entries(entries, since) == s,
        since < entries.len() ==> {
            let n = entries.len() as int;
            let after = s.follower_do_append_entries(entries, since);
            let old = s.state.membership_state;
            let new = after.state.membership_state;
            let leading = s.state.internal_server_state is Leading;
            let was = crate::engine::meaning::role_of(
                s.id,
                old.effective.membership,
                s.state.vote,
                leading,
            );
            let now = crate::engine::meaning::role_of(
                s.id,
                new.effective.membership,
                s.state.vote,
                leading,
            );
            let any = !no_membership(entries, since, n);
            &&& follows_memberships(old, new, entries, since)
            &&& crate::engine::meaning::changes_to(
                s,
                after,
                RaftStateView {
                    log_ids: LogIds {
                        ids: s.state.log_ids.ids + Seq::new(
                            (n - since) as nat,
                            |k: int| entries[since + k].log_id,
                        ),
                        purged: s.state.log_ids.purged,
                    },
                    membership_state: new,
                    server_state: if any && was != now {
                        now
                    } else {
                        s.state.server_state
                    },
                    ..s.state
                },
                seq![CommandView::AppendInputEntries { start: since, end: n }] + (if any {
                    seq![CommandView::UpdateMembership { membership: new.effective }]
                        + crate::engine::meaning::telling_role(was, now)
                } else {
                    Seq::empty()
                }) + seq![CommandView::MoveInputCursorBy { n }],
            )
        },
{
    if since < entries.len() {
        let n = entries.len() as int;
        let tail = entries.skip(since);
        let ids = crate::entry::entry_log_ids(tail);
        let append = CommandView::<NID, NV>::AppendInputEntries { start: since, end: n };
        let done = CommandView::<NID, NV>::MoveInputCursorBy { n };
        let appended = s.extend_log_ids(ids).push(append);
        assert(ids =~= Seq::new((n - since) as nat, |k: int| entries[since + k].log_id));
        a_follower_follows_the_last_membership(appended, tail);
        let followed = appended.follower_update_membership(tail);
        let new = followed.state.membership_state;
        lemma_found_memberships_are_followed(s.state.membership_state, entries, since);
        lemma_no_membership_in_tail(entries, since, since, n);
        let after = s.follower_do_append_entries(entries, since);
        assert(after == followed.push(done));
        if no_membership(entries, since, n) {
            let none = Seq::<CommandView<NID, NV>>::empty();
            assert(after.commands =~= s.commands + (seq![append] + none + seq![done]));
        } else {
            let told = CommandView::<NID, NV>::UpdateMembership { membership: new.effective };
            let leading = s.state.internal_server_state is Leading;
            let was = crate::engine::meaning::role_of(
                s.id,
                s.state.membership_state.effective.membership,
                s.state.vote,
                leading,
            );
            let now = crate::engine::meaning::role_of(
                s.id,
                new.effective.membership,
                s.state.vote,
                leading,
            );
            let role = crate::engine::meaning::telling_role::<NID, NV>(was, now);
            assert(after.commands =~= s.commands + (seq![append] + (seq![told] + role)
                + seq![done]));
        }
    }
}

/// What a follower knows to be committed is the lesser of what the leader has committed and of the last
/// log that is known to match: the last entry, or the log before the entries. If this is greater than
/// what is committed, it is committed, and the runtime is told. Nothing else changes.
pub proof fn a_follower_commits_the_lesser<NID: NodeId, NV>(
    s: EngineView<NID, NV>,
    leader_committed: Option<LogId<NID>>,
    prev_log_id: Option<LogId<NID>>,
    entries: Seq<EntryView<NID, NV>>,
)
    ensures
        ({
            let after = s.follower_commit_entries(leader_committed, prev_log_id, entries);
            let last = if entries.len() == 0 {
                None
            } else {
                Some(entries[entries.len() - 1].log_id)
            };
            let matching = if crate::log_id::opt_lt(last, prev_log_id) {
                prev_log_id
            } else {
                last
            };
            let known = if crate::log_id::opt_lt(matching, leader_committed) {
                matching
            } else {
                leader_committed
            };
            let committed = if crate::log_id::opt_lt(s.state.committed, known) {
                known
            } else {
                s.state.committed
            };
            &&& after.state.committed == committed
            &&& crate::engine::meaning::changes_to(
                s,
                after,
                s.state.update_committed(committed),
                crate::engine::meaning::follower_committing(s.state.committed, committed),
            )
        }),
{
    let last = if entries.len() == 0 {
        None
    } else {
        Some(entries[entries.len() - 1].log_id)
    };
    crate::log_id::opt_order_is_total(last, prev_log_id, last);
    let known = EngineView::<NID, NV>::committed_by_leader(leader_committed, prev_log_id, entries);
    let c = s.state.committed;
    crate::log_id::opt_order_is_total(c, known, c);
    assert(s.commands + Seq::<CommandView<NID, NV>>::empty() =~= s.commands);
    let cmd = CommandView::<NID, NV>::FollowerCommit { already_committed: c, upto: known->0 };
    assert(s.commands + seq![cmd] =~= s.commands.push(cmd));
}

/// What a request to append entries does. One with a lesser vote changes nothing. Otherwise its vote is
/// seen. If the log before the entries is not present, the logs from there on are deleted. If it is, the
/// logs from the first missing entry on are replaced, and what the leader has committed is committed.
pub proof fn a_request_is_followed_step_by_step<NID: NodeId, NV>(
    s: EngineView<NID, NV>,
    vote: Vote<NID>,
    prev_log_id: Option<LogId<NID>>,
    entries: Seq<EntryView<NID, NV>>,
    leader_committed: Option<LogId<NID>>,
)
    ensures
        ({
            let after = s.handle_append_entries_req(vote, prev_log_id, entries, leader_committed);
            let response = s.append_entries_response(vote, prev_log_id);
            let voted = s.handle_vote_change(vote);
            let present = prev_log_id is Some ==> s.state.has_log_id(prev_log_id->0);
            let since = voted.first_conflicting_index(entries);
            &&& vote.lt(s.state.vote) ==> {
                &&& after == s
                &&& response == AppendEntriesResponse::HigherVote(s.state.vote)
            }
            &&& !vote.lt(s.state.vote) && !present ==> {
                &&& after == voted.truncate_logs((prev_log_id->0).index as int)
                &&& response == AppendEntriesResponse::<NID>::Conflict
            }
            &&& !vote.lt(s.state.vote) && present ==> {
                &&& response == AppendEntriesResponse::<NID>::Success
                &&& since < entries.len() ==> after == voted.truncate_logs(
                    entries[since].log_id.index as int,
                ).follower_do_append_entries(entries, since).follower_commit_entries(
                    leader_committed,
                    prev_log_id,
                    entries,
                )
                &&& since == entries.len() ==> after == voted.follower_commit_entries(
                    leader_committed,
                    prev_log_id,
                    entries,
                )
            }
        }),
{
    crate::engine::meaning::a_vote_is_granted_unless_it_is_less(s, vote);
    let voted = s.handle_vote_change(vote);
    the_first_conflicting_entry_is_missing(voted, entries);
    if !vote.lt(s.state.vote) {
        assert(voted.state.log_ids == s.state.log_ids);
        assert(voted.state.committed == s.state.committed);
    }
}

/// A request that is accepted makes the last membership in the entries that it appends effective, with
/// the log that holds it. If it appends none, the effective membership stays, unless its log is replaced:
/// then it is the committed one.
pub proof fn a_request_makes_the_last_membership_effective<NID: NodeId, NV>(
    s: EngineView<NID, NV>,
    vote: Vote<NID>,
    prev_log_id: Option<LogId<NID>>,
    entries: Seq<EntryView<NID, NV>>,
    leader_committed: Option<LogId<NID>>,
)
    requires
        s.append_entries_response(vote, prev_log_id) == AppendEntriesResponse::<NID>::Success,
    ensures
        ({
            let after = s.handle_append_entries_req(vote, prev_log_id, entries, leader_committed);
            let n = entries.len() as int;
            let since = s.first_conflicting_index(entries);
            let old = s.state.membership_state;
            let new = after.state.membership_state;
            &&& 0 <= since <= n
            &&& forall|i: int|
                0 <= i < since ==> s.state.has_log_id((#[trigger] entries[i]).log_id)
            &&& since < n ==> !s.state.has_log_id(entries[since].log_id)
            &&& forall|i: int|
                since <= i < n && (#[trigger] entries[i]).membership is Some && no_membership(
                    entries,
                    i + 1,
                    n,
                ) ==> new.effective == held_by(entries[i])
            &&& no_membership(entries, since, n) ==> new.effective == old.effective || (since < n
                && s.state.log_ids.get(entries[since].log_id.index as int) is Some
                && old.effective.log_id is Some && (old.effective.log_id->0).index
                >= entries[since].log_id.index && new.effective == old.committed)
            &&& no_membership(entries, since, n) && since < n && s.state.log_ids.get(
                entries[since].log_id.index as int,
            ) is Some && old.effective.log_id is Some && (old.effective.log_id->0).index
                >= entries[since].log_id.index ==> new.effective == old.committed
        }),
{
    a_request_is_followed_step_by_step(s, vote, prev_log_id, entries, leader_committed);
    crate::engine::meaning::a_vote_is_granted_unless_it_is_less(s, vote);
    let voted = s.handle_vote_change(vote);
    let n = entries.len() as int;
    the_first_conflicting_entry_is_missing(s, entries);
    the_first_conflicting_entry_is_missing(voted, entries);
    let since = s.first_conflicting_index(entries);
    let again = voted.first_conflicting_index(entries);
    assert(voted.state.log_ids == s.state.log_ids && voted.state.committed == s.state.committed);
    if since < again {
        assert(voted.state.has_log_id(entries[since].log_id));
    }
    if again < since {
        assert(s.state.has_log_id(entries[again].log_id));
    }
    if since < n {
        let at = entries[since].log_id.index as int;
        deleting_logs_is_told(voted, at);
        let cut = voted.truncate_logs(at);
        a_follower_appends_the_rest(cut, entries, since);
        let appended = cut.follower_do_append_entries(entries, since);
        a_follower_commits_the_lesser(appended, leader_committed, prev_log_id, entries);
        crate::raft_state::committing_commits_the_membership(
            appended.state,
            appended.follower_commit_entries(
                leader_committed,
                prev_log_id,
                entries,
            ).state.committed,
        );
    } else {
        a_follower_commits_the_lesser(voted, leader_committed, prev_log_id, entries);
        crate::raft_state::committing_commits_the_membership(
            voted.state,
            voted.follower_commit_entries(
                leader_committed,
                prev_log_id,
                entries,
            ).state.committed,
        );
    }
}

// ---- Purging and snapshots

/// Logs are purged up to the given one, and the runtime is told, unless it is not greater than the last
/// purged one: then nothing changes.
pub proof fn purging_is_told_unless_it_is_done<NID: NodeId, NV>(
    s: EngineView<NID, NV>,
    upto: LogId<NID>,
)
    ensures
        crate::log_id::opt_le(Some(upto), s.state.log_ids.last_purged()) ==> s.purge_log(upto) == s,
        crate::log_id::opt_lt(s.state.log_ids.last_purged(), Some(upto))
            ==> crate::engine::meaning::changes_to(
            s,
            s.purge_log(upto),
            RaftStateView { log_ids: s.state.log_ids.purge(upto), ..s.state },
            seq![CommandView::PurgeLog { upto }],
        ),
        s.calc_purge_upto() is None ==> s.purge_in_snapshot_log() == s,
        s.calc_purge_upto() matches Some(x) ==> s.purge_in_snapshot_log() == s.purge_log(x),
{
    let cmd = CommandView::<NID, NV>::PurgeLog { upto };
    assert(s.commands + seq![cmd] =~= s.commands.push(cmd));
}

/// A snapshot is recorded, and local data marked as changed, if and only if it is greater than the last
/// one. A snapshot that is built and recorded lets the logs in it be purged.
pub proof fn a_greater_snapshot_is_recorded<NID: NodeId, NV>(
    s: EngineView<NID, NV>,
    meta: SnapshotMetaView<NID, NV>,
)
    ensures
        s.is_new_snapshot(meta) <==> crate::log_id::opt_lt(
            s.snapshot_meta.last_log_id,
            meta.last_log_id,
        ),
        crate::log_id::opt_le(meta.last_log_id, s.snapshot_meta.last_log_id) ==> {
            &&& s.update_snapshot(meta) == s
            &&& s.finish_building_snapshot(meta) == s
        },
        crate::log_id::opt_lt(s.snapshot_meta.last_log_id, meta.last_log_id) ==> {
            &&& s.update_snapshot(meta) == (EngineView {
                snapshot_meta: meta,
                metrics_flags: MetricsChangeFlags {
                    replication: s.metrics_flags.replication,
                    local_data: true,
                    cluster: s.metrics_flags.cluster,
                },
                ..s
            })
            &&& s.finish_building_snapshot(meta) == s.update_snapshot(meta).purge_in_snapshot_log()
        },
{
}

/// Installing a snapshot that is greater than what is committed and than the last snapshot: the logs from
/// its end on are deleted if the local one there is another one; its last log is committed; its
/// membership is adopted; the runtime is told to install it; and the logs in it are purged.
pub proof fn installing_a_snapshot_step_by_step<NID: NodeId, NV>(
    s: EngineView<NID, NV>,
    meta: SnapshotMetaView<NID, NV>,
)
    requires
        crate::log_id::opt_lt(s.state.committed, meta.last_log_id),
        crate::log_id::opt_lt(s.snapshot_meta.last_log_id, meta.last_log_id),
    ensures
        ({
            let last = meta.last_log_id->0;
            let local = s.state.log_ids.get(last.index as int);
            let recorded = s.update_snapshot(meta);
            let cleaned = if local is Some && local->0 != last {
                recorded.truncate_logs(last.index as int)
            } else {
                recorded
            };
            s.install_snapshot(meta) == cleaned.with_state(
                RaftStateView { committed: Some(last), ..cleaned.state },
            ).update_committed_membership(meta.last_membership).push(
                CommandView::InstallSnapshot { snapshot_meta: meta },
            ).purge_log(last)
        }),
{
}

/// After a snapshot is installed, its last log is committed, and its membership is the committed one
/// unless a greater one was known, and the effective one unless a later one is left.
pub proof fn an_installed_snapshot_is_committed<NID: NodeId, NV>(
    s: EngineView<NID, NV>,
    meta: SnapshotMetaView<NID, NV>,
)
    requires
        crate::log_id::opt_lt(s.state.committed, meta.last_log_id),
        crate::log_id::opt_lt(s.snapshot_meta.last_log_id, meta.last_log_id),
    ensures
        ({
            let after = s.install_snapshot(meta);
            let old = s.state.membership_state;
            let new = after.state.membership_state;
            let m = meta.last_membership;
            &&& after.snapshot_meta == meta
            &&& after.state.committed == meta.last_log_id
            &&& after.state.vote == s.state.vote
            &&& after.state.internal_server_state == s.state.internal_server_state
            &&& new.committed == (if crate::log_id::opt_lt(old.committed.log_id, m.log_id) {
                m
            } else {
                old.committed
            })
            &&& old.effective.log_id is None ==> new.effective == m
            &&& old.effective.log_id is Some && m.log_id is Some && (m.log_id->0).index >= (
            old.effective.log_id->0).index ==> new.effective == m || new.effective == old.committed
            &&& !(s.conflicts_with(meta.last_log_id->0)) ==> new == old.adopt(m)
        }),
{
    let last = meta.last_log_id->0;
    let recorded = s.update_snapshot(meta);
    deleting_logs_is_told(recorded, last.index as int);
    let cleaned = recorded.delete_conflicting(last);
    let committed = cleaned.with_state(RaftStateView { committed: Some(last), ..cleaned.state });
    crate::engine::meaning::a_committed_membership_is_told_if_it_takes_effect(
        committed,
        meta.last_membership,
    );
    purging_is_told_unless_it_is_done(
        committed.update_committed_membership(meta.last_membership).push(
            CommandView::InstallSnapshot { snapshot_meta: meta },
        ),
        last,
    );
}

// ---- When an operation can be done

/// Elections need a greater term, and a log needs a greater index. A response to a vote request needs
/// that a lesser vote is not granted, that only a voter is rejected, and room for the log of a leader.
pub proof fn elections_need_a_term_and_an_index<NID: NodeId, NV>(
    s: EngineView<NID, NV>,
    target: NID,
    resp: crate::message::VoteResponse<NID>,
    n: nat,
)
    ensures
        ({
            let m = s.state.membership_state.effective.membership;
            let end = crate::log_id::next_index(s.state.log_ids.last());
            let voter = exists|i: int|
                0 <= i < m.configs.len() && (#[trigger] m.configs[i]).contains(s.id);
            &&& s.has_room() <==> end <= u64::MAX
            &&& s.can_assign(n) <==> end + n <= u64::MAX
            &&& s.can_elect() <==> s.state.vote.term < u64::MAX && (crate::quorum::is_quorum(
                m.configs,
                seq![s.id],
            ) ==> end <= u64::MAX)
            &&& s.state.internal_server_state is Following ==> s.can_handle_vote_resp(target, resp)
            &&& s.state.internal_server_state matches InternalStateView::Leading(leader) ==> (
            s.can_handle_vote_resp(target, resp) <==> if resp.vote_granted {
                &&& s.state.vote.le(resp.vote)
                &&& crate::quorum::is_quorum(
                    leader.progress.configs,
                    crate::node_set::with_id(leader.vote_granted_by, target),
                ) ==> end <= u64::MAX
            } else {
                voter
            })
        }),
{
}

/// Logs can be deleted if none of them is purged, and if this does not delete the committed membership
/// together with the effective one.
pub proof fn logs_can_be_deleted_after_the_purged_ones<NID: NodeId, NV>(
    s: EngineView<NID, NV>,
    since: int,
)
    ensures
        ({
            let m = s.state.membership_state;
            let purged = s.state.log_ids.last_purged();
            s.can_truncate_logs(since) <==> {
                &&& since >= 0
                &&& purged is Some ==> (purged->0).index < since
                &&& s.state.log_ids.get(since) is Some && m.effective.log_id is Some && (
                m.effective.log_id->0).index >= since && m.committed.log_id is Some ==> (
                m.committed.log_id->0).index < since
            }
        }),
{
}

/// Memberships of new entries can be followed if the first of the last two is greater than the effective
/// one.
pub proof fn greater_memberships_can_be_followed<NID: NodeId, NV>(
    s: EngineView<NID, NV>,
    entries: Seq<EntryView<NID, NV>>,
    i: int,
    j: int,
)
    ensures
        ({
            let n = entries.len() as int;
            let effective = s.state.membership_state.effective.log_id;
            let last = 0 <= i < n && entries[i].membership is Some && no_membership(
                entries,
                i + 1,
                n,
            );
            &&& no_membership(entries, 0, n) ==> s.can_follow_memberships(entries)
            &&& last && no_membership(entries, 0, i) ==> (s.can_follow_memberships(entries)
                <==> crate::log_id::opt_lt(effective, Some(entries[i].log_id)))
            &&& last && 0 <= j < i && entries[j].membership is Some && no_membership(
                entries,
                j + 1,
                i,
            ) ==> (s.can_follow_memberships(entries) <==> crate::log_id::opt_lt(
                effective,
                Some(entries[j].log_id),
            ))
        }),
{
    let n = entries.len() as int;
    if no_membership(entries, 0, n) {
        lemma_no_memberships(entries);
    }
    if 0 <= i < n && entries[i].membership is Some && no_membership(entries, i + 1, n) {
        if no_membership(entries, 0, i) {
            lemma_last_two_at(entries, i, -1);
        }
        if 0 <= j < i && entries[j].membership is Some && no_membership(entries, j + 1, i) {
            lemma_last_two_at(entries, i, j);
        }
    }
}

/// A follower can append entries that directly follow its last log, if the first one is greater than it,
/// and if it can follow their memberships. A request can be handled if what it deletes can be deleted
/// and what it appends can be appended.
pub proof fn entries_that_follow_can_be_appended<NID: NodeId, NV>(
    s: EngineView<NID, NV>,
    vote: Vote<NID>,
    prev_log_id: Option<LogId<NID>>,
    entries: Seq<EntryView<NID, NV>>,
    since: int,
)
    requires
        0 <= since <= entries.len(),
    ensures
        since == entries.len() ==> s.can_follower_append(entries, since),
        since < entries.len() ==> (s.can_follower_append(entries, since) <==> {
            let end = crate::log_id::next_index(s.state.log_ids.last());
            &&& forall|k: int|
                since <= k < entries.len() ==> (#[trigger] entries[k]).log_id.index == end + (k
                    - since)
            &&& crate::log_id::opt_lt(s.state.log_ids.last(), Some(entries[since].log_id))
            &&& s.can_follow_memberships(entries.skip(since))
        }),
        vote.lt(s.state.vote) ==> s.can_handle_append_entries_req(vote, prev_log_id, entries),
        !vote.lt(s.state.vote) ==> {
            let voted = s.handle_vote_change(vote);
            let present = prev_log_id is Some ==> s.state.has_log_id(prev_log_id->0);
            let first = voted.first_conflicting_index(entries);
            s.can_handle_append_entries_req(vote, prev_log_id, entries) <==> if !present {
                voted.can_truncate_logs((prev_log_id->0).index as int)
            } else {
                first < entries.len() ==> {
                    let at = entries[first].log_id.index as int;
                    &&& voted.can_truncate_logs(at)
                    &&& voted.truncate_logs(at).can_follower_append(entries, first)
                }
            }
        },
{
    crate::engine::meaning::a_vote_is_granted_unless_it_is_less(s, vote);
    if since < entries.len() {
        let tail = entries.skip(since);
        let ids = crate::entry::entry_log_ids(tail);
        let end = crate::log_id::next_index(s.state.log_ids.last());
        assert(tail[0] == entries[since]);
        if s.state.log_ids.continues(ids) {
            assert forall|k: int| since <= k < entries.len() implies (
            #[trigger] entries[k]).log_id.index == end + (k - since) by {
                assert(ids[k - since] == entries[k].log_id);
            }
        }
        if forall|k: int|
            since <= k < entries.len() ==> (#[trigger] entries[k]).log_id.index == end + (k
                - since) {
            assert forall|k: int| 0 <= k < ids.len() implies (#[trigger] ids[k]).index == end + k by {
                assert(ids[k] == entries[since + k].log_id);
            }
        }
    }
}

/// What to purge can be calculated if the indexes are in range and the log to purge up to is known. A
/// snapshot can be recorded under this condition, and installed if the logs that conflict with it can
/// be deleted.
pub proof fn snapshots_need_known_logs<NID: NodeId, NV>(
    s: EngineView<NID, NV>,
    meta: SnapshotMetaView<NID, NV>,
)
    ensures
        ({
            let purged = crate::log_id::next_index(s.state.log_ids.last_purged());
            let end = crate::log_id::next_index(s.snapshot_meta.last_log_id);
            let keep = s.config.max_in_snapshot_log_to_keep;
            s.can_calc_purge_upto() <==> {
                &&& end <= u64::MAX
                &&& purged <= u64::MAX
                &&& end > keep && purged + s.config.purge_batch_size + keep <= end
                    ==> s.state.log_ids.get(end - keep - 1) is Some
            }
        }),
        crate::log_id::opt_le(meta.last_log_id, s.snapshot_meta.last_log_id) ==> {
            &&& s.can_finish_building_snapshot(meta)
            &&& s.can_install_snapshot(meta)
        },
        crate::log_id::opt_le(meta.last_log_id, s.state.committed) ==> s.can_install_snapshot(meta),
        crate::log_id::opt_lt(s.snapshot_meta.last_log_id, meta.last_log_id) ==> {
            let last = meta.last_log_id->0;
            let local = s.state.log_ids.get(last.index as int);
            &&& s.can_finish_building_snapshot(meta) <==> s.update_snapshot(
                meta,
            ).can_calc_purge_upto()
            &&& local is None || local == meta.last_log_id ==> s.can_install_snapshot(meta)
            &&& s.can_truncate_logs(last.index as int) ==> s.can_install_snapshot(meta)
        },
{
}

} // verus!
