//! What each operation is for, stated of the fields of the engine and of the commands it queues.
//!
//! Every law here names all that an operation changes. What it does not name stays.
use vstd::prelude::*;

use crate::command::CommandView;
use crate::engine::engine_impl::Engine;
use crate::engine::model::{EngineConfig, EngineView};
use crate::entry::EntryView;
use crate::leader::{InternalStateView, LeaderView};
use crate::log_id::LogId;
use crate::log_id_list::LogIds;
use crate::membership::{EffectiveMembershipView, MembershipStateView, MembershipView};
use crate::message::{InitializeErrorView, NotAllowed, VoteRequest, VoteResponse};
use crate::node::{Node, NodeId};
use crate::progress::{Matched, ProgressView};
use crate::raft_state::{RaftStateView, ServerState};
use crate::vote::{LeaderId, Vote};

verus! {

/// From `before` to `after`, the state becomes `state` and the commands `cmds` are queued. The identity,
/// the configuration and the snapshot stay.
pub open spec fn changes_to<NID, NV>(
    before: EngineView<NID, NV>,
    after: EngineView<NID, NV>,
    state: RaftStateView<NID, NV>,
    cmds: Seq<CommandView<NID, NV>>,
) -> bool {
    &&& after.id == before.id
    &&& after.config == before.config
    &&& after.snapshot_meta == before.snapshot_meta
    &&& after.state == state
    &&& after.commands == before.commands + cmds
}

/// A vote is saved if it is another one.
pub open spec fn saving<NID, NV>(before: Vote<NID>, after: Vote<NID>) -> Seq<CommandView<NID, NV>> {
    if before == after {
        Seq::empty()
    } else {
        seq![CommandView::SaveVote { vote: after }]
    }
}

/// The runtime is told of the role if it is another one.
pub open spec fn telling_role<NID, NV>(before: ServerState, after: ServerState) -> Seq<
    CommandView<NID, NV>,
> {
    if before == after {
        Seq::empty()
    } else {
        seq![CommandView::UpdateServerState { server_state: after }]
    }
}

/// The runtime is told of the effective membership if it is another one.
pub open spec fn telling_membership<NID, NV>(
    before: EffectiveMembershipView<NID, NV>,
    after: EffectiveMembershipView<NID, NV>,
) -> Seq<CommandView<NID, NV>> {
    if before == after {
        Seq::empty()
    } else {
        seq![CommandView::UpdateMembership { membership: after }]
    }
}

/// A leader applies and tells the others what it has newly committed.
pub open spec fn leader_committing<NID, NV>(
    before: Option<LogId<NID>>,
    after: Option<LogId<NID>>,
) -> Seq<CommandView<NID, NV>> {
    if before == after {
        Seq::empty()
    } else {
        seq![
            CommandView::ReplicateCommitted { committed: after },
            CommandView::LeaderCommit { already_committed: before, upto: after->0 },
        ]
    }
}

/// A follower applies what it has newly committed.
pub open spec fn follower_committing<NID, NV>(
    before: Option<LogId<NID>>,
    after: Option<LogId<NID>>,
) -> Seq<CommandView<NID, NV>> {
    if before == after {
        Seq::empty()
    } else {
        seq![CommandView::FollowerCommit { already_committed: before, upto: after->0 }]
    }
}

/// The role of node `id`, given the membership that is effective, its vote, and whether it leads.
pub open spec fn role_of<NID, NV>(
    id: NID,
    m: MembershipView<NID, NV>,
    vote: Vote<NID>,
    leading: bool,
) -> ServerState {
    if !(exists|i: int| 0 <= i < m.configs.len() && (#[trigger] m.configs[i]).contains(id)) {
        ServerState::Learner
    } else if vote.node_id == id && vote.committed {
        ServerState::Leader
    } else if leading {
        ServerState::Candidate
    } else {
        ServerState::Follower
    }
}

// ---- A new engine, commands and roles

/// A new engine has the given state, no snapshot, nothing to tell and no command.
pub proof fn a_new_engine_starts_from_the_state<NID: NodeId, NV>(
    id: NID,
    state: RaftStateView<NID, NV>,
    config: EngineConfig,
)
    ensures
        ({
            let s = EngineView::initial(id, state, config);
            &&& s.id == id && s.config == config && s.state == state
            &&& s.commands.len() == 0
            &&& s.snapshot_meta.last_log_id is None
            &&& s.snapshot_meta.last_membership.log_id is None
            &&& s.snapshot_meta.last_membership.membership.configs.len() == 0
            &&& s.snapshot_meta.last_membership.membership.nodes.len() == 0
            &&& s.snapshot_meta.snapshot_id.len() == 0
            &&& !s.metrics_flags.replication && !s.metrics_flags.local_data
            &&& !s.metrics_flags.cluster
        }),
{
}

/// An engine is read with all its fields, and its commands one by one.
pub proof fn an_engine_is_read_as_it_is<NID: NodeId, N: Node>(e: Engine<NID, N>)
    ensures
        e@.id == e.id,
        e@.config == e.config,
        e@.snapshot_meta == e.snapshot_meta@,
        e@.metrics_flags == e.metrics_flags,
        e@.commands.len() == e.commands@.len(),
        forall|i: int| 0 <= i < e.commands@.len() ==> #[trigger] e@.commands[i] == e.commands@[i]@,
        e@.state.vote == e.state.vote,
        e@.state.committed == e.state.committed,
        e@.state.log_ids == e.state.log_ids@,
        e@.state.membership_state.committed == (*e.state.membership_state.committed)@,
        e@.state.membership_state.effective == (*e.state.membership_state.effective)@,
        e@.state.internal_server_state == e.state.internal_server_state@,
        e@.state.server_state == e.state.server_state,
{
}

/// Queuing a command appends it and changes no state.
pub proof fn queuing_appends_the_command<NID: NodeId, NV>(
    s: EngineView<NID, NV>,
    cmd: CommandView<NID, NV>,
    state: RaftStateView<NID, NV>,
)
    ensures
        changes_to(s, s.push(cmd), s.state, seq![cmd]),
        s.push(cmd).metrics_flags == cmd.flags(s.metrics_flags),
        changes_to(s, s.with_state(state), state, Seq::empty()),
        s.with_state(state).metrics_flags == s.metrics_flags,
{
    assert(s.commands.push(cmd) =~= s.commands + seq![cmd]);
    assert(s.commands + Seq::<CommandView<NID, NV>>::empty() =~= s.commands);
}

/// The role of a node follows from the effective membership, its vote and whether it leads.
pub proof fn the_role_follows_from_membership_and_vote<NID: NodeId, NV>(s: EngineView<NID, NV>)
    ensures
        s.calc_server_state() == role_of(
            s.id,
            s.state.membership_state.effective.membership,
            s.state.vote,
            s.state.internal_server_state is Leading,
        ),
        s.is_voter() <==> s.calc_server_state() != ServerState::Learner,
        s.is_leader() <==> s.state.vote.node_id == s.id && s.state.vote.committed,
        s.is_becoming_leader() <==> s.state.internal_server_state is Leading,
        s.last_log_id() == s.state.log_ids.last(),
{
}

/// Setting the role sets it, and tells the runtime if it is another one.
pub proof fn setting_the_role_tells_a_change<NID: NodeId, NV>(
    s: EngineView<NID, NV>,
    server_state: ServerState,
    prev: ServerState,
)
    ensures
        changes_to(
            s,
            s.set_server_state(server_state),
            RaftStateView { server_state, ..s.state },
            telling_role(s.state.server_state, server_state),
        ),
        ({
            let role = s.calc_server_state();
            changes_to(
                s,
                s.update_server_state_if_changed(prev),
                RaftStateView {
                    server_state: if prev == role {
                        s.state.server_state
                    } else {
                        role
                    },
                    ..s.state
                },
                telling_role(prev, role),
            )
        }),
{
    assert(s.commands + Seq::<CommandView<NID, NV>>::empty() =~= s.commands);
}

// ---- Votes

/// What entering leading or following state does. A node that starts to lead has no vote yet and knows
/// of no log of any node. A node that follows waits longer for an election if there is a leader, and
/// has the role of a follower or a learner if it led before.
pub proof fn entering_a_state_starts_afresh<NID: NodeId, NV>(s: EngineView<NID, NV>)
    ensures
        ({
            let m = s.state.membership_state.effective.membership;
            let fresh = InternalStateView::Leading(
                LeaderView {
                    vote_granted_by: Seq::empty(),
                    progress: ProgressView::initial(m.configs, m.learner_ids()),
                },
            );
            changes_to(
                s,
                s.enter_leading(),
                RaftStateView { internal_server_state: fresh, ..s.state },
                Seq::empty(),
            )
        }),
        ({
            let m = s.state.membership_state.effective.membership;
            let role = if s.state.internal_server_state is Following {
                s.state.server_state
            } else if exists|i: int|
                0 <= i < m.configs.len() && (#[trigger] m.configs[i]).contains(s.id) {
                ServerState::Follower
            } else {
                ServerState::Learner
            };
            changes_to(
                s,
                s.enter_following(),
                RaftStateView {
                    internal_server_state: InternalStateView::Following,
                    server_state: role,
                    ..s.state
                },
                seq![
                    CommandView::InstallElectionTimer { can_be_leader: !s.state.vote.committed },
                ] + telling_role(s.state.server_state, role),
            )
        }),
        s.switch_internal_server_state() == (if s.state.vote.node_id == s.id {
            s.enter_leading()
        } else {
            s.enter_following()
        }),
{
    assert(s.commands + Seq::<CommandView<NID, NV>>::empty() =~= s.commands);
    let timer = CommandView::InstallElectionTimer { can_be_leader: !s.state.vote.committed };
    assert(s.commands + (seq![timer] + Seq::<CommandView<NID, NV>>::empty())
        =~= s.commands.push(timer));
    let m = s.state.membership_state.effective.membership;
    assert(s.is_voter() <==> exists|i: int|
        0 <= i < m.configs.len() && (#[trigger] m.configs[i]).contains(s.id));
    let role = if s.is_voter() {
        ServerState::Follower
    } else {
        ServerState::Learner
    };
    let told = CommandView::UpdateServerState { server_state: role };
    assert(s.commands + (seq![timer] + seq![told]) =~= s.commands.push(timer).push(told));
}

/// A vote that is less than the one of the node changes nothing. Any other one becomes the vote of the
/// node and is saved if it is greater; then the node leads afresh if it is for itself, and follows
/// otherwise. Logs, memberships and what is committed stay.
pub proof fn a_vote_is_granted_unless_it_is_less<NID: NodeId, NV>(
    s: EngineView<NID, NV>,
    vote: Vote<NID>,
)
    ensures
        s.grants(vote) <==> !vote.lt(s.state.vote),
        vote.lt(s.state.vote) ==> s.handle_vote_change(vote) == s,
        !vote.lt(s.state.vote) ==> {
            let m = s.state.membership_state.effective.membership;
            let after = s.handle_vote_change(vote);
            let led = s.state.internal_server_state is Leading;
            let role = if vote.node_id == s.id || !led {
                s.state.server_state
            } else if exists|i: int|
                0 <= i < m.configs.len() && (#[trigger] m.configs[i]).contains(s.id) {
                ServerState::Follower
            } else {
                ServerState::Learner
            };
            changes_to(
                s,
                after,
                RaftStateView {
                    vote,
                    internal_server_state: if vote.node_id == s.id {
                        InternalStateView::Leading(
                            LeaderView {
                                vote_granted_by: Seq::empty(),
                                progress: ProgressView::initial(m.configs, m.learner_ids()),
                            },
                        )
                    } else {
                        InternalStateView::Following
                    },
                    server_state: role,
                    ..s.state
                },
                if vote.node_id == s.id {
                    saving(s.state.vote, vote)
                } else {
                    saving(s.state.vote, vote) + seq![
                        CommandView::InstallElectionTimer { can_be_leader: !vote.committed },
                    ] + telling_role(s.state.server_state, role)
                },
            )
        },
{
    if !vote.lt(s.state.vote) {
        crate::vote::vote_order_is_total(s.state.vote, vote, s.state.vote);
        let saved = s.save_vote(vote);
        entering_a_state_starts_afresh(saved);
        let save = saving::<NID, NV>(s.state.vote, vote);
        assert(saved.state.vote == vote);
        assert(saved.commands =~= s.commands + save);
        let m = s.state.membership_state.effective.membership;
        let led = s.state.internal_server_state is Leading;
        let role = if !led {
            s.state.server_state
        } else if exists|i: int|
            0 <= i < m.configs.len() && (#[trigger] m.configs[i]).contains(s.id) {
            ServerState::Follower
        } else {
            ServerState::Learner
        };
        let timer = seq![
            CommandView::<NID, NV>::InstallElectionTimer { can_be_leader: !vote.committed },
        ];
        let told = telling_role::<NID, NV>(s.state.server_state, role);
        assert(saved.commands + (timer + told) =~= s.commands + (save + timer + told));
        assert(saved.commands + Seq::<CommandView<NID, NV>>::empty() =~= s.commands + save);
    }
}

/// A vote request is granted if neither its vote nor its last log is less than that of the node: then
/// the vote of the node is the one that is asked for. Otherwise nothing changes.
pub proof fn a_request_is_granted_unless_it_is_behind<NID: NodeId, NV>(
    s: EngineView<NID, NV>,
    req: VoteRequest<NID>,
)
    ensures
        s.state.vote.le(req.vote) && crate::log_id::opt_le(s.state.log_ids.last(), req.last_log_id)
            ==> {
            &&& s.grants_request(req)
            &&& s.handle_vote_req(req).state.vote == req.vote
            &&& s.handle_vote_req(req) == s.handle_vote_change(req.vote)
        },
        req.vote.lt(s.state.vote) || crate::log_id::opt_lt(req.last_log_id, s.state.log_ids.last())
            ==> {
            &&& !s.grants_request(req)
            &&& s.handle_vote_req(req) == s
        },
{
    a_vote_is_granted_unless_it_is_less(s, req.vote);
}

// ---- Replication and commits of a leader

/// Replication goes to every node of the progress but this one, from the last log that it is known to
/// hold, and to no other node.
pub proof fn replication_goes_to_every_other_node<NID: NodeId, NV>(
    s: EngineView<NID, NV>,
    leader: LeaderView<NID>,
    x: Matched<NID>,
)
    ensures
        s.replication_targets(leader).contains(x) <==> x.0 != s.id
            && leader.progress.vector.contains(x),
        (exists|i: int|
            0 <= i < s.replication_targets(leader).len() && (#[trigger] s.replication_targets(
                leader,
            )[i]).0 == x.0) <==> x.0 != s.id && exists|i: int|
            0 <= i < leader.progress.vector.len() && (#[trigger] leader.progress.vector[i]).0
                == x.0,
{
    let vector = leader.progress.vector;
    let targets = s.replication_targets(leader);
    let p = |y: Matched<NID>| y.0 != s.id;
    assert forall|y: Matched<NID>| #[trigger] targets.contains(y) <==> y.0 != s.id
        && vector.contains(y) by {
        if targets.contains(y) {
            let k = targets.index_of(y);
            vector.lemma_filter_pred(p, k);
            vector.lemma_filter_contains_rev(p, y);
        }
        if y.0 != s.id && vector.contains(y) {
            let k = vector.index_of(y);
            vector.lemma_filter_contains(p, k);
        }
    }
    if exists|i: int| 0 <= i < targets.len() && (#[trigger] targets[i]).0 == x.0 {
        let i = choose|i: int| 0 <= i < targets.len() && (#[trigger] targets[i]).0 == x.0;
        assert(targets.contains(targets[i]));
        let k = vector.index_of(targets[i]);
        assert(vector[k].0 == x.0);
    }
    if x.0 != s.id && exists|i: int| 0 <= i < vector.len() && (#[trigger] vector[i]).0 == x.0 {
        let i = choose|i: int| 0 <= i < vector.len() && (#[trigger] vector[i]).0 == x.0;
        assert(vector.contains(vector[i]));
        assert(targets.contains(vector[i]));
        let k = targets.index_of(vector[i]);
        assert(targets[k].0 == x.0);
    }
}

/// The targets are in the order of the progress: one more element of the progress is one more target at
/// the end, unless it is for this node.
pub proof fn replication_targets_are_in_order<NID: NodeId, NV>(
    s: EngineView<NID, NV>,
    leader: LeaderView<NID>,
    x: Matched<NID>,
)
    ensures
        leader.progress.vector.len() == 0 ==> s.replication_targets(leader).len() == 0,
        ({
            let longer = LeaderView {
                progress: ProgressView {
                    vector: leader.progress.vector.push(x),
                    ..leader.progress
                },
                ..leader
            };
            s.replication_targets(longer) == (if x.0 == s.id {
                s.replication_targets(leader)
            } else {
                s.replication_targets(leader).push(x)
            })
        }),
{
    reveal(Seq::filter);
    assert(leader.progress.vector.push(x).drop_last() =~= leader.progress.vector);
}

/// Updating the replication streams of a leading node tells the runtime the targets. A node that
/// follows has none.
pub proof fn replication_streams_are_told<NID: NodeId, NV>(s: EngineView<NID, NV>)
    ensures
        s.state.internal_server_state is Following ==> s.update_replications() == s,
        s.state.internal_server_state matches InternalStateView::Leading(leader) ==> changes_to(
            s,
            s.update_replications(),
            s.state,
            seq![
                CommandView::UpdateReplicationStreams { targets: s.replication_targets(leader) },
            ],
        ),
{
    if let InternalStateView::Leading(leader) = s.state.internal_server_state {
        let cmd = CommandView::UpdateReplicationStreams { targets: s.replication_targets(leader) };
        queuing_appends_the_command(s, cmd, s.state);
    }
}

/// What a leader has committed, if its progress is `progress`: what the progress grants, if this leader
/// has proposed it and it is greater than what is committed already.
pub open spec fn committed_with<NID: NodeId>(
    vote: Vote<NID>,
    committed: Option<LogId<NID>>,
    progress: ProgressView<NID>,
) -> Option<LogId<NID>> {
    let g = progress.granted;
    if g is Some && (g->0).leader_id.term == vote.term && (g->0).leader_id.node_id == vote.node_id
        && crate::log_id::opt_lt(committed, g) {
        g
    } else {
        committed
    }
}

/// Recording what a node holds changes the progress of this node, commits what a quorum then holds of
/// the logs of this leader, and tells it. It changes nothing if the node does not lead or does not know
/// the other node.
pub proof fn progress_commits_what_a_quorum_holds<NID: NodeId, NV>(
    s: EngineView<NID, NV>,
    node_id: NID,
    log_id: Option<LogId<NID>>,
)
    ensures
        s.state.internal_server_state is Following ==> s.update_progress(node_id, log_id) == s,
        s.state.internal_server_state matches InternalStateView::Leading(leader) ==> {
            let known = exists|i: int|
                0 <= i < leader.progress.vector.len() && (#[trigger] leader.progress.vector[i]).0
                    == node_id;
            let progress = leader.progress.update(node_id, log_id);
            let committed = committed_with(s.state.vote, s.state.committed, progress);
            &&& !known ==> s.update_progress(node_id, log_id) == s
            &&& known ==> changes_to(
                s,
                s.update_progress(node_id, log_id),
                RaftStateView {
                    internal_server_state: InternalStateView::Leading(
                        LeaderView { progress, ..leader },
                    ),
                    ..s.state.update_committed(committed)
                },
                leader_committing(s.state.committed, committed),
            )
        },
{
    if let InternalStateView::Leading(leader) = s.state.internal_server_state {
        crate::progress::position_is_of_the_node(leader.progress.vector, node_id);
        let progress = leader.progress.update(node_id, log_id);
        let c = s.state.committed;
        crate::log_id::opt_order_is_total(c, progress.granted, c);
        let committed = committed_with(s.state.vote, c, progress);
        assert(s.commands + Seq::<CommandView<NID, NV>>::empty() =~= s.commands);
        let a = CommandView::<NID, NV>::ReplicateCommitted { committed };
        let b = CommandView::<NID, NV>::LeaderCommit { already_committed: c, upto: committed->0 };
        assert(s.commands + seq![a, b] =~= s.commands.push(a).push(b));
    }
}

/// The progress of a leading node after it holds `log_id` itself, and what is committed then.
pub open spec fn leading_with<NID: NodeId, NV>(
    s: EngineView<NID, NV>,
    state: RaftStateView<NID, NV>,
    leader: LeaderView<NID>,
    log_id: LogId<NID>,
) -> RaftStateView<NID, NV> {
    let known = exists|i: int|
        0 <= i < leader.progress.vector.len() && (#[trigger] leader.progress.vector[i]).0 == s.id;
    let progress = leader.progress.update(s.id, Some(log_id));
    if known {
        RaftStateView {
            internal_server_state: InternalStateView::Leading(LeaderView { progress, ..leader }),
            ..state.update_committed(committed_with(state.vote, state.committed, progress))
        }
    } else {
        state
    }
}

/// A blank log follows the last one, with the leader id of the vote. A leading node counts as holding
/// it, and replicates it.
pub proof fn a_blank_log_follows_the_last_one<NID: NodeId, NV>(s: EngineView<NID, NV>)
    requires
        s.has_room(),
    ensures
        ({
            let log_id = LogId {
                leader_id: LeaderId { term: s.state.vote.term, node_id: s.state.vote.node_id },
                index: crate::log_id::next_index(s.state.log_ids.last()) as u64,
            };
            let longer = RaftStateView {
                log_ids: LogIds {
                    ids: s.state.log_ids.ids.push(log_id),
                    purged: s.state.log_ids.purged,
                },
                ..s.state
            };
            let state = match s.state.internal_server_state {
                InternalStateView::Leading(leader) => leading_with(s, longer, leader, log_id),
                InternalStateView::Following => longer,
            };
            changes_to(
                s,
                s.append_blank_log(),
                state,
                seq![CommandView::AppendBlankLog { log_id }] + leader_committing(
                    s.state.committed,
                    state.committed,
                ) + seq![CommandView::ReplicateEntries { upto: Some(log_id) }],
            )
        }),
{
    let log_id = s.new_log_ids(1)[0];
    let blank = CommandView::<NID, NV>::AppendBlankLog { log_id };
    let upto = CommandView::<NID, NV>::ReplicateEntries { upto: Some(log_id) };
    assert(s.state.log_ids.extend(seq![log_id]).ids =~= s.state.log_ids.ids.push(log_id));
    let appended = s.extend_log_ids(seq![log_id]).push(blank);
    progress_commits_what_a_quorum_holds(appended, s.id, Some(log_id));
    let after = s.append_blank_log();
    let progressed = appended.update_progress(s.id, Some(log_id));
    let mid = leader_committing::<NID, NV>(s.state.committed, after.state.committed);
    if let InternalStateView::Leading(leader) = s.state.internal_server_state {
        let progress = leader.progress.update(s.id, Some(log_id));
        crate::log_id::opt_order_is_total(
            s.state.committed,
            progress.granted,
            s.state.committed,
        );
    }
    assert(progressed.commands =~= appended.commands + mid);
    assert(after.commands =~= s.commands + (seq![blank] + mid + seq![upto]));
}

/// A leader is established: its vote is committed and saved, it has the role of a leader, it starts to
/// replicate, and appends a blank log.
pub proof fn an_established_leader_saves_its_vote<NID: NodeId, NV>(s: EngineView<NID, NV>)
    requires
        s.has_room(),
    ensures
        ({
            let vote = Vote {
                term: s.state.vote.term,
                node_id: s.state.vote.node_id,
                committed: true,
            };
            let log_id = LogId {
                leader_id: LeaderId { term: vote.term, node_id: vote.node_id },
                index: crate::log_id::next_index(s.state.log_ids.last()) as u64,
            };
            let longer = RaftStateView {
                vote,
                server_state: ServerState::Leader,
                log_ids: LogIds {
                    ids: s.state.log_ids.ids.push(log_id),
                    purged: s.state.log_ids.purged,
                },
                ..s.state
            };
            let state = match s.state.internal_server_state {
                InternalStateView::Leading(leader) => leading_with(s, longer, leader, log_id),
                InternalStateView::Following => longer,
            };
            let streams: Seq<CommandView<NID, NV>> = match s.state.internal_server_state {
                InternalStateView::Leading(leader) => seq![
                    CommandView::UpdateReplicationStreams {
                        targets: s.replication_targets(leader),
                    },
                ],
                InternalStateView::Following => Seq::empty(),
            };
            changes_to(
                s,
                s.establish_leader(),
                state,
                seq![CommandView::SaveVote { vote }] + telling_role(
                    s.state.server_state,
                    ServerState::Leader,
                ) + streams + (seq![CommandView::AppendBlankLog { log_id }] + leader_committing(
                    s.state.committed,
                    state.committed,
                ) + seq![CommandView::ReplicateEntries { upto: Some(log_id) }]),
            )
        }),
{
    let vote = Vote { committed: true, ..s.state.vote };
    let save = CommandView::<NID, NV>::SaveVote { vote };
    let saved = s.with_state(RaftStateView { vote, ..s.state }).push(save);
    setting_the_role_tells_a_change(saved, ServerState::Leader, ServerState::Leader);
    let named = saved.set_server_state(ServerState::Leader);
    replication_streams_are_told(named);
    let streaming = named.update_replications();
    a_blank_log_follows_the_last_one(streaming);
    let role = telling_role::<NID, NV>(s.state.server_state, ServerState::Leader);
    let streams: Seq<CommandView<NID, NV>> = match s.state.internal_server_state {
        InternalStateView::Leading(leader) => seq![
            CommandView::UpdateReplicationStreams { targets: s.replication_targets(leader) },
        ],
        InternalStateView::Following => Seq::empty(),
    };
    if let InternalStateView::Leading(leader) = s.state.internal_server_state {
        assert(named.replication_targets(leader) == s.replication_targets(leader));
    }
    assert(streaming.commands =~= s.commands + (seq![save] + role + streams));
    let after = s.establish_leader();
    let log_id = streaming.new_log_ids(1)[0];
    let rest = seq![CommandView::<NID, NV>::AppendBlankLog { log_id }] + leader_committing(
        s.state.committed,
        after.state.committed,
    ) + seq![CommandView::ReplicateEntries { upto: Some(log_id) }];
    assert(after.commands =~= streaming.commands + rest);
    assert(after.commands =~= s.commands + (seq![save] + role + streams + rest));
}

// ---- Elections

/// A node that starts an election votes for itself in the next term and saves this vote. If it is not a
/// quorum on its own, it is a candidate: it asks for votes once, with its new vote and its last log, and
/// waits. If it is, it is the leader at once.
pub proof fn an_election_asks_with_the_last_log<NID: NodeId, NV>(s: EngineView<NID, NV>)
    requires
        s.state.vote.term < u64::MAX,
    ensures
        ({
            let m = s.state.membership_state.effective.membership;
            let vote = Vote {
                term: (s.state.vote.term + 1) as u64,
                node_id: s.id,
                committed: false,
            };
            let voted = RaftStateView {
                vote,
                internal_server_state: InternalStateView::Leading(
                    LeaderView {
                        vote_granted_by: seq![s.id],
                        progress: ProgressView::initial(m.configs, m.learner_ids()),
                    },
                ),
                ..s.state
            };
            &&& !crate::quorum::is_quorum(m.configs, seq![s.id]) ==> changes_to(
                s,
                s.elect(),
                RaftStateView { server_state: ServerState::Candidate, ..voted },
                seq![
                    CommandView::SaveVote { vote },
                    CommandView::SendVote {
                        vote_req: VoteRequest { vote, last_log_id: s.state.log_ids.last() },
                    },
                ] + telling_role(s.state.server_state, ServerState::Candidate) + seq![
                    CommandView::InstallElectionTimer { can_be_leader: true },
                ],
            )
            &&& crate::quorum::is_quorum(m.configs, seq![s.id]) ==> s.elect() == s.with_state(
                voted,
            ).push(CommandView::SaveVote { vote }).establish_leader()
        }),
{
    let m = s.state.membership_state.effective.membership;
    let vote = Vote { term: (s.state.vote.term + 1) as u64, node_id: s.id, committed: false };
    crate::vote::votes_are_ordered_by_term_and_node(s.state.vote, vote);
    a_vote_is_granted_unless_it_is_less(s, vote);
    reveal(Seq::filter);
    assert(crate::node_set::with_id(Seq::<NID>::empty(), s.id) =~= seq![s.id]);
    let voted = s.vote_for_self();
    let save = CommandView::<NID, NV>::SaveVote { vote };
    assert(voted =~= s.with_state(voted.state).push(save));
    if !crate::quorum::is_quorum(m.configs, seq![s.id]) {
        let send = CommandView::<NID, NV>::SendVote {
            vote_req: VoteRequest { vote, last_log_id: s.state.log_ids.last() },
        };
        let asked = voted.push(send);
        setting_the_role_tells_a_change(asked, ServerState::Candidate, ServerState::Candidate);
        let role = telling_role::<NID, NV>(s.state.server_state, ServerState::Candidate);
        let timer = CommandView::<NID, NV>::InstallElectionTimer { can_be_leader: true };
        assert(s.elect().commands =~= s.commands + (seq![save, send] + role + seq![timer]));
    }
}

/// A response that does not grant the vote makes the greater of the two votes the vote of the node, and
/// saves it if it is another one. The node then waits, longer if the other node has a greater log.
/// Nothing else changes.
pub proof fn a_rejection_keeps_the_greater_vote<NID: NodeId, NV>(
    s: EngineView<NID, NV>,
    target: NID,
    resp: VoteResponse<NID>,
)
    requires
        s.state.internal_server_state is Leading,
        !resp.vote_granted,
    ensures
        ({
            let vote = if s.state.vote.lt(resp.vote) {
                resp.vote
            } else {
                s.state.vote
            };
            changes_to(
                s,
                s.handle_vote_resp(target, resp),
                RaftStateView { vote, ..s.state },
                saving(s.state.vote, vote) + seq![
                    CommandView::InstallElectionTimer {
                        can_be_leader: !crate::log_id::opt_lt(
                            s.state.log_ids.last(),
                            resp.last_log_id,
                        ),
                    },
                ],
            )
        }),
{
    crate::vote::vote_order_is_total(s.state.vote, resp.vote, s.state.vote);
    let vote = if s.state.vote.lt(resp.vote) {
        resp.vote
    } else {
        s.state.vote
    };
    let timer = CommandView::<NID, NV>::InstallElectionTimer {
        can_be_leader: !crate::log_id::opt_lt(s.state.log_ids.last(), resp.last_log_id),
    };
    assert(s.handle_vote_resp(target, resp).commands =~= s.commands + (saving::<NID, NV>(
        s.state.vote,
        vote,
    ) + seq![timer]));
}

/// A response that grants the vote is counted, and makes the node the leader as soon as those that have
/// granted it are a quorum.
pub proof fn a_granted_vote_is_counted<NID: NodeId, NV>(
    s: EngineView<NID, NV>,
    leader: LeaderView<NID>,
    target: NID,
    resp: VoteResponse<NID>,
)
    requires
        s.state.internal_server_state == InternalStateView::Leading(leader),
        resp.vote_granted,
    ensures
        ({
            let by = crate::node_set::with_id(leader.vote_granted_by, target);
            let counted = RaftStateView {
                internal_server_state: InternalStateView::Leading(
                    LeaderView { vote_granted_by: by, progress: leader.progress },
                ),
                ..s.state
            };
            s.handle_vote_resp(target, resp) == (if crate::quorum::is_quorum(
                leader.progress.configs,
                by,
            ) {
                s.with_state(counted).establish_leader()
            } else {
                s.with_state(counted)
            })
        }),
{
}

// ---- Memberships

/// A membership takes effect with the log that holds it, and the runtime is told. A leading node follows
/// it with its progress and its replication streams. The role follows too, and is told, unless the node
/// was the leader.
pub proof fn a_membership_takes_effect<NID: NodeId, NV>(
    s: EngineView<NID, NV>,
    log_id: LogId<NID>,
    m: MembershipView<NID, NV>,
)
    ensures
        ({
            let after = s.update_effective_membership(log_id, m);
            let effective = EffectiveMembershipView { log_id: Some(log_id), membership: m };
            let leading = s.state.internal_server_state is Leading;
            let was = role_of(
                s.id,
                s.state.membership_state.effective.membership,
                s.state.vote,
                leading,
            );
            let now = role_of(s.id, m, s.state.vote, leading);
            let moved = was != ServerState::Leader && was != now;
            let upgraded = match s.state.internal_server_state {
                InternalStateView::Leading(leader) => LeaderView {
                    progress: leader.progress.upgrade(m.configs, m.learner_ids()),
                    ..leader
                },
                InternalStateView::Following => arbitrary(),
            };
            changes_to(
                s,
                after,
                RaftStateView {
                    membership_state: MembershipStateView {
                        effective,
                        committed: s.state.membership_state.committed,
                    },
                    internal_server_state: if leading {
                        InternalStateView::Leading(upgraded)
                    } else {
                        InternalStateView::Following
                    },
                    server_state: if moved {
                        now
                    } else {
                        s.state.server_state
                    },
                    ..s.state
                },
                seq![CommandView::UpdateMembership { membership: effective }] + (if leading {
                    seq![
                        CommandView::UpdateReplicationStreams {
                            targets: s.replication_targets(upgraded),
                        },
                    ]
                } else {
                    Seq::empty()
                }) + (if moved {
                    seq![CommandView::UpdateServerState { server_state: now }]
                } else {
                    Seq::empty()
                }),
            )
        }),
{
    the_role_follows_from_membership_and_vote(s);
    let after = s.update_effective_membership(log_id, m);
    let effective = EffectiveMembershipView { log_id: Some(log_id), membership: m };
    let told = CommandView::<NID, NV>::UpdateMembership { membership: effective };
    let changed = s.with_state(
        RaftStateView {
            membership_state: MembershipStateView { effective, ..s.state.membership_state },
            ..s.state
        },
    ).push(told);
    let leading = s.state.internal_server_state is Leading;
    let now = role_of(s.id, m, s.state.vote, leading);
    let role = CommandView::<NID, NV>::UpdateServerState { server_state: now };
    match s.state.internal_server_state {
        InternalStateView::Leading(leader) => {
            let upgraded = LeaderView {
                progress: leader.progress.upgrade(m.configs, m.learner_ids()),
                ..leader
            };
            let new = changed.with_state(
                RaftStateView {
                    internal_server_state: InternalStateView::Leading(upgraded),
                    ..changed.state
                },
            );
            replication_streams_are_told(new);
            assert(new.replication_targets(upgraded) == s.replication_targets(upgraded));
            let streams = CommandView::<NID, NV>::UpdateReplicationStreams {
                targets: s.replication_targets(upgraded),
            };
            let streaming = new.update_replications();
            the_role_follows_from_membership_and_vote(streaming);
            assert(streaming.commands =~= s.commands + (seq![told] + seq![streams] + Seq::<
                CommandView<NID, NV>,
            >::empty()));
            assert(streaming.commands.push(role) =~= s.commands + (seq![told] + seq![streams]
                + seq![role]));
        },
        InternalStateView::Following => {
            the_role_follows_from_membership_and_vote(changed);
            let none = Seq::<CommandView<NID, NV>>::empty();
            assert(changed.commands =~= s.commands + (seq![told] + none + none));
            assert(changed.commands.push(role) =~= s.commands + (seq![told] + none + seq![role]));
        },
    }
}

/// An entry takes effect if and only if it holds a membership.
pub proof fn an_entry_takes_effect_if_it_holds_a_membership<NID: NodeId, NV>(
    s: EngineView<NID, NV>,
    entry: EntryView<NID, NV>,
)
    ensures
        entry.membership is None ==> s.try_update_membership(entry) == s,
        entry.membership is Some ==> s.try_update_membership(entry)
            == s.update_effective_membership(entry.log_id, entry.membership->0),
{
}

/// A membership that is known to be committed is adopted; the runtime is told if this changes the
/// effective one, and of the role if that changes.
pub proof fn a_committed_membership_is_told_if_it_takes_effect<NID: NodeId, NV>(
    s: EngineView<NID, NV>,
    m: EffectiveMembershipView<NID, NV>,
)
    ensures
        ({
            let old = s.state.membership_state;
            let new = old.adopt(m);
            let leading = s.state.internal_server_state is Leading;
            let was = role_of(s.id, old.effective.membership, s.state.vote, leading);
            let now = role_of(s.id, new.effective.membership, s.state.vote, leading);
            changes_to(
                s,
                s.update_committed_membership(m),
                RaftStateView {
                    membership_state: new,
                    server_state: if was == now {
                        s.state.server_state
                    } else {
                        now
                    },
                    ..s.state
                },
                telling_membership(old.effective, new.effective) + telling_role(was, now),
            )
        }),
{
    the_role_follows_from_membership_and_vote(s);
    let old = s.state.membership_state;
    let new = old.adopt(m);
    let changed = s.with_state(RaftStateView { membership_state: new, ..s.state });
    let cmd = CommandView::<NID, NV>::UpdateMembership { membership: new.effective };
    let told = if old.effective != new.effective {
        changed.push(cmd)
    } else {
        changed
    };
    let first = telling_membership::<NID, NV>(old.effective, new.effective);
    assert(told.commands =~= s.commands + first);
    the_role_follows_from_membership_and_vote(told);
    setting_the_role_tells_a_change(told, ServerState::Leader, s.calc_server_state());
    let after = s.update_committed_membership(m);
    let second = telling_role::<NID, NV>(s.calc_server_state(), told.calc_server_state());
    assert(after.commands =~= told.commands + second);
    assert(after.commands =~= s.commands + (first + second));
}

// ---- Initialization

/// Why a node is not initialized: it has a log or a vote, or the entry holds no membership, or one that
/// does not have the node as a voter.
pub proof fn an_initialization_fails_with_its_reason<NID: NodeId, NV>(
    s: EngineView<NID, NV>,
    m: Option<MembershipView<NID, NV>>,
)
    ensures
        ({
            let fresh = s.state.log_ids.ids.len() == 0 && s.state.vote.term == 0
                && s.state.vote.node_id == NID::spec_default_id() && !s.state.vote.committed;
            let not_allowed = NotAllowed {
                last_log_id: s.state.log_ids.last(),
                vote: s.state.vote,
            };
            &&& s.check_initialize() == (if fresh {
                Ok(())
            } else {
                Err(not_allowed)
            })
            &&& s.initialize_result(m) == (if !fresh {
                Err(InitializeErrorView::NotAllowed(not_allowed))
            } else if m is None {
                Err(InitializeErrorView::NotAMembershipEntry)
            } else if !(exists|i: int|
                0 <= i < (m->0).configs.len() && (#[trigger] (m->0).configs[i]).contains(s.id)) {
                Err(InitializeErrorView::NotInMembers { node_id: s.id, membership: m->0 })
            } else {
                Ok(())
            })
        }),
{
}

/// An initialization that is not allowed changes nothing. Otherwise the entry is appended as the first
/// log. If it holds a proper membership, this takes effect, and the node starts an election.
pub proof fn an_initialization_appends_the_first_log<NID: NodeId, NV>(
    s: EngineView<NID, NV>,
    m: Option<MembershipView<NID, NV>>,
)
    ensures
        s.check_initialize() is Err ==> s.initialize(m) == s,
        s.check_initialize() is Ok ==> {
            let first = LogId {
                leader_id: LeaderId { term: 0, node_id: NID::spec_default_id() },
                index: 0,
            };
            let appended = s.with_state(
                RaftStateView {
                    log_ids: LogIds { ids: seq![first], purged: s.state.log_ids.purged },
                    ..s.state
                },
            ).push(CommandView::AppendInputEntries { start: 0, end: 1 });
            s.initialize(m) == (if s.initialize_result(m) is Err {
                appended
            } else {
                appended.update_effective_membership(first, m->0).push(
                    CommandView::MoveInputCursorBy { n: 1 },
                ).elect()
            })
        },
{
    if s.check_initialize() is Ok {
        let first = LogId {
            leader_id: LeaderId { term: 0, node_id: NID::spec_default_id() },
            index: 0,
        };
        assert(s.new_log_ids(1) =~= seq![first]);
        assert(s.state.log_ids.extend(seq![first]).ids =~= seq![first]);
    }
}

} // verus!
