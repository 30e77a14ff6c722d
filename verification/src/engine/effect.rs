//! What an event leaves as it was, what it moves only forward, and what its commands do.
//!
//! An engine performs nothing itself. The laws here say that its queue of commands does not lose
//! anything: a runtime that executes the commands in order ends up with the same vote, logs,
//! committed log, effective membership and server state as the engine.
use vstd::prelude::*;

use crate::command::CommandView;
use crate::engine::event::Event;
use crate::engine::model::EngineView;
use crate::entry::EntryView;
use crate::leader::{InternalStateView, LeaderView};
use crate::log_id::LogId;
use crate::log_id_list::LogIds;
use crate::membership::{EffectiveMembershipView, MembershipStateView, MembershipView};
use crate::metrics::MetricsChangeFlags;
use crate::node::NodeId;
use crate::raft_state::{RaftStateView, ServerState};
use crate::snapshot::SnapshotMetaView;
use crate::vote::Vote;

verus! {

/// What a runtime keeps outside the engine.
#[verifier::ext_equal]
pub struct Outside<NID, NV> {
    /// The saved vote.
    pub vote: Vote<NID>,
    /// The ids of the stored logs.
    pub log_ids: LogIds<NID>,
    /// The last log that is to be applied.
    pub committed: Option<LogId<NID>>,
    /// The membership that the node acts on.
    pub membership: EffectiveMembershipView<NID, NV>,
    /// The role of the node.
    pub server_state: ServerState,
}

impl<NID: NodeId, NV> Outside<NID, NV> {
    /// What a command does, where `input` are the ids of the input entries.
    pub open spec fn execute(self, cmd: CommandView<NID, NV>, input: Seq<LogId<NID>>) -> Self {
        match cmd {
            CommandView::SaveVote { vote } => Outside { vote, ..self },
            CommandView::AppendInputEntries { start, end } => Outside {
                log_ids: self.log_ids.extend(input.subrange(start, end)),
                ..self
            },
            CommandView::AppendBlankLog { log_id } => Outside {
                log_ids: self.log_ids.extend(seq![log_id]),
                ..self
            },
            CommandView::DeleteConflictLog { since } => Outside {
                log_ids: self.log_ids.truncate(since.index as int),
                ..self
            },
            CommandView::PurgeLog { upto } => Outside { log_ids: self.log_ids.purge(upto), ..self },
            CommandView::LeaderCommit { already_committed, upto } => Outside {
                committed: Some(upto),
                ..self
            },
            CommandView::FollowerCommit { already_committed, upto } => Outside {
                committed: Some(upto),
                ..self
            },
            CommandView::InstallSnapshot { snapshot_meta } => Outside {
                committed: snapshot_meta.last_log_id,
                ..self
            },
            CommandView::UpdateMembership { membership } => Outside { membership, ..self },
            CommandView::UpdateServerState { server_state } => Outside { server_state, ..self },
            _ => self,
        }
    }

    /// What a list of commands does, one after the other.
    pub open spec fn execute_all(
        self,
        cmds: Seq<CommandView<NID, NV>>,
        input: Seq<LogId<NID>>,
    ) -> Self
        decreases cmds.len(),
    {
        if cmds.len() == 0 {
            self
        } else {
            self.execute_all(cmds.drop_last(), input).execute(cmds.last(), input)
        }
    }
}

/// The metrics that are marked after a list of commands is queued.
pub open spec fn marked_by<NID, NV>(
    flags: MetricsChangeFlags,
    cmds: Seq<CommandView<NID, NV>>,
) -> MetricsChangeFlags
    decreases cmds.len(),
{
    if cmds.len() == 0 {
        flags
    } else {
        cmds.last().flags(marked_by(flags, cmds.drop_last()))
    }
}

impl<NID: NodeId, NV> EngineView<NID, NV> {
    /// What a runtime keeps if it has executed every command.
    pub open spec fn outside(self) -> Outside<NID, NV> {
        Outside {
            vote: self.state.vote,
            log_ids: self.state.log_ids,
            committed: self.state.committed,
            membership: self.state.membership_state.effective,
            server_state: self.state.server_state,
        }
    }

    /// Whether nothing goes back from this engine to `after`: the vote, the committed log and the
    /// snapshot do not, and no command is withdrawn. The identity and the configuration stay.
    pub open spec fn advances_to(self, after: Self) -> bool {
        &&& after.id == self.id
        &&& after.config == self.config
        &&& self.commands.is_prefix_of(after.commands)
        &&& self.state.vote.le(after.state.vote)
        &&& crate::log_id::opt_le(self.state.committed, after.state.committed)
        &&& crate::log_id::opt_le(self.snapshot_meta.last_log_id, after.snapshot_meta.last_log_id)
    }

    /// Whether the commands that are queued between this engine and `after` make the same change
    /// outside as there is inside.
    pub open spec fn is_told_by_commands(self, after: Self, input: Seq<LogId<NID>>) -> bool {
        after.outside() == self.outside().execute_all(
            after.commands.skip(self.commands.len() as int),
            input,
        )
    }

    /// Whether the metrics that are marked between this engine and `after` are those that the queued
    /// commands change, and the local data if the snapshot is another one.
    pub open spec fn is_marked_by_commands(self, after: Self) -> bool {
        let marked = marked_by(
            self.metrics_flags,
            after.commands.skip(self.commands.len() as int),
        );
        after.metrics_flags == (if after.snapshot_meta.last_log_id
            == self.snapshot_meta.last_log_id {
            marked
        } else {
            MetricsChangeFlags { local_data: true, ..marked }
        })
    }

    spec fn leads_to(self, after: Self, input: Seq<LogId<NID>>) -> bool {
        self.advances_to(after) && self.is_told_by_commands(after, input)
            && self.is_marked_by_commands(after)
    }

    proof fn leads_to_self(self, input: Seq<LogId<NID>>)
        ensures
            self.leads_to(self, input),
    {
        crate::vote::vote_order_is_total(self.state.vote, self.state.vote, self.state.vote);
        let committed = self.state.committed;
        crate::log_id::opt_order_is_total(committed, committed, committed);
        let snapshot = self.snapshot_meta.last_log_id;
        crate::log_id::opt_order_is_total(snapshot, snapshot, snapshot);
        assert(self.commands.skip(self.commands.len() as int) =~= Seq::empty());
    }

    /// One change and the command that tells of it.
    proof fn leads_on(
        self,
        before: Self,
        after: Self,
        cmd: CommandView<NID, NV>,
        input: Seq<LogId<NID>>,
    )
        requires
            self.leads_to(before, input),
            after.id == before.id,
            after.config == before.config,
            after.commands == before.commands.push(cmd),
            after.metrics_flags == cmd.flags(before.metrics_flags),
            before.state.vote.le(after.state.vote),
            crate::log_id::opt_le(before.state.committed, after.state.committed),
            after.snapshot_meta == before.snapshot_meta,
            after.outside() == before.outside().execute(cmd, input),
        ensures
            self.leads_to(after, input),
    {
        crate::vote::vote_order_is_total(
            self.state.vote,
            before.state.vote,
            after.state.vote,
        );
        crate::log_id::opt_order_is_total(
            self.state.committed,
            before.state.committed,
            after.state.committed,
        );
        let n = self.commands.len() as int;
        assert(after.commands.skip(n).drop_last() =~= before.commands.skip(n));
        assert(after.commands.skip(n).last() == cmd);
    }

    /// A command that changes nothing outside.
    proof fn leads_on_push(self, s: Self, cmd: CommandView<NID, NV>, input: Seq<LogId<NID>>)
        requires
            self.leads_to(s, input),
            s.outside().execute(cmd, input) == s.outside(),
        ensures
            self.leads_to(s.push(cmd), input),
    {
        s.leads_to_self(input);
        self.leads_on(s, s.push(cmd), cmd, input);
    }

    proof fn leads_on_set_server_state(
        self,
        s: Self,
        server_state: ServerState,
        input: Seq<LogId<NID>>,
    )
        requires
            self.leads_to(s, input),
        ensures
            self.leads_to(s.set_server_state(server_state), input),
    {
        s.leads_to_self(input);
        if s.state.server_state != server_state {
            let cmd = CommandView::UpdateServerState { server_state };
            self.leads_on(s, s.set_server_state(server_state), cmd, input);
        }
    }

    proof fn leads_on_server_state_changed(self, s: Self, prev: ServerState, input: Seq<LogId<NID>>)
        requires
            self.leads_to(s, input),
        ensures
            self.leads_to(s.update_server_state_if_changed(prev), input),
    {
        s.leads_to_self(input);
        if prev != s.calc_server_state() {
            let cmd = CommandView::UpdateServerState { server_state: s.calc_server_state() };
            self.leads_on(s, s.update_server_state_if_changed(prev), cmd, input);
        }
    }

    proof fn leads_on_vote_change(self, s: Self, vote: Vote<NID>, input: Seq<LogId<NID>>)
        requires
            self.leads_to(s, input),
        ensures
            self.leads_to(s.handle_vote_change(vote), input),
    {
        if s.grants(vote) {
            self.leads_on_save_vote(s, vote, input);
            let saved = s.save_vote(vote);
            if saved.state.vote.node_id != saved.id {
                let cmd = CommandView::InstallElectionTimer {
                    can_be_leader: !saved.state.vote.committed,
                };
                self.leads_on_push(saved, cmd, input);
                let timed = saved.push(cmd);
                if saved.state.internal_server_state is Leading {
                    let following = timed.with_state(
                        RaftStateView {
                            internal_server_state: InternalStateView::Following,
                            ..saved.state
                        },
                    );
                    let role = if saved.is_voter() {
                        ServerState::Follower
                    } else {
                        ServerState::Learner
                    };
                    assert(self.leads_to(following, input));
                    self.leads_on_set_server_state(following, role, input);
                }
            }
        }
    }

    proof fn leads_on_save_vote(self, s: Self, vote: Vote<NID>, input: Seq<LogId<NID>>)
        requires
            self.leads_to(s, input),
        ensures
            self.leads_to(s.save_vote(vote), input),
    {
        s.leads_to_self(input);
        if s.state.vote.lt(vote) {
            crate::vote::vote_order_is_total(s.state.vote, vote, vote);
            self.leads_on(s, s.save_vote(vote), CommandView::SaveVote { vote }, input);
        }
    }

    proof fn leads_on_replications(self, s: Self, input: Seq<LogId<NID>>)
        requires
            self.leads_to(s, input),
        ensures
            self.leads_to(s.update_replications(), input),
    {
        if let InternalStateView::Leading(leader) = s.state.internal_server_state {
            let cmd = CommandView::UpdateReplicationStreams {
                targets: s.replication_targets(leader),
            };
            self.leads_on_push(s, cmd, input);
        }
    }

    proof fn leads_on_leader_commit(
        self,
        s: Self,
        granted: Option<LogId<NID>>,
        input: Seq<LogId<NID>>,
    )
        requires
            self.leads_to(s, input),
        ensures
            self.leads_to(s.leader_commit(granted), input),
    {
        s.leads_to_self(input);
        if s.leader_commit(granted) != s {
            crate::log_id::opt_order_is_total(s.state.committed, granted, granted);
            let told = CommandView::ReplicateCommitted { committed: granted };
            self.leads_on_push(s, told, input);
            let cmd = CommandView::LeaderCommit {
                already_committed: s.state.committed,
                upto: granted->0,
            };
            self.leads_on(s.push(told), s.leader_commit(granted), cmd, input);
        }
    }

    proof fn leads_on_progress(
        self,
        s: Self,
        node_id: NID,
        log_id: Option<LogId<NID>>,
        input: Seq<LogId<NID>>,
    )
        requires
            self.leads_to(s, input),
        ensures
            self.leads_to(s.update_progress(node_id, log_id), input),
    {
        if let InternalStateView::Leading(leader) = s.state.internal_server_state {
            let progress = leader.progress.update(node_id, log_id);
            let updated = s.with_state(
                RaftStateView {
                    internal_server_state: InternalStateView::Leading(
                        LeaderView { progress, ..leader },
                    ),
                    ..s.state
                },
            );
            assert(self.leads_to(updated, input));
            self.leads_on_leader_commit(updated, progress.granted, input);
        }
    }

    proof fn leads_on_establish_leader(self, s: Self, input: Seq<LogId<NID>>)
        requires
            self.leads_to(s, input),
        ensures
            self.leads_to(s.establish_leader(), input),
    {
        s.leads_to_self(input);
        let vote = Vote { committed: true, ..s.state.vote };
        let save = CommandView::SaveVote { vote };
        let saved = s.with_state(RaftStateView { vote, ..s.state }).push(save);
        self.leads_on(s, saved, save, input);
        self.leads_on_set_server_state(saved, ServerState::Leader, input);
        let named = saved.set_server_state(ServerState::Leader);
        self.leads_on_replications(named, input);
        let streaming = named.update_replications();
        let log_id = streaming.new_log_ids(1)[0];
        let blank = CommandView::AppendBlankLog { log_id };
        let appended = streaming.extend_log_ids(seq![log_id]).push(blank);
        streaming.leads_to_self(input);
        self.leads_on(streaming, appended, blank, input);
        self.leads_on_progress(appended, streaming.id, Some(log_id), input);
        let progressed = appended.update_progress(streaming.id, Some(log_id));
        self.leads_on_push(
            progressed,
            CommandView::ReplicateEntries { upto: Some(log_id) },
            input,
        );
    }

    proof fn leads_on_elect(self, s: Self, input: Seq<LogId<NID>>)
        requires
            self.leads_to(s, input),
        ensures
            self.leads_to(s.elect(), input),
    {
        let vote = Vote {
            term: (s.state.vote.term + 1) as u64,
            node_id: s.id,
            committed: false,
        };
        self.leads_on_vote_change(s, vote, input);
        let voted = s.vote_for_self();
        assert(self.leads_to(voted, input));
        if s.is_quorum_alone() {
            self.leads_on_establish_leader(voted, input);
        } else {
            let send = CommandView::SendVote {
                vote_req: crate::message::VoteRequest {
                    vote: voted.state.vote,
                    last_log_id: voted.last_log_id(),
                },
            };
            self.leads_on_push(voted, send, input);
            let asked = voted.push(send);
            self.leads_on_set_server_state(asked, ServerState::Candidate, input);
            self.leads_on_push(
                asked.set_server_state(ServerState::Candidate),
                CommandView::InstallElectionTimer { can_be_leader: true },
                input,
            );
        }
    }

    proof fn leads_on_effective_membership(
        self,
        s: Self,
        log_id: LogId<NID>,
        m: MembershipView<NID, NV>,
        input: Seq<LogId<NID>>,
    )
        requires
            self.leads_to(s, input),
        ensures
            self.leads_to(s.update_effective_membership(log_id, m), input),
    {
        s.leads_to_self(input);
        let effective = EffectiveMembershipView { log_id: Some(log_id), membership: m };
        let cmd = CommandView::UpdateMembership { membership: effective };
        let changed = s.with_state(
            RaftStateView {
                membership_state: MembershipStateView { effective, ..s.state.membership_state },
                ..s.state
            },
        ).push(cmd);
        self.leads_on(s, changed, cmd, input);
        let upgraded = match s.state.internal_server_state {
            InternalStateView::Leading(leader) => {
                let new = changed.with_state(
                    RaftStateView {
                        internal_server_state: InternalStateView::Leading(
                            LeaderView {
                                progress: leader.progress.upgrade(m.configs, m.learner_ids()),
                                ..leader
                            },
                        ),
                        ..changed.state
                    },
                );
                assert(self.leads_to(new, input));
                self.leads_on_replications(new, input);
                new.update_replications()
            },
            InternalStateView::Following => changed,
        };
        self.leads_on_server_state_changed(upgraded, s.calc_server_state(), input);
    }

    proof fn leads_on_committed_membership(
        self,
        s: Self,
        m: EffectiveMembershipView<NID, NV>,
        input: Seq<LogId<NID>>,
    )
        requires
            self.leads_to(s, input),
        ensures
            self.leads_to(s.update_committed_membership(m), input),
    {
        s.leads_to_self(input);
        let old = s.state.membership_state;
        let new = old.adopt(m);
        let changed = s.with_state(RaftStateView { membership_state: new, ..s.state });
        let told = if old.effective != new.effective {
            let cmd = CommandView::UpdateMembership { membership: new.effective };
            self.leads_on(s, changed.push(cmd), cmd, input);
            changed.push(cmd)
        } else {
            assert(self.leads_to(changed, input));
            changed
        };
        self.leads_on_server_state_changed(told, s.calc_server_state(), input);
    }

    proof fn leads_on_lead_entries(
        self,
        s: Self,
        entries: Seq<EntryView<NID, NV>>,
        input: Seq<LogId<NID>>,
    )
        requires
            self.leads_to(s, input),
        ensures
            self.leads_to(s.lead_entries(entries), input),
        decreases entries.len(),
    {
        if entries.len() > 0 {
            self.leads_on_lead_entries(s, entries.drop_last(), input);
            let before = s.lead_entries(entries.drop_last());
            let entry = entries.last();
            if let Some(m) = entry.membership {
                let prev = before.state.log_ids.get(entry.log_id.index - 1);
                self.leads_on_progress(before, before.id, prev, input);
                let progressed = if prev is Some {
                    before.update_progress(before.id, prev)
                } else {
                    before
                };
                self.leads_on_effective_membership(progressed, entry.log_id, m, input);
            }
        }
    }

    proof fn leads_on_append_input(self, s: Self, start: int, end: int, input: Seq<LogId<NID>>)
        requires
            self.leads_to(s, input),
        ensures
            self.leads_to(
                s.extend_log_ids(input.subrange(start, end)).push(
                    CommandView::AppendInputEntries { start, end },
                ),
                input,
            ),
    {
        s.leads_to_self(input);
        let cmd = CommandView::AppendInputEntries { start, end };
        self.leads_on(s, s.extend_log_ids(input.subrange(start, end)).push(cmd), cmd, input);
    }

    proof fn leads_on_leader_append(self, s: Self, entries: Seq<EntryView<NID, NV>>)
        requires
            self.leads_to(s, s.new_log_ids(entries.len())),
        ensures
            self.leads_to(s.leader_append_entries(entries), s.new_log_ids(entries.len())),
    {
        let n = entries.len();
        let ids = s.new_log_ids(n);
        if n > 0 {
            assert(ids.subrange(0, n as int) =~= ids);
            self.leads_on_append_input(s, 0, n as int, ids);
            let appended = s.extend_log_ids(ids).push(
                CommandView::AppendInputEntries { start: 0, end: n as int },
            );
            self.leads_on_lead_entries(appended, s.assign_log_ids(entries), ids);
            let led = appended.lead_entries(s.assign_log_ids(entries));
            self.leads_on_progress(led, s.id, Some(ids.last()), ids);
            let progressed = led.update_progress(s.id, Some(ids.last()));
            let replicate = CommandView::ReplicateEntries { upto: Some(ids.last()) };
            self.leads_on_push(progressed, replicate, ids);
            self.leads_on_push(
                progressed.push(replicate),
                CommandView::MoveInputCursorBy { n: n as int },
                ids,
            );
        }
    }

    proof fn leads_on_initialize(self, s: Self, m: Option<MembershipView<NID, NV>>)
        requires
            self.leads_to(s, s.new_log_ids(1)),
        ensures
            self.leads_to(s.initialize(m), s.new_log_ids(1)),
    {
        let ids = s.new_log_ids(1);
        if s.check_initialize() is Ok {
            assert(ids.subrange(0, 1) =~= ids);
            self.leads_on_append_input(s, 0, 1, ids);
            let appended = s.extend_log_ids(ids).push(
                CommandView::AppendInputEntries { start: 0, end: 1 },
            );
            if s.check_initial_membership(m) is Ok {
                self.leads_on_effective_membership(appended, ids[0], m->0, ids);
                let effective = appended.update_effective_membership(ids[0], m->0);
                let moved = CommandView::MoveInputCursorBy { n: 1 };
                self.leads_on_push(effective, moved, ids);
                self.leads_on_elect(effective.push(moved), ids);
            }
        }
    }

    proof fn leads_on_vote_resp(
        self,
        s: Self,
        target: NID,
        resp: crate::message::VoteResponse<NID>,
        input: Seq<LogId<NID>>,
    )
        requires
            self.leads_to(s, input),
        ensures
            self.leads_to(s.handle_vote_resp(target, resp), input),
    {
        if let InternalStateView::Leading(leader) = s.state.internal_server_state {
            if resp.vote_granted {
                let granted = s.vote_granted_by(leader, target);
                assert(self.leads_to(granted, input));
                self.leads_on_establish_leader(granted, input);
            } else {
                self.leads_on_save_vote(s, resp.vote, input);
                let timer = CommandView::InstallElectionTimer {
                    can_be_leader: crate::log_id::opt_le(resp.last_log_id, s.last_log_id()),
                };
                self.leads_on_push(s.save_vote(resp.vote), timer, input);
            }
        }
    }

    proof fn leads_on_truncate(self, s: Self, since: int, input: Seq<LogId<NID>>)
        requires
            self.leads_to(s, input),
            s.state.log_ids.consecutive(),
        ensures
            self.leads_to(s.truncate_logs(since), input),
    {
        s.leads_to_self(input);
        if let Some(log_id) = s.state.log_ids.get(since) {
            assert(log_id.index == since);
            let cmd = CommandView::DeleteConflictLog { since: log_id };
            let deleted = s.with_state(
                RaftStateView { log_ids: s.state.log_ids.truncate(since), ..s.state },
            ).push(cmd);
            self.leads_on(s, deleted, cmd, input);
            let m = s.state.membership_state;
            if since < crate::log_id::next_index(m.effective.log_id) {
                deleted.leads_to_self(input);
                let revert = CommandView::UpdateMembership { membership: m.committed };
                let reverted = deleted.with_state(
                    RaftStateView {
                        membership_state: MembershipStateView { effective: m.committed, ..m },
                        ..deleted.state
                    },
                ).push(revert);
                self.leads_on(deleted, reverted, revert, input);
                self.leads_on_server_state_changed(reverted, s.calc_server_state(), input);
            }
        }
    }

    proof fn leads_on_follower_append(self, s: Self, entries: Seq<EntryView<NID, NV>>, since: int)
        requires
            self.leads_to(s, crate::entry::entry_log_ids(entries)),
            0 <= since <= entries.len(),
        ensures
            self.leads_to(
                s.follower_do_append_entries(entries, since),
                crate::entry::entry_log_ids(entries),
            ),
    {
        let input = crate::entry::entry_log_ids(entries);
        let n = entries.len() as int;
        if since < n {
            let new = entries.skip(since);
            assert(crate::entry::entry_log_ids(new) =~= input.subrange(since, n));
            self.leads_on_append_input(s, since, n, input);
            let appended = s.extend_log_ids(crate::entry::entry_log_ids(new)).push(
                CommandView::AppendInputEntries { start: since, end: n },
            );
            let memberships = crate::engine::model::last_two_memberships(new);
            if memberships.len() > 0 {
                let updated = appended.update_membership_state(memberships);
                let cmd = CommandView::UpdateMembership {
                    membership: updated.state.membership_state.effective,
                };
                appended.leads_to_self(input);
                self.leads_on(appended, updated.push(cmd), cmd, input);
                self.leads_on_server_state_changed(
                    updated.push(cmd),
                    appended.calc_server_state(),
                    input,
                );
            }
            self.leads_on_push(
                appended.follower_update_membership(new),
                CommandView::MoveInputCursorBy { n },
                input,
            );
        }
    }

    proof fn leads_on_follower_commit(
        self,
        s: Self,
        committed: Option<LogId<NID>>,
        input: Seq<LogId<NID>>,
    )
        requires
            self.leads_to(s, input),
        ensures
            self.leads_to(s.follower_commit(committed), input),
    {
        s.leads_to_self(input);
        if crate::log_id::opt_lt(s.state.committed, committed) {
            crate::log_id::opt_order_is_total(s.state.committed, committed, committed);
            let cmd = CommandView::FollowerCommit {
                already_committed: s.state.committed,
                upto: committed->0,
            };
            self.leads_on(s, s.follower_commit(committed), cmd, input);
        }
    }

    proof fn leads_on_purge(self, s: Self, upto: LogId<NID>, input: Seq<LogId<NID>>)
        requires
            self.leads_to(s, input),
        ensures
            self.leads_to(s.purge_log(upto), input),
    {
        s.leads_to_self(input);
        if s.purge_log(upto) != s {
            self.leads_on(s, s.purge_log(upto), CommandView::PurgeLog { upto }, input);
        }
    }

    proof fn leads_on_snapshot(
        self,
        s: Self,
        meta: SnapshotMetaView<NID, NV>,
        input: Seq<LogId<NID>>,
    )
        requires
            self.leads_to(s, input),
        ensures
            self.leads_to(s.update_snapshot(meta), input),
    {
        crate::log_id::opt_order_is_total(
            self.snapshot_meta.last_log_id,
            s.snapshot_meta.last_log_id,
            meta.last_log_id,
        );
        crate::log_id::opt_order_is_total(
            s.snapshot_meta.last_log_id,
            meta.last_log_id,
            meta.last_log_id,
        );
    }

    /// Setting the committed log commutes with updating the committed membership.
    proof fn setting_committed_commutes(
        self,
        committed: Option<LogId<NID>>,
        m: EffectiveMembershipView<NID, NV>,
    )
        ensures
            ({
                let updated = self.update_committed_membership(m);
                &&& updated.state.committed == self.state.committed
                &&& self.with_state(
                    RaftStateView { committed, ..self.state },
                ).update_committed_membership(m) == updated.with_state(
                    RaftStateView { committed, ..updated.state },
                )
            }),
    {
    }

    proof fn leads_on_install_snapshot(
        self,
        s: Self,
        meta: SnapshotMetaView<NID, NV>,
        input: Seq<LogId<NID>>,
    )
        requires
            self.leads_to(s, input),
            s.state.log_ids.consecutive(),
        ensures
            self.leads_to(s.install_snapshot(meta), input),
    {
        let last = meta.last_log_id;
        if crate::log_id::opt_le(last, s.state.committed) {
            self.leads_on_push(s, CommandView::CancelSnapshot { snapshot_meta: meta }, input);
        } else if s.is_new_snapshot(meta) {
            crate::log_id::opt_order_is_total(s.state.committed, last, last);
            self.leads_on_snapshot(s, meta, input);
            let updated = s.update_snapshot(meta);
            self.leads_on_truncate(updated, last->0.index as int, input);
            let cleaned = updated.delete_conflicting(last->0);
            let m = meta.last_membership;
            self.leads_on_committed_membership(cleaned, m, input);
            cleaned.setting_committed_commutes(last, m);
            let member = cleaned.update_committed_membership(m);
            let install = CommandView::InstallSnapshot { snapshot_meta: meta };
            let installed = member.with_state(
                RaftStateView { committed: last, ..member.state },
            ).push(install);
            self.leads_on(member, installed, install, input);
            self.leads_on_purge(installed, last->0, input);
        }
    }

    proof fn leads_on_append_entries_req(
        self,
        s: Self,
        vote: Vote<NID>,
        prev_log_id: Option<LogId<NID>>,
        entries: Seq<EntryView<NID, NV>>,
        leader_committed: Option<LogId<NID>>,
    )
        requires
            self.leads_to(s, crate::entry::entry_log_ids(entries)),
            s.state.log_ids.consecutive(),
        ensures
            self.leads_to(
                s.handle_append_entries_req(vote, prev_log_id, entries, leader_committed),
                crate::entry::entry_log_ids(entries),
            ),
    {
        let input = crate::entry::entry_log_ids(entries);
        if s.grants(vote) {
            self.leads_on_vote_change(s, vote, input);
            let voted = s.handle_vote_change(vote);
            if voted.matches(prev_log_id) {
                let since = voted.first_conflicting_index(entries);
                voted.first_missing_is_in_range(input, 0);
                if since < entries.len() {
                    let at = entries[since].log_id.index as int;
                    self.leads_on_truncate(voted, at, input);
                    self.leads_on_follower_append(voted.truncate_logs(at), entries, since);
                }
                self.leads_on_follower_commit(
                    voted.replace(entries),
                    Self::committed_by_leader(leader_committed, prev_log_id, entries),
                    input,
                );
            } else {
                self.leads_on_truncate(voted, prev_log_id->0.index as int, input);
            }
        }
    }

    proof fn step_leads_on(self, event: Event<NID, NV>)
        requires
            self.state.log_ids.consecutive(),
        ensures
            self.leads_to(self.step(event), self.input_ids(event)),
    {
        reveal(EngineView::step);
        let input = self.input_ids(event);
        self.leads_to_self(input);
        match event {
            Event::Initialize { membership } => self.leads_on_initialize(self, membership),
            Event::Elect => self.leads_on_elect(self, input),
            Event::SeeVote { vote } => self.leads_on_vote_change(self, vote, input),
            Event::HandleVoteReq { req } => self.leads_on_vote_change(self, req.vote, input),
            Event::HandleVoteResp { target, resp } => self.leads_on_vote_resp(
                self,
                target,
                resp,
                input,
            ),
            Event::LeaderAppend { entries } => self.leads_on_leader_append(self, entries),
            Event::HandleAppendEntries { vote, prev_log_id, entries, leader_committed } => self
                .leads_on_append_entries_req(self, vote, prev_log_id, entries, leader_committed),
            Event::UpdateProgress { node_id, log_id } => self.leads_on_progress(
                self,
                node_id,
                log_id,
                input,
            ),
            Event::InstallSnapshot { meta } => self.leads_on_install_snapshot(self, meta, input),
            Event::FinishBuildingSnapshot { meta } => {
                self.leads_on_snapshot(self, meta, input);
                let updated = self.update_snapshot(meta);
                if let Some(upto) = updated.calc_purge_upto() {
                    self.leads_on_purge(updated, upto, input);
                }
            },
        }
    }
}

/// No event goes back: the vote, the committed log and the snapshot of a node never become lesser,
/// and no queued command is withdrawn.
pub proof fn events_never_go_back<NID: NodeId, NV>(s: EngineView<NID, NV>, event: Event<NID, NV>)
    requires
        s.state.log_ids.consecutive(),
    ensures
        s.advances_to(s.step(event)),
{
    s.step_leads_on(event);
}

/// A runtime that executes the commands that an event queues has the same vote, logs, committed
/// log, membership and server state as the engine.
pub proof fn commands_tell_every_change<NID: NodeId, NV>(
    s: EngineView<NID, NV>,
    event: Event<NID, NV>,
)
    requires
        s.state.log_ids.consecutive(),
    ensures
        s.is_told_by_commands(s.step(event), s.input_ids(event)),
{
    s.step_leads_on(event);
}

/// An event marks exactly the metrics that its commands change, and the local data if it records another
/// snapshot.
pub proof fn metrics_mark_every_change<NID: NodeId, NV>(
    s: EngineView<NID, NV>,
    event: Event<NID, NV>,
)
    requires
        s.state.log_ids.consecutive(),
    ensures
        s.is_marked_by_commands(s.step(event)),
{
    s.step_leads_on(event);
}

} // verus!
