//! A small runtime that executes the queued commands and has to agree with the engine.
use std::sync::Arc;

use raft_engine::command::Command;
use raft_engine::engine::engine_impl::Engine;
use raft_engine::engine::model::EngineConfig;
use raft_engine::entry::{Entry, EntryPayload};
use raft_engine::log_id::LogId;
use raft_engine::membership::{EffectiveMembership, Membership};
use raft_engine::message::{AppendEntriesResponse, VoteRequest, VoteResponse};
use raft_engine::node_set::{NodeMap, NodeSet};
use raft_engine::raft_state::{RaftState, ServerState};
use raft_engine::snapshot::SnapshotMeta;
use raft_engine::vote::{LeaderId, Vote};

type TestEntry = Entry<u64, (), u64>;

fn log_id(term: u64, node_id: u64, index: u64) -> LogId<u64> {
    LogId::new(LeaderId::new(term, node_id), index)
}

fn members(ids: &[u64]) -> Membership<u64, ()> {
    let mut nodes = NodeMap::new();
    for id in ids {
        nodes.insert(*id, ());
    }
    Membership::new(vec![NodeSet::from_ids(&ids.to_vec())], nodes)
}

fn config_entry(id: LogId<u64>, ids: &[u64]) -> TestEntry {
    Entry { log_id: id, payload: EntryPayload::Membership(members(ids)) }
}

fn blank(id: LogId<u64>) -> TestEntry {
    Entry { log_id: id, payload: EntryPayload::Blank }
}

struct Runtime {
    eng: Engine<u64, ()>,
    vote: Vote<u64>,
    logs: Vec<LogId<u64>>,
    committed: Option<LogId<u64>>,
    membership: Arc<EffectiveMembership<u64, ()>>,
    server_state: ServerState,
    sent: Vec<VoteRequest<u64>>,
}

impl Runtime {
    fn new(id: u64) -> Runtime {
        let state = RaftState::pristine();
        Runtime {
            vote: state.vote,
            logs: vec![],
            committed: None,
            membership: state.membership_state.effective.clone(),
            server_state: state.server_state,
            sent: vec![],
            eng: Engine::new(
                id,
                &state,
                EngineConfig { max_in_snapshot_log_to_keep: 1, purge_batch_size: 1 },
            ),
        }
    }

    /// Executes the queued commands and checks that the engine agrees with the outcome.
    fn run(&mut self, input: &[TestEntry]) {
        let vote = self.vote;
        let committed = self.committed;
        for cmd in std::mem::take(&mut self.eng.commands) {
            match cmd {
                Command::SaveVote { vote } => self.vote = vote,
                Command::AppendInputEntries { range } => {
                    self.logs.extend(input[range].iter().map(|e| e.log_id))
                }
                Command::AppendBlankLog { log_id } => self.logs.push(log_id),
                Command::DeleteConflictLog { since } => {
                    self.logs.retain(|x| x.index < since.index)
                }
                Command::PurgeLog { upto } => {
                    self.logs.retain(|x| x.index > upto.index);
                    self.logs.insert(0, upto);
                }
                Command::LeaderCommit { upto, .. } => self.committed = Some(upto),
                Command::FollowerCommit { upto, .. } => self.committed = Some(upto),
                Command::InstallSnapshot { snapshot_meta } => {
                    self.committed = snapshot_meta.last_log_id
                }
                Command::UpdateMembership { membership } => self.membership = membership,
                Command::UpdateServerState { server_state } => self.server_state = server_state,
                Command::SendVote { vote_req } => self.sent.push(vote_req),
                _ => {}
            }
        }
        assert_eq!(self.eng.state.vote, self.vote);
        assert_eq!(self.eng.state.committed, self.committed);
        assert_eq!(self.eng.state.membership_state.effective, self.membership);
        assert_eq!(self.eng.state.server_state, self.server_state);
        assert_eq!(self.eng.state.last_log_id(), self.logs.last().copied());
        for x in &self.logs {
            assert_eq!(Some(*x), self.eng.state.get_log_id(x.index));
        }
        // Nothing goes back, and the logs are in total order.
        assert!(!self.vote.less_than(&vote));
        assert!(!raft_engine::log_id::opt_less_than(&self.committed, &committed));
        for i in 1..self.logs.len() {
            assert!(self.logs[i - 1].less_than(&self.logs[i]));
            assert_eq!(self.logs[i - 1].index + 1, self.logs[i].index);
        }
    }
}

#[test]
fn commands_tell_every_change_of_a_leader() {
    let mut r = Runtime::new(1);
    let mut first = vec![config_entry(log_id(0, 0, 0), &[1, 2, 3])];
    assert_eq!(Ok(()), r.eng.initialize(&mut first));
    r.run(&first);
    assert_eq!(ServerState::Candidate, r.server_state);
    assert_eq!(1, r.sent.len());

    r.eng.handle_vote_resp(
        2,
        VoteResponse { vote: Vote::new(1, 1), vote_granted: true, last_log_id: None },
    );
    r.run(&[]);
    assert_eq!(ServerState::Leader, r.server_state);
    assert_eq!(vec![log_id(0, 0, 0), log_id(1, 1, 1)], r.logs);

    let mut entries = vec![
        blank(log_id(0, 0, 0)),
        config_entry(log_id(0, 0, 0), &[1]),
        blank(log_id(0, 0, 0)),
    ];
    r.eng.update_progress(3, Some(log_id(1, 1, 1)));
    r.run(&[]);
    assert_eq!(Some(log_id(1, 1, 1)), r.committed);
    r.eng.leader_append_entries(&mut entries);
    r.run(&entries);
    assert_eq!(Some(log_id(1, 1, 4)), r.committed);
    assert_eq!(Some(log_id(1, 1, 3)), r.membership.log_id);

    r.eng.finish_building_snapshot(SnapshotMeta {
        last_log_id: Some(log_id(1, 1, 3)),
        last_membership: (*r.membership).clone(),
        snapshot_id: "a".to_string(),
    });
    r.run(&[]);
    assert_eq!(vec![log_id(1, 1, 2), log_id(1, 1, 3), log_id(1, 1, 4)], r.logs);

    r.eng.elect();
    r.run(&[]);
    assert_eq!(Vote::new_committed(2, 1), r.vote);
    assert_eq!(Some(log_id(2, 1, 5)), r.committed);
}

#[test]
fn commands_tell_every_change_of_a_follower() {
    let mut r = Runtime::new(2);
    let vote = Vote::new_committed(1, 1);
    let entries = [
        config_entry(log_id(0, 0, 0), &[1, 2, 3]),
        blank(log_id(1, 1, 1)),
        config_entry(log_id(1, 1, 2), &[1, 3]),
    ];
    let resp = r.eng.handle_append_entries_req(&vote, None, &entries, Some(log_id(1, 1, 1)));
    assert_eq!(AppendEntriesResponse::Success, resp);
    r.run(&entries);
    assert_eq!(Some(log_id(1, 1, 1)), r.committed);
    assert_eq!(ServerState::Learner, r.server_state);

    // Another leader does not have the last log.
    let resp = r.eng.handle_vote_req(VoteRequest {
        vote: Vote::new(2, 3),
        last_log_id: Some(log_id(1, 1, 1)),
    });
    assert!(!resp.vote_granted);
    r.run(&[]);
    let vote = Vote::new_committed(2, 3);
    let entries = [blank(log_id(2, 3, 2)), blank(log_id(2, 3, 3))];
    let resp = r.eng.handle_append_entries_req(
        &vote,
        Some(log_id(1, 1, 1)),
        &entries,
        Some(log_id(2, 3, 2)),
    );
    assert_eq!(AppendEntriesResponse::Success, resp);
    r.run(&entries);
    assert_eq!(
        vec![log_id(0, 0, 0), log_id(1, 1, 1), log_id(2, 3, 2), log_id(2, 3, 3)],
        r.logs
    );
    assert_eq!(ServerState::Follower, r.server_state);
    assert_eq!(Some(log_id(2, 3, 2)), r.committed);

    r.eng.install_snapshot(SnapshotMeta {
        last_log_id: Some(log_id(2, 3, 9)),
        last_membership: EffectiveMembership::new(Some(log_id(2, 3, 7)), members(&[2, 3])),
        snapshot_id: "b".to_string(),
    });
    r.run(&[]);
    assert_eq!(vec![log_id(2, 3, 9)], r.logs);
    assert_eq!(Some(log_id(2, 3, 9)), r.committed);

    assert_eq!(Ok(()), r.eng.handle_vote_change(&Vote::new(5, 3)));
    r.run(&[]);
    r.eng.elect();
    r.run(&[]);
    assert_eq!(ServerState::Candidate, r.server_state);
    assert_eq!(Some(log_id(2, 3, 9)), r.sent[0].last_log_id);
}
