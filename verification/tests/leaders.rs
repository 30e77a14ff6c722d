use std::sync::Arc;

use raft_engine::command::Command;
use raft_engine::engine::engine_impl::Engine;
use raft_engine::engine::model::EngineConfig;
use raft_engine::entry::{Entry, EntryPayload};
use raft_engine::leader::InternalServerState;
use raft_engine::log_id::LogId;
use raft_engine::log_id_list::LogIdList;
use raft_engine::membership::{EffectiveMembership, Membership, MembershipState};
use raft_engine::node_set::{NodeMap, NodeSet};
use raft_engine::raft_state::{RaftState, ServerState};
use raft_engine::vote::{LeaderId, Vote};

type TestEntry = Entry<u64, (), u64>;

fn log_id(term: u64, index: u64) -> LogId<u64> {
    LogId::new(LeaderId::new(term, 1), index)
}

fn members(voters: &[u64], learners: &[u64]) -> Membership<u64, ()> {
    let mut nodes = NodeMap::new();
    for id in voters.iter().chain(learners.iter()) {
        nodes.insert(*id, ());
    }
    Membership::new(vec![NodeSet::from_ids(&voters.to_vec())], nodes)
}

fn held(term: u64, index: u64, m: Membership<u64, ()>) -> Arc<EffectiveMembership<u64, ()>> {
    Arc::new(EffectiveMembership::new(Some(log_id(term, index)), m))
}

/// Node 1 is the leader in term 3, with two logs of former terms.
fn leader(m: Membership<u64, ()>) -> Engine<u64, ()> {
    let mut state = RaftState::pristine();
    state.vote = Vote::new_committed(3, 1);
    state.server_state = ServerState::Leader;
    state.log_ids = LogIdList::from_log_ids(&vec![log_id(1, 0), log_id(2, 1)]);
    let effective = held(2, 1, m);
    state.membership_state = MembershipState { committed: effective.clone(), effective };
    state.new_leader();
    Engine::new(1, &state, EngineConfig::default())
}

fn blanks(n: usize) -> Vec<TestEntry> {
    (0..n)
        .map(|i| Entry { log_id: log_id(9, 9), payload: EntryPayload::Normal(i as u64) })
        .collect()
}

fn granted(eng: &Engine<u64, ()>) -> Option<LogId<u64>> {
    match &eng.state.internal_server_state {
        InternalServerState::Leading(leader) => leader.progress.granted(),
        InternalServerState::Following => panic!("the node leads"),
    }
}

#[test]
fn append_nothing() {
    let mut eng = leader(members(&[1], &[]));
    let before = eng.clone();
    let mut entries: Vec<TestEntry> = vec![];
    eng.leader_append_entries(&mut entries);
    assert_eq!(before, eng);
}

#[test]
fn entries_get_consecutive_log_ids() {
    let mut eng = leader(members(&[1, 2], &[]));
    let mut entries = blanks(3);
    eng.assign_log_ids(&mut entries);
    let ids: Vec<LogId<u64>> = entries.iter().map(|e| e.log_id).collect();
    assert_eq!(vec![log_id(3, 2), log_id(3, 3), log_id(3, 4)], ids);
    assert_eq!(EntryPayload::Normal(2), entries[2].payload);
    assert_eq!(Some(log_id(2, 1)), eng.state.last_log_id());
}

#[test]
fn leader_of_a_cluster_replicates() {
    let mut eng = leader(members(&[1, 2], &[]));
    let mut entries = blanks(2);
    eng.leader_append_entries(&mut entries);
    assert_eq!(Some(log_id(3, 3)), eng.state.last_log_id());
    assert_eq!(Some(log_id(2, 1)), eng.state.get_log_id(1));
    assert_eq!(None, eng.state.committed);
    assert_eq!(
        vec![
            Command::AppendInputEntries { range: 0..2 },
            Command::ReplicateEntries { upto: Some(log_id(3, 3)) },
            Command::MoveInputCursorBy { n: 2 },
        ],
        eng.commands
    );
}

#[test]
fn lone_leader_commits_at_once() {
    let mut eng = leader(members(&[1], &[2]));
    let mut entries = blanks(2);
    eng.leader_append_entries(&mut entries);
    assert_eq!(Some(log_id(3, 3)), eng.state.committed);
    assert_eq!(
        vec![
            Command::AppendInputEntries { range: 0..2 },
            Command::ReplicateCommitted { committed: Some(log_id(3, 3)) },
            Command::LeaderCommit { already_committed: None, upto: log_id(3, 3) },
            Command::ReplicateEntries { upto: Some(log_id(3, 3)) },
            Command::MoveInputCursorBy { n: 2 },
        ],
        eng.commands
    );
}

#[test]
fn growing_the_cluster_commits_only_what_is_before() {
    let mut eng = leader(members(&[1], &[]));
    let m = members(&[1, 2, 3], &[]);
    let mut entries = blanks(5);
    entries[2].payload = EntryPayload::Membership(m.clone());
    eng.leader_append_entries(&mut entries);
    assert_eq!(Some(log_id(3, 6)), eng.state.last_log_id());
    assert_eq!(Some(log_id(3, 3)), eng.state.committed);
    assert_eq!(held(3, 4, m.clone()), eng.state.membership_state.effective);
    assert_eq!(held(2, 1, members(&[1], &[])), eng.state.membership_state.committed);
    assert_eq!(
        vec![
            Command::AppendInputEntries { range: 0..5 },
            Command::ReplicateCommitted { committed: Some(log_id(3, 3)) },
            Command::LeaderCommit { already_committed: None, upto: log_id(3, 3) },
            Command::UpdateMembership { membership: held(3, 4, m) },
            Command::UpdateReplicationStreams { targets: vec![(2, None), (3, None)] },
            Command::ReplicateEntries { upto: Some(log_id(3, 6)) },
            Command::MoveInputCursorBy { n: 5 },
        ],
        eng.commands
    );
}

#[test]
fn shrinking_the_cluster_commits_everything() {
    let mut eng = leader(members(&[1, 2, 3], &[]));
    let m = members(&[1], &[]);
    let mut entries = blanks(5);
    entries[2].payload = EntryPayload::Membership(m.clone());
    eng.leader_append_entries(&mut entries);
    assert_eq!(Some(log_id(3, 6)), eng.state.committed);
    assert_eq!(held(3, 4, m.clone()), eng.state.membership_state.committed);
    assert_eq!(
        vec![
            Command::AppendInputEntries { range: 0..5 },
            Command::UpdateMembership { membership: held(3, 4, m) },
            Command::UpdateReplicationStreams { targets: vec![] },
            Command::ReplicateCommitted { committed: Some(log_id(3, 6)) },
            Command::LeaderCommit { already_committed: None, upto: log_id(3, 6) },
            Command::ReplicateEntries { upto: Some(log_id(3, 6)) },
            Command::MoveInputCursorBy { n: 5 },
        ],
        eng.commands
    );
}

#[test]
fn removed_leader_does_not_quit_at_once() {
    let mut eng = leader(members(&[1, 2, 3], &[]));
    let m = members(&[2, 3], &[]);
    eng.update_effective_membership(&log_id(3, 2), &m);
    assert_eq!(ServerState::Leader, eng.state.server_state);
    assert_eq!(ServerState::Learner, eng.calc_server_state());
    assert_eq!(
        vec![
            Command::UpdateMembership { membership: held(3, 2, m) },
            Command::UpdateReplicationStreams { targets: vec![(2, None), (3, None)] },
        ],
        eng.commands
    );
    // Its own progress is not tracked any more.
    eng.commands.clear();
    eng.update_progress(1, Some(log_id(3, 2)));
    assert!(eng.commands.is_empty());
}

#[test]
fn new_membership_of_a_follower_changes_its_role() {
    let mut state = RaftState::pristine();
    state.vote = Vote::new_committed(3, 2);
    let mut eng: Engine<u64, ()> = Engine::new(1, &state, EngineConfig::default());
    let m = members(&[1, 2], &[]);
    eng.update_effective_membership(&log_id(3, 2), &m);
    assert_eq!(
        vec![
            Command::UpdateMembership { membership: held(3, 2, m) },
            Command::UpdateServerState { server_state: ServerState::Follower },
        ],
        eng.commands
    );
}

#[test]
fn only_entries_with_a_membership_take_effect() {
    let mut eng = leader(members(&[1, 2, 3], &[]));
    let mut entries = blanks(1);
    eng.try_update_membership(&entries[0]);
    assert!(eng.commands.is_empty());
    entries[0].payload = EntryPayload::Membership(members(&[1], &[]));
    eng.try_update_membership(&entries[0]);
    assert_eq!(held(9, 9, members(&[1], &[])), eng.state.membership_state.effective);
}

#[test]
fn progress_of_a_quorum_commits() {
    let mut eng = leader(members(&[1, 2, 3], &[4]));
    let mut entries = blanks(3);
    eng.leader_append_entries(&mut entries);
    eng.commands.clear();

    // A learner does not count.
    eng.update_progress(4, Some(log_id(3, 4)));
    assert_eq!(None, eng.state.committed);
    // An unknown node does not count either.
    eng.update_progress(5, Some(log_id(3, 4)));
    assert_eq!(None, eng.state.committed);

    eng.update_progress(2, Some(log_id(3, 2)));
    assert_eq!(Some(log_id(3, 2)), eng.state.committed);
    assert_eq!(
        vec![
            Command::ReplicateCommitted { committed: Some(log_id(3, 2)) },
            Command::LeaderCommit { already_committed: None, upto: log_id(3, 2) },
        ],
        eng.commands
    );
    eng.update_progress(3, Some(log_id(3, 4)));
    assert_eq!(Some(log_id(3, 4)), eng.state.committed);
    assert_eq!(
        Command::LeaderCommit { already_committed: Some(log_id(3, 2)), upto: log_id(3, 4) },
        eng.commands[3]
    );
}

#[test]
fn logs_of_former_leaders_are_not_committed_alone() {
    let mut eng = leader(members(&[1, 2, 3], &[]));
    eng.update_progress(1, Some(log_id(2, 1)));
    eng.update_progress(2, Some(log_id(2, 1)));
    assert_eq!(Some(log_id(2, 1)), granted(&eng));
    assert_eq!(None, eng.state.committed);
    assert!(eng.commands.is_empty());
}

#[test]
fn progress_of_a_follower_is_ignored() {
    let mut eng = leader(members(&[1], &[]));
    eng.state.internal_server_state = InternalServerState::Following;
    eng.update_progress(1, Some(log_id(3, 1)));
    assert_eq!(None, eng.state.committed);
    assert!(eng.commands.is_empty());
    eng.update_replications();
    assert!(eng.commands.is_empty());
}

#[test]
fn progress_survives_a_change_of_membership() {
    let mut eng = leader(members(&[1, 2, 3], &[4]));
    eng.update_progress(2, Some(log_id(2, 1)));
    eng.update_progress(4, Some(log_id(1, 0)));
    eng.update_effective_membership(&log_id(3, 2), &members(&[2, 4], &[5]));
    let n = eng.commands.len();
    assert_eq!(
        Command::UpdateReplicationStreams {
            targets: vec![(2, Some(log_id(2, 1))), (4, Some(log_id(1, 0))), (5, None)],
        },
        eng.commands[n - 1]
    );
    assert_eq!(Some(log_id(1, 0)), granted(&eng));
}

#[test]
fn replication_targets_are_the_other_nodes() {
    let mut eng = leader(members(&[1, 2, 3], &[4]));
    eng.update_replications();
    assert_eq!(
        vec![Command::UpdateReplicationStreams {
            targets: vec![(2, None), (3, None), (4, None)],
        }],
        eng.commands
    );
}

#[test]
fn established_leader_appends_a_blank_log() {
    let mut eng = leader(members(&[1, 2], &[]));
    eng.append_blank_log();
    assert_eq!(Some(log_id(3, 2)), eng.state.last_log_id());
    assert_eq!(
        vec![
            Command::AppendBlankLog { log_id: log_id(3, 2) },
            Command::ReplicateEntries { upto: Some(log_id(3, 2)) },
        ],
        eng.commands
    );
    eng.commands.clear();
    eng.state.vote = Vote::new(4, 1);
    eng.establish_leader();
    assert_eq!(Vote::new_committed(4, 1), eng.state.vote);
    assert_eq!(
        vec![
            Command::SaveVote { vote: Vote::new_committed(4, 1) },
            Command::UpdateReplicationStreams { targets: vec![(2, None)] },
            Command::AppendBlankLog { log_id: log_id(4, 3) },
            Command::ReplicateEntries { upto: Some(log_id(4, 3)) },
        ],
        eng.commands
    );
}

#[test]
fn pushing_a_command_marks_the_metrics() {
    let mut eng = leader(members(&[1, 2], &[]));
    eng.push_command(Command::InstallElectionTimer { can_be_leader: true });
    assert!(!eng.metrics_flags.local_data);
    eng.push_command(Command::PurgeLog { upto: log_id(1, 0) });
    assert!(eng.metrics_flags.local_data);
    assert!(!eng.metrics_flags.cluster);
    eng.push_command(Command::UpdateServerState { server_state: ServerState::Shutdown });
    assert!(eng.metrics_flags.cluster);
    assert!(!eng.metrics_flags.replication);
    eng.push_command(Command::UpdateReplicationStreams { targets: vec![] });
    assert!(eng.metrics_flags.replication);
    assert_eq!(4, eng.commands.len());
}
