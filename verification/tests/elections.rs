use std::sync::Arc;

use raft_engine::command::Command;
use raft_engine::engine::engine_impl::Engine;
use raft_engine::engine::model::EngineConfig;
use raft_engine::entry::{Entry, EntryPayload};
use raft_engine::leader::InternalServerState;
use raft_engine::log_id::LogId;
use raft_engine::log_id_list::LogIdList;
use raft_engine::membership::{EffectiveMembership, Membership, MembershipState};
use raft_engine::message::{InitializeError, NotAllowed, NotInMembers, VoteRequest};
use raft_engine::node_set::{NodeMap, NodeSet};
use raft_engine::raft_state::{RaftState, ServerState};
use raft_engine::vote::{LeaderId, Vote};

fn log_id(term: u64, node_id: u64, index: u64) -> LogId<u64> {
    LogId::new(LeaderId::new(term, node_id), index)
}

fn members(configs: &[&[u64]]) -> Membership<u64, ()> {
    let mut nodes = NodeMap::new();
    let mut sets = vec![];
    for ids in configs {
        for id in ids.iter() {
            nodes.insert(*id, ());
        }
        sets.push(NodeSet::from_ids(&ids.to_vec()));
    }
    Membership::new(sets, nodes)
}

fn node(id: u64, configs: &[&[u64]]) -> Engine<u64, ()> {
    let mut state = RaftState::pristine();
    let m = Arc::new(EffectiveMembership::new(Some(log_id(0, 1, 1)), members(configs)));
    state.membership_state = MembershipState { committed: m.clone(), effective: m };
    state.log_ids = LogIdList::from_log_ids(&vec![log_id(0, 0, 0), log_id(0, 1, 1)]);
    Engine::new(id, &state, EngineConfig::default())
}

fn membership_entry(m: Membership<u64, ()>) -> Entry<u64, (), u64> {
    Entry { log_id: log_id(100, 100, 100), payload: EntryPayload::Membership(m) }
}

#[test]
fn default_config() {
    let config = EngineConfig::default();
    assert_eq!(1000, config.max_in_snapshot_log_to_keep);
    assert_eq!(256, config.purge_batch_size);
}

#[test]
fn default_engine_has_never_run() {
    let eng: Engine<u64, ()> = Engine::default();
    let new: Engine<u64, ()> = Engine::new(0, &RaftState::pristine(), EngineConfig::default());
    assert_eq!(new, eng);
    assert_eq!(Vote::new(0, 0), eng.state.vote);
    assert_eq!(None, eng.snapshot_meta.last_log_id);
    assert!(eng.commands.is_empty());
    assert_eq!(ServerState::Learner, eng.calc_server_state());
}

#[test]
fn single_voter_is_elected_at_once() {
    let mut eng = node(1, &[&[1]]);
    eng.elect();
    assert_eq!(Vote::new_committed(1, 1), eng.state.vote);
    assert_eq!(ServerState::Leader, eng.state.server_state);
    assert_eq!(Some(log_id(1, 1, 2)), eng.state.last_log_id());
    assert_eq!(Some(log_id(1, 1, 2)), eng.state.committed);
    assert_eq!(
        vec![
            Command::SaveVote { vote: Vote::new(1, 1) },
            Command::SaveVote { vote: Vote::new_committed(1, 1) },
            Command::UpdateServerState { server_state: ServerState::Leader },
            Command::UpdateReplicationStreams { targets: vec![] },
            Command::AppendBlankLog { log_id: log_id(1, 1, 2) },
            Command::ReplicateCommitted { committed: Some(log_id(1, 1, 2)) },
            Command::LeaderCommit { already_committed: None, upto: log_id(1, 1, 2) },
            Command::ReplicateEntries { upto: Some(log_id(1, 1, 2)) },
        ],
        eng.commands
    );
}

#[test]
fn several_voters_are_asked() {
    let mut eng = node(1, &[&[1, 2]]);
    eng.elect();
    assert_eq!(Vote::new(1, 1), eng.state.vote);
    assert_eq!(ServerState::Candidate, eng.state.server_state);
    assert_eq!(
        vec![
            Command::SaveVote { vote: Vote::new(1, 1) },
            Command::SendVote {
                vote_req: VoteRequest {
                    vote: Vote::new(1, 1),
                    last_log_id: Some(log_id(0, 1, 1)),
                },
            },
            Command::UpdateServerState { server_state: ServerState::Candidate },
            Command::InstallElectionTimer { can_be_leader: true },
        ],
        eng.commands
    );
    match &eng.state.internal_server_state {
        InternalServerState::Leading(leader) => {
            assert_eq!(NodeSet::from_ids(&vec![1]), leader.vote_granted_by);
            assert!(!leader.is_vote_granted());
        }
        InternalServerState::Following => panic!("the node leads"),
    }
}

#[test]
fn joint_config_needs_a_majority_of_each() {
    // Alone in the first config, but not in the second.
    let mut eng = node(1, &[&[1], &[1, 2, 3]]);
    eng.elect();
    assert!(!eng.is_leader());
    assert_eq!(ServerState::Candidate, eng.state.server_state);
}

#[test]
fn second_election_is_for_a_greater_term() {
    let mut eng = node(1, &[&[1, 2, 3]]);
    eng.elect();
    eng.elect();
    assert_eq!(Vote::new(2, 1), eng.state.vote);
    assert!(Vote::new(1, 1).less_than(&eng.state.vote));
}

#[test]
fn single_node_is_initialized() {
    let mut eng: Engine<u64, ()> = Engine::new(1, &RaftState::pristine(), EngineConfig::default());
    let mut entries = vec![membership_entry(members(&[&[1]]))];
    assert_eq!(Ok(()), eng.initialize(&mut entries));
    let first = log_id(0, 0, 0);
    assert_eq!(first, entries[0].log_id);
    let m = Arc::new(EffectiveMembership::new(Some(first), members(&[&[1]])));
    assert_eq!(m, eng.state.membership_state.effective);
    assert_eq!(m, eng.state.membership_state.committed);
    assert_eq!(Some(log_id(1, 1, 1)), eng.state.last_log_id());
    assert_eq!(Some(log_id(1, 1, 1)), eng.state.committed);
    assert_eq!(
        vec![
            Command::AppendInputEntries { range: 0..1 },
            Command::UpdateMembership { membership: m },
            Command::UpdateServerState { server_state: ServerState::Follower },
            Command::MoveInputCursorBy { n: 1 },
            Command::SaveVote { vote: Vote::new(1, 1) },
            Command::SaveVote { vote: Vote::new_committed(1, 1) },
            Command::UpdateServerState { server_state: ServerState::Leader },
            Command::UpdateReplicationStreams { targets: vec![] },
            Command::AppendBlankLog { log_id: log_id(1, 1, 1) },
            Command::ReplicateCommitted { committed: Some(log_id(1, 1, 1)) },
            Command::LeaderCommit { already_committed: None, upto: log_id(1, 1, 1) },
            Command::ReplicateEntries { upto: Some(log_id(1, 1, 1)) },
        ],
        eng.commands
    );
}

#[test]
fn node_of_a_cluster_is_initialized() {
    let mut eng: Engine<u64, ()> = Engine::new(1, &RaftState::pristine(), EngineConfig::default());
    let mut entries = vec![membership_entry(members(&[&[1, 2]]))];
    assert_eq!(Ok(()), eng.initialize(&mut entries));
    assert_eq!(Vote::new(1, 1), eng.state.vote);
    assert_eq!(Some(log_id(0, 0, 0)), eng.state.last_log_id());
    assert_eq!(None, eng.state.committed);
    assert_eq!(ServerState::Candidate, eng.state.server_state);
    let n = eng.commands.len();
    assert_eq!(
        Command::SendVote {
            vote_req: VoteRequest {
                vote: Vote::new(1, 1),
                last_log_id: Some(log_id(0, 0, 0)),
            },
        },
        eng.commands[n - 3]
    );
}

#[test]
fn node_with_logs_is_not_initialized() {
    let mut eng = node(1, &[&[1]]);
    let mut entries = vec![membership_entry(members(&[&[1]]))];
    let before = eng.clone();
    assert_eq!(
        Err(InitializeError::NotAllowed(NotAllowed {
            last_log_id: Some(log_id(0, 1, 1)),
            vote: Vote::new(0, 0),
        })),
        eng.initialize(&mut entries)
    );
    assert_eq!(before, eng);
    assert_eq!(log_id(100, 100, 100), entries[0].log_id);
}

#[test]
fn node_with_a_vote_is_not_initialized() {
    let mut state = RaftState::pristine();
    state.vote = Vote::new(0, 1);
    let mut eng: Engine<u64, ()> = Engine::new(1, &state, EngineConfig::default());
    let error = NotAllowed { last_log_id: None, vote: Vote::new(0, 1) };
    assert_eq!(Err(error), eng.check_initialize());
    let mut entries = vec![membership_entry(members(&[&[1]]))];
    assert_eq!(Err(InitializeError::NotAllowed(error)), eng.initialize(&mut entries));
}

#[test]
fn node_is_not_initialized_as_a_non_member() {
    let mut eng: Engine<u64, ()> = Engine::new(1, &RaftState::pristine(), EngineConfig::default());
    let m = members(&[&[2, 3]]);
    assert_eq!(
        Err(NotInMembers { node_id: 1, membership: m.clone() }),
        eng.check_members_contain_me(&m)
    );
    assert_eq!(Ok(()), eng.check_members_contain_me(&members(&[&[1, 3]])));
    let mut entries = vec![membership_entry(m.clone())];
    assert_eq!(
        Err(InitializeError::NotInMembers(NotInMembers { node_id: 1, membership: m })),
        eng.initialize(&mut entries)
    );
    // The entry is appended nevertheless.
    assert_eq!(Some(log_id(0, 0, 0)), eng.state.last_log_id());
    assert_eq!(vec![Command::AppendInputEntries { range: 0..1 }], eng.commands);
}

#[test]
fn node_is_not_initialized_with_application_data() {
    let mut eng: Engine<u64, ()> = Engine::new(1, &RaftState::pristine(), EngineConfig::default());
    let mut entries: Vec<Entry<u64, (), u64>> =
        vec![Entry { log_id: log_id(1, 1, 1), payload: EntryPayload::Normal(7) }];
    assert_eq!(Err(InitializeError::NotAMembershipEntry), eng.initialize(&mut entries));
}

#[test]
fn node_is_initialized_only_once() {
    let mut eng: Engine<u64, ()> = Engine::new(1, &RaftState::pristine(), EngineConfig::default());
    let mut entries: Vec<Entry<u64, (), u64>> =
        vec![Entry { log_id: log_id(1, 1, 1), payload: EntryPayload::Normal(7) }];
    assert_eq!(Err(InitializeError::NotAMembershipEntry), eng.initialize(&mut entries));
    let mut proper = vec![membership_entry(members(&[&[1]]))];
    assert_eq!(
        Err(InitializeError::NotAllowed(NotAllowed {
            last_log_id: Some(log_id(0, 0, 0)),
            vote: Vote::new(0, 0),
        })),
        eng.initialize(&mut proper)
    );
}
