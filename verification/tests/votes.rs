use std::sync::Arc;

use raft_engine::command::Command;
use raft_engine::engine::engine_impl::Engine;
use raft_engine::engine::model::EngineConfig;
use raft_engine::leader::{InternalServerState, Leader};
use raft_engine::log_id::LogId;
use raft_engine::log_id_list::LogIdList;
use raft_engine::membership::{EffectiveMembership, Membership, MembershipState};
use raft_engine::message::{RejectVoteRequest, VoteRequest, VoteResponse};
use raft_engine::node_set::{NodeMap, NodeSet};
use raft_engine::raft_state::{RaftState, ServerState};
use raft_engine::vote::{LeaderId, Vote};

fn log_id(term: u64, index: u64) -> LogId<u64> {
    LogId::new(LeaderId::new(term, 1), index)
}

fn members(ids: &[u64]) -> Membership<u64, ()> {
    let mut nodes = NodeMap::new();
    for id in ids {
        nodes.insert(*id, ());
    }
    Membership::new(vec![NodeSet::from_ids(&ids.to_vec())], nodes)
}

fn member_state(ids: &[u64]) -> MembershipState<u64, ()> {
    let m = Arc::new(EffectiveMembership::new(Some(log_id(1, 1)), members(ids)));
    MembershipState { committed: m.clone(), effective: m }
}

/// A follower with the vote (2, 1) and no logs, in a cluster of the nodes 1, 2 and 3.
fn follower() -> Engine<u64, ()> {
    let mut state = RaftState::pristine();
    state.vote = Vote::new(2, 1);
    state.server_state = ServerState::Follower;
    state.membership_state = member_state(&[1, 2, 3]);
    Engine::new(0, &state, EngineConfig::default())
}

/// A candidate 1 with its own vote for term 2 and the logs 0 and 1 of term 1.
fn candidate(ids: &[u64]) -> Engine<u64, ()> {
    let mut state = RaftState::pristine();
    state.vote = Vote::new(2, 1);
    state.server_state = ServerState::Candidate;
    state.log_ids = LogIdList::from_log_ids(&vec![log_id(1, 0), log_id(1, 1)]);
    state.membership_state = member_state(ids);
    state.new_leader();
    let mut eng = Engine::new(1, &state, EngineConfig::default());
    if let InternalServerState::Leading(leader) = &mut eng.state.internal_server_state {
        leader.grant_vote_by(1);
    }
    eng
}

#[test]
fn lesser_vote_is_rejected() {
    let mut eng = follower();
    let res = eng.handle_vote_change(&Vote::new(1, 2));
    assert_eq!(Err(RejectVoteRequest::ByVote(Vote::new(2, 1))), res);
    assert_eq!(Vote::new(2, 1), eng.state.vote);
    assert!(eng.commands.is_empty());
}

#[test]
fn same_vote_is_granted_without_saving_it() {
    let mut eng = follower();
    assert_eq!(Ok(()), eng.handle_vote_change(&Vote::new(2, 1)));
    assert_eq!(vec![Command::InstallElectionTimer { can_be_leader: true }], eng.commands);
}

#[test]
fn greater_vote_is_saved() {
    let mut eng = follower();
    assert_eq!(Ok(()), eng.handle_vote_change(&Vote::new_committed(3, 2)));
    assert_eq!(Vote::new_committed(3, 2), eng.state.vote);
    assert_eq!(
        vec![
            Command::SaveVote { vote: Vote::new_committed(3, 2) },
            Command::InstallElectionTimer { can_be_leader: false },
        ],
        eng.commands
    );
    assert!(eng.metrics_flags.local_data);
    assert!(!eng.metrics_flags.cluster);
    assert!(!eng.metrics_flags.replication);
}

#[test]
fn committed_vote_is_greater_than_the_same_vote() {
    let mut eng = follower();
    assert_eq!(Ok(()), eng.handle_vote_change(&Vote::new_committed(2, 1)));
    assert_eq!(Vote::new_committed(2, 1), eng.state.vote);
    // The same vote, not committed, is behind now.
    assert_eq!(
        Err(RejectVoteRequest::ByVote(Vote::new_committed(2, 1))),
        eng.handle_vote_change(&Vote::new(2, 1))
    );
}

#[test]
fn vote_for_another_node_ends_leading() {
    let mut eng = candidate(&[1, 2, 3]);
    assert_eq!(Ok(()), eng.handle_vote_change(&Vote::new(3, 2)));
    assert_eq!(InternalServerState::Following, eng.state.internal_server_state);
    assert_eq!(ServerState::Follower, eng.state.server_state);
    assert_eq!(
        vec![
            Command::SaveVote { vote: Vote::new(3, 2) },
            Command::InstallElectionTimer { can_be_leader: true },
            Command::UpdateServerState { server_state: ServerState::Follower },
        ],
        eng.commands
    );
}

#[test]
fn candidate_that_is_no_voter_becomes_a_learner() {
    let mut eng = candidate(&[2, 3]);
    assert_eq!(Ok(()), eng.handle_vote_change(&Vote::new(3, 2)));
    assert_eq!(ServerState::Learner, eng.state.server_state);
}

#[test]
fn vote_for_this_node_makes_it_lead() {
    let mut eng = follower();
    assert_eq!(Ok(()), eng.handle_vote_change(&Vote::new(3, 0)));
    assert!(eng.is_becoming_leader());
    assert!(!eng.is_leader());
    let m = members(&[1, 2, 3]);
    let fresh = Leader::new(m.to_quorum_set(), &m.learner_ids());
    assert_eq!(InternalServerState::Leading(fresh), eng.state.internal_server_state);
}

#[test]
fn entering_states_by_vote() {
    let mut eng = follower();
    eng.switch_internal_server_state();
    assert!(!eng.is_becoming_leader());
    eng.state.vote = Vote::new(2, 0);
    eng.switch_internal_server_state();
    assert!(eng.is_becoming_leader());
    eng.enter_following();
    assert!(!eng.is_becoming_leader());
    eng.enter_leading();
    assert!(eng.is_becoming_leader());
}

#[test]
fn vote_request_with_lesser_vote_is_rejected() {
    let mut eng = follower();
    let resp = eng.handle_vote_req(VoteRequest {
        vote: Vote::new(1, 2),
        last_log_id: Some(log_id(2, 3)),
    });
    assert_eq!(
        VoteResponse { vote: Vote::new(2, 1), vote_granted: false, last_log_id: None },
        resp
    );
    assert!(eng.commands.is_empty());
}

#[test]
fn vote_request_with_lesser_log_is_rejected() {
    let mut eng = follower();
    eng.state.log_ids = LogIdList::from_log_ids(&vec![log_id(2, 3)]);
    let resp = eng.handle_vote_req(VoteRequest {
        vote: Vote::new(3, 2),
        last_log_id: Some(log_id(1, 3)),
    });
    assert_eq!(
        VoteResponse {
            vote: Vote::new(2, 1),
            vote_granted: false,
            last_log_id: Some(log_id(2, 3)),
        },
        resp
    );
    assert_eq!(Vote::new(2, 1), eng.state.vote);
    assert!(eng.commands.is_empty());
}

#[test]
fn vote_request_is_granted_with_the_updated_vote() {
    let mut eng = follower();
    eng.state.log_ids = LogIdList::from_log_ids(&vec![log_id(2, 3)]);
    let resp = eng.handle_vote_req(VoteRequest {
        vote: Vote::new(3, 1),
        last_log_id: Some(log_id(2, 3)),
    });
    assert_eq!(
        VoteResponse {
            vote: Vote::new(3, 1),
            vote_granted: true,
            last_log_id: Some(log_id(2, 3)),
        },
        resp
    );
    assert_eq!(
        vec![
            Command::SaveVote { vote: Vote::new(3, 1) },
            Command::InstallElectionTimer { can_be_leader: true },
        ],
        eng.commands
    );
}

#[test]
fn granted_vote_excludes_lesser_votes() {
    let mut eng = follower();
    let granted = eng.handle_vote_req(VoteRequest { vote: Vote::new(5, 2), last_log_id: None });
    assert!(granted.vote_granted);
    for vote in [Vote::new(4, 3), Vote::new(5, 1), Vote::new_committed(5, 1)] {
        let resp = eng.handle_vote_req(VoteRequest { vote, last_log_id: None });
        assert!(!resp.vote_granted);
        assert_eq!(Vote::new(5, 2), resp.vote);
    }
    // Votes are in total order: the same term with a greater node id is granted.
    let resp = eng.handle_vote_req(VoteRequest { vote: Vote::new(5, 3), last_log_id: None });
    assert!(resp.vote_granted);
}

#[test]
fn late_vote_response_is_ignored() {
    let mut eng = follower();
    let before = eng.clone();
    eng.handle_vote_resp(
        2,
        VoteResponse { vote: Vote::new(9, 2), vote_granted: false, last_log_id: None },
    );
    assert_eq!(before, eng);
}

#[test]
fn rejection_by_a_greater_vote_saves_it() {
    let mut eng = candidate(&[1, 2, 3]);
    eng.handle_vote_resp(
        2,
        VoteResponse {
            vote: Vote::new(3, 2),
            vote_granted: false,
            last_log_id: Some(log_id(1, 1)),
        },
    );
    assert_eq!(Vote::new(3, 2), eng.state.vote);
    // The node stays a candidate.
    assert!(eng.is_becoming_leader());
    assert_eq!(ServerState::Candidate, eng.state.server_state);
    assert_eq!(
        vec![
            Command::SaveVote { vote: Vote::new(3, 2) },
            Command::InstallElectionTimer { can_be_leader: true },
        ],
        eng.commands
    );
}

#[test]
fn rejection_by_a_greater_log_waits_longer() {
    let mut eng = candidate(&[1, 2, 3]);
    eng.handle_vote_resp(
        2,
        VoteResponse {
            vote: Vote::new(2, 1),
            vote_granted: false,
            last_log_id: Some(log_id(2, 2)),
        },
    );
    assert_eq!(Vote::new(2, 1), eng.state.vote);
    assert_eq!(vec![Command::InstallElectionTimer { can_be_leader: false }], eng.commands);
}

#[test]
fn grant_without_a_quorum_is_only_recorded() {
    let mut eng = candidate(&[1, 2, 3, 4, 5]);
    eng.handle_vote_resp(
        2,
        VoteResponse { vote: Vote::new(2, 1), vote_granted: true, last_log_id: None },
    );
    assert_eq!(Vote::new(2, 1), eng.state.vote);
    assert!(eng.commands.is_empty());
    match &eng.state.internal_server_state {
        InternalServerState::Leading(leader) => {
            assert_eq!(NodeSet::from_ids(&vec![1, 2]), leader.vote_granted_by);
        }
        InternalServerState::Following => panic!("the node leads"),
    }
}

#[test]
fn grant_by_a_quorum_establishes_the_leader() {
    let mut eng = candidate(&[1, 2, 3]);
    eng.handle_vote_resp(
        3,
        VoteResponse { vote: Vote::new(2, 1), vote_granted: true, last_log_id: None },
    );
    assert_eq!(Vote::new_committed(2, 1), eng.state.vote);
    assert!(eng.is_leader());
    assert_eq!(ServerState::Leader, eng.state.server_state);
    assert_eq!(Some(log_id(2, 2)), eng.state.last_log_id());
    assert_eq!(None, eng.state.committed);
    assert_eq!(
        vec![
            Command::SaveVote { vote: Vote::new_committed(2, 1) },
            Command::UpdateServerState { server_state: ServerState::Leader },
            Command::UpdateReplicationStreams { targets: vec![(2, None), (3, None)] },
            Command::AppendBlankLog { log_id: log_id(2, 2) },
            Command::ReplicateEntries { upto: Some(log_id(2, 2)) },
        ],
        eng.commands
    );
    assert!(eng.metrics_flags.replication);
    assert!(eng.metrics_flags.local_data);
    assert!(eng.metrics_flags.cluster);
}

#[test]
fn server_state_table() {
    let mut eng = candidate(&[1, 2, 3]);
    assert!(eng.is_voter());
    assert_eq!(ServerState::Candidate, eng.calc_server_state());
    eng.state.vote = Vote::new_committed(2, 1);
    assert_eq!(ServerState::Leader, eng.calc_server_state());
    eng.state.vote = Vote::new_committed(2, 3);
    eng.state.internal_server_state = InternalServerState::Following;
    assert_eq!(ServerState::Follower, eng.calc_server_state());
    eng.state.membership_state = member_state(&[2, 3]);
    assert!(!eng.is_voter());
    assert_eq!(ServerState::Learner, eng.calc_server_state());
}

#[test]
fn server_state_is_told_once() {
    let mut eng = follower();
    eng.set_server_state(ServerState::Follower);
    assert!(eng.commands.is_empty());
    eng.set_server_state(ServerState::Candidate);
    assert_eq!(
        vec![Command::UpdateServerState { server_state: ServerState::Candidate }],
        eng.commands
    );
}

#[test]
fn server_state_is_updated_only_if_it_has_changed() {
    let mut eng = candidate(&[1, 2, 3]);
    eng.update_server_state_if_changed(ServerState::Candidate);
    assert!(eng.commands.is_empty());
    eng.update_server_state_if_changed(ServerState::Learner);
    assert_eq!(ServerState::Candidate, eng.state.server_state);
    assert_eq!(
        vec![Command::UpdateServerState { server_state: ServerState::Candidate }],
        eng.commands
    );
}
