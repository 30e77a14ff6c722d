use std::sync::Arc;

use raft_engine::command::Command;
use raft_engine::engine::engine_impl::Engine;
use raft_engine::engine::model::EngineConfig;
use raft_engine::entry::{Entry, EntryPayload};
use raft_engine::log_id::LogId;
use raft_engine::log_id_list::LogIdList;
use raft_engine::membership::{EffectiveMembership, Membership, MembershipState};
use raft_engine::message::AppendEntriesResponse;
use raft_engine::node_set::{NodeMap, NodeSet};
use raft_engine::raft_state::{RaftState, ServerState};
use raft_engine::vote::{LeaderId, Vote};

type TestEntry = Entry<u64, (), u64>;

fn log_id(term: u64, index: u64) -> LogId<u64> {
    LogId::new(LeaderId::new(term, 1), index)
}

fn blank(term: u64, index: u64) -> TestEntry {
    Entry { log_id: log_id(term, index), payload: EntryPayload::Blank }
}

fn members(ids: &[u64]) -> Membership<u64, ()> {
    let mut nodes = NodeMap::new();
    for id in ids {
        nodes.insert(*id, ());
    }
    Membership::new(vec![NodeSet::from_ids(&ids.to_vec())], nodes)
}

fn config_entry(term: u64, index: u64, ids: &[u64]) -> TestEntry {
    Entry { log_id: log_id(term, index), payload: EntryPayload::Membership(members(ids)) }
}

fn held(term: u64, index: u64, ids: &[u64]) -> Arc<EffectiveMembership<u64, ()>> {
    Arc::new(EffectiveMembership::new(Some(log_id(term, index)), members(ids)))
}

/// Node 2 follows node 1 in term 2. It has the logs 0 and 1 of term 1, of which the first is
/// committed, and 2 and 3 of term 2. The last one holds a membership without node 1.
fn follower() -> Engine<u64, ()> {
    let mut state = RaftState::pristine();
    state.vote = Vote::new_committed(2, 1);
    state.server_state = ServerState::Follower;
    state.committed = Some(log_id(1, 0));
    state.log_ids = LogIdList::from_log_ids(&vec![
        log_id(1, 0),
        log_id(1, 1),
        log_id(2, 2),
        log_id(2, 3),
    ]);
    state.membership_state = MembershipState {
        committed: held(1, 1, &[1, 2, 3]),
        effective: held(2, 3, &[2, 3]),
    };
    Engine::new(2, &state, EngineConfig::default())
}

fn log_ids(eng: &Engine<u64, ()>, upto: u64) -> Vec<Option<LogId<u64>>> {
    (0..upto).map(|i| eng.state.get_log_id(i)).collect()
}

#[test]
fn lesser_vote_of_a_leader_is_refused() {
    let mut eng = follower();
    let before = eng.clone();
    let resp = eng.handle_append_entries_req::<TestEntry>(
        &Vote::new_committed(1, 1),
        None,
        &[],
        Some(log_id(1, 1)),
    );
    assert_eq!(AppendEntriesResponse::HigherVote(Vote::new_committed(2, 1)), resp);
    assert_eq!(before, eng);
}

#[test]
fn conflicting_prev_log_is_deleted() {
    let mut eng = follower();
    let resp = eng.handle_append_entries_req(
        &Vote::new_committed(2, 1),
        Some(log_id(1, 2)),
        &[blank(2, 3)],
        Some(log_id(1, 1)),
    );
    assert_eq!(AppendEntriesResponse::Conflict, resp);
    assert_eq!(
        vec![Some(log_id(1, 0)), Some(log_id(1, 1)), None, None],
        log_ids(&eng, 4)
    );
    assert_eq!(Some(log_id(1, 0)), eng.state.committed);
    assert_eq!(held(1, 1, &[1, 2, 3]), eng.state.membership_state.effective);
    assert_eq!(
        vec![
            Command::InstallElectionTimer { can_be_leader: false },
            Command::DeleteConflictLog { since: log_id(2, 2) },
            Command::UpdateMembership { membership: held(1, 1, &[1, 2, 3]) },
        ],
        eng.commands
    );
}

#[test]
fn absent_prev_log_is_a_conflict() {
    let mut eng = follower();
    let resp = eng.handle_append_entries_req(
        &Vote::new_committed(2, 1),
        Some(log_id(2, 5)),
        &[blank(2, 6)],
        Some(log_id(2, 6)),
    );
    assert_eq!(AppendEntriesResponse::Conflict, resp);
    assert_eq!(Some(log_id(2, 3)), eng.state.last_log_id());
    assert_eq!(vec![Command::InstallElectionTimer { can_be_leader: false }], eng.commands);
}

#[test]
fn entries_replace_conflicting_logs() {
    let mut eng = follower();
    let entries = [blank(2, 2), blank(3, 3), blank(3, 4)];
    let resp = eng.handle_append_entries_req(
        &Vote::new_committed(3, 1),
        Some(log_id(1, 1)),
        &entries,
        Some(log_id(3, 3)),
    );
    assert_eq!(AppendEntriesResponse::Success, resp);
    assert_eq!(
        vec![
            Some(log_id(1, 0)),
            Some(log_id(1, 1)),
            Some(log_id(2, 2)),
            Some(log_id(3, 3)),
            Some(log_id(3, 4)),
            None,
        ],
        log_ids(&eng, 6)
    );
    assert_eq!(Some(log_id(3, 3)), eng.state.committed);
    assert_eq!(
        vec![
            Command::SaveVote { vote: Vote::new_committed(3, 1) },
            Command::InstallElectionTimer { can_be_leader: false },
            Command::DeleteConflictLog { since: log_id(2, 3) },
            Command::UpdateMembership { membership: held(1, 1, &[1, 2, 3]) },
            Command::AppendInputEntries { range: 1..3 },
            Command::MoveInputCursorBy { n: 3 },
            Command::FollowerCommit {
                already_committed: Some(log_id(1, 0)),
                upto: log_id(3, 3),
            },
        ],
        eng.commands
    );
}

#[test]
fn repeated_request_changes_only_the_timer() {
    let mut eng = follower();
    let entries = [blank(2, 2), blank(3, 3), blank(3, 4)];
    let vote = Vote::new_committed(3, 1);
    eng.handle_append_entries_req(&vote, Some(log_id(1, 1)), &entries, Some(log_id(3, 3)));
    let state = eng.state.clone();
    eng.commands.clear();
    let resp =
        eng.handle_append_entries_req(&vote, Some(log_id(1, 1)), &entries, Some(log_id(3, 3)));
    assert_eq!(AppendEntriesResponse::Success, resp);
    assert_eq!(state, eng.state);
    assert_eq!(vec![Command::InstallElectionTimer { can_be_leader: false }], eng.commands);
}

#[test]
fn repeated_request_with_a_vote_that_is_not_committed() {
    let mut eng = follower();
    let vote = Vote::new(3, 1);
    eng.handle_append_entries_req(&vote, Some(log_id(2, 3)), &[blank(3, 4)], None);
    let state = eng.state.clone();
    eng.commands.clear();
    eng.handle_append_entries_req(&vote, Some(log_id(2, 3)), &[blank(3, 4)], None);
    assert_eq!(state, eng.state);
    assert_eq!(vec![Command::InstallElectionTimer { can_be_leader: true }], eng.commands);
}

#[test]
fn repeated_request_with_the_own_vote_leads_afresh() {
    let mut eng = follower();
    let vote = Vote::new_committed(3, 2);
    let entry = Entry {
        log_id: LogId::new(LeaderId::new(3, 2), 4),
        payload: EntryPayload::<u64, (), u64>::Blank,
    };
    let entries = [entry];
    assert_eq!(
        AppendEntriesResponse::Success,
        eng.handle_append_entries_req(&vote, Some(log_id(2, 3)), &entries, None)
    );
    assert!(eng.is_becoming_leader());
    let state = eng.state.clone();
    eng.commands.clear();
    eng.handle_append_entries_req(&vote, Some(log_id(2, 3)), &entries, None);
    assert_eq!(state, eng.state);
    assert!(eng.commands.is_empty());
}

#[test]
fn heartbeat_commits_up_to_the_matching_log() {
    let mut eng = follower();
    let resp = eng.handle_append_entries_req::<TestEntry>(
        &Vote::new_committed(2, 1),
        Some(log_id(2, 2)),
        &[],
        Some(log_id(2, 3)),
    );
    assert_eq!(AppendEntriesResponse::Success, resp);
    // Log 3 is present but not known to match.
    assert_eq!(Some(log_id(2, 2)), eng.state.committed);
    assert_eq!(Some(log_id(2, 3)), eng.state.last_log_id());
}

#[test]
fn committed_prev_log_is_taken_to_match() {
    let mut eng = follower();
    let resp = eng.handle_append_entries_req(
        &Vote::new_committed(2, 1),
        Some(log_id(1, 0)),
        &[blank(1, 1)],
        None,
    );
    assert_eq!(AppendEntriesResponse::Success, resp);
    assert_eq!(Some(log_id(2, 3)), eng.state.last_log_id());
    assert_eq!(Some(log_id(1, 0)), eng.state.committed);
}

#[test]
fn logs_are_replicated_from_the_beginning() {
    let mut eng: Engine<u64, ()> = Engine::new(2, &RaftState::pristine(), EngineConfig::default());
    let resp = eng.handle_append_entries_req(
        &Vote::new_committed(1, 1),
        None,
        &[config_entry(1, 0, &[1, 2]), blank(1, 1)],
        None,
    );
    assert_eq!(AppendEntriesResponse::Success, resp);
    assert_eq!(Some(log_id(1, 1)), eng.state.last_log_id());
    assert_eq!(ServerState::Follower, eng.state.server_state);
    assert_eq!(None, eng.state.committed);
    assert_eq!(
        vec![
            Command::SaveVote { vote: Vote::new_committed(1, 1) },
            Command::InstallElectionTimer { can_be_leader: false },
            Command::AppendInputEntries { range: 0..2 },
            Command::UpdateMembership { membership: held(1, 0, &[1, 2]) },
            Command::UpdateServerState { server_state: ServerState::Follower },
            Command::MoveInputCursorBy { n: 2 },
        ],
        eng.commands
    );
}

#[test]
fn conflicting_entries_keep_committed_logs() {
    let mut eng = follower();
    eng.state.committed = Some(log_id(2, 2));
    let before = log_ids(&eng, 3);
    eng.handle_append_entries_req(
        &Vote::new_committed(3, 1),
        Some(log_id(3, 3)),
        &[blank(3, 4)],
        Some(log_id(3, 4)),
    );
    assert_eq!(before, log_ids(&eng, 3));
    assert_eq!(None, eng.state.get_log_id(3));
}

#[test]
fn one_new_membership_commits_the_effective_one() {
    let mut eng = follower();
    eng.follower_do_append_entries(&[blank(2, 3), config_entry(3, 4, &[2, 3, 4])], 1);
    assert_eq!(
        MembershipState {
            committed: held(2, 3, &[2, 3]),
            effective: held(3, 4, &[2, 3, 4]),
        },
        eng.state.membership_state
    );
    assert_eq!(
        vec![
            Command::AppendInputEntries { range: 1..2 },
            Command::UpdateMembership { membership: held(3, 4, &[2, 3, 4]) },
            Command::MoveInputCursorBy { n: 2 },
        ],
        eng.commands
    );
}

#[test]
fn two_of_three_new_memberships_are_kept() {
    let mut eng = follower();
    eng.follower_do_append_entries(
        &[
            config_entry(3, 4, &[1, 2]),
            config_entry(3, 5, &[3, 4]),
            blank(3, 6),
            config_entry(3, 7, &[4, 5]),
        ],
        0,
    );
    assert_eq!(
        MembershipState {
            committed: held(3, 5, &[3, 4]),
            effective: held(3, 7, &[4, 5]),
        },
        eng.state.membership_state
    );
    // Node 2 is no longer a voter.
    assert_eq!(ServerState::Learner, eng.state.server_state);
    assert_eq!(Some(log_id(3, 7)), eng.state.last_log_id());
}

#[test]
fn nothing_new_is_appended() {
    let mut eng = follower();
    let before = eng.clone();
    eng.follower_do_append_entries(&[blank(2, 2), blank(2, 3)], 2);
    assert_eq!(before, eng);
}

#[test]
fn last_two_memberships_in_order() {
    let none = Engine::<u64, ()>::last_two_memberships(&[blank(1, 1), blank(1, 2)]);
    assert!(none.is_empty());
    let one = Engine::<u64, ()>::last_two_memberships(&[
        blank(1, 1),
        config_entry(1, 2, &[5]),
        blank(1, 3),
    ]);
    assert_eq!(vec![(*held(1, 2, &[5])).clone()], one);
    let two = Engine::<u64, ()>::last_two_memberships(&[
        config_entry(1, 1, &[4]),
        config_entry(1, 2, &[5]),
        blank(1, 3),
        config_entry(1, 4, &[6]),
    ]);
    assert_eq!(vec![(*held(1, 2, &[5])).clone(), (*held(1, 4, &[6])).clone()], two);
}

#[test]
fn memberships_are_updated_by_followers() {
    let mut eng = follower();
    eng.follower_update_membership(&[blank(3, 4)]);
    assert!(eng.commands.is_empty());
    eng.follower_update_membership(&[config_entry(3, 4, &[7])]);
    assert_eq!(held(2, 3, &[2, 3]), eng.state.membership_state.committed);
    assert_eq!(held(3, 4, &[7]), eng.state.membership_state.effective);
    assert_eq!(
        vec![
            Command::UpdateMembership { membership: held(3, 4, &[7]) },
            Command::UpdateServerState { server_state: ServerState::Learner },
        ],
        eng.commands
    );
    eng.update_membership_state(vec![(*held(3, 5, &[8])).clone(), (*held(3, 6, &[9])).clone()]);
    assert_eq!(held(3, 5, &[8]), eng.state.membership_state.committed);
    assert_eq!(held(3, 6, &[9]), eng.state.membership_state.effective);
}

#[test]
fn first_conflicting_index_is_that_of_the_first_missing_entry() {
    let eng = follower();
    assert_eq!(0, eng.first_conflicting_index::<TestEntry>(&[]));
    assert_eq!(0, eng.first_conflicting_index(&[blank(3, 2)]));
    assert_eq!(1, eng.first_conflicting_index(&[blank(1, 1), blank(3, 2)]));
    assert_eq!(2, eng.first_conflicting_index(&[blank(1, 1), blank(2, 2)]));
    assert_eq!(2, eng.first_conflicting_index(&[blank(2, 2), blank(2, 3), blank(2, 4)]));
    // A committed log is taken to be present.
    assert_eq!(1, eng.first_conflicting_index(&[blank(9, 0)]));
}

#[test]
fn follower_commits_the_least_of_leader_and_last() {
    let mut eng = follower();
    eng.follower_commit_entries::<TestEntry>(Some(log_id(2, 3)), Some(log_id(1, 1)), &[]);
    assert_eq!(Some(log_id(1, 1)), eng.state.committed);
    assert_eq!(
        vec![Command::FollowerCommit {
            already_committed: Some(log_id(1, 0)),
            upto: log_id(1, 1),
        }],
        eng.commands
    );
    eng.follower_commit_entries(Some(log_id(2, 2)), Some(log_id(1, 1)), &[blank(2, 2), blank(2, 3)]);
    assert_eq!(Some(log_id(2, 2)), eng.state.committed);
    // Nothing goes back.
    eng.commands.clear();
    eng.follower_commit_entries(Some(log_id(1, 1)), None, &[blank(2, 2)]);
    eng.follower_commit_entries::<TestEntry>(Some(log_id(2, 3)), None, &[]);
    eng.follower_commit_entries::<TestEntry>(None, Some(log_id(2, 3)), &[]);
    assert_eq!(Some(log_id(2, 2)), eng.state.committed);
    assert!(eng.commands.is_empty());
}

#[test]
fn committing_a_membership_log_commits_the_membership() {
    let mut eng = follower();
    eng.follower_commit_entries(Some(log_id(2, 3)), None, &[blank(2, 3)]);
    assert_eq!(held(2, 3, &[2, 3]), eng.state.membership_state.committed);
}

#[test]
fn truncate_reverts_the_membership() {
    let mut eng = follower();
    eng.truncate_logs(3);
    assert_eq!(Some(log_id(2, 2)), eng.state.last_log_id());
    assert_eq!(
        MembershipState {
            committed: held(1, 1, &[1, 2, 3]),
            effective: held(1, 1, &[1, 2, 3]),
        },
        eng.state.membership_state
    );
    assert_eq!(
        vec![
            Command::DeleteConflictLog { since: log_id(2, 3) },
            Command::UpdateMembership { membership: held(1, 1, &[1, 2, 3]) },
        ],
        eng.commands
    );
}

#[test]
fn truncate_tells_a_change_of_role() {
    let mut eng = follower();
    eng.state.membership_state.effective = held(2, 3, &[3]);
    eng.truncate_logs(2);
    assert_eq!(ServerState::Follower, eng.state.server_state);
    assert_eq!(
        vec![
            Command::DeleteConflictLog { since: log_id(2, 2) },
            Command::UpdateMembership { membership: held(1, 1, &[1, 2, 3]) },
            Command::UpdateServerState { server_state: ServerState::Follower },
        ],
        eng.commands
    );
}

#[test]
fn truncate_of_absent_logs_does_nothing() {
    let mut eng = follower();
    let before = eng.clone();
    eng.truncate_logs(4);
    eng.truncate_logs(9);
    assert_eq!(before, eng);
}

#[test]
fn truncate_everything() {
    let mut eng = follower();
    eng.state.committed = None;
    eng.state.membership_state = MembershipState::empty();
    eng.truncate_logs(0);
    assert_eq!(None, eng.state.last_log_id());
    assert_eq!(vec![Command::DeleteConflictLog { since: log_id(1, 0) }], eng.commands);
}

#[test]
fn committed_membership_is_adopted_by_log_id_and_index() {
    // Greater log id, lesser index than the effective one: only the committed one is replaced.
    let mut eng = follower();
    eng.update_committed_membership((*held(3, 2, &[2, 4])).clone());
    assert_eq!(held(3, 2, &[2, 4]), eng.state.membership_state.committed);
    assert_eq!(held(2, 3, &[2, 3]), eng.state.membership_state.effective);
    assert!(eng.commands.is_empty());

    // The same index replaces a conflicting effective one.
    let mut eng = follower();
    eng.update_committed_membership((*held(3, 3, &[4])).clone());
    assert_eq!(held(3, 3, &[4]), eng.state.membership_state.committed);
    assert_eq!(held(3, 3, &[4]), eng.state.membership_state.effective);
    assert_eq!(
        vec![
            Command::UpdateMembership { membership: held(3, 3, &[4]) },
            Command::UpdateServerState { server_state: ServerState::Learner },
        ],
        eng.commands
    );

    // The effective one is committed: nothing is told.
    let mut eng = follower();
    eng.update_committed_membership((*held(2, 3, &[2, 3])).clone());
    assert_eq!(held(2, 3, &[2, 3]), eng.state.membership_state.committed);
    assert!(eng.commands.is_empty());

    // An older one changes nothing.
    let mut eng = follower();
    let before = eng.clone();
    eng.update_committed_membership((*held(1, 0, &[7])).clone());
    assert_eq!(before, eng);
}
