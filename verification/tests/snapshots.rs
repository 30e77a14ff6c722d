use std::sync::Arc;

use raft_engine::command::Command;
use raft_engine::engine::engine_impl::Engine;
use raft_engine::engine::model::EngineConfig;
use raft_engine::log_id::LogId;
use raft_engine::log_id_list::LogIdList;
use raft_engine::membership::{EffectiveMembership, Membership, MembershipState};
use raft_engine::node::BasicNode;
use raft_engine::node_set::{NodeMap, NodeSet};
use raft_engine::raft_state::{RaftState, ServerState};
use raft_engine::snapshot::SnapshotMeta;
use raft_engine::vote::{LeaderId, Vote};

fn log_id(term: u64, index: u64) -> LogId<u64> {
    LogId::new(LeaderId::new(term, 1), index)
}

fn members(ids: &[u64]) -> Membership<u64, BasicNode> {
    let mut nodes = NodeMap::new();
    for id in ids {
        nodes.insert(*id, BasicNode { addr: format!("host-{}", id) });
    }
    Membership::new(vec![NodeSet::from_ids(&ids.to_vec())], nodes)
}

fn held(term: u64, index: u64, ids: &[u64]) -> EffectiveMembership<u64, BasicNode> {
    EffectiveMembership::new(Some(log_id(term, index)), members(ids))
}

fn meta(
    last: Option<LogId<u64>>,
    m: EffectiveMembership<u64, BasicNode>,
) -> SnapshotMeta<u64, BasicNode> {
    SnapshotMeta { last_log_id: last, last_membership: m, snapshot_id: "1-2-3-4".to_string() }
}

/// Node 2 follows. The logs up to 2 are purged, 3 to 8 are there, 5 is committed, and a snapshot
/// includes the logs up to 2.
fn follower() -> Engine<u64, BasicNode> {
    let mut state = RaftState::pristine();
    state.vote = Vote::new_committed(8, 1);
    state.server_state = ServerState::Follower;
    state.committed = Some(log_id(4, 5));
    state.log_ids = LogIdList::from_log_ids(&vec![
        log_id(2, 2),
        log_id(3, 3),
        log_id(4, 4),
        log_id(4, 5),
        log_id(4, 6),
        log_id(5, 7),
        log_id(5, 8),
    ]);
    let m = Arc::new(held(1, 1, &[1, 2]));
    state.membership_state = MembershipState { committed: m.clone(), effective: m };
    let mut eng = Engine::new(2, &state, EngineConfig::default());
    eng.snapshot_meta = meta(Some(log_id(2, 2)), held(1, 1, &[1, 2]));
    eng
}

fn config(keep: u64, batch: u64) -> EngineConfig {
    EngineConfig { max_in_snapshot_log_to_keep: keep, purge_batch_size: batch }
}

#[test]
fn snapshot_of_committed_logs_is_cancelled() {
    let mut eng = follower();
    let before = eng.clone();
    let m = meta(Some(log_id(4, 5)), held(1, 1, &[1, 2]));
    eng.install_snapshot(m.clone());
    assert_eq!(vec![Command::CancelSnapshot { snapshot_meta: m }], eng.commands);
    assert_eq!(before.state, eng.state);
    assert_eq!(before.snapshot_meta, eng.snapshot_meta);
}

#[test]
fn empty_snapshot_is_cancelled() {
    let mut eng = follower();
    eng.state.committed = None;
    let m = meta(None, EffectiveMembership::empty());
    eng.install_snapshot(m.clone());
    assert_eq!(vec![Command::CancelSnapshot { snapshot_meta: m }], eng.commands);
}

#[test]
fn snapshot_that_is_not_greater_is_ignored() {
    let mut eng = follower();
    eng.snapshot_meta = meta(Some(log_id(5, 8)), held(1, 1, &[1, 2]));
    let before = eng.clone();
    eng.install_snapshot(meta(Some(log_id(4, 6)), held(1, 1, &[1, 2])));
    assert_eq!(before, eng);
}

#[test]
fn snapshot_without_conflict_keeps_later_logs() {
    let mut eng = follower();
    let m = meta(Some(log_id(4, 6)), held(1, 1, &[1, 2]));
    eng.install_snapshot(m.clone());
    assert_eq!(m, eng.snapshot_meta);
    assert_eq!(Some(log_id(4, 6)), eng.state.committed);
    assert_eq!(Some(log_id(4, 6)), eng.state.last_purged_log_id());
    assert_eq!(None, eng.state.get_log_id(5));
    assert_eq!(Some(log_id(5, 7)), eng.state.get_log_id(7));
    assert_eq!(Some(log_id(5, 8)), eng.state.last_log_id());
    assert_eq!(
        vec![
            Command::InstallSnapshot { snapshot_meta: m },
            Command::PurgeLog { upto: log_id(4, 6) },
        ],
        eng.commands
    );
}

#[test]
fn snapshot_with_conflict_deletes_later_logs() {
    let mut eng = follower();
    let m = meta(Some(log_id(6, 7)), held(6, 7, &[2, 3]));
    eng.install_snapshot(m.clone());
    assert_eq!(Some(log_id(6, 7)), eng.state.committed);
    assert_eq!(Some(log_id(6, 7)), eng.state.last_purged_log_id());
    assert_eq!(Some(log_id(6, 7)), eng.state.last_log_id());
    assert_eq!(None, eng.state.get_log_id(8));
    assert_eq!(
        vec![
            Command::DeleteConflictLog { since: log_id(5, 7) },
            Command::UpdateMembership { membership: Arc::new(held(6, 7, &[2, 3])) },
            Command::InstallSnapshot { snapshot_meta: m },
            Command::PurgeLog { upto: log_id(6, 7) },
        ],
        eng.commands
    );
}

#[test]
fn snapshot_after_all_logs_replaces_them() {
    let mut eng = follower();
    let m = meta(Some(log_id(7, 20)), held(6, 12, &[3]));
    eng.install_snapshot(m.clone());
    assert_eq!(Some(log_id(7, 20)), eng.state.last_log_id());
    assert_eq!(Some(log_id(7, 20)), eng.state.last_purged_log_id());
    assert_eq!(Arc::new(held(6, 12, &[3])), eng.state.membership_state.effective);
    assert_eq!(Arc::new(held(6, 12, &[3])), eng.state.membership_state.committed);
    assert_eq!(ServerState::Learner, eng.state.server_state);
    assert_eq!(
        vec![
            Command::UpdateMembership { membership: Arc::new(held(6, 12, &[3])) },
            Command::UpdateServerState { server_state: ServerState::Learner },
            Command::InstallSnapshot { snapshot_meta: m },
            Command::PurgeLog { upto: log_id(7, 20) },
        ],
        eng.commands
    );
}

#[test]
fn snapshot_is_recorded_if_it_is_greater() {
    let mut eng = follower();
    assert!(!eng.update_snapshot(meta(Some(log_id(2, 2)), held(1, 1, &[9]))));
    assert!(!eng.update_snapshot(meta(Some(log_id(1, 9)), held(1, 1, &[9]))));
    assert!(!eng.metrics_flags.local_data);
    assert_eq!(Some(log_id(2, 2)), eng.snapshot_meta.last_log_id);
    let m = meta(Some(log_id(2, 3)), held(1, 1, &[9]));
    assert!(eng.update_snapshot(m.clone()));
    assert_eq!(m, eng.snapshot_meta);
    assert!(eng.metrics_flags.local_data);
    assert!(eng.commands.is_empty());
}

#[test]
fn built_snapshot_purges_logs() {
    let mut eng = follower();
    eng.config = config(1, 1);
    let m = meta(Some(log_id(4, 5)), held(1, 1, &[1, 2]));
    eng.finish_building_snapshot(m.clone());
    assert_eq!(m, eng.snapshot_meta);
    assert_eq!(Some(log_id(4, 4)), eng.state.last_purged_log_id());
    assert_eq!(vec![Command::PurgeLog { upto: log_id(4, 4) }], eng.commands);
}

#[test]
fn built_snapshot_that_is_not_greater_purges_nothing() {
    let mut eng = follower();
    eng.config = config(0, 1);
    let before = eng.clone();
    eng.finish_building_snapshot(meta(Some(log_id(2, 2)), held(1, 1, &[1, 2])));
    assert_eq!(before, eng);
}

#[test]
fn purge_point_depends_on_what_to_keep_and_on_the_batch() {
    // (snapshot, keep, batch, expected)
    let cases = vec![
        (None, 0, 1, None),
        (None, 1, 1, None),
        (None, 0, 0, None),
        (Some(log_id(3, 3)), 4, 0, None),
        (Some(log_id(3, 3)), 5, 0, None),
        (Some(log_id(2, 2)), 0, 0, Some(log_id(2, 2))),
        (Some(log_id(3, 3)), 0, 0, Some(log_id(3, 3))),
        (Some(log_id(4, 5)), 0, u64::MAX, None),
        (Some(log_id(4, 5)), u64::MAX, u64::MAX, None),
        (Some(log_id(3, 3)), 0, 1, Some(log_id(3, 3))),
        (Some(log_id(3, 3)), 0, 2, None),
        (Some(log_id(3, 3)), 1, 1, None),
        (Some(log_id(4, 4)), 0, 1, Some(log_id(4, 4))),
        (Some(log_id(4, 4)), 1, 1, Some(log_id(3, 3))),
        (Some(log_id(4, 4)), 1, 2, None),
        (Some(log_id(4, 5)), 0, 3, Some(log_id(4, 5))),
        (Some(log_id(4, 5)), 0, 4, None),
        (Some(log_id(4, 5)), 2, 1, Some(log_id(3, 3))),
        (Some(log_id(4, 5)), 3, 1, None),
        (Some(log_id(4, 5)), 6, 1, None),
        (Some(log_id(4, 5)), 100, 1, None),
    ];
    for (snapshot, keep, batch, expected) in cases {
        let mut eng = follower();
        eng.config = config(keep, batch);
        eng.snapshot_meta = meta(snapshot, held(1, 1, &[1, 2]));
        let before = eng.clone();
        assert_eq!(expected, eng.calc_purge_upto(), "{:?} {} {}", snapshot, keep, batch);
        assert_eq!(before, eng);
    }
}

#[test]
fn nothing_is_purged_where_there_is_no_log() {
    let mut eng: Engine<u64, BasicNode> = Engine::new(1, &RaftState::pristine(), config(0, 0));
    assert_eq!(None, eng.calc_purge_upto());
    let before = eng.clone();
    eng.purge_in_snapshot_log();
    eng.finish_building_snapshot(meta(None, EffectiveMembership::empty()));
    assert_eq!(before, eng);
}

#[test]
fn purge_in_snapshot_log_when_it_is_time_to() {
    let mut eng = follower();
    eng.config = config(0, 10);
    eng.snapshot_meta = meta(Some(log_id(4, 5)), held(1, 1, &[1, 2]));
    eng.purge_in_snapshot_log();
    assert!(eng.commands.is_empty());
    eng.config = config(0, 3);
    eng.purge_in_snapshot_log();
    assert_eq!(Some(log_id(4, 5)), eng.state.last_purged_log_id());
    assert_eq!(vec![Command::PurgeLog { upto: log_id(4, 5) }], eng.commands);
}

#[test]
fn purge_of_purged_logs_does_nothing() {
    let mut eng = follower();
    let before = eng.clone();
    eng.purge_log(log_id(2, 2));
    eng.purge_log(log_id(1, 1));
    assert_eq!(before, eng);
}

#[test]
fn purge_of_present_logs_keeps_the_later_ones() {
    let mut eng = follower();
    eng.purge_log(log_id(4, 4));
    assert_eq!(Some(log_id(4, 4)), eng.state.last_purged_log_id());
    assert_eq!(None, eng.state.get_log_id(3));
    assert_eq!(Some(log_id(4, 5)), eng.state.get_log_id(5));
    assert_eq!(Some(log_id(5, 8)), eng.state.last_log_id());
    assert_eq!(vec![Command::PurgeLog { upto: log_id(4, 4) }], eng.commands);
    // Once more changes nothing.
    let before = eng.clone();
    eng.purge_log(log_id(4, 4));
    assert_eq!(before, eng);
}

#[test]
fn purge_to_the_last_log_and_beyond() {
    let mut eng = follower();
    eng.purge_log(log_id(5, 8));
    assert_eq!(Some(log_id(5, 8)), eng.state.last_purged_log_id());
    assert_eq!(Some(log_id(5, 8)), eng.state.last_log_id());
    eng.purge_log(log_id(6, 10));
    assert_eq!(Some(log_id(6, 10)), eng.state.last_purged_log_id());
    assert_eq!(Some(log_id(6, 10)), eng.state.last_log_id());
}
