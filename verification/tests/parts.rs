use raft_engine::leader::Leader;
use raft_engine::log_id::LogId;
use raft_engine::log_id_list::LogIdList;
use raft_engine::membership::{EffectiveMembership, Membership};
use raft_engine::node::{BasicNode, Node};
use raft_engine::node_set::{NodeMap, NodeSet};
use raft_engine::progress::Progress;
use raft_engine::quorum::QuorumSet;
use raft_engine::vote::{LeaderId, Vote};

fn log_id(term: u64, index: u64) -> LogId<u64> {
    LogId::new(LeaderId::new(term, 1), index)
}

fn set(ids: &[u64]) -> NodeSet<u64> {
    NodeSet::from_ids(&ids.to_vec())
}

#[test]
fn votes_are_ordered_by_term_then_node_then_committed() {
    let ascending = [
        Vote::new(1, 9),
        Vote::new(2, 1),
        Vote::new_committed(2, 1),
        Vote::new(2, 2),
        Vote::new_committed(2, 2),
        Vote::new(3, 0),
    ];
    for i in 0..ascending.len() {
        for j in 0..ascending.len() {
            assert_eq!(i < j, ascending[i].less_than(&ascending[j]));
            assert_eq!(i == j, ascending[i].same_as(&ascending[j]));
        }
    }
    assert_eq!(Vote::new(0, 0), Vote::<u64>::default_vote());
}

#[test]
fn log_ids_are_ordered_by_leader_then_index() {
    let ascending = [
        None,
        Some(LogId::new(LeaderId::new(1, 1), 7)),
        Some(LogId::new(LeaderId::new(1, 2), 3)),
        Some(LogId::new(LeaderId::new(2, 1), 2)),
        Some(LogId::new(LeaderId::new(2, 1), 3)),
    ];
    for i in 0..ascending.len() {
        for j in 0..ascending.len() {
            let less = raft_engine::log_id::opt_less_than(&ascending[i], &ascending[j]);
            assert_eq!(i < j, less);
            let same = raft_engine::log_id::opt_same(&ascending[i], &ascending[j]);
            assert_eq!(i == j, same);
        }
    }
    assert!(raft_engine::log_id::index_at_most(&ascending[4], &ascending[1]));
    assert!(!raft_engine::log_id::index_at_most(&ascending[1], &ascending[4]));
    assert!(raft_engine::log_id::index_at_most(&None, &ascending[1]));
    assert!(!raft_engine::log_id::index_at_most(&ascending[1], &None));
    assert_eq!(0, raft_engine::log_id::following_index::<u64>(&None));
    assert_eq!(8, raft_engine::log_id::following_index(&ascending[1]));
}

#[test]
fn node_set_is_sorted_and_without_repetition() {
    let s = set(&[3, 1, 2, 3, 1]);
    assert_eq!(3, s.len());
    assert_eq!(1, s.get(0));
    assert_eq!(2, s.get(1));
    assert_eq!(3, s.get(2));
    assert!(s.contains(&2));
    assert!(!s.contains(&4));
    assert!(s.same_as(&set(&[1, 2, 3])));
    assert!(!s.same_as(&set(&[1, 2])));
}

#[test]
fn node_map_replaces_data() {
    let mut m = NodeMap::new();
    m.insert(2, BasicNode { addr: "b".to_string() });
    m.insert(1, BasicNode { addr: "a".to_string() });
    let before = m.clone();
    assert!(m.same_as(&before));
    m.insert(2, BasicNode { addr: "c".to_string() });
    assert_eq!(2, m.len());
    assert_eq!(1, m.id_at(0));
    assert_eq!(2, m.id_at(1));
    assert!(!m.same_as(&before));
}

#[test]
fn node_data_is_compared() {
    let a = BasicNode { addr: "a".to_string() };
    assert!(a.same_node(&a.copy_node()));
    assert!(!a.same_node(&BasicNode { addr: "b".to_string() }));
    assert!(().same_node(&()));
}

#[test]
fn quorum_is_a_majority_of_every_config() {
    let q = QuorumSet::new(&vec![set(&[1, 2, 3])]);
    assert!(!q.is_quorum(&set(&[])));
    assert!(!q.is_quorum(&set(&[1])));
    assert!(q.is_quorum(&set(&[1, 3])));
    assert!(!q.is_quorum(&set(&[1, 4, 5])));
    let even = QuorumSet::new(&vec![set(&[1, 2, 3, 4])]);
    assert!(!even.is_quorum(&set(&[1, 2])));
    assert!(even.is_quorum(&set(&[1, 2, 4])));
    let joint = QuorumSet::new(&vec![set(&[1, 2, 3]), set(&[3, 4, 5])]);
    assert!(!joint.is_quorum(&set(&[1, 2, 3])));
    assert!(joint.is_quorum(&set(&[1, 3, 4])));
    assert_eq!(set(&[1, 2, 3, 4, 5]), joint.ids());
}

#[test]
fn any_two_quorums_meet() {
    let q = QuorumSet::new(&vec![set(&[1, 2, 3, 4])]);
    let mut quorums = vec![];
    for bits in 0u64..16 {
        let ids: Vec<u64> = (1..5).filter(|i| bits & (1 << (i - 1)) != 0).collect();
        if q.is_quorum(&set(&ids)) {
            quorums.push(ids);
        }
    }
    assert_eq!(5, quorums.len());
    for a in &quorums {
        for b in &quorums {
            assert!(a.iter().any(|x| b.contains(x)));
        }
    }
}

#[test]
fn membership_tells_voters_and_learners() {
    let mut nodes = NodeMap::new();
    for id in [5u64, 4, 3, 2, 1] {
        nodes.insert(id, ());
    }
    let m = Membership::new(vec![set(&[1, 2]), set(&[2, 3])], nodes);
    for id in [1, 2, 3] {
        assert!(m.is_voter(&id));
    }
    for id in [4, 5, 6] {
        assert!(!m.is_voter(&id));
    }
    assert_eq!(vec![4, 5], m.learner_ids());
    assert!(m.same_as(&m.clone()));
    assert!(!m.same_as(&Membership::empty()));
    let a = EffectiveMembership::new(Some(log_id(1, 1)), m.clone());
    let b = EffectiveMembership::new(Some(log_id(1, 2)), m);
    assert!(a.same_as(&a.clone()));
    assert!(!a.same_as(&b));
}

#[test]
fn progress_grants_what_a_quorum_holds() {
    let mut p = Progress::new(QuorumSet::new(&vec![set(&[1, 2, 3, 4, 5])]), &vec![6]);
    assert_eq!(6, p.len());
    assert_eq!((6, None), p.get(5));
    assert_eq!(Ok(None), p.update(&6, Some(log_id(1, 9))));
    assert_eq!(Err(None), p.update(&7, Some(log_id(1, 9))));
    assert_eq!(Ok(None), p.update(&1, Some(log_id(1, 3))));
    assert_eq!(Ok(None), p.update(&2, Some(log_id(1, 5))));
    assert_eq!(Ok(Some(log_id(1, 2))), p.update(&3, Some(log_id(1, 2))));
    assert_eq!(Ok(Some(log_id(1, 3))), p.update(&4, Some(log_id(1, 4))));
    assert_eq!(Ok(Some(log_id(1, 4))), p.update(&5, Some(log_id(1, 6))));
    // What is granted never goes back.
    assert_eq!(Ok(Some(log_id(1, 4))), p.update(&5, Some(log_id(1, 1))));
    assert_eq!(Some(log_id(1, 4)), p.granted());
}

/// The greatest last log of a voter that a quorum holds.
fn greatest_held(p: &Progress<u64>, voters: usize) -> Option<LogId<u64>> {
    let mut best = None;
    for i in 0..voters {
        let (_, log) = p.get(i);
        let holders: Vec<u64> = (0..voters)
            .map(|k| p.get(k))
            .filter(|(_, other)| !raft_engine::log_id::opt_less_than(other, &log))
            .map(|(id, _)| id)
            .collect();
        if p.quorum_set().is_quorum(&set(&holders))
            && raft_engine::log_id::opt_less_than(&best, &log)
        {
            best = log;
        }
    }
    best
}

#[test]
fn granted_is_always_the_greatest_that_a_quorum_holds() {
    let configs = vec![set(&[1, 2, 3]), set(&[3, 4])];
    let mut p = Progress::new(QuorumSet::new(&configs), &vec![6]);
    assert_eq!(None, p.granted());
    let updates = [(1, 2), (6, 9), (3, 4), (4, 1), (4, 3), (2, 3), (1, 6), (4, 6), (3, 5)];
    let expected = [None, None, None, Some(1), Some(2), Some(3), Some(3), Some(4), Some(5)];
    for ((id, index), index_granted) in updates.iter().zip(expected.iter()) {
        assert!(p.update(id, Some(log_id(1, *index))).is_ok());
        assert_eq!(index_granted.map(|x| log_id(1, x)), p.granted());
        assert_eq!(greatest_held(&p, 4), p.granted());
    }
    let smaller = p.upgrade_quorum_set(QuorumSet::new(&vec![set(&[1, 2])]), &vec![]);
    assert_eq!(Some(log_id(1, 3)), smaller.granted());
    assert_eq!(greatest_held(&smaller, 2), smaller.granted());
}

#[test]
fn upgraded_progress_keeps_what_is_known() {
    let mut p = Progress::new(QuorumSet::new(&vec![set(&[1, 2, 3])]), &vec![4]);
    assert_eq!(Ok(None), p.update(&1, Some(log_id(1, 3))));
    assert_eq!(Ok(Some(log_id(1, 2))), p.update(&2, Some(log_id(1, 2))));
    assert_eq!(Ok(Some(log_id(1, 2))), p.update(&4, Some(log_id(1, 7))));
    let q = p.upgrade_quorum_set(QuorumSet::new(&vec![set(&[1, 4])]), &vec![2, 5]);
    assert_eq!(4, q.len());
    assert_eq!((1, Some(log_id(1, 3))), q.get(0));
    assert_eq!((4, Some(log_id(1, 7))), q.get(1));
    assert_eq!((2, Some(log_id(1, 2))), q.get(2));
    assert_eq!((5, None), q.get(3));
    assert_eq!(Some(log_id(1, 3)), q.granted());
}

#[test]
fn leader_counts_votes() {
    let mut l = Leader::new(QuorumSet::new(&vec![set(&[1, 2, 3])]), &vec![]);
    assert!(!l.is_vote_granted());
    l.grant_vote_by(1);
    l.grant_vote_by(1);
    assert!(!l.is_vote_granted());
    l.grant_vote_by(9);
    assert!(!l.is_vote_granted());
    l.grant_vote_by(3);
    assert!(l.is_vote_granted());
}

#[test]
fn log_id_list_finds_every_log() {
    let ids = vec![
        log_id(1, 0),
        log_id(1, 1),
        log_id(1, 2),
        log_id(3, 3),
        log_id(5, 4),
        log_id(5, 5),
    ];
    let list = LogIdList::from_log_ids(&ids);
    for (i, id) in ids.iter().enumerate() {
        assert_eq!(Some(*id), list.get(i as u64));
    }
    assert_eq!(None, list.get(6));
    assert_eq!(Some(log_id(1, 0)), list.first());
    assert_eq!(Some(log_id(5, 5)), list.last());
    assert_eq!(None, list.last_purged());
}

#[test]
fn log_id_list_appends_truncates_and_purges() {
    let mut list = LogIdList::empty();
    assert_eq!(None, list.last());
    for i in 0..4 {
        list.append(log_id(1 + i / 2, i));
    }
    assert_eq!(Some(log_id(2, 3)), list.last());
    list.truncate(3);
    assert_eq!(Some(log_id(2, 2)), list.last());
    assert_eq!(None, list.get(3));
    list.append(log_id(4, 3));
    list.append(log_id(4, 4));
    list.purge(&log_id(2, 2));
    assert_eq!(Some(log_id(2, 2)), list.last_purged());
    assert_eq!(None, list.get(1));
    assert_eq!(Some(log_id(2, 2)), list.get(2));
    assert_eq!(Some(log_id(4, 3)), list.get(3));
    list.purge(&log_id(1, 1));
    assert_eq!(Some(log_id(2, 2)), list.last_purged());
    list.purge(&log_id(9, 9));
    assert_eq!(Some(log_id(9, 9)), list.first());
    assert_eq!(Some(log_id(9, 9)), list.last());
    assert_eq!(None, list.get(4));
}

#[test]
fn purged_first_log_at_index_zero() {
    let mut list = LogIdList::from_log_ids(&vec![log_id(1, 0), log_id(1, 1)]);
    assert_eq!(None, list.last_purged());
    list.purge(&log_id(1, 0));
    assert_eq!(Some(log_id(1, 0)), list.last_purged());
    assert_eq!(Some(log_id(1, 1)), list.last());
}
