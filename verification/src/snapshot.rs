//! Snapshot metadata.
use vstd::prelude::*;

use crate::log_id::LogId;
use crate::membership::{EffectiveMembership, EffectiveMembershipView};
use crate::node::{Node, NodeId};

verus! {

/// The mathematical view of a [`SnapshotMeta`].
#[verifier::ext_equal]
pub struct SnapshotMetaView<NID, NV> {
    /// The last log that the snapshot includes.
    pub last_log_id: Option<LogId<NID>>,
    /// The last membership that the snapshot includes.
    pub last_membership: EffectiveMembershipView<NID, NV>,
    /// What identifies the snapshot.
    pub snapshot_id: Seq<char>,
}

impl<NID: NodeId, NV> SnapshotMetaView<NID, NV> {
    /// The metadata of a node that has no snapshot.
    pub open spec fn empty() -> Self {
        SnapshotMetaView {
            last_log_id: None,
            last_membership: EffectiveMembershipView::empty(),
            snapshot_id: Seq::empty(),
        }
    }
}

/// The metadata of a snapshot.
#[derive(Debug, PartialEq, Eq)]
pub struct SnapshotMeta<NID, N> {
    /// The last log that the snapshot includes.
    pub last_log_id: Option<LogId<NID>>,
    /// The last membership that the snapshot includes.
    pub last_membership: EffectiveMembership<NID, N>,
    /// What identifies the snapshot.
    pub snapshot_id: String,
}

impl<NID, N: Node> View for SnapshotMeta<NID, N> {
    type V = SnapshotMetaView<NID, N::V>;

    open spec fn view(&self) -> SnapshotMetaView<NID, N::V> {
        SnapshotMetaView {
            last_log_id: self.last_log_id,
            last_membership: self.last_membership@,
            snapshot_id: self.snapshot_id@,
        }
    }
}

impl<NID: NodeId, N: Node> Clone for SnapshotMeta<NID, N> {
    fn clone(&self) -> (r: Self)
        ensures
            r@ == self@,
    {
        SnapshotMeta {
            last_log_id: self.last_log_id,
            last_membership: self.last_membership.clone(),
            snapshot_id: self.snapshot_id.clone(),
        }
    }
}

impl<NID: NodeId, N: Node> SnapshotMeta<NID, N> {
    /// The metadata of a node that has no snapshot.
    pub fn empty() -> (r: Self)
        ensures
            r@ == SnapshotMetaView::<NID, N::V>::empty(),
    {
        SnapshotMeta {
            last_log_id: None,
            last_membership: EffectiveMembership::empty(),
            snapshot_id: String::new(),
        }
    }
}

} // verus!
