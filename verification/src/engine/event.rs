//! The events that an engine handles, and runs of them.
use vstd::prelude::*;

use crate::engine::model::EngineView;
use crate::entry::EntryView;
use crate::log_id::LogId;
use crate::membership::MembershipView;
use crate::message::{VoteRequest, VoteResponse};
use crate::node::NodeId;
use crate::snapshot::SnapshotMetaView;
use crate::vote::Vote;

verus! {

/// What can happen to an engine.
pub enum Event<NID, NV> {
    /// The application initializes the node with an entry that may hold a membership.
    Initialize { membership: Option<MembershipView<NID, NV>> },
    /// The election timer fires.
    Elect,
    /// A vote arrives with a request that the engine does not handle itself.
    SeeVote { vote: Vote<NID> },
    /// A candidate asks for a vote.
    HandleVoteReq { req: VoteRequest<NID> },
    /// A node answers a request for its vote.
    HandleVoteResp { target: NID, resp: VoteResponse<NID> },
    /// A client proposes entries.
    LeaderAppend { entries: Seq<EntryView<NID, NV>> },
    /// A leader sends entries.
    HandleAppendEntries {
        vote: Vote<NID>,
        prev_log_id: Option<LogId<NID>>,
        entries: Seq<EntryView<NID, NV>>,
        leader_committed: Option<LogId<NID>>,
    },
    /// A node holds the logs up to `log_id`.
    UpdateProgress { node_id: NID, log_id: Option<LogId<NID>> },
    /// A snapshot arrives.
    InstallSnapshot { meta: SnapshotMetaView<NID, NV> },
    /// A snapshot is built.
    FinishBuildingSnapshot { meta: SnapshotMetaView<NID, NV> },
}

impl<NID: NodeId, NV> EngineView<NID, NV> {
    /// Whether the engine can handle `event`.
    pub open spec fn can_step(self, event: Event<NID, NV>) -> bool {
        match event {
            Event::Initialize { membership } => true,
            Event::Elect => self.can_elect(),
            Event::SeeVote { vote } => true,
            Event::HandleVoteReq { req } => true,
            Event::HandleVoteResp { target, resp } => self.can_handle_vote_resp(target, resp),
            Event::LeaderAppend { entries } => entries.len() > 0 ==> self.can_assign(entries.len()),
            Event::HandleAppendEntries { vote, prev_log_id, entries, leader_committed } =>
                self.can_handle_append_entries_req(vote, prev_log_id, entries),
            Event::UpdateProgress { node_id, log_id } => true,
            Event::InstallSnapshot { meta } => self.can_install_snapshot(meta),
            Event::FinishBuildingSnapshot { meta } => self.can_finish_building_snapshot(meta),
        }
    }

    /// The engine after it has handled `event`.
    #[verifier::opaque]
    pub open spec fn step(self, event: Event<NID, NV>) -> Self {
        match event {
            Event::Initialize { membership } => self.initialize(membership),
            Event::Elect => self.elect(),
            Event::SeeVote { vote } => self.handle_vote_change(vote),
            Event::HandleVoteReq { req } => self.handle_vote_req(req),
            Event::HandleVoteResp { target, resp } => self.handle_vote_resp(target, resp),
            Event::LeaderAppend { entries } => self.leader_append_entries(entries),
            Event::HandleAppendEntries { vote, prev_log_id, entries, leader_committed } =>
                self.handle_append_entries_req(vote, prev_log_id, entries, leader_committed),
            Event::UpdateProgress { node_id, log_id } => self.update_progress(node_id, log_id),
            Event::InstallSnapshot { meta } => self.install_snapshot(meta),
            Event::FinishBuildingSnapshot { meta } => self.finish_building_snapshot(meta),
        }
    }

    /// The engine after it has handled `events`, one after the other.
    pub open spec fn run(self, events: Seq<Event<NID, NV>>) -> Self
        decreases events.len(),
    {
        if events.len() == 0 {
            self
        } else {
            self.run(events.drop_last()).step(events.last())
        }
    }

    /// Whether the engine can handle `events`, one after the other.
    pub open spec fn can_run(self, events: Seq<Event<NID, NV>>) -> bool
        decreases events.len(),
    {
        events.len() > 0 ==> {
            &&& self.can_run(events.drop_last())
            &&& self.run(events.drop_last()).can_step(events.last())
        }
    }

    /// The ids of the logs that `event` brings: those that its entries have, or that they get.
    pub open spec fn input_ids(self, event: Event<NID, NV>) -> Seq<LogId<NID>> {
        match event {
            Event::Initialize { membership } => self.new_log_ids(1),
            Event::LeaderAppend { entries } => self.new_log_ids(entries.len()),
            Event::HandleAppendEntries { vote, prev_log_id, entries, leader_committed } =>
                crate::entry::entry_log_ids(entries),
            _ => Seq::empty(),
        }
    }
}

} // verus!
