//! Requests and responses that nodes exchange, and the errors of the engine.
use vstd::prelude::*;

use crate::log_id::LogId;
use crate::membership::{Membership, MembershipView};
use crate::node::Node;
use crate::vote::Vote;

verus! {

/// A candidate asks for a vote.
#[derive(Copy, Debug, PartialEq, Eq)]
pub struct VoteRequest<NID> {
    /// The vote that is asked for.
    pub vote: Vote<NID>,
    /// The last log of the candidate.
    pub last_log_id: Option<LogId<NID>>,
}

impl<NID: Copy> Clone for VoteRequest<NID> {
    fn clone(&self) -> (r: Self)
        ensures
            r == *self,
    {
        *self
    }
}

/// The answer to a [`VoteRequest`].
#[derive(Copy, Debug, PartialEq, Eq)]
pub struct VoteResponse<NID> {
    /// The vote of the responding node after it handled the request.
    pub vote: Vote<NID>,
    /// Whether the vote is granted.
    pub vote_granted: bool,
    /// The last log of the responding node.
    pub last_log_id: Option<LogId<NID>>,
}

impl<NID: Copy> Clone for VoteResponse<NID> {
    fn clone(&self) -> (r: Self)
        ensures
            r == *self,
    {
        *self
    }
}

/// Why a vote is rejected.
#[derive(Copy, Debug, PartialEq, Eq)]
pub enum RejectVoteRequest<NID> {
    /// The node has seen a greater vote.
    ByVote(Vote<NID>),
    /// The node has a greater last log.
    ByLastLogId(Option<LogId<NID>>),
}

impl<NID: Copy> Clone for RejectVoteRequest<NID> {
    fn clone(&self) -> (r: Self)
        ensures
            r == *self,
    {
        *self
    }
}

/// The answer to a request to append entries.
#[derive(Copy, Debug, PartialEq, Eq)]
pub enum AppendEntriesResponse<NID> {
    /// The entries are appended.
    Success,
    /// The log that precedes the entries does not match the local one.
    Conflict,
    /// The node has seen a greater vote.
    HigherVote(Vote<NID>),
}

impl<NID: Copy> Clone for AppendEntriesResponse<NID> {
    fn clone(&self) -> (r: Self)
        ensures
            r == *self,
    {
        *self
    }
}

/// The node is not in the state that initializing it requires.
#[derive(Copy, Debug, PartialEq, Eq)]
pub struct NotAllowed<NID> {
    /// The last log of the node.
    pub last_log_id: Option<LogId<NID>>,
    /// The vote of the node.
    pub vote: Vote<NID>,
}

impl<NID: Copy> Clone for NotAllowed<NID> {
    fn clone(&self) -> (r: Self)
        ensures
            r == *self,
    {
        *self
    }
}

/// The node is not a voter of the initial membership.
#[derive(Debug, PartialEq, Eq)]
pub struct NotInMembers<NID, N> {
    /// The node that is to be initialized.
    pub node_id: NID,
    /// The initial membership.
    pub membership: Membership<NID, N>,
}

/// Why a node is not initialized.
#[derive(Debug, PartialEq, Eq)]
pub enum InitializeError<NID, N> {
    /// The node is not in the state that initializing it requires.
    NotAllowed(NotAllowed<NID>),
    /// The node is not a voter of the initial membership.
    NotInMembers(NotInMembers<NID, N>),
    /// The first entry does not hold a membership config.
    NotAMembershipEntry,
}

/// The mathematical view of an [`InitializeError`].
#[verifier::ext_equal]
pub enum InitializeErrorView<NID, NV> {
    /// The node is not in the state that initializing it requires.
    NotAllowed(NotAllowed<NID>),
    /// The node is not a voter of the initial membership.
    NotInMembers {
        /// The node that is to be initialized.
        node_id: NID,
        /// The initial membership.
        membership: MembershipView<NID, NV>,
    },
    /// The first entry does not hold a membership config.
    NotAMembershipEntry,
}

impl<NID, N: Node> View for InitializeError<NID, N> {
    type V = InitializeErrorView<NID, N::V>;

    open spec fn view(&self) -> InitializeErrorView<NID, N::V> {
        match self {
            InitializeError::NotAllowed(e) => InitializeErrorView::NotAllowed(*e),
            InitializeError::NotInMembers(e) => InitializeErrorView::NotInMembers {
                node_id: e.node_id,
                membership: e.membership@,
            },
            InitializeError::NotAMembershipEntry => InitializeErrorView::NotAMembershipEntry,
        }
    }
}

/// The outcome of initializing a node, with the view of the error.
pub open spec fn init_result<NID, N: Node>(r: Result<(), InitializeError<NID, N>>) -> Result<
    (),
    InitializeErrorView<NID, N::V>,
> {
    match r {
        Ok(_) => Ok(()),
        Err(e) => Err(e@),
    }
}

} // verus!
