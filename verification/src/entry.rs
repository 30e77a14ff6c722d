//! Log entries, as far as the engine reads them.
use vstd::prelude::*;

use crate::log_id::LogId;
use crate::membership::{Membership, MembershipView};
use crate::node::{Node, NodeId};

verus! {

/// Something that carries a log id.
pub trait RaftLogId<NID: NodeId>: Sized {
    /// The log id that is carried.
    spec fn spec_log_id(&self) -> LogId<NID>;

    /// The same thing with another log id.
    spec fn with_log_id(&self, log_id: LogId<NID>) -> Self;

    /// A log id that is set is the one that is carried.
    proof fn log_id_is_set(&self, log_id: LogId<NID>)
        ensures
            self.with_log_id(log_id).spec_log_id() == log_id,
    ;

    /// The log id that is carried.
    fn get_log_id(&self) -> (r: &LogId<NID>)
        ensures
            *r == self.spec_log_id(),
    ;

    /// Sets the log id.
    fn set_log_id(&mut self, log_id: &LogId<NID>)
        ensures
            *final(self) == old(self).with_log_id(*log_id),
    ;
}

/// A log entry: a log id and a payload that may be a membership config.
pub trait RaftEntry<NID: NodeId, N: Node>: RaftLogId<NID> {
    /// The membership config that the entry holds, if it holds one.
    spec fn spec_membership(&self) -> Option<MembershipView<NID, N::V>>;

    /// Setting the log id keeps the payload.
    proof fn payload_is_kept(&self, log_id: LogId<NID>)
        ensures
            self.with_log_id(log_id).spec_membership() == self.spec_membership(),
    ;

    /// The membership config that the entry holds, if it holds one.
    fn get_membership(&self) -> (r: Option<&Membership<NID, N>>)
        ensures
            match r {
                None => self.spec_membership() is None,
                Some(m) => self.spec_membership() == Some(m@),
            },
    ;
}

/// What the engine reads of a log entry.
#[verifier::ext_equal]
pub struct EntryView<NID, NV> {
    /// The log id of the entry.
    pub log_id: LogId<NID>,
    /// The membership config in the entry, if there is one.
    pub membership: Option<MembershipView<NID, NV>>,
}

/// What the engine reads of a list of entries.
pub open spec fn entries_view<NID: NodeId, N: Node, Ent: RaftEntry<NID, N>>(
    entries: Seq<Ent>,
) -> Seq<EntryView<NID, N::V>> {
    entries.map_values(
        |e: Ent| EntryView { log_id: e.spec_log_id(), membership: e.spec_membership() },
    )
}

/// The log ids of a list of things that carry one.
pub open spec fn carried_log_ids<NID: NodeId, Ent: RaftLogId<NID>>(entries: Seq<Ent>) -> Seq<
    LogId<NID>,
> {
    entries.map_values(|e: Ent| e.spec_log_id())
}

/// The log ids of a list of entries.
pub open spec fn entry_log_ids<NID, NV>(entries: Seq<EntryView<NID, NV>>) -> Seq<LogId<NID>> {
    entries.map_values(|e: EntryView<NID, NV>| e.log_id)
}

/// The payload of a log entry.
#[derive(Debug, PartialEq, Eq)]
pub enum EntryPayload<NID, N, D> {
    /// Nothing; a leader appends it when it is established.
    Blank,
    /// Application data.
    Normal(D),
    /// A membership config.
    Membership(Membership<NID, N>),
}

/// A log entry.
#[derive(Debug, PartialEq, Eq)]
pub struct Entry<NID, N, D> {
    /// The log id of the entry.
    pub log_id: LogId<NID>,
    /// What the entry holds.
    pub payload: EntryPayload<NID, N, D>,
}

impl<NID: NodeId, N: Node, D> RaftLogId<NID> for Entry<NID, N, D> {
    open spec fn spec_log_id(&self) -> LogId<NID> {
        self.log_id
    }

    open spec fn with_log_id(&self, log_id: LogId<NID>) -> Self {
        Entry { log_id, ..*self }
    }

    proof fn log_id_is_set(&self, log_id: LogId<NID>) {
    }

    fn get_log_id(&self) -> (r: &LogId<NID>) {
        &self.log_id
    }

    fn set_log_id(&mut self, log_id: &LogId<NID>) {
        self.log_id = *log_id;
    }
}

impl<NID: NodeId, N: Node, D> RaftEntry<NID, N> for Entry<NID, N, D> {
    open spec fn spec_membership(&self) -> Option<MembershipView<NID, N::V>> {
        match self.payload {
            EntryPayload::Membership(m) => Some(m@),
            _ => None,
        }
    }

    proof fn payload_is_kept(&self, log_id: LogId<NID>) {
    }

    fn get_membership(&self) -> (r: Option<&Membership<NID, N>>) {
        match &self.payload {
            EntryPayload::Membership(m) => Some(m),
            _ => None,
        }
    }
}

/// The log ids of entries are those of the entries, one by one.
pub proof fn entry_log_ids_are_of_the_entries<NID, NV>(entries: Seq<EntryView<NID, NV>>)
    ensures
        entry_log_ids(entries).len() == entries.len(),
        forall|i: int|
            0 <= i < entries.len() ==> #[trigger] entry_log_ids(entries)[i] == entries[i].log_id,
{
}

/// What the engine reads of entries is the log id and the membership of each of them.
pub proof fn entries_are_read_one_by_one<NID: NodeId, N: Node, Ent: RaftEntry<NID, N>>(
    entries: Seq<Ent>,
)
    ensures
        entries_view::<NID, N, Ent>(entries).len() == entries.len(),
        carried_log_ids::<NID, Ent>(entries).len() == entries.len(),
        forall|i: int|
            #![trigger entries[i]]
            0 <= i < entries.len() ==> {
                &&& entries_view::<NID, N, Ent>(entries)[i].log_id == entries[i].spec_log_id()
                &&& entries_view::<NID, N, Ent>(entries)[i].membership
                    == entries[i].spec_membership()
                &&& carried_log_ids::<NID, Ent>(entries)[i] == entries[i].spec_log_id()
            },
{
}

/// An entry carries its log id, and holds a membership if and only if its payload is one. Setting the
/// log id keeps the payload.
pub proof fn an_entry_holds_its_payload<NID: NodeId, N: Node, D>(
    e: Entry<NID, N, D>,
    log_id: LogId<NID>,
)
    ensures
        e.spec_log_id() == e.log_id,
        e.payload matches EntryPayload::Membership(m) ==> e.spec_membership() == Some(m@),
        !(e.payload is Membership) ==> e.spec_membership() is None,
        e.with_log_id(log_id).log_id == log_id,
        e.with_log_id(log_id).payload == e.payload,
{
}

} // verus!
