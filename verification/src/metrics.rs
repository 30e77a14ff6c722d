//! What kind of metrics have changed.
use vstd::prelude::*;

verus! {

/// The kinds of metrics that have changed since the runtime last reported them.
#[derive(Clone, Copy, Debug, PartialEq, Eq)]
pub struct MetricsChangeFlags {
    /// The replication streams have changed.
    pub replication: bool,
    /// Local data, such as logs, the vote or a snapshot, has changed.
    pub local_data: bool,
    /// The membership or the server state has changed.
    pub cluster: bool,
}

impl MetricsChangeFlags {
    /// Nothing has changed.
    pub open spec fn none() -> Self {
        MetricsChangeFlags { replication: false, local_data: false, cluster: false }
    }

    /// Nothing has changed.
    pub fn unchanged() -> (r: Self)
        ensures
            r == Self::none(),
    {
        MetricsChangeFlags { replication: false, local_data: false, cluster: false }
    }

    /// The replication streams have changed.
    pub fn set_replication_changed(&mut self)
        ensures
            *final(self) == (MetricsChangeFlags { replication: true, ..*old(self) }),
    {
        self.replication = true;
    }

    /// Local data has changed.
    pub fn set_data_changed(&mut self)
        ensures
            *final(self) == (MetricsChangeFlags { local_data: true, ..*old(self) }),
    {
        self.local_data = true;
    }

    /// The membership or the server state has changed.
    pub fn set_cluster_changed(&mut self)
        ensures
            *final(self) == (MetricsChangeFlags { cluster: true, ..*old(self) }),
    {
        self.cluster = true;
    }
}

} // verus!
