//! Scenarios: a named, ordered list of timed operations on the simulated
//! network. Offsets and timeouts are whole milliseconds.

use vstd::prelude::*;

verus! {

/// One step of a scenario.
#[derive(Clone, Debug)]
pub enum Action {
    CreateHomeserver { id: String },
    CreateClient { id: String },
    ConnectClient { client_id: String, homeserver_id: String },
    WriteData { client_id: String, path: String, content: String },
    ReadData { client_id: String, path: String },
    /// Wait for a storage node to answer its liveness probe.
    WaitForHomeserver { homeserver_id: String, timeout_millis: u64 },
}

/// An action and its offset from the start of the run.
#[derive(Clone, Debug)]
pub struct Operation {
    pub at_millis: u64,
    pub action: Action,
}

#[derive(Clone, Debug)]
pub struct Scenario {
    pub name: String,
    pub description: String,
    pub operations: Vec<Operation>,
}

/// The tag that names the kind of an action in scenario files.
pub open spec fn spec_tag(a: Action) -> Seq<char> {
    match a {
        Action::CreateHomeserver { .. } => "create_homeserver"@,
        Action::CreateClient { .. } => "create_client"@,
        Action::ConnectClient { .. } => "connect_client"@,
        Action::WriteData { .. } => "write_data"@,
        Action::ReadData { .. } => "read_data"@,
        Action::WaitForHomeserver { .. } => "wait_for_homeserver"@,
    }
}

/// The node an action is about: the node created, the client acting, or the
/// storage node waited for.
pub open spec fn spec_subject(a: Action) -> Seq<char> {
    match a {
        Action::CreateHomeserver { id } => id@,
        Action::CreateClient { id } => id@,
        Action::ConnectClient { client_id, .. } => client_id@,
        Action::WriteData { client_id, .. } => client_id@,
        Action::ReadData { client_id, .. } => client_id@,
        Action::WaitForHomeserver { homeserver_id, .. } => homeserver_id@,
    }
}

impl Action {
    pub fn tag(&self) -> (r: &'static str)
        ensures
            r@ == spec_tag(*self),
    {
        match self {
            Action::CreateHomeserver { .. } => "create_homeserver",
            Action::CreateClient { .. } => "create_client",
            Action::ConnectClient { .. } => "connect_client",
            Action::WriteData { .. } => "write_data",
            Action::ReadData { .. } => "read_data",
            Action::WaitForHomeserver { .. } => "wait_for_homeserver",
        }
    }

    pub fn subject(&self) -> (r: &str)
        ensures
            r@ == spec_subject(*self),
    {
        match self {
            Action::CreateHomeserver { id } => id.as_str(),
            Action::CreateClient { id } => id.as_str(),
            Action::ConnectClient { client_id, .. } => client_id.as_str(),
            Action::WriteData { client_id, .. } => client_id.as_str(),
            Action::ReadData { client_id, .. } => client_id.as_str(),
            Action::WaitForHomeserver { homeserver_id, .. } => homeserver_id.as_str(),
        }
    }
}

impl Scenario {
    /// Whether the offsets never decrease along the list.
    pub open spec fn spec_time_ordered(&self) -> bool {
        forall|i: int, j: int|
            0 <= i <= j < self.operations@.len() ==> (#[trigger] self.operations@[i]).at_millis
                <= (#[trigger] self.operations@[j]).at_millis
    }

    pub fn is_time_ordered(&self) -> (r: bool)
        ensures
            r == self.spec_time_ordered(),
    {
        let n = self.operations.len();
        let mut i: usize = 1;
        if n == 0 {
            return true;
        }
        while i < n
            invariant
                n == self.operations@.len(),
                1 <= i <= n,
                forall|a: int, b: int|
                    0 <= a <= b < i ==> (#[trigger] self.operations@[a]).at_millis
                        <= (#[trigger] self.operations@[b]).at_millis,
            decreases n - i,
        {
            if self.operations[i - 1].at_millis > self.operations[i].at_millis {
                return false;
            }
            proof {
                assert forall|a: int, b: int|
                    0 <= a <= b < i + 1 implies (#[trigger] self.operations@[a]).at_millis
                    <= (#[trigger] self.operations@[b]).at_millis by {
                    if b == i && a < i {
                        assert(self.operations@[a].at_millis <= self.operations@[i - 1].at_millis);
                    }
                }
            }
            i = i + 1;
        }
        true
    }
}

} // verus!
