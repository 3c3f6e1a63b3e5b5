//! Whether the patch server is open to clients.

use vstd::prelude::*;

verus! {

/// The state of the server that is written beside the manifest.
#[derive(Debug, Clone, Copy, PartialEq, Eq, Structural)]
pub enum ServerStatus {
    Online,
    Maintenance,
}

impl ServerStatus {
    /// The status that a run writes: maintenance if it was asked for, else online.
    pub open spec fn of(maintenance: bool) -> ServerStatus {
        if maintenance {
            ServerStatus::Maintenance
        } else {
            ServerStatus::Online
        }
    }

    /// The status as JSON text: the variant's name as a string.
    pub open spec fn json(self) -> Seq<char> {
        match self {
            ServerStatus::Online => "\"Online\""@,
            ServerStatus::Maintenance => "\"Maintenance\""@,
        }
    }

    /// The status that a run with this maintenance flag writes.
    pub fn from_maintenance(maintenance: bool) -> (status: ServerStatus)
        ensures
            status == ServerStatus::of(maintenance),
    {
        if maintenance {
            ServerStatus::Maintenance
        } else {
            ServerStatus::Online
        }
    }

    /// Writes the status as JSON text.
    pub fn to_json(&self) -> (text: String)
        ensures
            text@ == self.json(),
    {
        match self {
            ServerStatus::Online => "\"Online\"".to_owned(),
            ServerStatus::Maintenance => "\"Maintenance\"".to_owned(),
        }
    }

    /// Reads a status back from the text that `to_json` writes. Any other text
    /// is refused.
    pub fn from_json(text: &str) -> (status: Option<ServerStatus>)
        ensures
            match status {
                Some(s) => text@ == s.json(),
                None => forall|s: ServerStatus| text@ != s.json(),
            },
    {
        let given = text.to_owned();
        if given == ServerStatus::Online.to_json() {
            Some(ServerStatus::Online)
        } else if given == ServerStatus::Maintenance.to_json() {
            Some(ServerStatus::Maintenance)
        } else {
            None
        }
    }
}

/// The two states are written differently, so the text tells them apart.
pub proof fn lemma_status_json_injective(a: ServerStatus, b: ServerStatus)
    requires
        a.json() == b.json(),
    ensures
        a == b,
{
    reveal_strlit("\"Online\"");
    reveal_strlit("\"Maintenance\"");
    assert("\"Online\""@.len() == 8);
    assert("\"Maintenance\""@.len() == 13);
}

} // verus!
