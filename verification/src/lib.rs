use vstd::prelude::*;

pub mod error;
pub mod exchange;
pub mod live;
pub mod model;
pub mod support;
pub mod test_util;
pub mod simulated;
pub mod socket;

verus! {

/// Identifies an execution client implementation.
#[derive(Copy, Clone, Eq, PartialEq, Ord, PartialOrd, Hash, Debug, Structural)]
pub enum ClientId {
    Simulated,
    Ftx,
}

impl ClientId {
    /// The lower case name of the client.
    pub open spec fn spec_name(self) -> Seq<char> {
        match self {
            ClientId::Simulated => "simulated"@,
            ClientId::Ftx => "ftx"@,
        }
    }

    pub fn as_str(&self) -> (name: &'static str)
        ensures
            name@ == self.spec_name(),
    {
        match self {
            ClientId::Simulated => "simulated",
            ClientId::Ftx => "ftx",
        }
    }
}

} // verus!
