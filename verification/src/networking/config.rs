//! How the lobby reaches its rendezvous server.
use vstd::prelude::*;

verus! {

/// Where the rendezvous server is: on this machine, on the local network, or on the internet.
#[allow(non_camel_case_types, clippy::upper_case_acronyms)]
#[derive(Clone, Copy, Debug, PartialEq, Eq, Structural)]
pub enum ConnectionMode {
    LOCAL,
    LAN,
    REMOTE,
}

impl ConnectionMode {
    /// STUN (discovering the public address) is used only for remote connections.
    pub fn use_stun(&self) -> (b: bool)
        ensures
            b == (*self == ConnectionMode::REMOTE),
    {
        let use_stun = match self {
            ConnectionMode::REMOTE => true,
            _ => false,
        };
        use_stun
    }
}

} // verus!
