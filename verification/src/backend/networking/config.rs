//! How a client reaches the rendezvous server, and whether a game is played on one machine.
use vstd::prelude::*;

verus! {

/// Where the rendezvous server is: on this machine, on the local network, or on the internet.
#[allow(non_camel_case_types, clippy::upper_case_acronyms)]
#[derive(Clone, Copy, Debug, PartialEq, Eq, Structural)]
pub enum ConnectionMode {
    LOCAL,
    LAN,
    REMOTE,
}

/// A game on one machine, or one played over the network.
#[derive(Clone, Copy, Debug, PartialEq, Eq, Structural)]
pub enum GameMode {
    Local,
    Multiplayer,
}

impl ConnectionMode {
    /// STUN (discovering the public address) is used only for remote connections.
    pub fn use_stun(&self) -> (b: bool)
        ensures
            b == (*self == ConnectionMode::REMOTE),
    {
        match self {
            ConnectionMode::REMOTE => true,
            _ => false,
        }
    }
}

} // verus!
