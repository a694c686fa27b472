//! Messages of the lobby protocol.
use vstd::prelude::*;

verus! {

/// The channels of a connection.
#[derive(Debug, Clone, Copy, PartialEq, Eq, Hash, Structural)]
pub enum Channel {
    /// The default channel.
    Reliable,
    Unreliable,
    Chat,
}

impl Channel {
    /// The channel's number on the wire: reliable 0, unreliable 1, chat 2.
    pub fn id(self) -> (n: u8)
        ensures
            n == match self {
                Channel::Reliable => 0u8,
                Channel::Unreliable => 1u8,
                Channel::Chat => 2u8,
            },
    {
        match self {
            Channel::Reliable => 0,
            Channel::Unreliable => 1,
            Channel::Chat => 2,
        }
    }
}

/// What a client asks of the lobby.
#[derive(Debug, Clone)]
pub enum ClientMessage {
    Join,
    TurnOver { player: u8 },
    Something { player: u8 },
    Disconnect,
    ClientDisconnect { player: u64 },
    GameStart,
    GameEnd,
    ChatMessage { message: String },
}

/// What the lobby tells a client.
#[derive(Debug, Clone)]
pub enum ServerMessage {
    Confirmation { player: u8 },
    Join { player: u8 },
    Turn { player: u8 },
    GameStart,
    GameEnd,
    Disconnect { player: u64 },
    Something { player: u8 },
    ServerCrash,
    Ready,
    ChatMessage { message: String },
    ClientConnected { player: u8 },
    ClientDisconnected { player: u8 },
}

} // verus!
