//! Notices shown to every player, and reports sent to the server.
use vstd::prelude::*;

verus! {

/// Game events shown to all connected clients: whose turn it is, who joined, a crash.
#[derive(Debug, Clone)]
pub enum GameMessage {
    Confirmation { player: u8 },
    JoinRequest { player: u8 },
    Join { player: u8 },
    GameStart,
    GameEnd,
    Turn { player: u8 },
    TurnOver { player: u8 },
    Something { player: u8 },
    Disconnect { player: u8 },
    ServerCrash,
}

/// Reports to the server: join requests, failures, crashes.
#[derive(Debug, Clone)]
pub enum ServerMessage {
    JoinRequest { pip: String },
    Joined { player: u8, pip: String },
    Disconnect { player: u8, error: String },
    FailedInit { player: u8, error: String },
    FailedConnect { player: u8, error: String },
    ServerCrash { error: String },
}

} // verus!
