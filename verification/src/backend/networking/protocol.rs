//! Messages between the game's clients and its server.
use vstd::prelude::*;
use crate::backend::game::DevCardInput;

verus! {

/// The channels of a connection.
#[derive(Debug, Clone, Copy, PartialEq, Eq, Hash, Structural)]
pub enum Channel {
    /// The default channel.
    Reliable,
    Unreliable,
    Chat,
}

impl Channel {
    /// The channel's number on the wire: reliable 0, unreliable 1, chat 2.
    pub fn id(self) -> (n: u8)
        ensures
            n == match self {
                Channel::Reliable => 0u8,
                Channel::Unreliable => 1u8,
                Channel::Chat => 2u8,
            },
    {
        match self {
            Channel::Reliable => 0,
            Channel::Unreliable => 1,
            Channel::Chat => 2,
        }
    }
}

/// What a client asks of the server.
#[derive(Debug, Clone)]
pub enum ClientMessage {
    Join,
    TurnOver { player: u8 },
    Something { player: u8 },
    Disconnect,
    ClientDisconnect { player: u64 },
    GameStart,
    GameEnd,
    ChatMessage { message: String },
    BuildSettlement { player_id: u8, vertex_id: usize },
    BuildRoad { player_id: u8, vertex1: usize, vertex2: usize },
    BuildCity { player_id: u8, vertex_id: usize },
    BuyDevCard { player_id: u8 },
    PlayDevCard { player_id: u8, card_id: usize, input: DevCardInput },
    RollDice { player_id: u8 },
    MoveRobber { tile_id: usize, victim_id: Option<usize> },
    EndTurn { player_id: u8 },
}

/// What the server tells a client.
#[derive(Debug, Clone)]
pub enum ServerMessage {
    Confirmation { player: u8 },
    Join { player: u8 },
    Turn { player: u8 },
    GameStart,
    GameEnd,
    Disconnect { player: u64 },
    Something { player: u8 },
    ServerCrash,
    Ready,
    ChatMessage { message: String },
    ClientConnected { player: u8 },
    ClientDisconnected { player: u8 },
    ActionResult { success: bool, message: String },
}

/// A `ServerMessage` with its text as a sequence of characters.
pub enum ServerMessageView {
    Confirmation { player: u8 },
    Join { player: u8 },
    Turn { player: u8 },
    GameStart,
    GameEnd,
    Disconnect { player: u64 },
    Something { player: u8 },
    ServerCrash,
    Ready,
    ChatMessage { message: Seq<char> },
    ClientConnected { player: u8 },
    ClientDisconnected { player: u8 },
    ActionResult { success: bool, message: Seq<char> },
}

impl View for ServerMessage {
    type V = ServerMessageView;

    open spec fn view(&self) -> ServerMessageView {
        match self {
            ServerMessage::Confirmation { player } => ServerMessageView::Confirmation { player: *player },
            ServerMessage::Join { player } => ServerMessageView::Join { player: *player },
            ServerMessage::Turn { player } => ServerMessageView::Turn { player: *player },
            ServerMessage::GameStart => ServerMessageView::GameStart,
            ServerMessage::GameEnd => ServerMessageView::GameEnd,
            ServerMessage::Disconnect { player } => ServerMessageView::Disconnect { player: *player },
            ServerMessage::Something { player } => ServerMessageView::Something { player: *player },
            ServerMessage::ServerCrash => ServerMessageView::ServerCrash,
            ServerMessage::Ready => ServerMessageView::Ready,
            ServerMessage::ChatMessage { message } => ServerMessageView::ChatMessage { message: message@ },
            ServerMessage::ClientConnected { player } => ServerMessageView::ClientConnected { player: *player },
            ServerMessage::ClientDisconnected { player } => ServerMessageView::ClientDisconnected { player: *player },
            ServerMessage::ActionResult { success, message } => ServerMessageView::ActionResult { success: *success, message: message@ },
        }
    }
}

} // verus!
