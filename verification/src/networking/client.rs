//! A lobby client's reactions to the server, and what it sends for a line typed at the
//! terminal.
use vstd::prelude::*;
use std::collections::HashMap;
use crate::networking::protocol::{ClientMessage, ServerMessage};
use crate::text::{decimal, decimal_string};

verus! {

broadcast use vstd::std_specs::hash::group_hash_axioms;

/// The player number this client was given, and the names of the players it knows.
#[derive(Debug, Default)]
pub struct ClientState {
    pub assigned_player: Option<u8>,
    pub users: HashMap<u8, String>,
}

/// "Player n".
pub open spec fn player_label(n: u8) -> Seq<char> {
    "Player "@ + decimal(n as nat)
}

/// "Player n" as a string.
pub fn player_label_string(n: u8) -> (s: String)
    ensures
        s@ == player_label(n),
{
    let mut s = String::from_str("Player ");
    let number = decimal_string(n as usize);
    s.append(number.as_str());
    s
}

/// Reacts to `msg` from the server and returns the line to show and whether to stop reading
/// messages for now:
/// - a confirmation assigns this client its number and records the name "Player n";
/// - the start of the game, whose turn it is, a chat message, and players joining and
///   leaving are reported (a leaving player by the name recorded for them);
/// - a server crash is reported and stops the reading;
/// - anything else is ignored.
pub fn handle_server_message(state: &mut ClientState, msg: ServerMessage) -> (r: (Option<String>, bool))
    ensures
        match msg {
            ServerMessage::Confirmation { player } => {
                &&& final(state).assigned_player == Some(player)
                &&& final(state).users@.dom() == old(state).users@.dom().insert(player)
                &&& final(state).users@[player]@ == player_label(player)
                &&& forall|q: u8| q != player && old(state).users@.contains_key(q) ==> #[trigger] final(state).users@[q] == old(state).users@[q]
                &&& r.0 matches Some(line) && line@ == "You are "@ + player_label(player)
                &&& !r.1
            },
            ServerMessage::ClientConnected { player } => {
                &&& final(state).assigned_player == old(state).assigned_player
                &&& final(state).users@.dom() == old(state).users@.dom().insert(player)
                &&& final(state).users@[player]@ == player_label(player)
                &&& forall|q: u8| q != player && old(state).users@.contains_key(q) ==> #[trigger] final(state).users@[q] == old(state).users@[q]
                &&& r.0 matches Some(line) && line@ == player_label(player) + " joined"@
                &&& !r.1
            },
            ServerMessage::ClientDisconnected { player } => {
                &&& final(state).assigned_player == old(state).assigned_player
                &&& final(state).users@ == old(state).users@.remove(player)
                &&& r.0 matches Some(line) && line@ == (if old(state).users@.contains_key(player) {
                    old(state).users@[player]@
                } else {
                    player_label(player)
                }) + " left"@
                &&& !r.1
            },
            _ => {
                &&& final(state).assigned_player == old(state).assigned_player
                &&& final(state).users@ == old(state).users@
                &&& match msg {
                    ServerMessage::GameStart => r.0 matches Some(line) && line@ == "Game started"@ && !r.1,
                    ServerMessage::Turn { player } => r.0 matches Some(line) && !r.1 && line@ == (if old(state).assigned_player == Some(player) {
                        "Your turn"@
                    } else {
                        player_label(player) + "'s turn"@
                    }),
                    ServerMessage::ServerCrash => r.0 matches Some(line) && line@ == "Server crashed"@ && r.1,
                    ServerMessage::ChatMessage { message } => r.0 matches Some(line) && line@ == "> "@ + message@ && !r.1,
                    _ => r.0 is None && !r.1,
                }
            },
        },
{
    match msg {
        ServerMessage::Confirmation { player } => {
            state.assigned_player = Some(player);
            state.users.insert(player, player_label_string(player));
            let mut line = String::from_str("You are ");
            let label = player_label_string(player);
            line.append(label.as_str());
            (Some(line), false)
        },
        ServerMessage::GameStart => (Some(String::from_str("Game started")), false),
        ServerMessage::Turn { player } => {
            let mine = match state.assigned_player {
                Some(p) => p == player,
                None => false,
            };
            if mine {
                (Some(String::from_str("Your turn")), false)
            } else {
                let mut line = player_label_string(player);
                line.append("'s turn");
                (Some(line), false)
            }
        },
        ServerMessage::ServerCrash => (Some(String::from_str("Server crashed")), true),
        ServerMessage::ChatMessage { message } => {
            let mut line = String::from_str("> ");
            line.append(message.as_str());
            (Some(line), false)
        },
        ServerMessage::ClientConnected { player } => {
            state.users.insert(player, player_label_string(player));
            let mut line = player_label_string(player);
            line.append(" joined");
            (Some(line), false)
        },
        ServerMessage::ClientDisconnected { player } => {
            let mut line = match state.users.remove(&player) {
                Some(name) => name,
                None => player_label_string(player),
            };
            line.append(" left");
            (Some(line), false)
        },
        _ => (None, false),
    }
}

/// What a line typed at the terminal sends: "quit" leaves (and ends the client), anything
/// else is said in the chat.
pub fn terminal_message(line: &str) -> (r: (ClientMessage, bool))
    ensures
        line@ == "quit"@ ==> r.0 is Disconnect && r.1,
        line@ != "quit"@ ==> (r.0 matches ClientMessage::ChatMessage { message } && message@ == line@) && !r.1,
{
    let typed = String::from_str(line);
    let quit = String::from_str("quit");
    if typed == quit {
        (ClientMessage::Disconnect, true)
    } else {
        (ClientMessage::ChatMessage { message: typed }, false)
    }
}

} // verus!
