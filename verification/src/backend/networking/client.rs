//! A game client: what it keeps, how it reacts to the server, and what it sends for a line
//! typed at the terminal.
use vstd::prelude::*;
use std::collections::HashMap;
use crate::backend::game::{Game, is_new_game};
use crate::backend::networking::protocol::{ClientMessage, ServerMessage};
use crate::frontend::system::chat::ChatState;
use crate::frontend::system::transition::NetworkTransition;
use crate::networking::client::{player_label, player_label_string};

verus! {

broadcast use vstd::std_specs::hash::group_hash_axioms;

/// The join code a client will use once it connects.
#[derive(Clone, Debug)]
pub struct PendingJoin {
    pub join_code: String,
}

/// The client's number, the players it knows by name, its copy of the game, and the chat
/// messages received.
#[derive(Default)]
pub struct ClientState {
    pub assigned_player: Option<u8>,
    pub users: HashMap<u8, String>,
    pub game: Option<Game>,
    pub messages: Vec<String>,
}

/// Starts the client's copy of the game, for four players named "Player 0" to "Player 3",
/// unless it has one; nothing else changes.
pub fn initialize_game_state(state: &mut ClientState)
    ensures
        final(state).assigned_player == old(state).assigned_player,
        final(state).users@ == old(state).users@,
        final(state).messages@ == old(state).messages@,
        old(state).game is Some ==> final(state).game == old(state).game,
        old(state).game is None ==> (final(state).game matches Some(g) && is_new_game(
            g@,
            seq!["Player 0"@, "Player 1"@, "Player 2"@, "Player 3"@],
        )),
{
    if state.game.is_none() {
        let mut names: Vec<&str> = Vec::new();
        names.push("Player 0");
        names.push("Player 1");
        names.push("Player 2");
        names.push("Player 3");
        proof {
            assert(names@.map_values(|name: &str| name@)
                =~= seq!["Player 0"@, "Player 1"@, "Player 2"@, "Player 3"@]);
        }
        state.game = Some(Game::new(names));
    }
}

/// The player a message from the server names (0 for a message that names none).
pub open spec fn msg_player(msg: ServerMessage) -> u8 {
    match msg {
        ServerMessage::Confirmation { player } => player,
        ServerMessage::ClientConnected { player } => player,
        ServerMessage::ClientDisconnected { player } => player,
        _ => 0,
    }
}

/// Reacts to `msg` from the server, returning the screen change it asks for and the line to
/// show:
/// - the first confirmation assigns the client its number and leads to the lobby; every
///   confirmation records the name "Player n";
/// - the start of the game leads to the game screen;
/// - a chat message is kept in the client's messages and in the chat box;
/// - players joining and leaving, whose turn it is, a crash and the result of an action are
///   reported;
/// - anything else is ignored.
pub fn handle_server_message(state: &mut ClientState, chat_state: &mut ChatState, msg: ServerMessage) -> (r: (Option<NetworkTransition>, Option<String>))
    ensures
        final(state).messages@.len() == old(state).messages@.len() + (if msg is ChatMessage { 1int } else { 0int }),
        final(chat_state).messages@.len() == old(chat_state).messages@.len() + (if msg is ChatMessage { 1int } else { 0int }),
        forall|i: int| 0 <= i < old(state).messages@.len() ==> #[trigger] final(state).messages@[i] == old(state).messages@[i],
        forall|i: int| 0 <= i < old(chat_state).messages@.len() ==> #[trigger] final(chat_state).messages@[i] == old(chat_state).messages@[i],
        match msg {
            ServerMessage::Confirmation { player } => {
                &&& final(state).assigned_player == (if old(state).assigned_player is None { Some(player) } else { old(state).assigned_player })
                &&& r.0 == (if old(state).assigned_player is None { Some(NetworkTransition::EnterLobby) } else { None })
                &&& final(state).users@.dom() == old(state).users@.dom().insert(player)
                &&& final(state).users@[player]@ == player_label(player)
                &&& r.1 matches Some(line) && line@ == "You are "@ + player_label(player)
            },
            ServerMessage::GameStart => r.0 == Some(NetworkTransition::EnterGame) && final(state).users@ == old(state).users@
                && (r.1 matches Some(line) && line@ == "Game started"@),
            ServerMessage::ChatMessage { message } => r.0 is None && final(state).users@ == old(state).users@
                && final(state).messages@.last()@ == message@ && final(chat_state).messages@.last()@ == message@
                && (r.1 matches Some(line) && line@ == "[Chat]: "@ + message@),
            ServerMessage::ClientConnected { player } => r.0 is None
                && final(state).users@.dom() == old(state).users@.dom().insert(player)
                && final(state).users@[player]@ == player_label(player)
                && (r.1 matches Some(line) && line@ == player_label(player) + " joined"@),
            ServerMessage::ClientDisconnected { player } => r.0 is None
                && final(state).users@ == old(state).users@.remove(player)
                && (if old(state).users@.contains_key(player) {
                    r.1 matches Some(line) && line@ == old(state).users@[player]@ + " left"@
                } else {
                    r.1 is None
                }),
            ServerMessage::ActionResult { success, message } => r.0 is None && final(state).users@ == old(state).users@
                && (r.1 matches Some(line) && line@ == "Action '"@ + message@ + (if success { "' succeeded."@ } else { "' failed."@ })),
            ServerMessage::Turn { player } => r.0 is None && final(state).users@ == old(state).users@
                && (r.1 matches Some(line) && line@ == (if old(state).assigned_player == Some(player) {
                    "Your turn"@
                } else {
                    player_label(player) + "'s turn"@
                })),
            ServerMessage::ServerCrash => r.0 is None && final(state).users@ == old(state).users@
                && (r.1 matches Some(line) && line@ == "Server crashed"@),
            _ => r == (None::<NetworkTransition>, None::<String>) && final(state).users@ == old(state).users@,
        },
        !(msg is Confirmation) ==> final(state).assigned_player == old(state).assigned_player,
        final(state).game == old(state).game,
        final(state).users@.remove(msg_player(msg)) == old(state).users@.remove(msg_player(msg)),
        final(chat_state).input == old(chat_state).input,
        !(msg is ChatMessage) ==> final(state).messages == old(state).messages && final(chat_state).messages == old(chat_state).messages,
{
    match msg {
        ServerMessage::Confirmation { player } => {
            let mut transition = None;
            if state.assigned_player.is_none() {
                state.assigned_player = Some(player);
                transition = Some(NetworkTransition::EnterLobby);
            }
            state.users.insert(player, player_label_string(player));
            let mut line = String::from_str("You are ");
            let label = player_label_string(player);
            line.append(label.as_str());
            (transition, Some(line))
        },
        ServerMessage::GameStart => (Some(NetworkTransition::EnterGame), Some(String::from_str("Game started"))),
        ServerMessage::Turn { player } => {
            let mine = match state.assigned_player {
                Some(p) => p == player,
                None => false,
            };
            if mine {
                (None, Some(String::from_str("Your turn")))
            } else {
                let mut line = player_label_string(player);
                line.append("'s turn");
                (None, Some(line))
            }
        },
        ServerMessage::ServerCrash => (None, Some(String::from_str("Server crashed"))),
        ServerMessage::ChatMessage { message } => {
            let mut line = String::from_str("[Chat]: ");
            line.append(message.as_str());
            state.messages.push(message.clone());
            chat_state.messages.push(message);
            (None, Some(line))
        },
        ServerMessage::ClientConnected { player } => {
            state.users.insert(player, player_label_string(player));
            let mut line = player_label_string(player);
            line.append(" joined");
            (None, Some(line))
        },
        ServerMessage::ClientDisconnected { player } => {
            match state.users.remove(&player) {
                Some(name) => {
                    let mut line = name;
                    line.append(" left");
                    (None, Some(line))
                },
                None => (None, None),
            }
        },
        ServerMessage::ActionResult { success, message } => {
            let mut line = String::from_str("Action '");
            line.append(message.as_str());
            if success {
                line.append("' succeeded.");
            } else {
                line.append("' failed.");
            }
            (None, Some(line))
        },
        _ => (None, None),
    }
}

/// What a line typed at the terminal sends: "quit" leaves (and ends the client), anything
/// else is said in the chat.
pub fn terminal_message(line: &str) -> (r: (ClientMessage, bool))
    ensures
        line@ == "quit"@ ==> r.0 is Disconnect && r.1,
        line@ != "quit"@ ==> (r.0 matches ClientMessage::ChatMessage { message } && message@ == line@) && !r.1,
{
    let typed = String::from_str(line);
    let quit = String::from_str("quit");
    if typed == quit {
        (ClientMessage::Disconnect, true)
    } else {
        (ClientMessage::ChatMessage { message: typed }, false)
    }
}

} // verus!
