//! The lobby server's answers to its clients: numbers for newcomers, relayed chat, and
//! departures. The caller receives and sends.
use vstd::prelude::*;
use std::collections::HashMap;
use crate::networking::protocol::{ClientMessage, ServerMessage};
use crate::text::{decimal, decimal_string};

verus! {

broadcast use vstd::std_specs::hash::group_hash_axioms;

/// The clients in the lobby with their player numbers and names, and the next number.
#[derive(Debug, Default)]
pub struct ServerPlayers {
    pub players: HashMap<u64, u8>,
    pub names: HashMap<u64, String>,
    pub next_player_id: u8,
}

/// One thing for the caller to do after a message is handled.
#[derive(Debug)]
pub enum LobbyDelivery {
    /// Send `message` to `client`.
    To { client: u64, message: ServerMessage },
    /// Send `message` to every connected client.
    ToAll { message: ServerMessage },
    /// Close the connection of `client`.
    Disconnect { client: u64 },
}

/// Answers `msg` from `client`:
/// - `Join`: the client gets the next player number and the name "Player n", is confirmed,
///   and everybody learns of the join;
/// - `Something`: everybody learns that the client's player (0 if unknown) did something;
/// - a chat message goes to everybody;
/// - `Disconnect` from a known client: it is dropped, everybody learns its number, and its
///   connection is closed; from an unknown client nothing happens;
/// - anything else is ignored.
pub fn handle_lobby_message(state: &mut ServerPlayers, client: u64, msg: ClientMessage) -> (out: Vec<LobbyDelivery>)
    requires
        msg is Join ==> old(state).next_player_id < 255,
    ensures
        match msg {
            ClientMessage::Join => {
                let id = old(state).next_player_id;
                &&& final(state).next_player_id == id + 1
                &&& final(state).players@ == old(state).players@.insert(client, id)
                &&& final(state).names@.dom() == old(state).names@.dom().insert(client)
                &&& final(state).names@[client]@ == "Player "@ + decimal(id as nat)
                &&& forall|c: u64| c != client && old(state).names@.contains_key(c) ==> #[trigger] final(state).names@[c] == old(state).names@[c]
                &&& out@.len() == 2
                &&& out@[0] matches LobbyDelivery::To { client: c, message: ServerMessage::Confirmation { player } } && c == client && player == id
                &&& out@[1] matches LobbyDelivery::ToAll { message: ServerMessage::Join { player } } && player == id
            },
            ClientMessage::Something { .. } => {
                let id = if old(state).players@.contains_key(client) { old(state).players@[client] } else { 0u8 };
                &&& final(state).players@ == old(state).players@
                &&& final(state).names@ == old(state).names@
                &&& final(state).next_player_id == old(state).next_player_id
                &&& out@.len() == 1
                &&& out@[0] matches LobbyDelivery::ToAll { message: ServerMessage::Something { player } } && player == id
            },
            ClientMessage::ChatMessage { message } => {
                &&& final(state).players@ == old(state).players@
                &&& final(state).names@ == old(state).names@
                &&& final(state).next_player_id == old(state).next_player_id
                &&& out@.len() == 1
                &&& out@[0] matches LobbyDelivery::ToAll { message: ServerMessage::ChatMessage { message: m } } && m@ == message@
            },
            ClientMessage::Disconnect => {
                &&& final(state).names@ == old(state).names@
                &&& final(state).next_player_id == old(state).next_player_id
                &&& final(state).players@ == old(state).players@.remove(client)
                &&& if old(state).players@.contains_key(client) {
                    &&& out@.len() == 2
                    &&& out@[0] matches LobbyDelivery::ToAll { message: ServerMessage::Disconnect { player } } && player == old(state).players@[client] as u64
                    &&& out@[1] matches LobbyDelivery::Disconnect { client: c } && c == client
                } else {
                    out@.len() == 0
                }
            },
            _ => {
                &&& final(state).players@ == old(state).players@
                &&& final(state).names@ == old(state).names@
                &&& final(state).next_player_id == old(state).next_player_id
                &&& out@.len() == 0
            },
        },
{
    let mut out: Vec<LobbyDelivery> = Vec::new();
    match msg {
        ClientMessage::Join => {
            let player_id = state.next_player_id;
            state.next_player_id = player_id + 1;
            state.players.insert(client, player_id);
            let mut name = String::from_str("Player ");
            let number = decimal_string(player_id as usize);
            name.append(number.as_str());
            state.names.insert(client, name);
            out.push(LobbyDelivery::To { client, message: ServerMessage::Confirmation { player: player_id } });
            out.push(LobbyDelivery::ToAll { message: ServerMessage::Join { player: player_id } });
        },
        ClientMessage::Something { .. } => {
            let player_id = match state.players.get(&client) {
                Some(p) => *p,
                None => 0,
            };
            out.push(LobbyDelivery::ToAll { message: ServerMessage::Something { player: player_id } });
        },
        ClientMessage::ChatMessage { message } => {
            out.push(LobbyDelivery::ToAll { message: ServerMessage::ChatMessage { message } });
        },
        ClientMessage::Disconnect => {
            if let Some(player_id) = state.players.remove(&client) {
                out.push(LobbyDelivery::ToAll { message: ServerMessage::Disconnect { player: player_id as u64 } });
                out.push(LobbyDelivery::Disconnect { client });
            }
        },
        _ => {},
    }
    out
}

} // verus!
