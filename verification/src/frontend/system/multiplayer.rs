//! The multiplayer menu's actions.
use vstd::prelude::*;
use crate::backend::networking::client::PendingJoin;
use crate::backend::networking::protocol::ClientMessage;
use crate::frontend::screen::GameState;

verus! {

/// What the player chose in the multiplayer menu.
#[derive(Debug, Clone)]
pub enum MultiplayerAction {
    Host,
    Join { code: String },
    Back,
    StartGame,
}

/// Whether this machine hosts the game.
#[derive(Debug, Default, Clone, Copy, PartialEq, Eq, Structural)]
pub struct HostState {
    pub is_host: bool,
}

/// What follows a multiplayer action: the next screen, a join to attempt, and a message to
/// send to the server.
pub struct MultiplayerOutcome {
    pub next_state: Option<GameState>,
    pub pending_join: Option<PendingJoin>,
    pub message: Option<ClientMessage>,
}

/// Hosting goes to the lobby as host; joining goes to the lobby as a guest with the code to
/// join with; back returns to the main menu; starting the game asks the server to start,
/// but only from the host.
pub fn handle_multiplayer_action(action: MultiplayerAction, host_state: &mut HostState) -> (r: MultiplayerOutcome)
    ensures
        match action {
            MultiplayerAction::Host => final(host_state).is_host && r.next_state == Some(GameState::Lobby)
                && r.pending_join is None && r.message is None,
            MultiplayerAction::Join { code } => !final(host_state).is_host && r.next_state == Some(GameState::Lobby)
                && (r.pending_join matches Some(p) && p.join_code@ == code@) && r.message is None,
            MultiplayerAction::Back => *final(host_state) == *old(host_state) && r.next_state == Some(GameState::MainMenu)
                && r.pending_join is None && r.message is None,
            MultiplayerAction::StartGame => *final(host_state) == *old(host_state) && r.next_state is None
                && r.pending_join is None
                && (if old(host_state).is_host { r.message matches Some(ClientMessage::GameStart) } else { r.message is None }),
        },
{
    match action {
        MultiplayerAction::Host => {
            host_state.is_host = true;
            MultiplayerOutcome { next_state: Some(GameState::Lobby), pending_join: None, message: None }
        },
        MultiplayerAction::Join { code } => {
            host_state.is_host = false;
            MultiplayerOutcome { next_state: Some(GameState::Lobby), pending_join: Some(PendingJoin { join_code: code }), message: None }
        },
        MultiplayerAction::Back => {
            MultiplayerOutcome { next_state: Some(GameState::MainMenu), pending_join: None, message: None }
        },
        MultiplayerAction::StartGame => {
            let message = if host_state.is_host { Some(ClientMessage::GameStart) } else { None };
            MultiplayerOutcome { next_state: None, pending_join: None, message }
        },
    }
}

} // verus!
