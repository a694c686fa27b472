//! Screen changes triggered by the network.
use vstd::prelude::*;
use crate::frontend::screen::GameState;

verus! {

/// The network asks for the lobby or for the game.
#[derive(Debug, Clone, Copy, PartialEq, Eq, Structural)]
pub enum NetworkTransition {
    EnterLobby,
    EnterGame,
}

/// The screen a network transition leads to: the lobby, or the network game.
pub fn handle_network_transition(flow: NetworkTransition) -> (s: GameState)
    ensures
        s == match flow {
            NetworkTransition::EnterLobby => GameState::Lobby,
            NetworkTransition::EnterGame => GameState::MultiplayerInGame,
        },
{
    match flow {
        NetworkTransition::EnterLobby => GameState::Lobby,
        NetworkTransition::EnterGame => GameState::MultiplayerInGame,
    }
}

} // verus!
