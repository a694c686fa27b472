//! The screens of the application.
use vstd::prelude::*;

verus! {

/// The screen being shown.
#[derive(Debug, Clone, Copy, PartialEq, Eq, Hash, Default, Structural)]
pub enum GameState {
    #[default]
    MainMenu,
    MultiplayerMenu,
    Lobby,
    Hosting,
    Joining,
    LocalInGame,
    MultiplayerInGame,
    EndScreen,
}

} // verus!
