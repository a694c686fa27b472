//! The main menu.
use vstd::prelude::*;

verus! {

/// Which of the main menu's windows are open.
#[derive(Debug, Default, Clone, Copy)]
pub struct MainMenuState {
    pub show_rules: bool,
    pub show_multiplayer_settings: bool,
}

} // verus!
