//! Panels of the game screen and the menus.
pub mod game_panel;
pub mod endscreen;
pub mod log_panel;
pub mod main_menu;
pub mod multiplayer_menu;
pub mod settings_panel;
