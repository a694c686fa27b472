//! Input, chat, rendering hooks and screen transitions.
pub mod chat;
pub mod input;
pub mod render;
pub mod multiplayer;
pub mod transition;
