//! The lobby protocol, the server's answers to its clients, and the requests a player makes.
pub mod config;
pub mod protocol;
pub mod client;
pub mod server;
pub mod game_request;
