//! The lobby server's seat keeping and the messages of the lobby protocol.
pub mod game_server;
pub mod config;
pub mod protocol;
pub mod message;
pub mod server;
pub mod client;
pub mod rendezvous;
