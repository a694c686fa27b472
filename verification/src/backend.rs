pub mod game;
pub mod networking;
