//! Rules of a four-player Settlers-of-Catan style board game, verified with Verus.
pub mod backend;
pub mod networking;
pub mod text;
pub mod frontend;
