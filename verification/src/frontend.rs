//! What the screens decide: where a player may build, which edge a preview shows, how the
//! end of a game is summed up, and how menus and network events move between screens.
pub mod screen;
pub mod interface;
pub mod system;
pub mod visual;
