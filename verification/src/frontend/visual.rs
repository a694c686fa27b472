//! What the board's pieces and windows remember between frames.
pub mod cards;
pub mod city;
pub mod icons;
pub mod road;
pub mod settlement;
pub mod tile;
