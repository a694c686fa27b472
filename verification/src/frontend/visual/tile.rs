//! Tiles and the vertex the player clicked.
use vstd::prelude::*;

verus! {

/// The vertex clicked last, and the one kept glowing until it is clicked off.
#[derive(Debug, Default, Clone, Copy)]
pub struct ClickedVertex {
    pub vertex_id: Option<usize>,
    pub selected_vertex: Option<usize>,
}

/// A tile on screen: whether it is highlighted.
#[derive(Debug, Clone, Copy)]
pub struct TileVisual {
    pub highlighted: bool,
}

} // verus!
