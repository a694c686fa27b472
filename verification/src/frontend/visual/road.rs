//! Roads on the board.
use vstd::prelude::*;

verus! {

/// A road drawn between two vertices for its owner.
#[derive(Debug, Clone, Copy)]
pub struct RoadVisual {
    pub vertices: [usize; 2],
    pub owner_id: usize,
}

} // verus!
