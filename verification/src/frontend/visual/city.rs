//! Cities on the board.
use vstd::prelude::*;

verus! {

/// A city drawn on `vertex` for its owner.
#[derive(Debug, Clone, Copy)]
pub struct CityVisual {
    pub vertex: usize,
    pub owner_id: usize,
}

} // verus!
