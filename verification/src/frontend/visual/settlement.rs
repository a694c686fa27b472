//! Settlements on the board.
use vstd::prelude::*;

verus! {

/// A settlement drawn on `vertex` for its owner.
#[derive(Debug, Clone, Copy)]
pub struct SettlementVisual {
    pub vertex: usize,
    pub owner_id: usize,
}

} // verus!
