//! Mouse input on the board.
use vstd::prelude::*;

verus! {

/// Hook for a custom cursor; the default cursor is kept.
pub fn setup_cursor() {
}

} // verus!
