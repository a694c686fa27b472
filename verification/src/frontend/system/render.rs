//! Drawing hooks of the board screen.
use vstd::prelude::*;

verus! {

/// Hook for a dice button on the board; rolling is offered by the control panel instead.
pub fn roll_dice_ui() {
}

} // verus!
