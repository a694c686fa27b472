//! The multiplayer menu.
use vstd::prelude::*;

verus! {

/// What the player typed in the multiplayer menu.
#[derive(Debug, Default, Clone)]
pub struct MultiplayerMenuState {
    pub host_ip: String,
    pub join_code: String,
}

} // verus!
