//! The settings panel.
use vstd::prelude::*;

verus! {

/// Whether the settings panel is open.
#[derive(Debug, Default, Clone, Copy)]
pub struct SettingsPanelState {
    pub open: bool,
}

} // verus!
