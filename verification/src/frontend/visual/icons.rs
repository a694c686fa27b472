//! The icon buttons and the windows they open.
use vstd::prelude::*;

verus! {

/// Whether the settings window is open.
#[derive(Debug, Clone, Copy)]
pub struct SettingsWindowState {
    pub open: bool,
}

impl Default for SettingsWindowState {
    /// Closed.
    fn default() -> (s: Self)
        ensures
            !s.open,
    {
        SettingsWindowState { open: false }
    }
}

/// Whether the rules window is open.
#[derive(Debug, Clone, Copy)]
pub struct RulesWindowState {
    pub open: bool,
}

impl Default for RulesWindowState {
    /// Closed.
    fn default() -> (s: Self)
        ensures
            !s.open,
    {
        RulesWindowState { open: false }
    }
}

/// Whether the volume window is open.
#[derive(Debug, Clone, Copy)]
pub struct VolumeWindowState {
    pub open: bool,
}

impl Default for VolumeWindowState {
    /// Closed.
    fn default() -> (s: Self)
        ensures
            !s.open,
    {
        VolumeWindowState { open: false }
    }
}

} // verus!
