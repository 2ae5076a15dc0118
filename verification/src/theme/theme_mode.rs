//! The mode of a theme: light or dark.

use vstd::prelude::*;

verus! {

/// The mode of a theme.
#[derive(Debug, Clone, Copy, PartialEq, Eq, Hash, Structural)]
pub enum ThemeMode {
    /// Dark mode.
    Dark,
    /// Light mode.
    Light,
    /// The mode that the system is in.
    System,
}

/// What the system says of its mode.
#[derive(Debug, Clone, Copy, PartialEq, Eq, Hash, Structural)]
pub enum SystemMode {
    /// The system is in dark mode.
    Dark,
    /// The system is in light mode.
    Light,
    /// The system does not say.
    Default,
}

impl Default for ThemeMode {
    fn default() -> (r: ThemeMode)
        ensures
            r == ThemeMode::System,
    {
        ThemeMode::System
    }
}

/// The mode that `mode` comes to when the system says `system`: light or
/// dark as it is, and for the mode of the system dark if the system is dark,
/// else light.
pub open spec fn resolved(mode: ThemeMode, system: SystemMode) -> ThemeMode {
    match mode {
        ThemeMode::System => match system {
            SystemMode::Dark => ThemeMode::Dark,
            _ => ThemeMode::Light,
        },
        other => other,
    }
}

impl ThemeMode {
    /// The mode as light or dark, given what the system says of its mode.
    /// What the system says counts only where the mode is that of the system.
    pub fn detect(self, system: SystemMode) -> (r: ThemeMode)
        ensures
            r == resolved(self, system),
            r != ThemeMode::System,
    {
        match self {
            ThemeMode::System => match system {
                SystemMode::Dark => ThemeMode::Dark,
                SystemMode::Light => ThemeMode::Light,
                SystemMode::Default => ThemeMode::Light,
            },
            other => other,
        }
    }
}

} // verus!
