//! What the components of a user interface need from the style system.

pub mod system;
pub mod typography;
