//! The commands.

pub mod cec;
pub mod list;
pub mod save_profile;
pub mod vcp;
