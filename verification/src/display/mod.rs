//! Display topology: enumeration, identity, and applying profiles.

pub mod apply;
pub mod ccd;
pub mod identity;

pub use identity::{Monitor, TargetKey};
