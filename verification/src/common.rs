//! Helpers shared across all platforms.

pub mod utils;
