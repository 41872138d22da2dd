//! System facts shared across platforms.

pub mod shared;
