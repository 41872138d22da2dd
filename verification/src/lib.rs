//! A system-information library centred on GPU identity resolution: a
//! normaliser for hexadecimal hardware identifiers, a scanner for the
//! hierarchical vendor/device id database, a persistent cache record codec,
//! and the orchestrator that decides between the cached name, the slow
//! enumeration backend and the database fallback.

pub mod cache;
pub mod cli;
pub mod common;
pub mod config;
pub mod lookup;
pub mod platform;
pub mod resolve;
pub mod sysinfo;
pub mod text;
