//! Platform-specific computations, one module per supported system. The
//! raw sysfs values are read by the caller and handed in as plain values;
//! everything here is a function of its arguments.

pub mod linux;
pub mod macos;
