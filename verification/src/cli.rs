//! The command-line options that reach the library's logic. Parsing the
//! command line is the caller's business; this struct carries the parsed
//! values.

use vstd::prelude::*;

verus! {

/// The parsed command-line options.
#[derive(Debug)]
pub struct Cli {
    /// Display all info regardless of the configuration.
    pub all: bool,
    /// Regenerate the configuration file with standard values.
    pub reset_config: bool,
    /// Padding between the logo and the text.
    pub padding: u8,
    /// An alternative configuration file path.
    pub config_file: Option<String>,
    /// Forcefully regenerate the cache file.
    pub clear_cache: bool,
}

} // verus!
