//! The logging configuration value.  Reading it from a configuration file
//! and installing the logger are plumbing outside the library.

use vstd::prelude::*;

verus! {

/// Where log output is written.
#[derive(Debug, Clone)]
pub struct LogConfig {
    pub log_file: String,
}

impl Default for LogConfig {
    /// The default log file name.
    fn default() -> (r: LogConfig)
        ensures
            r.log_file@ == "proxycat.log"@,
    {
        LogConfig { log_file: "proxycat.log".to_owned() }
    }
}

} // verus!
