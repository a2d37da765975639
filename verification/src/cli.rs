//! Command line interface.

use vstd::prelude::*;

verus! {

/// Command line interface.
#[derive(Debug)]
pub struct Cli {
    /// Verbosity level (-v, -vv, -vvv)
    pub verbose: u8,
    /// Path to config file
    pub config: Option<String>,
}

/// How much the program logs.
#[derive(Debug, Clone, Copy, PartialEq, Eq, Structural)]
pub enum LogLevel {
    /// As the environment says (`RUST_LOG`).
    FromEnvironment,
    /// Informational messages and above.
    Info,
    /// Debug messages and above.
    Debug,
    /// Everything.
    Trace,
}

/// The log level that a count of `-v` flags asks for.
pub open spec fn level_of(verbose: u8) -> LogLevel {
    if verbose == 0 {
        LogLevel::FromEnvironment
    } else if verbose == 1 {
        LogLevel::Info
    } else if verbose == 2 {
        LogLevel::Debug
    } else {
        LogLevel::Trace
    }
}

impl Cli {
    /// The log level that the verbosity flags ask for.
    pub fn log_level(&self) -> (l: LogLevel)
        ensures
            l == level_of(self.verbose),
            self.verbose == 0 ==> l == LogLevel::FromEnvironment,
            self.verbose == 1 ==> l == LogLevel::Info,
            self.verbose == 2 ==> l == LogLevel::Debug,
            self.verbose >= 3 ==> l == LogLevel::Trace,
    {
        if self.verbose == 0 {
            LogLevel::FromEnvironment
        } else if self.verbose == 1 {
            LogLevel::Info
        } else if self.verbose == 2 {
            LogLevel::Debug
        } else {
            LogLevel::Trace
        }
    }
}

} // verus!
