//! Process configuration: the broker list, taken from the command line
//! when given there and otherwise from the configuration file.

use vstd::prelude::*;

verus! {

/// The settings the process runs with.
pub struct Config {
    pub brokers: String,
}

impl Config {
    /// Chooses the broker list: a command-line value wins over one read
    /// from the configuration file; with neither there is no
    /// configuration.
    pub fn resolve(arg_brokers: Option<String>, file_brokers: Option<String>) -> (r: Option<
        Config,
    >)
        ensures
            match (arg_brokers, file_brokers) {
                (Some(a), _) => r matches Some(c) && c.brokers@ == a@,
                (None, Some(f)) => r matches Some(c) && c.brokers@ == f@,
                (None, None) => r is None,
            },
    {
        match arg_brokers {
            Some(a) => Some(Config { brokers: a }),
            None => match file_brokers {
                Some(f) => Some(Config { brokers: f }),
                None => None,
            },
        }
    }
}

} // verus!
