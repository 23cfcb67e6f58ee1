//! The configuration record: where the store lives, how output and
//! passwords default. Reading and writing configuration files is the
//! caller's affair; the library holds only the values.

use vstd::prelude::*;

verus! {

/// The configuration of one invocation: an optional store location, an
/// optional default output destination, optional password sources, an
/// optional clipboard-clearing delay, and the path the configuration
/// was read from.
#[derive(Debug)]
pub struct Config {
    pub database_path: Option<String>,
    pub default_output: Option<String>,
    pub password_file: Option<String>,
    pub password_executable: Option<String>,
    pub clipboard_timeout: Option<u64>,
    pub config_file_path: String,
}

impl Default for Config {
    /// An empty configuration: nothing set.
    fn default() -> (c: Config)
        ensures
            c.database_path is None,
            c.default_output is None,
            c.password_file is None,
            c.password_executable is None,
            c.clipboard_timeout is None,
            c.config_file_path@.len() == 0,
    {
        Config {
            database_path: None,
            default_output: None,
            password_file: None,
            password_executable: None,
            clipboard_timeout: None,
            config_file_path: String::new(),
        }
    }
}

} // verus!
