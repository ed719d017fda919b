//! Run configuration, assembled once per invocation from the command-line
//! arguments and the case-insensitivity toggle.

use vstd::prelude::*;

verus! {

/// The parameters of one run: what to search for, where, and whether case is
/// ignored. Immutable after construction.
pub struct Config {
    pub query: String,
    pub file_path: String,
    pub ignore_case: bool,
}

/// Why a configuration could not be built.
#[derive(Clone, Copy, Debug, PartialEq, Eq, Structural)]
pub enum ConfigError {
    /// Fewer than two positional arguments were supplied.
    InsufficientArguments,
}

impl ConfigError {
    /// A diagnostic message for the user.
    pub fn message(&self) -> (r: String)
        ensures
            r@ == "not enough arguments!"@,
    {
        "not enough arguments!".to_owned()
    }
}

impl Config {
    /// Build a configuration from the raw arguments: the invocation token,
    /// then the query, then the file path. `ignore_case` is the resolved
    /// case-insensitivity toggle, passed through unchanged. Fails if and only
    /// if fewer than three arguments (program name included) are given.
    pub fn build(args: &Vec<String>, ignore_case: bool) -> (r: Result<Config, ConfigError>)
        ensures
            match r {
                Ok(c) => {
                    &&& args@.len() >= 3
                    &&& c.query@ == args@[1]@
                    &&& c.file_path@ == args@[2]@
                    &&& c.ignore_case == ignore_case
                },
                Err(e) => args@.len() < 3 && e == ConfigError::InsufficientArguments,
            },
    {
        if args.len() < 3 {
            return Err(ConfigError::InsufficientArguments);
        }
        let query = args[1].clone();
        let file_path = args[2].clone();
        Ok(Config { query, file_path, ignore_case })
    }
}

} // verus!
