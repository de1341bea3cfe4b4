//! Resolution of the run configuration from raw argument tokens and the
//! presence of a case-insensitivity override signal.

use vstd::prelude::*;

verus! {

/// Why configuration resolution failed.
#[derive(Clone, Copy, Debug, PartialEq, Eq, Structural)]
pub enum ConfigError {
    /// No query token followed the program-identity token.
    MissingQuery,
    /// A query token was present but no source token followed it.
    MissingSource,
}

impl ConfigError {
    /// A human-readable diagnostic for this error.
    pub fn message(&self) -> (m: &'static str)
        ensures
            self is MissingQuery ==> m@ == "Didn't get a query string!"@,
            self is MissingSource ==> m@ == "Didn't get a input filename!"@,
    {
        match self {
            ConfigError::MissingQuery => "Didn't get a query string!",
            ConfigError::MissingSource => "Didn't get a input filename!",
        }
    }
}

/// The parameters of one run: what to search for, where to search, and
/// whether the comparison is case-sensitive.
pub struct Config {
    pub query: String,
    pub filename: String,
    pub case_sensitive: bool,
}

impl Config {
    /// Builds a configuration from raw positional tokens.
    ///
    /// The first token is the program identity and is discarded; the next
    /// two are the query and the filename, in that order; any further
    /// tokens are ignored. `case_insensitive_set` reports whether the
    /// case-insensitivity override signal is present at all — its mere
    /// presence forces case-insensitive mode, whatever its value.
    pub fn new(args: &Vec<String>, case_insensitive_set: bool) -> (result: Result<Config, ConfigError>)
        ensures
            args@.len() < 2 ==> result == Err::<Config, ConfigError>(ConfigError::MissingQuery),
            args@.len() == 2 ==> result == Err::<Config, ConfigError>(ConfigError::MissingSource),
            args@.len() >= 3 ==> (result matches Ok(c)
                && c.query@ == args@[1]@
                && c.filename@ == args@[2]@
                && c.case_sensitive == !case_insensitive_set),
    {
        if args.len() < 2 {
            return Err(ConfigError::MissingQuery);
        }
        if args.len() == 2 {
            return Err(ConfigError::MissingSource);
        }
        let query = args[1].clone();
        let filename = args[2].clone();
        Ok(Config { query, filename, case_sensitive: !case_insensitive_set })
    }
}

} // verus!
