//! A small line-search library: resolve a run configuration from raw
//! argument tokens, then return the lines of a text body that contain a
//! query string, either case-sensitively or after a Unicode-aware
//! lowercase fold of both sides.

pub mod config;
pub mod search;
pub mod text;

pub use config::Config;
pub use config::ConfigError;
pub use search::case_insensitive_search;
pub use search::case_sensitive_search;
pub use search::search;
