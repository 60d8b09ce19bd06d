//! Configuration of a link checker: which links to skip, which HTTP headers to
//! send (with `$VAR` references expanded from an environment snapshot), and
//! how warnings are treated.

pub mod config;
pub mod environment;
pub mod hashed_regex;
pub mod header;
pub mod interpolate;
pub mod text;

pub use config::{Config, ConfigError, RawConfig, WarningPolicy};
pub use environment::Environment;
pub use hashed_regex::{HashedRegex, PatternError};
pub use header::{HttpHeader, ParseError};
pub use interpolate::{interpolate_env, InterpolationError};
