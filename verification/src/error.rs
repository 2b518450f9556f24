//! The error taxonomy of settings resolution. Every failure is surfaced to
//! the caller as one of these variants; nothing is downgraded to a default.

use vstd::prelude::*;

verus! {

/// Why settings resolution failed.
#[derive(Debug, Clone, PartialEq, Eq)]
pub enum ConfigError {
    /// The standard configuration root could not be determined, or the
    /// configuration file is absent at the expected path.
    NotFound,
    /// A required top-level field is missing or type-mismatched, or the
    /// document itself does not parse.
    MalformedConfig { field: String, reason: String },
    /// A declared `var`/`meta` file path does not exist.
    SourceNotFound { path: String },
    /// A declared `var`/`meta` file does not parse into key/value pairs.
    MalformedVariableSource { path: String, reason: String },
    /// A variable's value directly references the variable itself.
    CyclicVariable { key: String },
}

} // verus!
