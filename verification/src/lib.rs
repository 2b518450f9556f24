//! Settings resolution for a dotfile manager: locating the configuration
//! document, parsing its declared collections, and layering `var` / `meta`
//! variable sources into one flattened variable mapping.

pub mod error;
pub mod model;
pub mod settings;
pub mod trusted;
pub mod vars;

pub use error::ConfigError;
pub use settings::{Dot, Hook, Settings, Var};
pub use vars::VariableMapping;
