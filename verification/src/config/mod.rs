//! Layered configuration: pluggable sources, priority merging, typed access.
//!
//! **Lower priority number wins.** A source at priority 10 overrides one at 100:
//! it lets a more specific source be added later without renumbering the ones
//! already there. Merging is deep: nested objects combine key by key rather than
//! the higher-precedence source replacing a whole subtree.

pub mod builder;
pub mod error;
pub mod source;
pub mod store;
pub mod value;

pub use builder::ConfigBuilder as Builder;
pub use builder::ConfigBuilder;
pub use error::Error;
pub use error::Error as ConfigError;
pub use source::Source;
pub use store::Store;
pub use value::ConfigValue;
