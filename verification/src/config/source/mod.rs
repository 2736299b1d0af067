//! Built-in configuration sources and the [`Source`] trait.

use vstd::prelude::*;

pub mod azure_source;
pub mod document;
pub mod dotenv_source;
pub mod env_source;
pub mod flat;
pub mod json_source;
pub mod nesting;
pub mod toml_source;
pub mod yaml_source;

pub use azure_source::AzureAppConfigSource;
pub use dotenv_source::DotEnvSource;
pub use env_source::EnvSource;
pub use json_source::JsonSource;
pub use toml_source::TomlSource;
pub use yaml_source::YamlSource;

verus! {

/// A source of configuration data, identified by a priority level.
///
/// Lower priority numbers mean higher precedence. How a source is loaded differs
/// from source to source: the built-in ones take what was read and return the tree.
pub trait Source {
    /// The priority level.
    spec fn rank(&self) -> u32;

    /// The name.
    spec fn label(&self) -> Seq<char>;

    /// Human-readable name for debugging and logging.
    fn name(&self) -> (name: &str)
        ensures
            name@ == self.label(),
    ;

    /// Priority level. Lower numbers mean higher priority when merging.
    fn priority(&self) -> (priority: u32)
        ensures
            priority == self.rank(),
    ;
}

} // verus!
