//! A `.env` file as a configuration source.

use vstd::prelude::*;

use crate::config::error::Error;
use crate::config::source::env_source::{self, EnvSource, Selection};
use crate::config::source::flat;
use crate::config::source::Source;
use crate::config::value::ConfigValue;

verus! {

broadcast use vstd::string::group_string_axioms;

/// `.env` file configuration source.
///
/// The file is loaded into the environment, then matching variables are captured
/// with the same prefix and separator semantics as [`EnvSource`].
#[derive(Debug)]
pub struct DotEnvSource {
    inner: EnvSource,
}

impl DotEnvSource {
    /// How this source selects variables.
    pub closed spec fn selection(&self) -> Selection {
        self.inner.selection()
    }

    /// The delimiter that creates nesting.
    pub closed spec fn delimiter(&self) -> Seq<char> {
        self.inner.delimiter()
    }

    /// Capture matching environment variables, given what loading the `.env` file
    /// into the environment gave.
    ///
    /// The file is loaded before the source exists, so that a missing or unreadable
    /// path is an error here rather than a silently empty source later. `priority`
    /// follows the crate convention: lower numbers win.
    pub fn new(
        loaded: Result<(), String>,
        prefix: &str,
        separator: &str,
        priority: u32,
    ) -> (source: Result<DotEnvSource, Error>)
        ensures
            match loaded {
                Ok(_) => source is Ok && source->Ok_0.selection() == Selection::Prefix(prefix@)
                    && source->Ok_0.delimiter() == separator@ && source->Ok_0.rank() == priority,
                Err(e) => source matches Err(Error::Other(message)) && message@
                    == "Failed to load .env file: "@ + e@,
            },
    {
        match loaded {
            Ok(_) => Ok(DotEnvSource { inner: EnvSource::new(prefix, separator, priority) }),
            Err(e) => Err(
                Error::Other("Failed to load .env file: ".to_owned().concat(e.as_str())),
            ),
        }
    }

    /// The configuration of the environment `vars`.
    pub fn load(&self, vars: &Vec<(String, String)>) -> (tree: Result<ConfigValue, Error>)
        ensures
            flat::expands(
                env_source::captured(self.selection(), self.delimiter(), vars@),
                tree,
            ),
    {
        self.inner.load(vars)
    }
}

impl Source for DotEnvSource {
    closed spec fn rank(&self) -> u32 {
        self.inner.rank()
    }

    open spec fn label(&self) -> Seq<char> {
        "dotenv"@
    }

    fn name(&self) -> (name: &str) {
        "dotenv"
    }

    fn priority(&self) -> (priority: u32) {
        self.inner.priority()
    }
}

} // verus!
