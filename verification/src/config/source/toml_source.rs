//! Configuration from a TOML file.

use vstd::prelude::*;

use crate::config::error::Error;
use crate::config::source::document::{self, parse_toml};
use crate::config::source::Source;
use crate::config::value::ConfigValue;

verus! {

broadcast use vstd::string::group_string_axioms;

/// Configuration source that loads settings from a `.toml` file.
///
/// TOML is parsed and rewritten as JSON for merging. Lower priority numbers mean
/// higher precedence.
#[derive(Debug)]
pub struct TomlSource {
    path: String,
    priority: u32,
}

impl TomlSource {
    /// The file this source reads.
    pub closed spec fn file(&self) -> Seq<char> {
        self.path@
    }

    /// Create a new source from a file path with the given priority; lower numbers
    /// mean higher precedence when merging.
    pub fn new(path: &str, priority: u32) -> (source: TomlSource)
        ensures
            source.file() == path@,
            source.rank() == priority,
    {
        TomlSource { path: path.to_owned(), priority }
    }

    /// The file to read.
    pub fn path(&self) -> (path: &str)
        ensures
            path@ == self.file(),
    {
        self.path.as_str()
    }

    /// The configuration of the file, given what reading it gave: its text, or the
    /// message of the failure.
    pub fn load(&self, content: Result<String, String>) -> (tree: Result<ConfigValue, Error>)
        ensures
            match content {
                Ok(text) => document::parsed_as(
                    document::toml_as_json(document::toml_document(text@)),
                    tree,
                    |e: Error| document::toml_failure(e),
                ),
                Err(message) => tree matches Err(Error::Io(e)) && e@ == message@,
            },
    {
        match content {
            Ok(text) => parse_toml(text.as_str()),
            Err(message) => Err(Error::Io(message)),
        }
    }
}

impl Source for TomlSource {
    closed spec fn rank(&self) -> u32 {
        self.priority
    }

    open spec fn label(&self) -> Seq<char> {
        "toml"@
    }

    fn name(&self) -> (name: &str) {
        "toml"
    }

    fn priority(&self) -> (priority: u32) {
        self.priority
    }
}

} // verus!
