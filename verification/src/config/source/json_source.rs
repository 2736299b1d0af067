//! Configuration from a JSON file.

use vstd::prelude::*;

use crate::config::error::Error;
use crate::config::source::document::{self, parse_json};
use crate::config::source::Source;
use crate::config::value::ConfigValue;

verus! {

broadcast use vstd::string::group_string_axioms;

/// Configuration source that loads settings from a `.json` file.
///
/// Lower priority numbers mean higher precedence when merging.
#[derive(Debug)]
pub struct JsonSource {
    path: String,
    priority: u32,
}

impl JsonSource {
    /// The file this source reads.
    pub closed spec fn file(&self) -> Seq<char> {
        self.path@
    }

    /// Create a new source from a file path with the given priority; lower numbers
    /// mean higher precedence when merging.
    pub fn new(path: &str, priority: u32) -> (source: JsonSource)
        ensures
            source.file() == path@,
            source.rank() == priority,
    {
        JsonSource { path: path.to_owned(), priority }
    }

    /// The file to read.
    pub fn path(&self) -> (path: &str)
        ensures
            path@ == self.file(),
    {
        self.path.as_str()
    }

    /// The configuration of the file, given what reading it gave: its text, or the
    /// message of the failure.
    pub fn load(&self, content: Result<String, String>) -> (tree: Result<ConfigValue, Error>)
        ensures
            match content {
                Ok(text) => document::parsed_as(
                    document::json_document(text@),
                    tree,
                    |e: Error| document::json_failure(e),
                ),
                Err(message) => tree matches Err(Error::Io(e)) && e@ == message@,
            },
    {
        match content {
            Ok(text) => parse_json(text.as_str()),
            Err(message) => Err(Error::Io(message)),
        }
    }
}

impl Source for JsonSource {
    closed spec fn rank(&self) -> u32 {
        self.priority
    }

    open spec fn label(&self) -> Seq<char> {
        "json"@
    }

    fn name(&self) -> (name: &str) {
        "json"
    }

    fn priority(&self) -> (priority: u32) {
        self.priority
    }
}

} // verus!
