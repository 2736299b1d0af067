//! The error type returned by loading, merging and lookup.

use vstd::prelude::*;

verus! {

broadcast use vstd::string::group_string_axioms;

/// Errors returned when loading, merging or reading configuration.
///
/// Marked `#[non_exhaustive]`: new sources may bring new failure modes, and
/// adding one should not be a breaking change for callers matching on this.
#[derive(Debug)]
#[non_exhaustive]
pub enum Error {
    /// A source file could not be read.
    Io(String),
    /// A JSON source was not valid JSON.
    Json(String),
    /// A YAML source was not valid YAML.
    Yaml(String),
    /// A TOML source was not valid TOML.
    Toml(String),
    /// A requested key is absent from the merged configuration.
    NotFound(String),
    /// Two keys disagree about the shape of the tree: one requires a value where
    /// another requires an object, so no merge can satisfy both.
    MergeConflict(String),
    /// A failure that does not fit the categories above, such as a network error
    /// from a remote source.
    Other(String),
}

impl Error {
    /// What [`Error::message`] renders.
    pub open spec fn text(&self) -> Seq<char> {
        match self {
            Error::Io(e) => "I/O error: "@ + e@,
            Error::Json(e) => "JSON parse error: "@ + e@,
            Error::Yaml(e) => "YAML parse error: "@ + e@,
            Error::Toml(e) => "TOML parse error: "@ + e@,
            Error::NotFound(key) => "Configuration source not found: "@ + key@,
            Error::MergeConflict(key) => "Configuration merge conflict at key: "@ + key@,
            Error::Other(e) => e@,
        }
    }

    /// The error as a sentence for people.
    pub fn message(&self) -> (text: String)
        ensures
            text@ == self.text(),
    {
        match self {
            Error::Io(e) => "I/O error: ".to_owned().concat(e.as_str()),
            Error::Json(e) => "JSON parse error: ".to_owned().concat(e.as_str()),
            Error::Yaml(e) => "YAML parse error: ".to_owned().concat(e.as_str()),
            Error::Toml(e) => "TOML parse error: ".to_owned().concat(e.as_str()),
            Error::NotFound(key) => "Configuration source not found: ".to_owned().concat(
                key.as_str(),
            ),
            Error::MergeConflict(key) => "Configuration merge conflict at key: ".to_owned().concat(
                key.as_str(),
            ),
            Error::Other(e) => e.clone(),
        }
    }
}

/// An error's message ends with what went wrong, in the words it was given; an error of
/// no kind says nothing else.
pub proof fn law_message_ends_with_the_detail(e: Error, detail: String)
    ensures
        e == Error::Io(detail) || e == Error::Json(detail) || e == Error::Yaml(detail) || e
            == Error::Toml(detail) || e == Error::NotFound(detail) || e == Error::MergeConflict(
            detail,
        ) || e == Error::Other(detail) ==> e.text().len() >= detail@.len() && e.text().skip(
            e.text().len() - detail@.len(),
        ) == detail@,
        Error::Other(detail).text() == detail@,
{
    if e.text().len() >= detail@.len() {
        assert(e == Error::Io(detail) || e == Error::Json(detail) || e == Error::Yaml(detail) || e
            == Error::Toml(detail) || e == Error::NotFound(detail) || e == Error::MergeConflict(
            detail,
        ) || e == Error::Other(detail) ==> e.text().skip(e.text().len() - detail@.len())
            =~= detail@);
    }
}

} // verus!
