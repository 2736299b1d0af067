//! The logging half's error type.

use vstd::prelude::*;

use crate::config;

verus! {

broadcast use vstd::string::group_string_axioms;

/// Everything that can go wrong building, installing, or driving the logging stack.
///
/// Startup errors carry enough to act on: a bad filter names the sink that owns it, and
/// a bad settings block names the key. Runtime functions that can fail return rather
/// than panic, because a logging failure must never take the process with it.
#[derive(Debug)]
#[non_exhaustive]
pub enum Error {
    /// A log file or directory could not be created or written.
    Io(String),
    /// `init` was called while a subscriber from this facade is already installed.
    AlreadyInitialized,
    /// A function needing the installed subscriber ran before `init`.
    NotInitialized,
    /// A reload was asked of a stack built without it.
    ReloadNotEnabled,
    /// A lock inside the facade was poisoned by a panicking thread.
    LockPoisoned,
    /// A per-sink filter directive failed to parse; the message names the sink.
    InvalidFilter(String),
    /// Application Insights configuration or export failed.
    AppInsights(String),
    /// Installing the global subscriber failed outside this facade's control.
    SetGlobalDefault(String),
    /// The reload channel rejected the new filter.
    FilterReload(String),
    /// A filter string failed to parse.
    FilterParse(String),
    /// The settings block could not be read from the configuration store.
    Settings(config::Error),
    /// The settings block was read but asks for something invalid or unavailable. The
    /// message names the key.
    InvalidSettings(String),
}

impl Error {
    /// What [`Error::message`] renders.
    pub open spec fn text(&self) -> Seq<char> {
        match self {
            Error::Io(e) => "I/O error: "@ + e@,
            Error::AlreadyInitialized => "logging is already initialized"@,
            Error::NotInitialized => "logging is not initialized"@,
            Error::ReloadNotEnabled => "runtime filter reload was not enabled during init"@,
            Error::LockPoisoned => "the logging state lock is poisoned"@,
            Error::InvalidFilter(e) => "invalid filter directives for "@ + e@,
            Error::AppInsights(e) => "Application Insights: "@ + e@,
            Error::SetGlobalDefault(e) => "failed to install the global tracing subscriber: "@ + e@,
            Error::FilterReload(e) => "failed to reload the runtime filter: "@ + e@,
            Error::FilterParse(e) => "invalid filter directive: "@ + e@,
            Error::Settings(e) => "could not read logging settings: "@ + e.text(),
            Error::InvalidSettings(e) => "invalid logging settings: "@ + e@,
        }
    }

    /// The error as a sentence for people.
    pub fn message(&self) -> (text: String)
        ensures
            text@ == self.text(),
    {
        match self {
            Error::Io(e) => "I/O error: ".to_owned().concat(e.as_str()),
            Error::AlreadyInitialized => "logging is already initialized".to_owned(),
            Error::NotInitialized => "logging is not initialized".to_owned(),
            Error::ReloadNotEnabled => "runtime filter reload was not enabled during init".to_owned(),
            Error::LockPoisoned => "the logging state lock is poisoned".to_owned(),
            Error::InvalidFilter(e) => "invalid filter directives for ".to_owned().concat(
                e.as_str(),
            ),
            Error::AppInsights(e) => "Application Insights: ".to_owned().concat(e.as_str()),
            Error::SetGlobalDefault(
                e,
            ) => "failed to install the global tracing subscriber: ".to_owned().concat(e.as_str()),
            Error::FilterReload(e) => "failed to reload the runtime filter: ".to_owned().concat(
                e.as_str(),
            ),
            Error::FilterParse(e) => "invalid filter directive: ".to_owned().concat(e.as_str()),
            Error::Settings(e) => "could not read logging settings: ".to_owned().concat(
                e.message().as_str(),
            ),
            Error::InvalidSettings(e) => "invalid logging settings: ".to_owned().concat(e.as_str()),
        }
    }
}

/// An error's message ends with what went wrong, in the words it was given, and one for a
/// configuration that could not be read ends with the message of that failure.
pub proof fn law_message_ends_with_the_detail(e: Error, detail: String, cause: config::Error)
    ensures
        e == Error::Io(detail) || e == Error::InvalidFilter(detail) || e == Error::AppInsights(
            detail,
        ) || e == Error::SetGlobalDefault(detail) || e == Error::FilterReload(detail) || e
            == Error::FilterParse(detail) || e == Error::InvalidSettings(detail)
            ==> e.text().len() >= detail@.len() && e.text().skip(e.text().len() - detail@.len())
            == detail@,
        ({
            let text = Error::Settings(cause).text();
            text.len() >= cause.text().len() && text.skip(text.len() - cause.text().len())
                == cause.text()
        }),
{
    if e == Error::Io(detail) || e == Error::InvalidFilter(detail) || e == Error::AppInsights(
        detail,
    ) || e == Error::SetGlobalDefault(detail) || e == Error::FilterReload(detail) || e
        == Error::FilterParse(detail) || e == Error::InvalidSettings(detail) {
        assert(e.text().skip(e.text().len() - detail@.len()) =~= detail@);
    }
    let text = Error::Settings(cause).text();
    assert(text.skip(text.len() - cause.text().len()) =~= cause.text());
}

} // verus!
