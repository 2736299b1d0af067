//! Spans and custom line formatters.

use vstd::prelude::*;

use crate::logging::level::Level;

verus! {

broadcast use vstd::string::group_string_axioms;

/// One span enclosing an event.
#[derive(Debug, Clone, PartialEq, Eq)]
pub struct SpanInfo {
    /// The span's name.
    pub name: String,
    /// The module path the span was created in.
    pub target: String,
    /// The span's fields, already rendered, in the form `key=value key=value`.
    pub fields: String,
}

/// The span scope enclosing an event, outermost first.
#[derive(Debug, Clone)]
pub struct SpanScope {
    spans: Vec<SpanInfo>,
}

impl SpanScope {
    /// The enclosing spans, outermost first.
    pub closed spec fn list(&self) -> Seq<SpanInfo> {
        self.spans@
    }

    /// The scope of the given spans, outermost first.
    pub fn new(spans: Vec<SpanInfo>) -> (scope: SpanScope)
        ensures
            scope.list() == spans@,
    {
        SpanScope { spans }
    }

    /// The enclosing spans, outermost first. Empty when the event is not inside a span.
    pub fn spans(&self) -> (spans: &[SpanInfo])
        ensures
            spans@ == self.list(),
    {
        self.spans.as_slice()
    }

    /// The innermost span, which is usually the interesting one.
    pub fn current(&self) -> (span: Option<&SpanInfo>)
        ensures
            match span {
                Some(s) => self.list().len() > 0 && *s == self.list().last(),
                None => self.list().len() == 0,
            },
    {
        if self.spans.len() == 0 {
            None
        } else {
            Some(&self.spans[self.spans.len() - 1])
        }
    }

    /// Whether the event was recorded outside any span.
    pub fn is_empty(&self) -> (r: bool)
        ensures
            r == (self.list().len() == 0),
    {
        self.spans.len() == 0
    }
}

impl Default for SpanScope {
    /// No span.
    fn default() -> (scope: Self)
        ensures
            scope.list() == Seq::<SpanInfo>::empty(),
    {
        SpanScope { spans: Vec::new() }
    }
}

/// What a line formatter is told of an event.
#[derive(Debug, Clone)]
pub struct EventInfo {
    /// The level.
    pub level: Level,
    /// The module path the event was recorded in.
    pub target: String,
    /// The fields, the message among them, each with its rendered value.
    pub fields: Vec<(String, String)>,
}

/// Formats a whole log line.
///
/// Implement this to control the output completely: field order, timestamp, level
/// rendering, separators. It replaces the built-in layout rather than adjusting it.
pub trait LineFormatter {
    /// One line for `event`, or `None` where it cannot be written. The newline is added
    /// by the caller. `spans` carries the enclosing span scope, outermost first.
    fn format_line(&self, event: &EventInfo, spans: &SpanScope) -> Option<String>;
}

/// What goes to the sink for what a line formatter gave: the line with a newline.
pub fn finish_line(rendered: Option<String>) -> (line: Option<String>)
    ensures
        match rendered {
            Some(text) => line is Some && line->0@ == text@ + "\n"@,
            None => line is None,
        },
{
    match rendered {
        Some(text) => Some(text.concat("\n")),
        None => None,
    }
}

/// The span of a request: its id, method and path as fields.
pub fn request_context(request_id: &str, method: &str, path: &str) -> (span: SpanInfo)
    ensures
        span.name@ == "request"@,
        span.target@ == "stratify::logging"@,
        span.fields@ == "request_id="@ + request_id@ + " method="@ + method@ + " path="@ + path@,
{
    let mut fields: String = "request_id=".to_owned();
    fields.append(request_id);
    fields.append(" method=");
    fields.append(method);
    fields.append(" path=");
    fields.append(path);
    SpanInfo { name: "request".to_owned(), target: "stratify::logging".to_owned(), fields }
}

/// The message of a panic, from its payload as text, where it is one of the two forms
/// that text takes.
pub fn panic_message(literal: Option<&str>, owned: Option<&str>) -> (message: String)
    ensures
        message@ == (match (literal, owned) {
            (Some(text), _) => text@,
            (None, Some(text)) => text@,
            (None, None) => "panic with a non-string payload"@,
        }),
{
    match (literal, owned) {
        (Some(text), _) => text.to_owned(),
        (None, Some(text)) => text.to_owned(),
        (None, None) => "panic with a non-string payload".to_owned(),
    }
}

} // verus!
