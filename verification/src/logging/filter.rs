//! Filter directives: which events pass.

use vstd::prelude::*;

use crate::logging::directive::{self, find_cut};
use crate::logging::error::Error;
use crate::text::{self, chars_of, string_between};

verus! {

broadcast use vstd::string::group_string_axioms;

/// What the outside parser gives: the filter rendered in full, or its message.
pub uninterp spec fn env_filter(directives: Seq<char>) -> Result<Seq<char>, Seq<char>>;

/// `tracing_subscriber::EnvFilter::try_new`: the `Display` rendering of the filter the
/// directives parse into, or that of the parse error. Both depend on the directives
/// alone. The parser counts bytes in the trimmed directive and cuts the untrimmed one, and
/// panics where that falls inside a character: such directives are left out.
#[verifier::external_body]
fn try_new(directives: &str) -> (parsed: Result<String, String>)
    requires
        directive::is_readable(directives@),
    ensures
        match parsed {
            Ok(rendered) => env_filter(directives@) == Ok::<Seq<char>, Seq<char>>(rendered@),
            Err(e) => env_filter(directives@) == Err::<Seq<char>, Seq<char>>(e@),
        },
{
    tracing_subscriber::EnvFilter::try_new(directives)
        .map(|filter| filter.to_string())
        .map_err(|e| e.to_string())
}

/// What is wrong with directives that the parser would cut inside a character.
pub const UNREADABLE: &'static str = "a directive beyond ASCII begins with white space";

/// What parsing filter directives gives: the filter rendered in full, or the parser's
/// message. Directives that the parser would cut inside a character never parse: the
/// message is the one for what lies before that place, where the parser stops there, and
/// otherwise [`UNREADABLE`].
pub open spec fn parsed_filter(directives: Seq<char>) -> Result<Seq<char>, Seq<char>> {
    if directive::is_readable(directives) {
        env_filter(directives)
    } else {
        match env_filter(directive::readable_front(directives)) {
            Ok(_) => Err(UNREADABLE@),
            Err(e) => Err(e),
        }
    }
}

/// Parse directives as far as they are readable.
fn parse_directives(directives: &str) -> (parsed: Result<String, String>)
    ensures
        match parsed {
            Ok(rendered) => parsed_filter(directives@) == Ok::<Seq<char>, Seq<char>>(rendered@),
            Err(e) => parsed_filter(directives@) == Err::<Seq<char>, Seq<char>>(e@),
        },
{
    let chars: Vec<char> = chars_of(directives);
    let cut: usize = find_cut(&chars);
    if cut == chars.len() {
        return try_new(directives);
    }
    let front: String = string_between(&chars, 0, cut);
    proof {
        assert(front@ =~= directive::readable_front(directives@));
        directive::lemma_front_is_readable(directives@);
    }
    match try_new(front.as_str()) {
        Ok(_) => Err(UNREADABLE.to_owned()),
        Err(e) => Err(e),
    }
}

/// A filter, as the directives it is compiled from.
#[derive(Debug)]
pub struct Filter {
    directives: String,
}

impl Filter {
    /// The directives.
    pub closed spec fn text(&self) -> Seq<char> {
        self.directives@
    }

    /// The filter with the given directives, which are taken as they are.
    pub fn new(directives: &str) -> (filter: Filter)
        ensures
            filter.text() == directives@,
    {
        Filter { directives: directives.to_owned() }
    }

    /// Parse directives into a filter, or report what is wrong with them.
    pub fn parse(directives: &str) -> (filter: Result<Filter, String>)
        ensures
            match parsed_filter(directives@) {
                Ok(_) => filter is Ok && filter->Ok_0.text() == directives@,
                Err(e) => filter is Err && filter->Err_0@ == e,
            },
    {
        match parse_directives(directives) {
            Ok(_) => Ok(Filter::new(directives)),
            Err(e) => Err(e),
        }
    }

    /// Render the filter in full and parse the rendering.
    fn reparse(&self) -> (filter: Result<Filter, String>)
        ensures
            match rendering(self.text()) {
                Ok(rendered) => filter is Ok && filter->Ok_0.text() == rendered,
                Err(e) => filter is Err && filter->Err_0@ == e,
            },
    {
        match parse_directives(self.directives.as_str()) {
            Ok(rendered) => Filter::parse(rendered.as_str()),
            Err(e) => Err(e),
        }
    }

    /// The directives.
    pub fn directives(&self) -> (directives: &str)
        ensures
            directives@ == self.text(),
    {
        self.directives.as_str()
    }
}

/// The text of a filter that may be absent.
pub open spec fn text_of(filter: Option<Filter>) -> Option<Seq<char>> {
    match filter {
        Some(f) => Some(f.text()),
        None => None,
    }
}

/// The filter of one sink, given what parsing its directives gave, where it has any. A
/// failure names the sink.
pub fn sink_filter(
    sink: &str,
    parsed: Option<Result<Filter, String>>,
) -> (filter: Result<Option<Filter>, Error>)
    ensures
        match parsed {
            None => filter == Ok::<Option<Filter>, Error>(None),
            Some(Ok(f)) => filter == Ok::<Option<Filter>, Error>(Some(f)),
            Some(Err(e)) => filter matches Err(Error::InvalidFilter(message)) && message@ == sink@
                + ": "@ + e@,
        },
{
    match parsed {
        None => Ok(None),
        Some(Ok(f)) => Ok(Some(f)),
        Some(Err(e)) => {
            let mut message: String = sink.to_owned();
            message.append(": ");
            message.append(e.as_str());
            Err(Error::InvalidFilter(message))
        },
    }
}

/// The rendering in full of the filter that directives parse into, where it parses again,
/// or the message of the failure.
pub open spec fn rendering(directives: Seq<char>) -> Result<Seq<char>, Seq<char>> {
    match parsed_filter(directives) {
        Ok(rendered) => match parsed_filter(rendered) {
            Ok(_) => Ok(rendered),
            Err(e) => Err(e),
        },
        Err(e) => Err(e),
    }
}

/// What parsing directives that may be absent gives: the directives, or the
/// message of the failure.
pub open spec fn compiled(directives: Option<Seq<char>>) -> Option<Result<Seq<char>, Seq<char>>> {
    match directives {
        Some(d) => Some(
            match parsed_filter(d) {
                Ok(_) => Ok(d),
                Err(e) => Err(e),
            },
        ),
        None => None,
    }
}

/// Whether `given` is the filter of `sink` for what parsing its directives gave.
pub open spec fn sink_outcome(
    sink: Seq<char>,
    parsed: Option<Result<Seq<char>, Seq<char>>>,
    given: Result<Option<Filter>, Error>,
) -> bool {
    match parsed {
        None => given matches Ok(None),
        Some(Ok(d)) => given matches Ok(Some(f)) && f.text() == d,
        Some(Err(e)) => given matches Err(Error::InvalidFilter(message)) && message@ == sink + ": "@
            + e,
    }
}

/// The filter of one sink.
fn parse_for(sink: &str, directives: &Option<String>) -> (filter: Result<Option<Filter>, Error>)
    ensures
        sink_outcome(sink@, compiled(text::view_opt(*directives)), filter),
{
    match directives {
        None => sink_filter(sink, None),
        Some(d) => sink_filter(sink, Some(Filter::parse(d.as_str()))),
    }
}

/// Filter directives applied to individual sinks.
///
/// Each is layered on top of the global filter rather than replacing it: a sink never
/// sees an event the global filter already excluded.
#[derive(Debug)]
pub struct SinkFilters {
    /// For the console sink.
    pub console: Option<String>,
    /// For the JSON sink.
    pub json: Option<String>,
    /// For the file sink.
    pub file: Option<String>,
    /// For the syslog sink.
    pub syslog: Option<String>,
    /// For the Application Insights sink.
    pub app_insights: Option<String>,
}

/// The same set of filters, parsed.
///
/// Parsing is separated from use so that a bad directive fails at startup, naming the
/// sink that owns it, rather than becoming a filter that silently matches nothing.
#[derive(Debug)]
pub struct ParsedSinkFilters {
    /// For the console sink.
    pub console: Option<Filter>,
    /// For the JSON sink.
    pub json: Option<Filter>,
    /// For the file sink.
    pub file: Option<Filter>,
    /// For the syslog sink.
    pub syslog: Option<Filter>,
    /// For the Application Insights sink.
    pub app_insights: Option<Filter>,
}

/// The first sink, in their order, whose directives do not parse, with the message of
/// the failure.
pub open spec fn first_invalid(filters: SinkFilters) -> Option<(Seq<char>, Seq<char>)> {
    let failure = |d: Option<String>| compiled(text::view_opt(d)) matches Some(Err(_));
    let message = |d: Option<String>| compiled(text::view_opt(d))->0->Err_0;
    if failure(filters.console) {
        Some(("console"@, message(filters.console)))
    } else if failure(filters.json) {
        Some(("json"@, message(filters.json)))
    } else if failure(filters.file) {
        Some(("file"@, message(filters.file)))
    } else if failure(filters.syslog) {
        Some(("syslog"@, message(filters.syslog)))
    } else if failure(filters.app_insights) {
        Some(("app_insights"@, message(filters.app_insights)))
    } else {
        None
    }
}

/// Whether a sink's filter is what its directives parse into.
pub open spec fn is_compiled(directives: Option<String>, filter: Option<Filter>) -> bool {
    match compiled(text::view_opt(directives)) {
        None => filter is None,
        Some(Ok(d)) => text_of(filter) == Some(d),
        Some(Err(_)) => false,
    }
}

impl SinkFilters {
    /// No filter for any sink.
    pub fn none() -> (filters: SinkFilters)
        ensures
            filters == (SinkFilters {
                console: None,
                json: None,
                file: None,
                syslog: None,
                app_insights: None,
            }),
    {
        SinkFilters { console: None, json: None, file: None, syslog: None, app_insights: None }
    }

    /// Parse every configured directive, or report the first that is invalid.
    pub fn parse(&self) -> (parsed: Result<ParsedSinkFilters, Error>)
        ensures
            match first_invalid(*self) {
                Some((sink, e)) => parsed matches Err(Error::InvalidFilter(message)) && message@
                    == sink + ": "@ + e,
                None => parsed matches Ok(filters) && is_compiled(self.console, filters.console)
                    && is_compiled(self.json, filters.json) && is_compiled(self.file, filters.file)
                    && is_compiled(self.syslog, filters.syslog) && is_compiled(
                    self.app_insights,
                    filters.app_insights,
                ),
            },
    {
        let console: Option<Filter> = match parse_for("console", &self.console) {
            Ok(f) => f,
            Err(e) => {
                return Err(e);
            },
        };
        let json: Option<Filter> = match parse_for("json", &self.json) {
            Ok(f) => f,
            Err(e) => {
                return Err(e);
            },
        };
        let file: Option<Filter> = match parse_for("file", &self.file) {
            Ok(f) => f,
            Err(e) => {
                return Err(e);
            },
        };
        let syslog: Option<Filter> = match parse_for("syslog", &self.syslog) {
            Ok(f) => f,
            Err(e) => {
                return Err(e);
            },
        };
        let app_insights: Option<Filter> = match parse_for("app_insights", &self.app_insights) {
            Ok(f) => f,
            Err(e) => {
                return Err(e);
            },
        };
        Ok(ParsedSinkFilters { console, json, file, syslog, app_insights })
    }
}

/// What a sink filters by when it has `filter`: the same, parsed again from its rendering,
/// or everything where it has none or its rendering does not parse.
///
/// Absent is `trace` rather than anything narrower: the global filter has already had
/// its say.
pub open spec fn sink_directives(filter: Option<Seq<char>>) -> Seq<char> {
    match filter {
        Some(d) => match rendering(d) {
            Ok(rendered) => rendered,
            Err(_) => "trace"@,
        },
        None => "trace"@,
    }
}

/// Reproduce a per-sink filter, or one that admits everything.
pub fn clone_filter(filter: &Option<Filter>) -> (copy: Filter)
    ensures
        copy.text() == sink_directives(text_of(*filter)),
{
    match filter {
        Some(f) => parsed_or(f.reparse(), "trace"),
        None => Filter::new("trace"),
    }
}

/// What parsing gave, or the fallback where it failed.
pub fn parsed_or(parsed: Result<Filter, String>, fallback: &str) -> (filter: Filter)
    ensures
        match parsed {
            Ok(f) => filter == f,
            Err(_) => filter.text() == fallback@,
        },
{
    match parsed {
        Ok(f) => f,
        Err(_) => Filter::new(fallback),
    }
}

/// The global filter where none was set: what `RUST_LOG` says, or `info` where it is
/// absent or does not parse.
pub open spec fn default_directives(rust_log: Option<Seq<char>>) -> Seq<char> {
    match compiled(rust_log) {
        Some(Ok(d)) => d,
        _ => "info"@,
    }
}

/// The global filter where none was set, given the value of `RUST_LOG`.
pub fn default_filter(rust_log: Option<&str>) -> (filter: Filter)
    ensures
        filter.text() == default_directives(match rust_log {
            Some(directives) => Some(directives@),
            None => None,
        }),
{
    match rust_log {
        Some(directives) => parsed_or(Filter::parse(directives), "info"),
        None => Filter::new("info"),
    }
}

/// Directives that are set and parse are taken as they are; a sink without directives
/// admits everything, and without a global filter the level is `info`.
pub proof fn law_filter_fallbacks(directives: Seq<char>)
    ensures
        sink_directives(None) == "trace"@,
        default_directives(None) == "info"@,
        parsed_filter(directives) is Ok ==> default_directives(Some(directives)) == directives
            && compiled(Some(directives)) == Some(Ok::<Seq<char>, Seq<char>>(directives)),
        parsed_filter(directives) matches Err(e) ==> default_directives(Some(directives))
            == "info"@ && sink_directives(Some(directives)) == "trace"@ && compiled(
            Some(directives),
        ) == Some(Err::<Seq<char>, Seq<char>>(e)),
        compiled(None) is None,
{
}

/// A sink filters by the filter it was given: by its rendering, where that parses.
pub proof fn law_sink_filter_is_rendered(directives: Seq<char>, rendered: Seq<char>)
    requires
        parsed_filter(directives) == Ok::<Seq<char>, Seq<char>>(rendered),
    ensures
        parsed_filter(rendered) is Ok ==> sink_directives(Some(directives)) == rendered,
        parsed_filter(rendered) is Err ==> sink_directives(Some(directives)) == "trace"@,
{
}

/// The sink that is reported is the first, in the order console, JSON, file, syslog and
/// Application Insights, whose directives do not parse: every one before it is fine, and
/// none is reported exactly where all are fine.
pub proof fn law_first_invalid_sink(filters: SinkFilters)
    ensures
        ({
            let bad = |d: Option<String>| d is Some && parsed_filter(d->0@) is Err;
            let why = |d: Option<String>| parsed_filter(d->0@)->Err_0;
            &&& first_invalid(filters) is None <==> !bad(filters.console) && !bad(filters.json)
                && !bad(filters.file) && !bad(filters.syslog) && !bad(filters.app_insights)
            &&& bad(filters.console) ==> first_invalid(filters) == Some(
                ("console"@, why(filters.console)),
            )
            &&& !bad(filters.console) && bad(filters.json) ==> first_invalid(filters) == Some(
                ("json"@, why(filters.json)),
            )
            &&& !bad(filters.console) && !bad(filters.json) && bad(filters.file) ==> first_invalid(
                filters,
            ) == Some(("file"@, why(filters.file)))
            &&& !bad(filters.console) && !bad(filters.json) && !bad(filters.file) && bad(
                filters.syslog,
            ) ==> first_invalid(filters) == Some(("syslog"@, why(filters.syslog)))
            &&& !bad(filters.console) && !bad(filters.json) && !bad(filters.file) && !bad(
                filters.syslog,
            ) && bad(filters.app_insights) ==> first_invalid(filters) == Some(
                ("app_insights"@, why(filters.app_insights)),
            )
        }),
{
}

/// Readable directives are parsed as they are, ASCII ones always; unreadable ones never
/// parse.
pub proof fn law_unreadable_never_parses(directives: Seq<char>)
    ensures
        directive::is_readable(directives) ==> parsed_filter(directives) == env_filter(directives),
        !directive::is_readable(directives) ==> parsed_filter(directives) is Err,
        text::is_ascii(directives) && directives.len() <= usize::MAX ==> parsed_filter(directives)
            == env_filter(directives),
{
    if text::is_ascii(directives) && directives.len() <= usize::MAX {
        directive::law_ascii_is_readable(directives);
    }
}

/// What is wrong with unreadable directives is what is wrong with the part before the
/// place they would be cut at, or, where that part parses, that they are unreadable.
pub proof fn law_unreadable_message(directives: Seq<char>, front: Seq<char>)
    requires
        !directive::is_readable(directives),
        front == directive::readable_front(directives),
    ensures
        env_filter(front) is Err ==> parsed_filter(directives) == env_filter(front),
        env_filter(front) is Ok ==> parsed_filter(directives) == Err::<Seq<char>, Seq<char>>(
            "a directive beyond ASCII begins with white space"@,
        ),
{
}

} // verus!
