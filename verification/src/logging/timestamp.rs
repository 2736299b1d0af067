//! Timestamps on log lines.

use vstd::prelude::*;

use crate::logging::sink_config::TimestampFormat;
use crate::text;

verus! {

broadcast use vstd::string::group_string_axioms;

/// What rendering a moment gives: nanoseconds since the epoch, seen at an offset from UTC
/// in seconds.
pub uninterp spec fn rfc3339_text(nanos: i128, offset: i32) -> Option<Seq<char>>;

/// `time::OffsetDateTime::format` as RFC 3339, of the moment `nanos` nanoseconds after the
/// epoch at `offset` seconds from UTC; `None` where the moment, the offset or the year
/// cannot be rendered. The result depends on the two numbers alone.
#[verifier::external_body]
fn rfc3339(nanos: i128, offset: i32) -> (rendered: Option<String>)
    ensures
        text::view_opt(rendered) == rfc3339_text(nanos, offset),
{
    let zone = time::UtcOffset::from_whole_seconds(offset).ok()?;
    let moment = time::OffsetDateTime::from_unix_timestamp_nanos(nanos).ok()?;
    let local = moment.checked_to_offset(zone)?;
    local.format(&time::format_description::well_known::Rfc3339).ok()
}

/// The offset a timestamp is rendered at, given the machine's, where it can be
/// determined: `None` where there is no timestamp, and UTC where the machine's offset is
/// not known. A line in the wrong zone beats no line.
pub fn timestamp_offset(format: TimestampFormat, local: Option<i32>) -> (offset: Option<i32>)
    ensures
        offset == (match format {
            TimestampFormat::Omitted => None,
            TimestampFormat::Utc => Some(0i32),
            TimestampFormat::Local => match local {
                Some(seconds) => Some(seconds),
                None => Some(0i32),
            },
        }),
{
    match format {
        TimestampFormat::Omitted => None,
        TimestampFormat::Utc => Some(0),
        TimestampFormat::Local => match local {
            Some(seconds) => Some(seconds),
            None => Some(0),
        },
    }
}

/// The timestamp of a line at `now`, in nanoseconds since the epoch: nothing where none is
/// wanted, and `None` where it cannot be rendered.
pub fn format_time(format: TimestampFormat, now: i128, local: Option<i32>) -> (rendered: Option<
    String,
>)
    ensures
        text::view_opt(rendered) == (match format {
            TimestampFormat::Omitted => Some(Seq::empty()),
            TimestampFormat::Utc => rfc3339_text(now, 0),
            TimestampFormat::Local => match local {
                Some(seconds) => rfc3339_text(now, seconds),
                None => rfc3339_text(now, 0),
            },
        }),
{
    match timestamp_offset(format, local) {
        None => Some(String::new()),
        Some(offset) => rfc3339(now, offset),
    }
}

} // verus!
