//! A syslog sink, for services running outside a container.
//!
//! Messages have the RFC 3164 shape. The socket belongs to the caller: a host without
//! one is common, and the sink then discards.

use vstd::prelude::*;

use crate::logging::level::Level;
use crate::text::{self, decimal, from_utf8_lossy, trim, trim_end};

verus! {

broadcast use vstd::string::group_string_axioms;

/// Syslog facility, as defined by RFC 3164.
///
/// Only the facilities a service is plausibly logging under are offered; the rest
/// belong to the kernel and system daemons.
#[derive(Debug, Clone, Copy, PartialEq, Eq, Structural)]
pub enum Facility {
    /// `user`, facility 1. The default and the right answer for most services.
    User,
    /// `daemon`, facility 3, for a background service.
    Daemon,
    /// `local0`, the first of the eight per-deployment facilities.
    Local0,
    /// `local1`.
    Local1,
    /// `local2`.
    Local2,
    /// `local3`.
    Local3,
    /// `local4`.
    Local4,
    /// `local5`.
    Local5,
    /// `local6`.
    Local6,
    /// `local7`.
    Local7,
}

impl Default for Facility {
    /// `user`.
    fn default() -> (facility: Self)
        ensures
            facility == Facility::User,
    {
        Facility::User
    }
}

impl Facility {
    /// The number of the facility.
    pub open spec fn number(self) -> u8 {
        match self {
            Facility::User => 1,
            Facility::Daemon => 3,
            Facility::Local0 => 16,
            Facility::Local1 => 17,
            Facility::Local2 => 18,
            Facility::Local3 => 19,
            Facility::Local4 => 20,
            Facility::Local5 => 21,
            Facility::Local6 => 22,
            Facility::Local7 => 23,
        }
    }

    /// The number of the facility.
    pub fn code(self) -> (code: u8)
        ensures
            code == self.number(),
    {
        match self {
            Facility::User => 1,
            Facility::Daemon => 3,
            Facility::Local0 => 16,
            Facility::Local1 => 17,
            Facility::Local2 => 18,
            Facility::Local3 => 19,
            Facility::Local4 => 20,
            Facility::Local5 => 21,
            Facility::Local6 => 22,
            Facility::Local7 => 23,
        }
    }
}

/// The RFC 3164 severity of a level.
pub open spec fn severity_of(level: Level) -> u8 {
    match level {
        Level::Error => 3,
        Level::Warn => 4,
        Level::Info => 6,
        Level::Debug => 7,
        Level::Trace => 7,
    }
}

/// Maps a level onto an RFC 3164 severity.
///
/// `Trace` and `Debug` both become `debug`: syslog has no finer level, and inventing
/// one would misrepresent the message to anything reading it.
pub fn severity(level: &Level) -> (severity: u8)
    ensures
        severity == severity_of(*level),
{
    match level {
        Level::Error => 3,
        Level::Warn => 4,
        Level::Info => 6,
        Level::Debug => 7,
        Level::Trace => 7,
    }
}

/// Configuration for the syslog sink.
#[derive(Debug)]
pub struct SyslogConfig {
    /// The `tag` identifying this process in each message.
    pub tag: String,
    /// Facility to log under.
    pub facility: Facility,
}

impl SyslogConfig {
    /// Log under `tag`, which appears at the start of every message.
    pub fn new(tag: &str) -> (config: SyslogConfig)
        ensures
            config.tag@ == tag@,
            config.facility == Facility::User,
    {
        SyslogConfig { tag: tag.to_owned(), facility: Facility::default() }
    }

    /// Log under a specific facility. Defaults to `user`.
    pub fn with_facility(self, facility: Facility) -> (config: SyslogConfig)
        ensures
            config.tag == self.tag,
            config.facility == facility,
    {
        SyslogConfig { tag: self.tag, facility }
    }
}

/// The RFC 3164 form of a message: `<priority>tag[pid]: message`.
pub open spec fn framed(
    facility: Facility,
    level: Level,
    tag: Seq<char>,
    pid: u32,
    message: Seq<char>,
) -> Seq<char> {
    "<"@ + text::decimal_of((facility.number() * 8 + severity_of(level)) as nat) + ">"@ + tag + "["@
        + text::decimal_of(pid as nat) + "]: "@ + text::trimmed_end(message)
}

/// Writes lines to syslog.
///
/// The priority prefix is computed per line from the level of the event, which is why
/// the writer is constructed per event rather than once.
#[derive(Debug)]
pub struct SyslogWriter {
    tag: String,
    facility: Facility,
    level: Level,
}

/// What a write comes to.
#[derive(Debug)]
pub struct SyslogWrite {
    /// The datagram to offer the daemon, where there is anything to say.
    pub datagram: Option<String>,
    /// How many bytes of the buffer count as written.
    pub consumed: usize,
}

impl SyslogWriter {
    /// The tag.
    pub closed spec fn name(&self) -> Seq<char> {
        self.tag@
    }

    /// The facility.
    pub closed spec fn place(&self) -> Facility {
        self.facility
    }

    /// The level.
    pub closed spec fn rank(&self) -> Level {
        self.level
    }

    /// A writer for an event of `level`.
    pub fn connect(config: &SyslogConfig, level: Level) -> (writer: SyslogWriter)
        ensures
            writer.name() == config.tag@,
            writer.place() == config.facility,
            writer.rank() == level,
    {
        SyslogWriter { tag: config.tag.clone(), facility: config.facility, level }
    }

    /// `<priority>tag[pid]: message`, the RFC 3164 shape.
    pub fn frame(&self, message: &str, pid: u32) -> (framed_message: String)
        ensures
            framed_message@ == framed(self.place(), self.rank(), self.name(), pid, message@),
    {
        let priority: u8 = self.facility.code() * 8 + severity(&self.level);
        let mut out: String = "<".to_owned();
        out.append(decimal(priority as u64).as_str());
        out.append(">");
        out.append(self.tag.as_str());
        out.append("[");
        out.append(decimal(pid as u64).as_str());
        out.append("]: ");
        out.append(trim_end(message).as_str());
        out
    }

    /// What writing `buf` comes to.
    ///
    /// A blank line is not sent. The whole buffer always counts as written: a short
    /// count would make the caller retry a line syslog has already been offered.
    pub fn write(&self, buf: &[u8], pid: u32) -> (write: SyslogWrite)
        ensures
            write.consumed == buf@.len(),
            text::view_opt(write.datagram) == (if text::trimmed(text::lossy_text(buf@)).len() == 0 {
                None
            } else {
                Some(
                    framed(
                        self.place(),
                        self.rank(),
                        self.name(),
                        pid,
                        text::lossy_text(buf@),
                    ),
                )
            }),
    {
        let message: String = from_utf8_lossy(buf);
        if trim(message.as_str()).as_str().is_empty() {
            return SyslogWrite { datagram: None, consumed: buf.len() };
        }
        SyslogWrite { datagram: Some(self.frame(message.as_str(), pid)), consumed: buf.len() }
    }
}

/// Facility and severity can be read back from a priority: it is eight times the one
/// plus the other.
pub proof fn law_priority_is_readable(a: Facility, b: Facility, l: Level, m: Level)
    requires
        a.number() * 8 + severity_of(l) == b.number() * 8 + severity_of(m),
    ensures
        a == b,
        severity_of(l) == severity_of(m),
{
}

/// The facilities have the numbers that RFC 3164 gives them: the local ones are eight
/// in a row.
pub proof fn law_facility_numbers()
    ensures
        Facility::User.number() == 1,
        Facility::Daemon.number() == 3,
        Facility::Local0.number() == 16,
        Facility::Local1.number() == 16 + 1,
        Facility::Local2.number() == 16 + 2,
        Facility::Local3.number() == 16 + 3,
        Facility::Local4.number() == 16 + 4,
        Facility::Local5.number() == 16 + 5,
        Facility::Local6.number() == 16 + 6,
        Facility::Local7.number() == 16 + 7,
{
}

/// A more severe level has the smaller severity, as syslog counts; the severities are
/// error, warning, informational and debug, and only the two most verbose levels share
/// one.
pub proof fn law_severities(a: Level, b: Level)
    ensures
        a.rank() < b.rank() ==> severity_of(a) <= severity_of(b),
        severity_of(a) == severity_of(b) <==> a == b || (a.rank() >= 4 && b.rank() >= 4),
        severity_of(Level::Error) == 3,
        severity_of(Level::Warn) == 4,
        severity_of(Level::Info) == 6,
        severity_of(Level::Debug) == 7,
{
}

/// A datagram can be read back: between `<` and `>` stands a number, which is eight
/// times the facility's plus the severity; then come the tag, the process id in brackets,
/// and behind a colon and a space the message without the white space at its end.
pub proof fn law_frame_reads_back(
    facility: Facility,
    level: Level,
    tag: Seq<char>,
    pid: u32,
    message: Seq<char>,
)
    ensures
        exists|priority: Seq<char>, process: Seq<char>|
            {
                &&& framed(facility, level, tag, pid, message) == seq!['<'] + priority + seq!['>']
                    + tag + seq!['['] + process + seq![']', ':', ' '] + text::trimmed_end(message)
                &&& #[trigger] text::number_of(priority) == 8 * facility.number() + severity_of(level)
                &&& #[trigger] text::number_of(process) == pid
                &&& forall|i: int|
                    0 <= i < priority.len() ==> '0' <= #[trigger] priority[i] && priority[i] <= '9'
                &&& forall|i: int|
                    0 <= i < process.len() ==> '0' <= #[trigger] process[i] && process[i] <= '9'
            },
{
    reveal_strlit("<");
    reveal_strlit(">");
    reveal_strlit("[");
    reveal_strlit("]: ");
    let n = (facility.number() * 8 + severity_of(level)) as nat;
    let priority = text::decimal_of(n);
    let process = text::decimal_of(pid as nat);
    text::law_decimal_reads_back(n);
    text::law_decimal_reads_back(pid as nat);
    assert(framed(facility, level, tag, pid, message) =~= seq!['<'] + priority + seq!['>'] + tag
        + seq!['['] + process + seq![']', ':', ' '] + text::trimmed_end(message));
}

} // verus!
