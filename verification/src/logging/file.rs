//! File rotation strategies and retention cleanup.

use vstd::prelude::*;

use crate::text::starts_with;

verus! {

/// File rotation strategy.
#[derive(Debug, Clone, Copy, PartialEq, Eq, Structural)]
#[non_exhaustive]
pub enum Rotation {
    /// Rotate logs daily at midnight.
    Daily,
    /// Rotate logs hourly at minute 0.
    Hourly,
    /// Never rotate logs: append to a single file indefinitely.
    Never,
    /// Roll once the active file reaches `max_bytes`, keeping `max_files` retired
    /// files.
    ///
    /// Time-based rotation cannot bound disk use between its rotation points. This
    /// bounds it directly.
    Size {
        /// Size at which the active file is retired.
        max_bytes: u64,
        /// How many retired files to keep. The total on disk is one more.
        max_files: usize,
    },
}

/// A file of a log directory, as far as it could be looked at.
#[derive(Debug)]
pub struct LogEntry {
    /// Its name, where it is text.
    pub name: Option<String>,
    /// When it was last modified, in nanoseconds since the epoch, where that is known.
    pub modified: Option<i128>,
}

/// The moment before which a file is too old, in nanoseconds since the epoch.
pub open spec fn cutoff(now: int, max_age_days: u32) -> int {
    now - max_age_days * 86_400 * 1_000_000_000
}

/// Whether `modified` is more than `age` before `now`.
fn is_older(modified: i128, now: u128, age: u128) -> (r: bool)
    ensures
        r == (modified < now - age),
{
    if modified >= 0 {
        let since: u128 = modified as u128;
        now > since && now - since > age
    } else {
        let before: u128 = (-(modified + 1)) as u128 + 1;
        now > age || before > age - now
    }
}

/// Whether a file is to be removed: its name begins with the prefix, and it was last
/// modified before the cutoff.
pub open spec fn expired(entry: LogEntry, prefix: Seq<char>, now: int, max_age_days: u32) -> bool {
    &&& entry.name is Some && prefix.is_prefix_of(entry.name->0@)
    &&& entry.modified is Some && entry.modified->0 < cutoff(now, max_age_days)
}

/// The positions of the log files to remove: those whose name begins with `prefix` and
/// that were last modified more than `max_age_days` before `now`, in nanoseconds since
/// the epoch.
///
/// Files that could not be looked at are skipped: this is best-effort cleanup meant for
/// startup hygiene, not for audit.
pub fn cleanup_old_files(
    entries: &Vec<LogEntry>,
    prefix: &str,
    now: u128,
    max_age_days: u32,
) -> (removed: Vec<usize>)
    ensures
        forall|i: int| 0 <= i < removed@.len() ==> (#[trigger] removed@[i]) < entries@.len(),
        forall|i: int, j: int|
            0 <= i < j < removed@.len() ==> (#[trigger] removed@[i]) < (#[trigger] removed@[j]),
        forall|k: usize|
            k < entries@.len() ==> (removed@.contains(k) <==> #[trigger] expired(
                entries@[k as int],
                prefix@,
                now as int,
                max_age_days,
            )),
{
    let age: u64 = (max_age_days as u64) * 86_400;
    let age_nanos: u128 = (age as u128) * 1_000_000_000;
    let mut removed: Vec<usize> = Vec::new();
    let mut i: usize = 0;
    while i < entries.len()
        invariant
            i <= entries@.len(),
            now - age_nanos == cutoff(now as int, max_age_days),
            forall|a: int| 0 <= a < removed@.len() ==> (#[trigger] removed@[a]) < i,
            forall|a: int, b: int|
                0 <= a < b < removed@.len() ==> (#[trigger] removed@[a]) < (
                #[trigger] removed@[b]),
            forall|k: usize|
                k < i ==> (removed@.contains(k) <==> #[trigger] expired(
                    entries@[k as int],
                    prefix@,
                    now as int,
                    max_age_days,
                )),
        decreases entries.len() - i,
    {
        let matches_prefix: bool = match &entries[i].name {
            Some(name) => starts_with(name.as_str(), prefix),
            None => false,
        };
        let too_old: bool = match entries[i].modified {
            Some(modified) => is_older(modified, now, age_nanos),
            None => false,
        };
        let ghost before = removed@;
        if matches_prefix && too_old {
            removed.push(i);
            proof {
                assert(removed@[before.len() as int] == i);
                assert forall|k: usize| k < i implies (#[trigger] removed@.contains(k)
                    <==> before.contains(k)) by {
                    if before.contains(k) {
                        let a = choose|a: int| 0 <= a < before.len() && before[a] == k;
                        assert(removed@[a] == k);
                    }
                    if removed@.contains(k) {
                        let a = choose|a: int| 0 <= a < removed@.len() && removed@[a] == k;
                        assert(before[a] == k);
                    }
                }
            }
        } else {
            proof {
                assert(!removed@.contains(i));
            }
        }
        i = i + 1;
    }
    removed
}

/// Raising the age keeps more: a file that is kept at one age is kept at any higher
/// one.
pub proof fn law_longer_retention_keeps_more(
    entry: LogEntry,
    prefix: Seq<char>,
    now: int,
    shorter: u32,
    longer: u32,
)
    requires
        shorter <= longer,
        !expired(entry, prefix, now, shorter),
    ensures
        !expired(entry, prefix, now, longer),
{
}

/// A file is removed exactly where its name begins with the prefix and more than the
/// given number of days, of 86,400 seconds each, lie between its last modification and
/// now. A file whose name or time is not known is kept.
pub proof fn law_retention(
    name: String,
    modified: i128,
    prefix: Seq<char>,
    rest: Seq<char>,
    now: int,
    days: u32,
)
    ensures
        name@ == prefix + rest ==> (expired(
            LogEntry { name: Some(name), modified: Some(modified) },
            prefix,
            now,
            days,
        ) <==> now - modified > days * 86_400_000_000_000),
        !(name@.len() >= prefix.len() && name@.take(prefix.len() as int) == prefix) ==> !expired(
            LogEntry { name: Some(name), modified: Some(modified) },
            prefix,
            now,
            days,
        ),
        !expired(LogEntry { name: None, modified: Some(modified) }, prefix, now, days),
        !expired(LogEntry { name: Some(name), modified: None }, prefix, now, days),
{
    assert(prefix =~= (prefix + rest).subrange(0, prefix.len() as int));
    if prefix.is_prefix_of(name@) {
        assert(name@.take(prefix.len() as int) =~= name@.subrange(0, prefix.len() as int));
    }
}

} // verus!
