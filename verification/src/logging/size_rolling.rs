//! Rolling to a new file once the current one reaches a size.
//!
//! Time-based rotation leaves a service which is quiet for a week and then chatty for
//! an hour with one enormous file, and no way to bound disk use between rotation
//! points. This closes that gap.
//!
//! Retired files are numbered, newest first: `app.log.1` is the most recently retired,
//! and the highest number is the oldest. Numbering rather than timestamping keeps the
//! scheme independent of the clock, which matters when several roll within the same
//! second.

use vstd::prelude::*;

use crate::text::{self, decimal};

verus! {

broadcast use vstd::string::group_string_axioms;

/// Which files a retired slot has.
#[derive(Debug, Clone, Copy, PartialEq, Eq, Structural)]
pub struct Slot {
    /// The file as it was written.
    pub plain: bool,
    /// The file gzipped.
    pub gzip: bool,
}

/// One change to the files of a rolling log. Slot 1 is the newest retired file.
#[derive(Debug, Clone, Copy, PartialEq, Eq, Structural)]
pub enum RollAction {
    /// Remove the active file.
    RemoveActive,
    /// Remove a retired file.
    Remove {
        /// Its slot.
        index: usize,
        /// Whether it is the gzipped one.
        gzip: bool,
    },
    /// Move a retired file to the next slot.
    Shift {
        /// Its slot.
        index: usize,
        /// Whether it is the gzipped one.
        gzip: bool,
    },
    /// Move the active file to slot 1.
    Retire,
    /// Gzip the file in slot 1.
    Compress,
}

/// A file of a rolling log: its slot, 0 for the active one, and whether it is gzipped.
pub struct LogFile {
    /// The slot.
    pub slot: int,
    /// Whether the file is gzipped.
    pub gzip: bool,
}

/// The files of a rolling log with what they hold.
pub type Files = Map<LogFile, Seq<u8>>;

/// The plain file of a slot.
pub open spec fn plain(slot: int) -> LogFile {
    LogFile { slot, gzip: false }
}

/// `files` with the file `from` moved to `to`, where there is one.
pub open spec fn moved(files: Files, from: LogFile, to: LogFile) -> Files {
    if files.dom().contains(from) {
        files.remove(from).insert(to, files[from])
    } else {
        files
    }
}

/// The gzipped file of a slot.
pub open spec fn zipped(slot: int) -> LogFile {
    LogFile { slot, gzip: true }
}

/// `files` with the newest retired file gzipped: the stream takes the place of the plain
/// file. Where there is no such file, or gzipping fails, nothing changes.
pub open spec fn compressed(files: Files) -> Files {
    if files.dom().contains(plain(1)) {
        match gzip_of(files[plain(1)]) {
            Ok(stream) => files.remove(plain(1)).insert(zipped(1), stream),
            Err(_) => files,
        }
    } else {
        files
    }
}

/// The files after one change, where it can be made.
pub open spec fn applied(files: Files, action: RollAction) -> Files {
    match action {
        RollAction::RemoveActive => files.remove(plain(0)),
        RollAction::Remove { index, gzip } => files.remove(LogFile { slot: index as int, gzip }),
        RollAction::Shift { index, gzip } => moved(
            files,
            LogFile { slot: index as int, gzip },
            LogFile { slot: index + 1, gzip },
        ),
        RollAction::Retire => moved(files, plain(0), plain(1)),
        RollAction::Compress => compressed(files),
    }
}

/// The files after some changes, in order.
pub open spec fn applied_all(files: Files, actions: Seq<RollAction>) -> Files
    decreases actions.len(),
{
    if actions.len() == 0 {
        files
    } else {
        applied(applied_all(files, actions.drop_last()), actions.last())
    }
}

/// Whether `slots` is what the slots from 1 on of `files` have, and no file lies beyond
/// them.
pub open spec fn describes(files: Files, slots: Seq<Slot>) -> bool {
    &&& forall|i: int|
        1 <= i <= slots.len() ==> (#[trigger] files.dom().contains(plain(i)) <==> slots[i
            - 1].plain)
    &&& forall|i: int|
        1 <= i <= slots.len() ==> (#[trigger] files.dom().contains(LogFile { slot: i, gzip: true })
            <==> slots[i - 1].gzip)
    &&& forall|f: LogFile| #[trigger]
        files.dom().contains(f) ==> 0 <= f.slot <= slots.len() && (f.slot == 0 ==> !f.gzip)
}

/// The changes that make room in the slots from `from` down to 1: what is in the last
/// slot goes, everything else moves one slot on. Oldest first, so nothing is
/// overwritten before it has moved.
pub open spec fn shifts(slots: Seq<Slot>, from: int) -> Seq<RollAction>
    decreases from,
{
    if from <= 0 {
        Seq::empty()
    } else {
        let slot = slots[from - 1];
        let change = |gzip: bool|
            if from == slots.len() {
                RollAction::Remove { index: from as usize, gzip }
            } else {
                RollAction::Shift { index: from as usize, gzip }
            };
        (if slot.plain {
            seq![change(false)]
        } else {
            Seq::empty()
        }) + (if slot.gzip {
            seq![change(true)]
        } else {
            Seq::empty()
        }) + shifts(slots, from - 1)
    }
}

/// The changes that a roll makes.
pub open spec fn roll_actions(slots: Seq<Slot>, compress: bool) -> Seq<RollAction> {
    if slots.len() == 0 {
        seq![RollAction::RemoveActive]
    } else {
        shifts(slots, slots.len() as int).push(RollAction::Retire) + if compress {
            seq![RollAction::Compress]
        } else {
            Seq::empty()
        }
    }
}

/// The changes that a roll makes, given what the slots from 1 on have: one entry per
/// retired file to keep.
pub fn roll_plan(slots: &Vec<Slot>, compress: bool) -> (actions: Vec<RollAction>)
    ensures
        actions@ == roll_actions(slots@, compress),
{
    let mut actions: Vec<RollAction> = Vec::new();
    if slots.len() == 0 {
        actions.push(RollAction::RemoveActive);
        proof {
            assert(actions@ =~= seq![RollAction::RemoveActive]);
        }
        return actions;
    }
    let mut index: usize = slots.len();
    let ghost all = shifts(slots@, slots@.len() as int);
    proof {
        assert(actions@ + shifts(slots@, index as int) =~= all);
    }
    while index > 0
        invariant
            index <= slots.len(),
            all == shifts(slots@, slots@.len() as int),
            actions@ + shifts(slots@, index as int) == all,
        decreases index,
    {
        let slot: Slot = slots[index - 1];
        let ghost before = actions@;
        let oldest: bool = index == slots.len();
        if slot.plain {
            actions.push(
                if oldest {
                    RollAction::Remove { index, gzip: false }
                } else {
                    RollAction::Shift { index, gzip: false }
                },
            );
        }
        if slot.gzip {
            actions.push(
                if oldest {
                    RollAction::Remove { index, gzip: true }
                } else {
                    RollAction::Shift { index, gzip: true }
                },
            );
        }
        proof {
            assert(actions@ + shifts(slots@, index - 1) =~= before + shifts(slots@, index as int));
        }
        index = index - 1;
    }
    actions.push(RollAction::Retire);
    proof {
        assert(actions@ =~= all.push(RollAction::Retire));
    }
    if compress {
        actions.push(RollAction::Compress);
    }
    proof {
        assert(actions@ =~= roll_actions(slots@, compress));
    }
    actions
}

/// Some changes after others are the changes in a row.
proof fn lemma_applied_all_add(files: Files, a: Seq<RollAction>, b: Seq<RollAction>)
    ensures
        applied_all(files, a + b) == applied_all(applied_all(files, a), b),
    decreases b.len(),
{
    if b.len() == 0 {
        assert(a + b =~= a);
    } else {
        assert((a + b).drop_last() =~= a + b.drop_last());
        assert((a + b).last() == b.last());
        lemma_applied_all_add(files, a, b.drop_last());
    }
}

/// Whether `current` is what is left of `files` when room has been made in the slots
/// after `done`: those up to `done` are as they were, and each later one has what the
/// one before it had.
spec fn shifted(files: Files, slots: Seq<Slot>, current: Files, done: int) -> bool {
    &&& forall|f: LogFile| #[trigger]
        current.dom().contains(f) <==> {
            ||| f.slot <= done && files.dom().contains(f)
            ||| done + 2 <= f.slot <= slots.len() && files.dom().contains(
                LogFile { slot: f.slot - 1, gzip: f.gzip },
            )
        }
    &&& forall|f: LogFile| #[trigger]
        current.dom().contains(f) ==> current[f] == if f.slot <= done {
            files[f]
        } else {
            files[LogFile { slot: f.slot - 1, gzip: f.gzip }]
        }
}

proof fn lemma_shifts(files: Files, slots: Seq<Slot>, current: Files, from: int)
    requires
        describes(files, slots),
        0 <= from <= slots.len() <= usize::MAX,
        shifted(files, slots, current, from),
    ensures
        shifted(files, slots, applied_all(current, shifts(slots, from)), 0),
    decreases from,
{
    if from > 0 {
        let slot = slots[from - 1];
        let change = |gzip: bool|
            if from == slots.len() {
                RollAction::Remove { index: from as usize, gzip }
            } else {
                RollAction::Shift { index: from as usize, gzip }
            };
        let first = if slot.plain {
            seq![change(false)]
        } else {
            Seq::empty()
        };
        let second = if slot.gzip {
            seq![change(true)]
        } else {
            Seq::empty()
        };
        let rest = shifts(slots, from - 1);
        assert(files.dom().contains(plain(from)) <==> slot.plain);
        assert(files.dom().contains(LogFile { slot: from, gzip: true }) <==> slot.gzip);
        assert(shifts(slots, from) == first + second + rest);
        lemma_applied_all_add(current, first + second, rest);
        lemma_applied_all_add(current, first, second);
        let one = applied_all(current, first);
        let two = applied_all(one, second);
        assert(seq![change(false)].drop_last() =~= Seq::<RollAction>::empty());
        assert(seq![change(true)].drop_last() =~= Seq::<RollAction>::empty());
        reveal_with_fuel(applied_all, 3);
        if slot.plain {
            assert(one == applied(current, change(false)));
        } else {
            assert(one == current);
        }
        if slot.gzip {
            assert(two == applied(one, change(true)));
        } else {
            assert(two == one);
        }
        assert(shifted(files, slots, two, from - 1));
        lemma_shifts(files, slots, two, from - 1);
    }
}

/// The newest retired file after a roll, given what the active file held, with what it
/// holds: the same, or the gzip stream of it.
pub open spec fn newest(held: Seq<u8>, compress: bool) -> (LogFile, Seq<u8>) {
    match gzip_of(held) {
        Ok(stream) if compress => (zipped(1), stream),
        _ => (plain(1), held),
    }
}

/// A roll keeps the newest files and nothing but them: the active file becomes the
/// newest retired one with what it held, gzipped where that is asked for and works, every
/// retired file but those of the last slot moves one slot on with what it held, no slot
/// beyond the last is used, and no active file is left in the way of a fresh one.
pub proof fn law_roll(files: Files, slots: Seq<Slot>, compress: bool)
    requires
        describes(files, slots),
        0 < slots.len() <= usize::MAX,
        files.dom().contains(plain(0)),
    ensures
        ({
            let after = applied_all(files, roll_actions(slots, compress));
            let (file, held) = newest(files[plain(0)], compress);
            &&& after.dom().contains(file) && after[file] == held
            &&& forall|f: LogFile|
                #![trigger files.dom().contains(f)]
                f.slot >= 1 && f.slot < slots.len() && files.dom().contains(f) ==> {
                    let next = LogFile { slot: f.slot + 1, gzip: f.gzip };
                    after.dom().contains(next) && after[next] == files[f]
                }
            &&& forall|f: LogFile| #[trigger]
                after.dom().contains(f) ==> {
                    ||| f == file
                    ||| 2 <= f.slot <= slots.len() && files.dom().contains(
                        LogFile { slot: f.slot - 1, gzip: f.gzip },
                    )
                }
        }),
{
    let n = slots.len() as int;
    assert(shifted(files, slots, files, n));
    lemma_shifts(files, slots, files, n);
    let made = applied_all(files, shifts(slots, n));
    let moves = shifts(slots, n).push(RollAction::Retire);
    assert(moves.drop_last() =~= shifts(slots, n));
    let retired = applied_all(files, moves);
    assert(retired == applied(made, RollAction::Retire));
    assert(made.dom().contains(plain(0)));
    assert(retired.dom().contains(plain(1)) && retired[plain(1)] == files[plain(0)]);
    let tail: Seq<RollAction> = if compress {
        seq![RollAction::Compress]
    } else {
        Seq::empty()
    };
    lemma_applied_all_add(files, moves, tail);
    assert(seq![RollAction::Compress].drop_last() =~= Seq::<RollAction>::empty());
    reveal_with_fuel(applied_all, 3);
    let after = applied_all(files, roll_actions(slots, compress));
    assert(after == if compress {
        compressed(retired)
    } else {
        retired
    });
    let (file, held) = newest(files[plain(0)], compress);
    assert(after.dom().contains(file) && after[file] == held);
    assert forall|f: LogFile| #![trigger files.dom().contains(f)]
        f.slot >= 1 && f.slot < n && files.dom().contains(f) implies ({
        let next = LogFile { slot: f.slot + 1, gzip: f.gzip };
        after.dom().contains(next) && after[next] == files[f]
    }) by {
        let next = LogFile { slot: f.slot + 1, gzip: f.gzip };
        assert(f == LogFile { slot: next.slot - 1, gzip: next.gzip });
        assert(made.dom().contains(next));
        assert(retired.dom().contains(next) && retired[next] == files[f]);
    }
    assert forall|f: LogFile| #[trigger] after.dom().contains(f) implies ({
        ||| f == file
        ||| 2 <= f.slot <= slots.len() && files.dom().contains(
            LogFile { slot: f.slot - 1, gzip: f.gzip },
        )
    }) by {
        if f != file {
            assert(retired.dom().contains(f));
            assert(f != plain(1));
            assert(made.dom().contains(f));
            assert(f.slot == 0 ==> files.dom().contains(f));
        }
    }
}

/// Whether a line of `len` bytes goes to a fresh file: the file has something in it and
/// the line would take it past `max_bytes`. A limit of zero is none.
pub open spec fn needs_roll(written: u64, len: u64, max_bytes: u64) -> bool {
    max_bytes > 0 && written + len > max_bytes && written > 0
}

/// The name of the retired file of `prefix` in a slot.
pub fn retired_name(prefix: &str, index: usize) -> (name: String)
    ensures
        name@ == prefix@ + "."@ + text::decimal_of(index as nat),
{
    let mut name: String = prefix.to_owned();
    name.append(".");
    name.append(decimal(index as u64).as_str());
    name
}

/// How the file operations of a write went.
#[derive(Debug)]
pub enum WriteOutcome<E> {
    /// The active file could not be opened afresh.
    NotOpened(E),
    /// The line could not be written.
    NotWritten(E),
    /// So many bytes of the line were written.
    Written(u64),
}

/// Why a line was not written.
#[derive(Debug)]
pub enum WriteError<E> {
    /// There is no open file.
    NotOpen,
    /// A file operation failed.
    Io(E),
}

/// What to do with a line.
#[derive(Debug, Clone, Copy, PartialEq, Eq, Structural)]
pub enum WriteStep {
    /// Roll, then write the line.
    Roll,
    /// Write the line.
    Write,
    /// There is no open file.
    NotOpen,
}

/// Rolls `prefix` to `prefix.1`, `prefix.2`, … as it fills.
#[derive(Debug)]
pub struct SizeRollingWriter {
    prefix: String,
    max_bytes: u64,
    max_files: usize,
    compress: bool,
    open: bool,
    written: u64,
}

impl SizeRollingWriter {
    /// The name of the active file.
    pub closed spec fn base(&self) -> Seq<char> {
        self.prefix@
    }

    /// The size at which the active file is retired.
    pub closed spec fn limit(&self) -> u64 {
        self.max_bytes
    }

    /// How many retired files are kept.
    pub closed spec fn kept(&self) -> usize {
        self.max_files
    }

    /// Whether retired files are gzipped.
    pub closed spec fn gzips(&self) -> bool {
        self.compress
    }

    /// Whether the active file is open.
    pub closed spec fn is_open(&self) -> bool {
        self.open
    }

    /// How many bytes the active file holds.
    pub closed spec fn size(&self) -> u64 {
        self.written
    }

    /// A writer over the active file, which holds `existing` bytes already: a restart
    /// does not reset the budget.
    ///
    /// `max_files` counts retired files, so the total on disk is one more than this.
    /// Zero retires nothing: the file starts over when it fills.
    pub fn new(
        prefix: &str,
        max_bytes: u64,
        max_files: usize,
        compress: bool,
        existing: u64,
    ) -> (writer: SizeRollingWriter)
        ensures
            writer.base() == prefix@,
            writer.limit() == max_bytes,
            writer.kept() == max_files,
            writer.gzips() == compress,
            writer.is_open(),
            writer.size() == existing,
    {
        SizeRollingWriter {
            prefix: prefix.to_owned(),
            max_bytes,
            max_files,
            compress,
            open: true,
            written: existing,
        }
    }

    /// The name of the active file.
    pub fn active_path(&self) -> (name: String)
        ensures
            name@ == self.base(),
    {
        self.prefix.clone()
    }

    /// The name of the retired file in a slot.
    pub fn retired_path(&self, index: usize) -> (name: String)
        ensures
            name@ == self.base() + "."@ + text::decimal_of(index as nat),
    {
        retired_name(self.prefix.as_str(), index)
    }

    /// How many bytes the active file holds.
    pub fn written(&self) -> (written: u64)
        ensures
            written == self.size(),
    {
        self.written
    }

    /// What to do with a line of `len` bytes. Rolling comes before writing rather than
    /// after, so a line is never split across two files.
    pub fn before_write(&self, len: u64) -> (step: WriteStep)
        ensures
            step == if needs_roll(self.size(), len, self.limit()) {
                WriteStep::Roll
            } else if self.is_open() {
                WriteStep::Write
            } else {
                WriteStep::NotOpen
            },
    {
        if self.max_bytes > 0 && (self.written as u128) + (len as u128) > self.max_bytes as u128
            && self.written > 0 {
            WriteStep::Roll
        } else if self.open {
            WriteStep::Write
        } else {
            WriteStep::NotOpen
        }
    }

    /// Close the active file and say what to do with the files, given what the slots
    /// from 1 on have: one entry per retired file to keep.
    pub fn roll(&mut self, slots: &Vec<Slot>) -> (actions: Vec<RollAction>)
        requires
            slots@.len() == old(self).kept(),
        ensures
            actions@ == roll_actions(slots@, old(self).gzips()),
            !final(self).is_open(),
            final(self).size() == old(self).size(),
            final(self).base() == old(self).base(),
            final(self).limit() == old(self).limit(),
            final(self).kept() == old(self).kept(),
            final(self).gzips() == old(self).gzips(),
    {
        self.open = false;
        roll_plan(slots, self.compress)
    }

    /// The active file has been opened afresh.
    pub fn reopened(&mut self)
        ensures
            final(self).is_open(),
            final(self).size() == 0,
            final(self).base() == old(self).base(),
            final(self).limit() == old(self).limit(),
            final(self).kept() == old(self).kept(),
            final(self).gzips() == old(self).gzips(),
    {
        self.open = true;
        self.written = 0;
    }

    /// `count` bytes have been written.
    pub fn wrote(&mut self, count: u64)
        requires
            old(self).size() + count <= u64::MAX,
        ensures
            final(self).size() == old(self).size() + count,
            final(self).is_open() == old(self).is_open(),
            final(self).base() == old(self).base(),
            final(self).limit() == old(self).limit(),
            final(self).kept() == old(self).kept(),
            final(self).gzips() == old(self).gzips(),
    {
        self.written = self.written + count;
    }
}

/// How many bytes the file holds that a line of `len` bytes is written into: none where
/// it is a fresh one.
pub open spec fn base_size(writer: SizeRollingWriter, len: u64) -> u64 {
    if needs_roll(writer.size(), len, writer.limit()) {
        0
    } else {
        writer.size()
    }
}

/// Whether `plan` is what a write of `len` bytes does to the files first: the changes of a
/// roll where one is needed, given what the slots have, and nothing otherwise.
pub open spec fn is_write_plan(
    writer: SizeRollingWriter,
    len: u64,
    slots: Seq<Slot>,
    plan: Option<Vec<RollAction>>,
) -> bool {
    if needs_roll(writer.size(), len, writer.limit()) {
        plan matches Some(actions) && actions@ == roll_actions(slots, writer.gzips())
    } else {
        plan is None
    }
}

/// Whether the writer `after` and `written` are what a write of `len` bytes by `before`
/// comes to when the file operations went like this.
pub open spec fn is_taken_in<E>(
    before: SizeRollingWriter,
    len: u64,
    outcome: WriteOutcome<E>,
    after: SizeRollingWriter,
    written: Result<u64, WriteError<E>>,
) -> bool {
    match outcome {
        WriteOutcome::NotOpened(e) => {
            &&& written == Err::<u64, WriteError<E>>(WriteError::Io(e))
            &&& after.size() == before.size()
            &&& after.is_open() == !needs_roll(before.size(), len, before.limit())
        },
        WriteOutcome::NotWritten(e) => {
            &&& written == Err::<u64, WriteError<E>>(WriteError::Io(e))
            &&& after.size() == base_size(before, len)
            &&& after.is_open()
        },
        WriteOutcome::Written(count) => {
            &&& written == Ok::<u64, WriteError<E>>(count)
            &&& after.size() == base_size(before, len) + count
            &&& after.is_open()
        },
    }
}

impl SizeRollingWriter {
    /// Write a line of `len` bytes: roll first where it is needed, so that the line is
    /// never split across two files, and take in how it went.
    ///
    /// `slots` looks at the slots from 1 on, one entry per retired file to keep, and is
    /// asked where there is a roll. `perform` makes the changes it is given, where it is
    /// given any, then opens the active file afresh, and writes the line.
    pub fn write<
        E,
        S: FnOnce() -> Vec<Slot>,
        F: FnOnce(Option<Vec<RollAction>>) -> WriteOutcome<E>,
    >(&mut self, len: u64, slots: S, perform: F) -> (written: Result<u64, WriteError<E>>)
        requires
            call_requires(slots, ()),
            forall|found: Vec<Slot>| #[trigger]
                call_ensures(slots, (), found) ==> found@.len() == old(self).kept(),
            forall|plan: Option<Vec<RollAction>>| #[trigger] call_requires(perform, (plan,)),
            forall|plan: Option<Vec<RollAction>>, count: u64| #[trigger]
                call_ensures(perform, (plan,), WriteOutcome::<E>::Written(count)) ==> count <= len,
            old(self).limit() == 0 ==> old(self).size() + len <= u64::MAX,
        ensures
            final(self).base() == old(self).base(),
            final(self).limit() == old(self).limit(),
            final(self).kept() == old(self).kept(),
            final(self).gzips() == old(self).gzips(),
            if !needs_roll(old(self).size(), len, old(self).limit()) && !old(self).is_open() {
                &&& written == Err::<u64, WriteError<E>>(WriteError::NotOpen)
                &&& *final(self) == *old(self)
            } else {
                exists|
                    found: Vec<Slot>,
                    plan: Option<Vec<RollAction>>,
                    outcome: WriteOutcome<E>,
                |
                    {
                        &&& needs_roll(old(self).size(), len, old(self).limit()) ==> call_ensures(
                            slots,
                            (),
                            found,
                        )
                        &&& #[trigger] is_write_plan(*old(self), len, found@, plan)
                        &&& #[trigger] call_ensures(perform, (plan,), outcome)
                        &&& is_taken_in(*old(self), len, outcome, *final(self), written)
                    }
            },
            written is Ok && old(self).limit() > 0 ==> final(self).size() <= old(self).limit()
                || final(self).size() <= len,
    {
        let ghost before = *self;
        let ghost mut found: Vec<Slot> = arbitrary();
        let rolls: bool = match self.before_write(len) {
            WriteStep::Roll => true,
            WriteStep::Write => false,
            WriteStep::NotOpen => {
                return Err(WriteError::NotOpen);
            },
        };
        let plan: Option<Vec<RollAction>> = if rolls {
            let have: Vec<Slot> = slots();
            proof {
                found = have;
            }
            Some(self.roll(&have))
        } else {
            None
        };
        let ghost planned = plan;
        proof {
            assert(is_write_plan(before, len, found@, planned));
        }
        let outcome: WriteOutcome<E> = perform(plan);
        let ghost went = outcome;
        let written: Result<u64, WriteError<E>> = match outcome {
            WriteOutcome::NotOpened(e) => Err(WriteError::Io(e)),
            WriteOutcome::NotWritten(e) => {
                if rolls {
                    self.reopened();
                }
                Err(WriteError::Io(e))
            },
            WriteOutcome::Written(count) => {
                proof {
                    assert(call_ensures(perform, (planned,), WriteOutcome::<E>::Written(count)));
                }
                if rolls {
                    self.reopened();
                }
                self.wrote(count);
                Ok(count)
            },
        };
        proof {
            assert(call_ensures(perform, (planned,), went));
            assert(is_taken_in(before, len, went, *self, written));
        }
        written
    }
}

/// The files that a line of `len` bytes is written into: rolled, with a fresh active file,
/// where the line does not go to the active file as it is.
pub open spec fn ready_files(
    files: Files,
    writer: SizeRollingWriter,
    slots: Seq<Slot>,
    len: u64,
) -> Files {
    if needs_roll(writer.size(), len, writer.limit()) {
        applied_all(files, roll_actions(slots, writer.gzips())).insert(plain(0), Seq::empty())
    } else {
        files
    }
}

/// The files after a line has been appended to the active one.
pub open spec fn appended(files: Files, line: Seq<u8>) -> Files {
    files.insert(plain(0), files[plain(0)] + line)
}

/// A line is never split across two files, and the size is bounded. Where
/// [`SizeRollingWriter::write`] comes to `Ok(count)`, it rolled before the line if and only
/// if the file held something and the line would have taken it past the limit. All `count`
/// bytes end the active file, no other file is touched by the write, the writer knows the
/// length of the active file, and that is at most the limit, or the length of the line
/// where that is longer.
pub proof fn law_line_is_never_split<E>(
    files: Files,
    slots: Seq<Slot>,
    line: Seq<u8>,
    count: u64,
    before: SizeRollingWriter,
    after: SizeRollingWriter,
)
    requires
        before.limit() > 0,
        line.len() <= u64::MAX,
        count <= line.len(),
        files.dom().contains(plain(0)),
        files[plain(0)].len() == before.size(),
        is_taken_in::<E>(
            before,
            line.len() as u64,
            WriteOutcome::Written(count),
            after,
            Ok(count),
        ),
    ensures
        ({
            let room = ready_files(files, before, slots, line.len() as u64);
            let done = appended(room, line.take(count as int));
            &&& needs_roll(before.size(), line.len() as u64, before.limit()) <==> before.size() > 0
                && before.size() + line.len() > before.limit()
            &&& done[plain(0)].len() == after.size()
            &&& done[plain(0)].skip(base_size(before, line.len() as u64) as int) == line.take(
                count as int,
            )
            &&& forall|f: LogFile|
                f != plain(0) ==> (#[trigger] done.dom().contains(f) <==> room.dom().contains(f))
                    && done[f] == room[f]
            &&& after.size() <= before.limit() || after.size() <= line.len()
        }),
{
    let len = line.len() as u64;
    let room = ready_files(files, before, slots, len);
    let done = appended(room, line.take(count as int));
    assert(room[plain(0)].len() == base_size(before, len));
    assert(done[plain(0)].skip(base_size(before, len) as int) =~= line.take(count as int));
}

/// What gzipping some bytes gives: the stream, or the message of the failure.
pub uninterp spec fn gzip_of(bytes: Seq<u8>) -> Result<Seq<u8>, Seq<char>>;

/// `flate2::write::GzEncoder` at the default compression level, written to and
/// finished, into memory: the gzip stream of the bytes, or the message of the failure.
/// Both depend on the bytes alone.
#[verifier::external_body]
fn gzip(bytes: &[u8]) -> (stream: Result<Vec<u8>, String>)
    ensures
        match stream {
            Ok(out) => gzip_of(bytes@) == Ok::<Seq<u8>, Seq<char>>(out@),
            Err(e) => gzip_of(bytes@) == Err::<Seq<u8>, Seq<char>>(e@),
        },
{
    let mut encoder = flate2::write::GzEncoder::new(Vec::new(), flate2::Compression::default());
    std::io::Write::write_all(&mut encoder, bytes).map_err(|e| e.to_string())?;
    encoder.finish().map_err(|e| e.to_string())
}

/// A file to be written.
#[derive(Debug)]
pub struct GzipFile {
    /// The path.
    pub path: String,
    /// What goes into it.
    pub bytes: Vec<u8>,
}

/// The file to write in place of `path`, given what gzipping its contents gave:
/// `<path>.gz` with the stream, or none.
pub fn gzip_file(path: &str, stream: Result<Vec<u8>, String>) -> (file: Option<GzipFile>)
    ensures
        match stream {
            Ok(bytes) => file is Some && file->0.path@ == path@ + ".gz"@ && file->0.bytes == bytes,
            Err(_) => file is None,
        },
{
    match stream {
        Ok(bytes) => Some(GzipFile { path: path.to_owned().concat(".gz"), bytes }),
        Err(_) => None,
    }
}

/// Gzip a retired file, given its contents where they could be read: the file
/// `<path>.gz` to write in its place.
///
/// Best-effort: where there is nothing to write, the uncompressed file stays, which is
/// the safe outcome.
pub fn compress_in_place(path: &str, contents: Option<Vec<u8>>) -> (file: Option<GzipFile>)
    ensures
        match contents {
            Some(bytes) => match gzip_of(bytes@) {
                Ok(stream) => file is Some && file->0.path@ == path@ + ".gz"@ && file->0.bytes@
                    == stream,
                Err(_) => file is None,
            },
            None => file is None,
        },
{
    match contents {
        Some(bytes) => gzip_file(path, gzip(bytes.as_slice())),
        None => None,
    }
}

/// How writing the gzipped file went.
#[derive(Debug, Clone, Copy, PartialEq, Eq, Structural)]
pub enum GzipOutcome {
    /// It could not be created.
    NotCreated,
    /// It was created, and not wholly written.
    Failed,
    /// It was written.
    Written,
}

/// Which file to remove after writing the gzipped one: the plain file once the gzipped
/// one holds it, the gzipped one where it does not. Logs are never lost to save disk.
pub fn remove_after_gzip(path: &str, outcome: GzipOutcome) -> (removed: Option<String>)
    ensures
        text::view_opt(removed) == (match outcome {
            GzipOutcome::Written => Some(path@),
            GzipOutcome::Failed => Some(path@ + ".gz"@),
            GzipOutcome::NotCreated => None,
        }),
{
    match outcome {
        GzipOutcome::Written => Some(path.to_owned()),
        GzipOutcome::Failed => Some(path.to_owned().concat(".gz")),
        GzipOutcome::NotCreated => None,
    }
}

/// A line goes to a fresh file exactly where the file has something in it and the line
/// would take it past the limit; without a limit never, and a line that still fits to the
/// last byte stays.
pub proof fn law_when_to_roll(written: u64, len: u64, max_bytes: u64)
    ensures
        !needs_roll(written, len, 0),
        !needs_roll(0, len, max_bytes),
        written + len <= max_bytes ==> !needs_roll(written, len, max_bytes),
        max_bytes > 0 && written > 0 && written + len > max_bytes ==> needs_roll(
            written,
            len,
            max_bytes,
        ),
{
}

/// With no retired file to keep, a roll removes the active file and touches nothing else.
pub proof fn law_roll_keeps_none(files: Files, compress: bool)
    ensures
        applied_all(files, roll_actions(Seq::empty(), compress)) == files.remove(plain(0)),
{
    let actions = roll_actions(Seq::empty(), compress);
    assert(actions.drop_last() =~= Seq::<RollAction>::empty());
    assert(applied_all(files, actions.drop_last()) == files);
}

/// What did not reach the file does not count: after a failed write the writer's size is
/// that of the file the line was meant for, after a failed open it is what it was, and
/// after a successful one the bytes written have been added.
pub proof fn law_only_written_bytes_count<E>(
    before: SizeRollingWriter,
    len: u64,
    outcome: WriteOutcome<E>,
    after: SizeRollingWriter,
    written: Result<u64, WriteError<E>>,
)
    requires
        is_taken_in(before, len, outcome, after, written),
        before.limit() > 0,
    ensures
        written is Ok <==> outcome is Written,
        outcome is NotOpened ==> after.size() == before.size(),
        before.size() == 0 || before.size() + len <= before.limit() ==> (match outcome {
            WriteOutcome::Written(count) => after.size() == before.size() + count && written->Ok_0
                == count,
            _ => after.size() == before.size(),
        }),
        before.size() > 0 && before.size() + len > before.limit() ==> (match outcome {
            WriteOutcome::Written(count) => after.size() == count && written->Ok_0 == count,
            WriteOutcome::NotWritten(_) => after.size() == 0,
            WriteOutcome::NotOpened(_) => !after.is_open(),
        }),
{
}

/// The files are changed before a line exactly where the line needs a fresh file, and
/// then by a roll of the slots there are, gzipping where the writer does: the newest
/// retired file is what the active file held.
pub proof fn law_write_plan(
    writer: SizeRollingWriter,
    len: u64,
    files: Files,
    slots: Seq<Slot>,
    plan: Option<Vec<RollAction>>,
)
    requires
        is_write_plan(writer, len, slots, plan),
        describes(files, slots),
        slots.len() <= usize::MAX,
        files.dom().contains(plain(0)),
    ensures
        plan is Some <==> writer.limit() > 0 && writer.size() > 0 && writer.size() + len
            > writer.limit(),
        plan is Some && slots.len() == 0 ==> applied_all(files, plan->0@) == files.remove(plain(0)),
        plan is Some && slots.len() > 0 ==> ({
            let after = applied_all(files, plan->0@);
            let held = files[plain(0)];
            if writer.gzips() && gzip_of(held) is Ok {
                after.dom().contains(zipped(1)) && after[zipped(1)] == gzip_of(held)->Ok_0
                    && !after.dom().contains(plain(1))
            } else {
                after.dom().contains(plain(1)) && after[plain(1)] == held
            }
        }),
{
    if plan is Some {
        if slots.len() == 0 {
            law_roll_keeps_none(files, writer.gzips());
            assert(slots =~= Seq::<Slot>::empty());
        } else {
            law_roll(files, slots, writer.gzips());
        }
    }
}

} // verus!
