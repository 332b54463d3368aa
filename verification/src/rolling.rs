//! Log files that roll over at local midnight.
//!
//! A [`RollingFileAppender`] keeps the books of one daily log file: which
//! file is open, when the next one is due, and what the link `current`
//! points to. It opens and writes nothing itself. Before each write its
//! owner asks it what to do, does that to the files, and reports back.
//!
//! A write rolls over where no file is open or the local midnight has come
//! at which the rollover is due. The rollover goes to the file of the local
//! day of the write. Once the owner reports that file as open, the next
//! rollover is due at the midnight that ends that day, however long it was
//! since the last write. Until then the books stay as they were, but for
//! the file, which is given up before the new one is opened.

use crate::clock::{format_date, local_now, next_midnight, utc_now, LocalTime};
use crate::clock::{date_text, lemma_midnight_after, lemma_same_day, midnight_after};
use vstd::prelude::*;

verus! {

/// The name of the link in the directory that points to the newest log
/// file.
pub const LINK_NAME: &'static str = "current";

/// Why a rollover could not be done.
#[derive(Clone, Copy, Debug, PartialEq, Eq, Structural)]
pub enum RollError {
    /// The local time cannot be found out.
    Clock,
    /// A time lies outside of what a date or a timestamp can hold.
    OutOfRange,
}

/// A filename prefix in which `-` stands for each `/`, so that the name
/// stays within the directory.
pub open spec fn sanitized(prefix: Seq<char>) -> Seq<char> {
    prefix.map_values(|c: char| if c == '/' { '-' } else { c })
}

/// The name of the log file of one day.
pub open spec fn file_name(prefix: Seq<char>, date: Seq<char>) -> Seq<char> {
    prefix + "-"@ + date + ".log"@
}

/// The name of the log file of the local day at `now`, where the date can
/// be written.
pub open spec fn day_file(prefix: Seq<char>, now: LocalTime) -> Seq<char> {
    file_name(prefix, date_text(now).unwrap())
}

/// A sanitized prefix is as long as the prefix, holds no `/`, and stays as
/// it is when it is sanitized again.
pub proof fn lemma_sanitized(prefix: Seq<char>)
    ensures
        sanitized(prefix).len() == prefix.len(),
        forall|i: int| 0 <= i < prefix.len() ==> #[trigger] sanitized(prefix)[i] != '/',
        sanitized(sanitized(prefix)) == sanitized(prefix),
{
    assert(sanitized(sanitized(prefix)) =~= sanitized(prefix));
}

/// Replaces each `/` in a filename prefix by `-`.
pub fn sanitize(prefix: &str) -> (clean: String)
    ensures
        clean@ == sanitized(prefix@),
{
    let mut clean = String::new();
    for c in it: prefix.chars()
        invariant
            it.seq() == prefix@,
            clean@ == sanitized(prefix@.take(it.index())),
    {
        assert(prefix@.take(it.index() + 1) == prefix@.take(it.index()).push(c));
        if c == '/' {
            clean.push('-');
        } else {
            clean.push(c);
        }
    }
    assert(prefix@.take(prefix@.len() as int) == prefix@);
    clean
}

/// The name of the log file for the day with the date `date`.
pub fn log_file_name(prefix: &str, date: &str) -> (name: String)
    ensures
        name@ == file_name(prefix@, date@),
{
    let mut name = String::from_str(prefix);
    name.append("-");
    name.append(date);
    name.append(".log");
    name
}

/// What a rolling appender keeps.
pub struct RollingState {
    /// The directory of the log files.
    pub dir: Seq<char>,
    /// The prefix of their names.
    pub prefix: Seq<char>,
    /// The name of the file that is open, if one is.
    pub file: Option<Seq<char>>,
    /// The name that the link `current` points to, as far as is known.
    pub link: Option<Seq<char>>,
    /// The timestamp from which on a write rolls over.
    pub roll_at: int,
    /// The time at which the rollover was last found or set to lie ahead.
    pub seen: int,
    /// The time of the rollover that was begun and has not ended, if one
    /// was.
    pub begun: Option<LocalTime>,
}

impl RollingState {
    /// The link, where there is one, points to the file that is open, the
    /// next rollover lies after the time that was last seen, and a timestamp
    /// holds the midnight after a rollover that was begun.
    pub open spec fn wf(self) -> bool {
        &&& self.file is Some && self.link is Some ==> self.link == self.file
        &&& self.seen < self.roll_at
        &&& self.begun matches Some(at) ==> midnight_after(at) <= i64::MAX
    }

    /// Whether a write at `now` has to roll over first.
    pub open spec fn needs_rollover(self, now: int) -> bool {
        self.file is None || now >= self.roll_at
    }

    /// The state with no file open and no rollover begun.
    pub open spec fn released(self) -> RollingState {
        RollingState { file: None, begun: None, ..self }
    }

    /// The state after the rollover was found to lie ahead at `now`.
    pub open spec fn checked(self, now: int) -> RollingState {
        RollingState { seen: now, ..self }
    }

    /// The state after a rollover was begun at `now`: no file is open, and
    /// the time is kept for the end of the rollover. The instant of the
    /// rollover, the time last seen and the link stay.
    pub open spec fn rolled(self, now: LocalTime) -> RollingState {
        RollingState { file: None, begun: Some(now), ..self }
    }

    /// The state after the file `name` was opened: it is the open one, and
    /// the link points to it where it could be made (`linked`). A rollover
    /// that was begun ends: the next one is due at the local midnight after
    /// the time at which it was begun.
    pub open spec fn opened(self, name: Seq<char>, linked: bool) -> RollingState {
        let link = if linked {
            Some(name)
        } else {
            None
        };
        match self.begun {
            Some(at) => RollingState {
                file: Some(name),
                link,
                roll_at: midnight_after(at),
                seen: at.timestamp as int,
                begun: None,
                ..self
            },
            None => RollingState { file: Some(name), link, ..self },
        }
    }

    /// Whether a write leads from this state to the state `next` with the
    /// answer `step`, where the clock reads `utc` and the local time is
    /// `local`, or cannot be found out.
    ///
    /// Where the rollover is not due, the write goes to the open file. Else
    /// it needs the local time and begins a rollover to the file of the
    /// local day, where the date can be written and a timestamp holds the
    /// midnight after.
    pub open spec fn steps_to(
        self,
        utc: int,
        local: Option<LocalTime>,
        next: RollingState,
        step: Result<Option<String>, RollError>,
    ) -> bool {
        if !self.needs_rollover(utc) {
            step matches Ok(None) && next == self.checked(utc)
        } else {
            match local {
                None => step matches Err(RollError::Clock) && next == self.released(),
                Some(now) => match step {
                    Ok(Some(name)) => date_text(now) is Some && midnight_after(now) <= i64::MAX
                        && next == self.rolled(now) && name@ == day_file(self.prefix, now),
                    Ok(None) => false,
                    Err(e) => e == RollError::OutOfRange && (date_text(now) is None
                        || midnight_after(now) > i64::MAX) && next == self.released(),
                },
            }
        }
    }

    /// The state with which a write at `now` ends, where the date can be
    /// written, the file opens and the link is made: what `append_at` and
    /// then `opened` make of the state.
    pub open spec fn after_write(self, now: LocalTime) -> RollingState {
        if self.needs_rollover(now.timestamp as int) {
            self.rolled(now).opened(day_file(self.prefix, now), true)
        } else {
            self.checked(now.timestamp as int)
        }
    }

    /// The state with which a run of writes ends, one at each of `times` in
    /// turn.
    pub open spec fn after_writes(self, times: Seq<LocalTime>) -> RollingState
        decreases times.len(),
    {
        if times.len() == 0 {
            self
        } else {
            self.after_writes(times.drop_last()).after_write(times.last())
        }
    }

    /// Whether write number `i` of a run rolls over.
    pub open spec fn rolls(self, times: Seq<LocalTime>, i: int) -> bool {
        self.after_writes(times.take(i)).needs_rollover(times[i].timestamp as int)
    }

    /// The number of writes in a run that roll over.
    pub open spec fn rotations(self, times: Seq<LocalTime>) -> nat
        decreases times.len(),
    {
        if times.len() == 0 {
            0
        } else {
            let before = self.after_writes(times.drop_last());
            let last: nat = if before.needs_rollover(times.last().timestamp as int) {
                1
            } else {
                0
            };
            self.rotations(times.drop_last()) + last
        }
    }

    /// The file that is open when the bytes of write number `i` of a run
    /// go out.
    pub open spec fn target(self, times: Seq<LocalTime>, i: int) -> Option<Seq<char>> {
        self.after_writes(times.take(i + 1)).file
    }

    /// The bytes that a run of writes appends to the file `name`, where
    /// write number `i` holds `chunks[i]` and each write appends what it
    /// holds to the file that is open when its bytes go out.
    pub open spec fn appended(
        self,
        times: Seq<LocalTime>,
        chunks: Seq<Seq<u8>>,
        name: Seq<char>,
    ) -> Seq<u8>
        decreases times.len(),
    {
        if times.len() == 0 {
            Seq::empty()
        } else {
            let before = self.appended(times.drop_last(), chunks.drop_last(), name);
            if self.after_writes(times).file == Some(name) {
                before + chunks.last()
            } else {
                before
            }
        }
    }

    /// What the file `name` holds after a run of writes, where `disk` is
    /// what the files of the directory held before: a file is opened for
    /// appending, and made empty where it is missing.
    pub open spec fn content(
        self,
        disk: Map<Seq<char>, Seq<u8>>,
        times: Seq<LocalTime>,
        chunks: Seq<Seq<u8>>,
        name: Seq<char>,
    ) -> Seq<u8> {
        held(disk, name) + self.appended(times, chunks, name)
    }

    /// The file that the writes of a run before its first midnight go to:
    /// the one that is open, or else the file of the day of the first
    /// write.
    pub open spec fn first_file(self, times: Seq<LocalTime>) -> Seq<char> {
        match self.file {
            Some(name) => name,
            None => day_file(self.prefix, times[0]),
        }
    }
}

/// When the next rollover is due, and the time at which that was last
/// found or set to lie ahead.
#[derive(Clone, Copy, Debug)]
struct Due {
    roll_at: i64,
    seen: i64,
}

/// What the file `name` holds in a directory: nothing where it is missing.
pub open spec fn held(disk: Map<Seq<char>, Seq<u8>>, name: Seq<char>) -> Seq<u8> {
    if disk.dom().contains(name) {
        disk[name]
    } else {
        Seq::empty()
    }
}

/// The bytes of `chunks`, one after the other, where they go to the file
/// `name`, and else nothing.
pub open spec fn bytes_for(chunks: Seq<Seq<u8>>, file: Seq<char>, name: Seq<char>) -> Seq<u8> {
    if name == file {
        chunks.flatten()
    } else {
        Seq::empty()
    }
}

/// The books of one daily log file.
#[derive(Debug)]
pub struct RollingFileAppender {
    dir: String,
    prefix: String,
    file: Option<String>,
    link: Option<String>,
    due: Due,
    begun: Option<LocalTime>,
}

impl View for RollingFileAppender {
    type V = RollingState;

    closed spec fn view(&self) -> RollingState {
        RollingState {
            dir: self.dir@,
            prefix: self.prefix@,
            file: self.file.deep_view(),
            link: self.link.deep_view(),
            roll_at: self.due.roll_at as int,
            seen: self.due.seen as int,
            begun: self.begun,
        }
    }
}

impl RollingFileAppender {
    #[verifier::type_invariant]
    spec fn inv(self) -> bool {
        self@.wf()
    }

    /// An appender for the files `{prefix}-{date}.log` in `dir`, with no
    /// file open and the first rollover due at the next local midnight
    /// after `now`. The directory is not looked at.
    pub fn new_at(dir: &str, prefix: &str, now: LocalTime) -> (made: Result<Self, RollError>)
        ensures
            match made {
                Ok(appender) => appender@ == (RollingState {
                    dir: dir@,
                    prefix: sanitized(prefix@),
                    file: None,
                    link: None,
                    roll_at: midnight_after(now),
                    seen: now.timestamp as int,
                    begun: None,
                }),
                Err(e) => e == RollError::OutOfRange && midnight_after(now) > i64::MAX,
            },
    {
        proof {
            lemma_midnight_after(now);
        }
        match next_midnight(now) {
            Some(roll_at) => Ok(
                RollingFileAppender {
                    dir: String::from_str(dir),
                    prefix: sanitize(prefix),
                    file: None,
                    link: None,
                    due: Due { roll_at, seen: now.timestamp },
                    begun: None,
                },
            ),
            None => Err(RollError::OutOfRange),
        }
    }

    /// As `new_at`, at the current local time.
    pub fn new(dir: &str, prefix: &str) -> (made: Result<Self, RollError>)
        ensures
            made matches Ok(appender) ==> exists|now: LocalTime|
                appender@ == (RollingState {
                    dir: dir@,
                    prefix: sanitized(prefix@),
                    file: None,
                    link: None,
                    roll_at: #[trigger] midnight_after(now),
                    seen: now.timestamp as int,
                    begun: None,
                }),
    {
        match local_now() {
            Some(now) => Self::new_at(dir, prefix, now),
            None => Err(RollError::Clock),
        }
    }

    /// The directory of the log files.
    pub fn dir(&self) -> (dir: &str)
        ensures
            dir@ == self@.dir,
    {
        self.dir.as_str()
    }

    /// The prefix of the names of the log files.
    pub fn prefix(&self) -> (prefix: &str)
        ensures
            prefix@ == self@.prefix,
    {
        self.prefix.as_str()
    }

    /// The name of the link in the directory that points to the newest log
    /// file: `current`.
    pub fn link_name(&self) -> (name: &'static str)
        ensures
            name@ == LINK_NAME@,
    {
        LINK_NAME
    }

    /// The name of the file that is open, if one is.
    pub fn file(&self) -> (file: Option<&str>)
        ensures
            file.deep_view() == self@.file,
    {
        match &self.file {
            Some(name) => Some(name.as_str()),
            None => None,
        }
    }

    /// The name that the link `current` points to, as far as is known.
    pub fn link_target(&self) -> (link: Option<&str>)
        ensures
            link.deep_view() == self@.link,
    {
        match &self.link {
            Some(name) => Some(name.as_str()),
            None => None,
        }
    }

    /// The timestamp from which on a write rolls over.
    pub fn roll_at(&self) -> (roll_at: i64)
        ensures
            roll_at == self@.roll_at,
            self@.seen < roll_at,
    {
        proof {
            use_type_invariant(self);
        }
        self.due.roll_at
    }

    /// The time at which the rollover was last found or set to lie ahead.
    pub fn seen(&self) -> (seen: i64)
        ensures
            seen == self@.seen,
            seen < self@.roll_at,
    {
        proof {
            use_type_invariant(self);
        }
        self.due.seen
    }

    /// Whether a write at the timestamp `now` has to roll over first: no
    /// file is open, or the rollover is due.
    pub fn needs_rollover(&self, now: i64) -> (due: bool)
        ensures
            due == self@.needs_rollover(now as int),
    {
        self.file.is_none() || now >= self.due.roll_at
    }

    /// Begins a rollover at `now` to the file of the day with the date
    /// `date`: no file is open any more, the time is kept for the end of
    /// the rollover, and the name of the file to open comes back. The
    /// instant of the rollover stays until the file is reported as open.
    /// Where no timestamp holds the midnight after `now`, the rollover
    /// fails.
    pub fn rollover_to(&mut self, date: &str, now: LocalTime) -> (name: Result<String, RollError>)
        ensures
            match name {
                Ok(n) => midnight_after(now) <= i64::MAX && final(self)@ == old(self)@.rolled(now)
                    && n@ == file_name(old(self)@.prefix, date@),
                Err(e) => e == RollError::OutOfRange && midnight_after(now) > i64::MAX
                    && final(self)@ == old(self)@.released(),
            },
            final(self)@.wf(),
    {
        proof {
            use_type_invariant(&*self);
        }
        self.file = None;
        match next_midnight(now) {
            Some(_) => {
                self.begun = Some(now);
                Ok(log_file_name(self.prefix.as_str(), date))
            },
            None => {
                self.begun = None;
                Err(RollError::OutOfRange)
            },
        }
    }

    /// Begins a rollover at `now` to the file of the local day: as
    /// `rollover_to` with the date of that day, and failing also where the
    /// date cannot be written.
    pub fn rollover(&mut self, now: LocalTime) -> (name: Result<String, RollError>)
        ensures
            match name {
                Ok(n) => date_text(now) is Some && midnight_after(now) <= i64::MAX && final(self)@
                    == old(self)@.rolled(now) && n@ == day_file(old(self)@.prefix, now),
                Err(e) => e == RollError::OutOfRange && (date_text(now) is None || midnight_after(
                    now,
                ) > i64::MAX) && final(self)@ == old(self)@.released(),
            },
            final(self)@.wf(),
    {
        proof {
            use_type_invariant(&*self);
        }
        match format_date(now) {
            Some(date) => self.rollover_to(date.as_str(), now),
            None => {
                self.file = None;
                self.begun = None;
                Err(RollError::OutOfRange)
            },
        }
    }

    /// Ends a rollover after the file `name` was opened: the file is the
    /// open one, and the next rollover is due at the local midnight after
    /// the time at which this one was begun. `linked` tells whether the
    /// link `current` could be pointed to the file; where it could not, no
    /// link is known.
    pub fn opened(&mut self, name: String, linked: bool)
        ensures
            final(self)@ == old(self)@.opened(name@, linked),
            final(self)@.wf(),
    {
        proof {
            use_type_invariant(&*self);
        }
        self.file = None;
        if let Some(at) = self.begun {
            proof {
                lemma_midnight_after(at);
            }
            if let Some(roll_at) = next_midnight(at) {
                self.due = Due { roll_at, seen: at.timestamp };
            }
            self.begun = None;
        }
        self.link = if linked {
            Some(name.clone())
        } else {
            None
        };
        self.file = Some(name);
    }

    /// What a write has to do first, where the clock reads `utc` and the
    /// local time is `local`, or cannot be found out. `None`: nothing, the
    /// bytes go to the file that is open. A name: the open file was given
    /// up; open the file of that name in the directory for appending, point
    /// the link `current` to the name, report with `opened`, then write.
    /// The local time is asked for only where the rollover is due.
    pub fn append_with(&mut self, utc: i64, local: Option<LocalTime>) -> (step: Result<
        Option<String>,
        RollError,
    >)
        ensures
            old(self)@.steps_to(utc as int, local, final(self)@, step),
            final(self)@.wf(),
    {
        proof {
            use_type_invariant(&*self);
        }
        if !self.needs_rollover(utc) {
            self.due = Due { roll_at: self.due.roll_at, seen: utc };
            return Ok(None);
        }
        match local {
            Some(now) => match self.rollover(now) {
                Ok(name) => Ok(Some(name)),
                Err(e) => Err(e),
            },
            None => {
                self.file = None;
                self.begun = None;
                Err(RollError::Clock)
            },
        }
    }

    /// What a write at `now` has to do first: as `append_with`, where the
    /// clock reads the timestamp of `now` and the local time is `now`.
    pub fn append_at(&mut self, now: LocalTime) -> (step: Result<Option<String>, RollError>)
        ensures
            match step {
                Ok(None) => !old(self)@.needs_rollover(now.timestamp as int) && final(self)@
                    == old(self)@.checked(now.timestamp as int),
                Ok(Some(name)) => old(self)@.needs_rollover(now.timestamp as int) && date_text(now)
                    is Some && midnight_after(now) <= i64::MAX && final(self)@ == old(
                    self
                )@.rolled(now) && name@ == day_file(old(self)@.prefix, now),
                Err(e) => old(self)@.needs_rollover(now.timestamp as int) && e
                    == RollError::OutOfRange && (date_text(now) is None || midnight_after(now)
                    > i64::MAX) && final(self)@ == old(self)@.released(),
            },
            final(self)@.wf(),
    {
        self.append_with(now.timestamp, Some(now))
    }

    /// What a write at the current time has to do first: as `append_with`,
    /// with the reading of the clock and, where the rollover is due by it,
    /// the local time.
    pub fn append(&mut self) -> (step: Result<Option<String>, RollError>)
        ensures
            exists|utc: int, local: Option<LocalTime>|
                old(self)@.steps_to(utc, local, final(self)@, step),
            final(self)@.wf(),
    {
        let utc = utc_now();
        let local = if self.needs_rollover(utc) {
            local_now()
        } else {
            None
        };
        self.append_with(utc, local)
    }
}

/// A run of writes keeps the prefix, and after a write a file is open.
proof fn lemma_run_keeps(s: RollingState, times: Seq<LocalTime>)
    ensures
        s.after_writes(times).prefix == s.prefix,
        times.len() > 0 ==> s.after_writes(times).file is Some,
    decreases times.len(),
{
    if times.len() > 0 {
        lemma_run_keeps(s, times.drop_last());
    }
}

/// Where a run of writes ends when its first `k` writes come on the day
/// before the midnight `m` and the others from `m` on, on one day.
proof fn lemma_run(s: RollingState, times: Seq<LocalTime>, k: int, m: int)
    requires
        s.file is Some ==> s.roll_at == m,
        0 <= k <= times.len(),
        forall|i: int|
            0 <= i < k ==> (#[trigger] times[i]).timestamp < m && midnight_after(times[i]) == m,
        forall|i: int|
            k <= i < times.len() ==> m <= (#[trigger] times[i]).timestamp && times[i].timestamp
                < midnight_after(times[k]),
    ensures
        s.after_writes(times).prefix == s.prefix,
        0 < k && k == times.len() ==> s.after_writes(times).file == Some(s.first_file(times))
            && s.after_writes(times).roll_at == m,
        k < times.len() ==> s.after_writes(times).file == Some(day_file(s.prefix, times[k]))
            && s.after_writes(times).roll_at == midnight_after(times[k]),
        s.rotations(times) == (if s.file is None && k > 0 {
            1nat
        } else {
            0nat
        }) + (if k < times.len() {
            1nat
        } else {
            0nat
        }),
    decreases times.len(),
{
    lemma_run_keeps(s, times);
    if times.len() > 0 {
        let front = times.drop_last();
        let n = front.len() as int;
        lemma_run_keeps(s, front);
        if n > 0 {
            assert(front[0] == times[0]);
        }
        if k <= n {
            if k < n {
                assert(front[k] == times[k]);
            }
            lemma_run(s, front, k, m);
            lemma_midnight_after(times[k]);
            assert(times[n] == times.last());
        } else {
            lemma_run(s, front, n, m);
            assert(times[n] == times.last());
            lemma_midnight_after(times[n]);
        }
    }
}

/// Across a local midnight a run of writes rolls over once, at the first
/// write from the midnight on, also where days without a write lie
/// between. The writes on the day before the midnight go to one file: the
/// one that was open, or for an appender without a file the file of that
/// day, which its first write opens. All writes from the midnight on go to
/// the file of the day of the first of them.
///
/// The midnight is `m`. The first `k` writes come on the local day that
/// ends at `m`, the others from `m` on and within one local day. The
/// appender has no file open, or one with the rollover due at `m`.
pub proof fn lemma_one_rotation_at_boundary(
    s: RollingState,
    times: Seq<LocalTime>,
    k: int,
    m: int,
)
    requires
        s.file is Some ==> s.roll_at == m,
        0 <= k <= times.len(),
        forall|i: int|
            0 <= i < k ==> (#[trigger] times[i]).timestamp < m && midnight_after(times[i]) == m,
        forall|i: int|
            k <= i < times.len() ==> m <= (#[trigger] times[i]).timestamp && times[i].timestamp
                < midnight_after(times[k]),
    ensures
        forall|i: int| 0 <= i < k ==> #[trigger] s.target(times, i) == Some(s.first_file(times)),
        forall|i: int|
            k <= i < times.len() ==> #[trigger] s.target(times, i) == Some(
                day_file(s.prefix, times[k]),
            ),
        forall|i: int| 0 < i < k ==> !#[trigger] s.rolls(times, i),
        k < times.len() ==> s.rolls(times, k),
        forall|i: int| k < i < times.len() ==> !#[trigger] s.rolls(times, i),
        s.rotations(times) == s.rotations(times.take(k)) + (if k < times.len() {
            1nat
        } else {
            0nat
        }),
        k < times.len() ==> s.after_writes(times).roll_at == midnight_after(times[k]),
        k < times.len() ==> times[k].timestamp < s.after_writes(times).roll_at,
{
    lemma_run(s, times, k, m);
    assert(times.take(k).len() == k);
    lemma_run(s, times.take(k), k, m);
    if k < times.len() {
        lemma_midnight_after(times[k]);
    }
    assert forall|i: int| 0 <= i < k implies #[trigger] s.target(times, i) == Some(
        s.first_file(times),
    ) by {
        assert(times.take(i + 1)[0] == times[0]);
        lemma_run(s, times.take(i + 1), i + 1, m);
    }
    assert forall|i: int| k <= i < times.len() implies #[trigger] s.target(times, i) == Some(
        day_file(s.prefix, times[k]),
    ) by {
        assert(times.take(i + 1)[k] == times[k]);
        lemma_run(s, times.take(i + 1), k, m);
    }
    assert forall|i: int| 0 < i < k implies !#[trigger] s.rolls(times, i) by {
        lemma_run(s, times.take(i), i, m);
    }
    assert forall|i: int| k < i < times.len() implies !#[trigger] s.rolls(times, i) by {
        assert(times.take(i)[k] == times[k]);
        lemma_run(s, times.take(i), k, m);
    }
}

/// What a run of writes appends to a file when its first `k` writes come on
/// the day before the midnight `m` and the others from `m` on, on one day.
proof fn lemma_run_bytes(
    s: RollingState,
    times: Seq<LocalTime>,
    chunks: Seq<Seq<u8>>,
    k: int,
    m: int,
    name: Seq<char>,
)
    requires
        s.file is Some ==> s.roll_at == m,
        chunks.len() == times.len(),
        0 <= k <= times.len(),
        forall|i: int|
            0 <= i < k ==> (#[trigger] times[i]).timestamp < m && midnight_after(times[i]) == m,
        forall|i: int|
            k <= i < times.len() ==> m <= (#[trigger] times[i]).timestamp && times[i].timestamp
                < midnight_after(times[k]),
    ensures
        s.appended(times, chunks, name) == (if 0 < k {
            bytes_for(chunks.take(k), s.first_file(times), name)
        } else {
            Seq::empty()
        }) + (if k < times.len() {
            bytes_for(chunks.skip(k), day_file(s.prefix, times[k]), name)
        } else {
            Seq::empty()
        }),
    decreases times.len(),
{
    broadcast use Seq::lemma_flatten_push;

    let nothing = Seq::<Seq<u8>>::empty();
    assert(nothing.flatten() =~= Seq::<u8>::empty());
    if times.len() == 0 {
        assert(s.appended(times, chunks, name) =~= Seq::<u8>::empty() + Seq::<u8>::empty());
    } else {
        let front = times.drop_last();
        let kept = chunks.drop_last();
        let n = front.len() as int;
        let whole = s.appended(times, chunks, name);
        let before = s.appended(front, kept, name);
        lemma_run(s, times, k, m);
        if n > 0 {
            assert(front[0] == times[0]);
        }
        if k <= n {
            let next = day_file(s.prefix, times[k]);
            if k < n {
                assert(front[k] == times[k]);
            }
            lemma_run_bytes(s, front, kept, k, m, name);
            assert(kept.take(k) =~= chunks.take(k));
            let first = if 0 < k {
                bytes_for(chunks.take(k), s.first_file(times), name)
            } else {
                Seq::empty()
            };
            if k < n {
                assert(chunks.skip(k) =~= kept.skip(k).push(chunks.last()));
                assert(before == first + bytes_for(kept.skip(k), next, name));
            } else {
                assert(chunks.skip(k) =~= nothing.push(chunks.last()));
                assert(before == first + Seq::<u8>::empty());
            }
            if name == next {
                assert(whole == before + chunks.last());
            } else {
                assert(whole == before);
            }
            assert(whole =~= first + bytes_for(chunks.skip(k), next, name));
        } else {
            lemma_run_bytes(s, front, kept, n, m, name);
            assert(chunks.take(k) =~= kept.take(n).push(chunks.last()));
            assert(kept.take(n) =~= kept);
            if n == 0 {
                assert(kept =~= nothing);
                assert(before == Seq::<u8>::empty() + Seq::<u8>::empty());
            } else {
                assert(before == bytes_for(kept.take(n), s.first_file(times), name)
                    + Seq::<u8>::empty());
            }
            if name == s.first_file(times) {
                assert(whole == before + chunks.last());
            } else {
                assert(whole == before);
            }
            assert(whole =~= bytes_for(chunks.take(k), s.first_file(times), name)
                + Seq::<u8>::empty());
        }
    }
}

/// Across a local midnight no byte is lost or written twice. A file gets
/// the bytes of the writes before the midnight, in their order, where it is
/// the file of the day before the midnight, then the bytes of all writes
/// from the midnight on, in their order, where it is the file of the day of
/// the first of them, and nothing else. So where the files of the two days
/// are not one, each holds what it held before and then the bytes of its
/// side of the midnight alone, and no other file changes.
///
/// The midnight, the writes and the appender are as in
/// `lemma_one_rotation_at_boundary`.
pub proof fn lemma_bytes_part_at_boundary(
    s: RollingState,
    disk: Map<Seq<char>, Seq<u8>>,
    times: Seq<LocalTime>,
    chunks: Seq<Seq<u8>>,
    k: int,
    m: int,
)
    requires
        s.file is Some ==> s.roll_at == m,
        chunks.len() == times.len(),
        0 <= k <= times.len(),
        forall|i: int|
            0 <= i < k ==> (#[trigger] times[i]).timestamp < m && midnight_after(times[i]) == m,
        forall|i: int|
            k <= i < times.len() ==> m <= (#[trigger] times[i]).timestamp && times[i].timestamp
                < midnight_after(times[k]),
    ensures
        forall|name: Seq<char>|
            #[trigger] s.appended(times, chunks, name) == (if 0 < k {
                bytes_for(chunks.take(k), s.first_file(times), name)
            } else {
                Seq::empty()
            }) + (if k < times.len() {
                bytes_for(chunks.skip(k), day_file(s.prefix, times[k]), name)
            } else {
                Seq::empty()
            }),
        0 < k && (k < times.len() ==> s.first_file(times) != day_file(s.prefix, times[k]))
            ==> s.content(disk, times, chunks, s.first_file(times)) == held(
            disk,
            s.first_file(times),
        ) + chunks.take(k).flatten(),
        k < times.len() && (0 < k ==> s.first_file(times) != day_file(s.prefix, times[k]))
            ==> s.content(disk, times, chunks, day_file(s.prefix, times[k])) == held(
            disk,
            day_file(s.prefix, times[k]),
        ) + chunks.skip(k).flatten(),
        forall|name: Seq<char>|
            (0 < k ==> name != s.first_file(times)) && (k < times.len() ==> name != day_file(
                s.prefix,
                times[k],
            )) ==> #[trigger] s.content(disk, times, chunks, name) == held(disk, name),
{
    assert forall|name: Seq<char>|
        #[trigger] s.appended(times, chunks, name) == (if 0 < k {
            bytes_for(chunks.take(k), s.first_file(times), name)
        } else {
            Seq::empty()
        }) + (if k < times.len() {
            bytes_for(chunks.skip(k), day_file(s.prefix, times[k]), name)
        } else {
            Seq::empty()
        }) by {
        lemma_run_bytes(s, times, chunks, k, m, name);
    }
    let first = s.first_file(times);
    assert(s.appended(times, chunks, first) == s.appended(times, chunks, first));
    if 0 < k && (k < times.len() ==> first != day_file(s.prefix, times[k])) {
        assert(s.appended(times, chunks, first) =~= chunks.take(k).flatten());
    }
    if k < times.len() {
        let next = day_file(s.prefix, times[k]);
        assert(s.appended(times, chunks, next) == s.appended(times, chunks, next));
        if 0 < k ==> first != next {
            assert(s.appended(times, chunks, next) =~= chunks.skip(k).flatten());
        }
    }
    assert forall|name: Seq<char>|
        (0 < k ==> name != first) && (k < times.len() ==> name != day_file(
            s.prefix,
            times[k],
        )) implies #[trigger] s.content(disk, times, chunks, name) == held(disk, name) by {
        assert(s.appended(times, chunks, name) == s.appended(times, chunks, name));
        assert(s.appended(times, chunks, name) =~= Seq::<u8>::empty());
        assert(held(disk, name) + Seq::<u8>::empty() =~= held(disk, name));
    }
}

/// In every run of writes, each write has one file that its bytes go to:
/// the file of its local day where it rolls over, and else the file of the
/// write before it. Its bytes are appended to that file and to no other.
pub proof fn lemma_each_write_has_one_file(
    s: RollingState,
    times: Seq<LocalTime>,
    chunks: Seq<Seq<u8>>,
    i: int,
)
    requires
        chunks.len() == times.len(),
        0 <= i < times.len(),
    ensures
        s.target(times, i) is Some,
        s.rolls(times, i) ==> s.target(times, i) == Some(day_file(s.prefix, times[i])),
        !s.rolls(times, i) ==> s.target(times, i) == if i == 0 {
            s.file
        } else {
            s.target(times, i - 1)
        },
        forall|name: Seq<char>|
            #[trigger] s.appended(times.take(i + 1), chunks.take(i + 1), name) == s.appended(
                times.take(i),
                chunks.take(i),
                name,
            ) + if s.target(times, i) == Some(name) {
                chunks[i]
            } else {
                Seq::empty()
            },
{
    let run = times.take(i + 1);
    assert(run.drop_last() =~= times.take(i));
    assert(run.last() == times[i]);
    assert(chunks.take(i + 1).drop_last() =~= chunks.take(i));
    assert(chunks.take(i + 1).last() == chunks[i]);
    lemma_run_keeps(s, times.take(i));
    lemma_run_keeps(s, run);
    if i > 0 {
        assert(times.take(i - 1 + 1) =~= times.take(i));
    }
    assert forall|name: Seq<char>|
        #[trigger] s.appended(run, chunks.take(i + 1), name) == s.appended(
            times.take(i),
            chunks.take(i),
            name,
        ) + if s.target(times, i) == Some(name) {
            chunks[i]
        } else {
            Seq::empty()
        } by {
        assert(s.appended(times.take(i), chunks.take(i), name) + Seq::<u8>::empty()
            =~= s.appended(times.take(i), chunks.take(i), name));
    }
}

/// Whether the times of a run come in order and with one offset.
pub open spec fn in_order(times: Seq<LocalTime>) -> bool {
    forall|i: int, j: int|
        #![trigger times[i], times[j]]
        0 <= i <= j < times.len() ==> times[i].timestamp <= times[j].timestamp && times[i].offset
            == times[j].offset
}

/// After a run of writes in order, begun with no file open, the next
/// rollover is due at the local midnight that ends the day of the last
/// write.
proof fn lemma_run_in_order(s: RollingState, times: Seq<LocalTime>)
    requires
        s.file is None,
        times.len() > 0,
        in_order(times),
    ensures
        s.after_writes(times).file is Some,
        s.after_writes(times).roll_at == midnight_after(times.last()),
    decreases times.len(),
{
    let front = times.drop_last();
    if front.len() > 0 {
        assert forall|i: int, j: int|
            #![trigger front[i], front[j]]
            0 <= i <= j < front.len() implies front[i].timestamp <= front[j].timestamp
                && front[i].offset == front[j].offset by {
            assert(front[i] == times[i] && front[j] == times[j]);
        }
        lemma_run_in_order(s, front);
        let before = times[times.len() - 2];
        let last = times[times.len() - 1];
        assert(front.last() == before && times.last() == last);
        assert(before.timestamp <= last.timestamp && before.offset == last.offset);
        if last.timestamp < midnight_after(before) {
            lemma_same_day(before, last);
        }
    } else {
        assert(s.after_writes(front) == s);
    }
}

/// In every run of writes in order on an appender that begins with no file
/// open, the first write rolls over, and a later write rolls over exactly
/// where a local midnight has come since the write before it: one rollover
/// for each midnight that the run crosses with a write behind it, and none
/// else. After each write the next rollover is due at the midnight that
/// ends the day of that write.
pub proof fn lemma_rollover_exactly_at_midnights(s: RollingState, times: Seq<LocalTime>, i: int)
    requires
        s.file is None,
        in_order(times),
        0 <= i < times.len(),
    ensures
        i == 0 ==> s.rolls(times, i),
        i > 0 ==> (s.rolls(times, i) <==> midnight_after(times[i - 1]) <= times[i].timestamp),
        s.after_writes(times.take(i + 1)).roll_at == midnight_after(times[i]),
{
    let run = times.take(i + 1);
    assert forall|a: int, b: int|
        #![trigger run[a], run[b]]
        0 <= a <= b < run.len() implies run[a].timestamp <= run[b].timestamp && run[a].offset
            == run[b].offset by {
        assert(run[a] == times[a] && run[b] == times[b]);
    }
    lemma_run_in_order(s, run);
    assert(run.last() == times[i]);
    if i > 0 {
        let front = times.take(i);
        assert forall|a: int, b: int|
            #![trigger front[a], front[b]]
            0 <= a <= b < front.len() implies front[a].timestamp <= front[b].timestamp
                && front[a].offset == front[b].offset by {
            assert(front[a] == times[a] && front[b] == times[b]);
        }
        lemma_run_in_order(s, front);
        assert(front.last() == times[i - 1]);
    }
}

/// In every run of writes in order on an appender that begins with no file
/// open, the writes of one local day go to one file, one after the other:
/// the file that the first write of the day opened.
pub proof fn lemma_day_has_one_file(s: RollingState, times: Seq<LocalTime>, i: int, j: int)
    requires
        s.file is None,
        in_order(times),
        0 <= i <= j < times.len(),
        midnight_after(times[i]) == midnight_after(times[j]),
    ensures
        s.target(times, i) == s.target(times, j),
    decreases j - i,
{
    if i < j {
        let before = times[j - 1];
        assert(times[i].timestamp <= before.timestamp && times[i].offset == before.offset);
        assert(before.timestamp <= times[j].timestamp);
        lemma_midnight_after(times[j]);
        lemma_same_day(times[i], before);
        lemma_day_has_one_file(s, times, i, j - 1);
        lemma_rollover_exactly_at_midnights(s, times, j);
        let chunks = Seq::new(times.len(), |k: int| Seq::<u8>::empty());
        lemma_each_write_has_one_file(s, times, chunks, j);
    }
}

/// Two appenders that start with the same prefix and first write on the
/// same local day write to the same file: a restart within the day goes on
/// with the file of that day.
pub proof fn lemma_restart_resumes_file(
    a: RollingState,
    b: RollingState,
    first: LocalTime,
    again: LocalTime,
)
    requires
        a.file is None,
        b.file is None,
        a.prefix == b.prefix,
        date_text(first) == date_text(again),
    ensures
        a.after_write(first).file == b.after_write(again).file,
{
}

/// After a write that rolls over, the link `current` points to the file
/// that is open, that is the file of the local day of the write, and the
/// next rollover is due at the local midnight that ends that day.
pub proof fn lemma_link_follows_rotation(s: RollingState, now: LocalTime)
    requires
        s.needs_rollover(now.timestamp as int),
    ensures
        s.after_write(now).link == Some(day_file(s.prefix, now)),
        s.after_write(now).file == s.after_write(now).link,
        s.after_write(now).roll_at == midnight_after(now),
{
}

/// After every write a file is open, the link points to it, and the next
/// rollover lies after the time of the write, which is the time last seen.
pub proof fn lemma_write_keeps_order(s: RollingState, now: LocalTime)
    requires
        s.wf(),
    ensures
        s.after_write(now).wf(),
        s.after_write(now).file is Some,
        s.after_write(now).seen == now.timestamp,
        now.timestamp < s.after_write(now).roll_at,
{
    lemma_midnight_after(now);
}

/// After a write that rolled over, no write on the same local day rolls
/// over again, however far behind the rollover was due: days without a
/// write cost one rollover, not one each.
pub proof fn lemma_one_rollover_after_idle_days(s: RollingState, now: LocalTime, next: LocalTime)
    requires
        s.needs_rollover(now.timestamp as int),
        next.timestamp < midnight_after(now),
    ensures
        !s.after_write(now).needs_rollover(next.timestamp as int),
        s.after_write(now).after_write(next) == s.after_write(now).checked(next.timestamp as int),
{
}

/// A rollover that was begun and did not end, because the file did not
/// open, leaves no file open and the books else as they were: the instant
/// of the rollover, the time last seen and the link. The next write rolls
/// over again, whenever it comes, and after it the rollover is due at the
/// midnight after that write.
pub proof fn lemma_failed_open_is_tried_again(s: RollingState, at: LocalTime, now: LocalTime)
    ensures
        s.rolled(at).file is None,
        s.rolled(at).roll_at == s.roll_at,
        s.rolled(at).seen == s.seen,
        s.rolled(at).link == s.link,
        s.rolled(at).needs_rollover(now.timestamp as int),
        s.rolled(at).after_write(now).file == Some(day_file(s.prefix, now)),
        s.rolled(at).after_write(now).roll_at == midnight_after(now),
{
}

/// A rollover that could not be begun, because the local time was not to
/// be had, the date could not be written or no timestamp holds the next
/// midnight, leaves no file open and the books else as they were, and the
/// next write rolls over again, whenever it comes.
pub proof fn lemma_failed_rollover_is_tried_again(s: RollingState, now: int)
    ensures
        s.released().file is None,
        s.released().roll_at == s.roll_at,
        s.released().seen == s.seen,
        s.released().link == s.link,
        s.released().needs_rollover(now),
{
}

} // verus!
