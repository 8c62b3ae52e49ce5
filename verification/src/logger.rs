//! The log of readings: one JSON object per line, in a file that is rotated by age and length.
//!
//! The files themselves are kept by the caller. The logger decides, line by line, what is to be
//! done with them.

use crate::config::LogConfig;
use crate::logfile::{
    checked_interval, expanded, format_log_path, has_fields, interval_read, interval_secs, local_time,
    local_time_fits, time_fits, IntervalError,
};
use crate::text::{chars_of, same_text, IntError};
use vstd::prelude::*;

verus! {

/// One change to the files of a log.
#[derive(Debug)]
pub enum FileStep {
    Remove(String),
    Rename { from: String, to: String },
}

/// A [`FileStep`] with its names taken by their view.
pub ghost enum FileChange {
    Remove(Seq<char>),
    Rename { from: Seq<char>, to: Seq<char> },
}

impl View for FileStep {
    type V = FileChange;

    open spec fn view(&self) -> FileChange {
        match self {
            FileStep::Remove(path) => FileChange::Remove(path@),
            FileStep::Rename { from, to } => FileChange::Rename { from: from@, to: to@ },
        }
    }
}

/// The changes that steps stand for.
pub open spec fn changes(steps: Seq<FileStep>) -> Seq<FileChange> {
    Seq::new(steps.len(), |i: int| steps[i]@)
}

/// The steps that rotate a log file: each kept file takes the next number, the oldest is
/// dropped.
pub open spec fn rotation(base: Seq<char>) -> Seq<FileChange> {
    seq![
        FileChange::Remove(base + ".3"@),
        FileChange::Rename { from: base + ".2"@, to: base + ".3"@ },
        FileChange::Rename { from: base + ".1"@, to: base + ".2"@ },
        FileChange::Rename { from: base, to: base + ".1"@ },
    ]
}

/// Files by name.
pub type Files = Map<Seq<char>, Seq<u8>>;

/// The files after one change; a change to a file that is not there does nothing.
pub open spec fn changed(files: Files, change: FileChange) -> Files {
    match change {
        FileChange::Remove(path) => files.remove(path),
        FileChange::Rename { from, to } => if files.dom().contains(from) {
            files.remove(from).insert(to, files[from])
        } else {
            files
        },
    }
}

/// The files after several changes.
pub open spec fn changed_by(files: Files, steps: Seq<FileChange>) -> Files
    decreases steps.len(),
{
    if steps.len() == 0 {
        files
    } else {
        changed(changed_by(files, steps.drop_last()), steps.last())
    }
}

/// What a file holds, if it is there.
pub open spec fn content(files: Files, path: Seq<char>) -> Option<Seq<u8>> {
    if files.dom().contains(path) {
        Some(files[path])
    } else {
        None
    }
}

/// A rotation keeps the last three files under the numbers 1, 2 and 3, frees the name of the log
/// file, and touches no other file.
pub proof fn rotation_keeps_three(files: Files, base: Seq<char>)
    ensures
        ({
            let after = changed_by(files, rotation(base));
            &&& content(after, base) is None
            &&& content(after, base + ".1"@) == content(files, base)
            &&& content(after, base + ".2"@) == content(files, base + ".1"@)
            &&& content(after, base + ".3"@) == content(files, base + ".2"@)
            &&& forall|path: Seq<char>|
                path != base && path != base + ".1"@ && path != base + ".2"@ && path != base + ".3"@
                    ==> #[trigger] content(after, path) == content(files, path)
        }),
{
    reveal_strlit(".1");
    reveal_strlit(".2");
    reveal_strlit(".3");
    let b1 = base + ".1"@;
    let b2 = base + ".2"@;
    let b3 = base + ".3"@;
    assert(b1.last() == '1' && b2.last() == '2' && b3.last() == '3');
    assert(b1.len() == base.len() + 2);
    let r = rotation(base);
    reveal_with_fuel(changed_by, 5);
    let f1 = changed(files, r[0]);
    let f2 = changed(f1, r[1]);
    let f3 = changed(f2, r[2]);
    let f4 = changed(f3, r[3]);
    assert(r.drop_last() =~= seq![r[0], r[1], r[2]]);
    assert(r.drop_last().drop_last() =~= seq![r[0], r[1]]);
    assert(r.drop_last().drop_last().drop_last() =~= seq![r[0]]);
    assert(r.drop_last().drop_last().drop_last().drop_last() =~= Seq::<FileChange>::empty());
    assert(changed_by(files, r) == f4);
}

/// Writes down the rotation of a log file.
pub fn rotate(base: &str) -> (r: Vec<FileStep>)
    ensures
        changes(r@) == rotation(base@),
{
    let mut one = base.to_string();
    one.append(".1");
    let mut two = base.to_string();
    two.append(".2");
    let mut three = base.to_string();
    three.append(".3");
    let mut steps: Vec<FileStep> = Vec::new();
    steps.push(FileStep::Remove(three.clone()));
    steps.push(FileStep::Rename { from: two.clone(), to: three });
    steps.push(FileStep::Rename { from: one.clone(), to: two });
    steps.push(FileStep::Rename { from: base.to_string(), to: one });
    assert(changes(steps@) =~= rotation(base@));
    steps
}

// ── The logger ──

/// The logger of readings.
#[derive(Debug)]
pub struct JsonlLogger {
    pub pattern: String,
    /// Whether the pattern has date fields.
    pub dated: bool,
    pub tz_offset_secs: i64,
    pub path: String,
    pub max_lines: Option<u64>,
    pub rotate_interval_secs: Option<u64>,
    pub current_lines: u64,
    pub last_interval_n: u64,
    /// Whether the file can be written to.
    pub open: bool,
}

/// A [`JsonlLogger`] with its texts taken by their view.
pub ghost struct Logger {
    pub pattern: Seq<char>,
    pub dated: bool,
    pub tz_offset_secs: i64,
    pub path: Seq<char>,
    pub max_lines: Option<u64>,
    pub rotate_interval_secs: Option<u64>,
    pub current_lines: u64,
    pub last_interval_n: u64,
    pub open: bool,
}

impl View for JsonlLogger {
    type V = Logger;

    open spec fn view(&self) -> Logger {
        Logger {
            pattern: self.pattern@,
            dated: self.dated,
            tz_offset_secs: self.tz_offset_secs,
            path: self.path@,
            max_lines: self.max_lines,
            rotate_interval_secs: self.rotate_interval_secs,
            current_lines: self.current_lines,
            last_interval_n: self.last_interval_n,
            open: self.open,
        }
    }
}

/// What happened to the log.
#[derive(Clone, Copy, Debug, PartialEq, Eq, Structural)]
pub enum LogEvent {
    /// A line is to be written.
    Line { now: u64 },
    /// The file under the new name is open.
    Resumed { now: u64 },
    /// The file was rotated, and a new one is open.
    Rotated,
}

/// What is to be done with the log.
#[derive(Debug)]
pub enum LogAction {
    /// Close the file `from`, count the lines of the file under the new name, and open it.
    Reopen { from: String },
    /// Close the file, rename it and those kept before, and open a new one.
    Rotate { plan: Vec<FileStep> },
    /// Write the line.
    Write,
    /// Leave the line out: no file is open.
    Skip,
}

/// A [`LogAction`] with its texts taken by their view.
pub ghost enum LogDuty {
    Reopen { from: Seq<char> },
    Rotate { plan: Seq<FileChange> },
    Write,
    Skip,
}

impl View for LogAction {
    type V = LogDuty;

    open spec fn view(&self) -> LogDuty {
        match self {
            LogAction::Reopen { from } => LogDuty::Reopen { from: from@ },
            LogAction::Rotate { plan } => LogDuty::Rotate { plan: changes(plan@) },
            LogAction::Write => LogDuty::Write,
            LogAction::Skip => LogDuty::Skip,
        }
    }
}

impl Logger {
    /// The name of the file at a moment.
    pub open spec fn name_at(self, now: u64) -> Seq<char> {
        expanded(self.pattern, local_time(now, self.tz_offset_secs))
    }

    /// Whether the logger can work at a moment: the local time can be held, and the interval is
    /// no empty one.
    pub open spec fn works_at(self, now: u64) -> bool {
        (self.dated ==> time_fits(now, self.tz_offset_secs)) && self.rotate_interval_secs != Some(
            0u64,
        )
    }

    /// Whether the moment lies in another rotation interval than the last line.
    pub open spec fn interval_over(self, now: u64) -> bool {
        self.rotate_interval_secs matches Some(i) && now / i != self.last_interval_n
    }

    /// Whether the file has as many lines as it may have.
    pub open spec fn full(self) -> bool {
        self.max_lines matches Some(max) && self.current_lines >= max
    }

    /// The logger with a closed and empty file.
    pub open spec fn emptied(self) -> Logger {
        Logger { current_lines: 0, open: false, ..self }
    }

    /// What is to be done about a line when the name of the file is settled.
    pub open spec fn settled(self, now: u64) -> (Logger, LogDuty) {
        let duty = LogDuty::Rotate { plan: rotation(self.path) };
        if self.interval_over(now) {
            (
                Logger {
                    last_interval_n: now / self.rotate_interval_secs->0,
                    ..self.emptied()
                },
                duty,
            )
        } else if self.full() {
            (self.emptied(), duty)
        } else if self.open {
            (self, LogDuty::Write)
        } else {
            (self, LogDuty::Skip)
        }
    }

    /// What is to be done after an event, and the logger from then on.
    pub open spec fn after(self, event: LogEvent) -> (Logger, LogDuty) {
        match event {
            LogEvent::Line { now } => if self.dated && self.name_at(now) != self.path {
                (
                    Logger { path: self.name_at(now), open: false, ..self },
                    LogDuty::Reopen { from: self.path },
                )
            } else {
                self.settled(now)
            },
            LogEvent::Resumed { now } => Logger { open: true, ..self }.settled(now),
            LogEvent::Rotated => (Logger { open: true, ..self }, LogDuty::Write),
        }
    }
}

/// With a limit on its lines, a file holds no more lines than that after a line was written to
/// it.
pub proof fn files_stay_within_limit(logger: Logger, event: LogEvent, max: u64)
    requires
        logger.max_lines == Some(max),
        max > 0,
        event is Line || event is Resumed,
    ensures
        ({
            let (next, duty) = logger.after(event);
            &&& duty is Write ==> next.current_lines + 1 <= max
            &&& duty is Rotate ==> {
                let (last, then_duty) = next.after(LogEvent::Rotated);
                then_duty is Write && last.current_lines + 1 <= max
            }
        }),
{
}

/// A rotation interval that is over leads to a rotation, whatever else holds, and to one only:
/// the moment does not lie in another interval afterwards.
pub proof fn one_rotation_an_interval(logger: Logger, now: u64)
    requires
        logger.interval_over(now),
    ensures
        ({
            let (next, duty) = logger.settled(now);
            duty == (LogDuty::Rotate { plan: rotation(logger.path) }) && !next.interval_over(now)
        }),
{
}

/// After a line the file has the name of its moment, and a second line at that moment does not
/// change it.
pub proof fn names_follow_the_clock(logger: Logger, now: u64)
    requires
        logger.dated,
    ensures
        ({
            let (next, duty) = logger.after(LogEvent::Line { now });
            &&& next.path == logger.name_at(now)
            &&& !(next.after(LogEvent::Line { now }).1 is Reopen)
            &&& duty is Reopen <==> logger.path != logger.name_at(now)
        }),
{
}

/// With a rotation interval, and a file that is not full, a file is rotated exactly where the line
/// lies in another interval than the one before it, counted from the start of 1970.
pub proof fn intervals_decide_on_rotation(logger: Logger, interval: u64, before: u64, now: u64)
    requires
        interval > 0,
        logger.rotate_interval_secs == Some(interval),
        logger.last_interval_n == before / interval,
    ensures
        ({
            let (next, duty) = logger.after(LogEvent::Resumed { now });
            let full = logger.max_lines matches Some(max) && logger.current_lines >= max;
            &&& duty is Rotate <==> before / interval != now / interval || full
            &&& next.last_interval_n == now / interval
            &&& !(logger.after(LogEvent::Line { now }).1 is Reopen) ==> (logger.after(
                LogEvent::Line { now },
            ).1 is Rotate <==> before / interval != now / interval || full)
            &&& !(logger.after(LogEvent::Line { now }).1 is Reopen) ==> logger.after(
                LogEvent::Line { now },
            ).0.last_interval_n == now / interval
            &&& !logger.dated ==> !(logger.after(LogEvent::Line { now }).1 is Reopen)
        }),
{
}

/// A file is full when it has as many lines as the limit allows; a file that is full is rotated,
/// and without an interval no other is.
pub proof fn full_files_are_rotated(logger: Logger, now: u64)
    requires
        logger.rotate_interval_secs is None,
    ensures
        logger.after(LogEvent::Resumed { now }).1 is Rotate <==> (logger.max_lines matches Some(max)
            && logger.current_lines >= max),
        !(logger.after(LogEvent::Line { now }).1 is Reopen) ==> (logger.after(
            LogEvent::Line { now },
        ).1 is Rotate <==> (logger.max_lines matches Some(max) && logger.current_lines >= max)),
{
}

/// A rotation renames the file in use and those kept before, and starts a file without lines; the
/// line is written when it is open. A file that is not rotated is written to if it is open, and
/// the line is left out if it is not.
pub proof fn rotations_start_an_empty_file(logger: Logger, event: LogEvent)
    ensures
        ({
            let (next, duty) = logger.after(event);
            &&& duty is Rotate ==> duty == (LogDuty::Rotate { plan: rotation(logger.path) })
                && next.current_lines == 0 && !next.open && next.path == logger.path
            &&& duty is Reopen ==> !next.open && next.current_lines == logger.current_lines && duty
                == (LogDuty::Reopen { from: logger.path })
            &&& duty is Write || duty is Skip ==> next.current_lines == logger.current_lines
                && next.path == logger.path
            &&& duty is Write <==> next.open
            &&& event == LogEvent::Rotated ==> duty is Write
            &&& event is Resumed ==> !(duty is Skip) && !(duty is Reopen)
            &&& event is Line && duty is Skip ==> !logger.open
            &&& event is Line && duty is Write ==> logger.open
        }),
{
}

/// What the settings ask for stays, whatever happens.
pub proof fn log_settings_stay(logger: Logger, event: LogEvent)
    ensures
        ({
            let next = logger.after(event).0;
            &&& next.pattern == logger.pattern
            &&& next.dated == logger.dated
            &&& next.tz_offset_secs == logger.tz_offset_secs
            &&& next.max_lines == logger.max_lines
            &&& next.rotate_interval_secs == logger.rotate_interval_secs
            &&& !logger.dated ==> next.path == logger.path
        }),
{
}

/// A logger that was just set up follows its settings: the offset counts where the name has date
/// fields, the interval is the one of the moment, and the name is that of the local time.
pub proof fn loggers_follow_their_settings(cfg: LogConfig, now: u64, tz: i64, interval: Option<u64>)
    requires
        now <= i64::MAX,
    ensures
        ({
            let logger = logger_for(cfg, now, tz, interval);
            let dated = exists|i: int| 0 <= i < cfg.file@.len() && #[trigger] cfg.file@[i] == '%';
            &&& logger.dated == dated
            &&& logger.pattern == cfg.file@
            &&& logger.max_lines == cfg.max_lines
            &&& logger.rotate_interval_secs == interval
            &&& logger.path == expanded(
                cfg.file@,
                if dated {
                    now + tz
                } else {
                    now as int
                },
            )
            &&& dated ==> logger.tz_offset_secs == tz
            &&& logger.current_lines == 0
            &&& !logger.open
            &&& interval matches Some(i) ==> (i > 0 ==> logger.last_interval_n == now / i)
            &&& forall|later: u64|
                later <= i64::MAX && dated ==> #[trigger] logger.name_at(later) == expanded(
                    cfg.file@,
                    later + tz,
                )
        }),
{
    let dated = exists|i: int| 0 <= i < cfg.file@.len() && #[trigger] cfg.file@[i] == '%';
    assert(has_fields(cfg.file@) == dated);
}

/// A log without limit and interval is never rotated.
pub proof fn no_rotation_unasked(logger: Logger, event: LogEvent)
    requires
        logger.max_lines is None,
        logger.rotate_interval_secs is None,
    ensures
        !(logger.after(event).1 is Rotate),
{
}

/// Decides [`has_fields`].
pub fn is_dated(file: &str) -> (r: bool)
    ensures
        r == has_fields(file@),
{
    let chars = chars_of(file);
    let mut i: usize = 0;
    while i < chars.len()
        invariant
            i <= chars@.len(),
            chars@ == file@,
            forall|k: int| 0 <= k < i ==> file@[k] != '%',
        decreases chars@.len() - i,
    {
        if chars[i] == '%' {
            assert(file@[i as int] == '%');
            return true;
        }
        i = i + 1;
    }
    false
}

/// The rotation interval that the settings ask for.
pub open spec fn interval_of(cfg: LogConfig) -> Option<Seq<char>> {
    match cfg.rotate_interval {
        Some(s) => Some(s@),
        None => None,
    }
}

/// Whether the settings can be followed from `now` on, or are refused with an error.
pub open spec fn can_follow(cfg: LogConfig, now: u64, tz: i64) -> bool {
    let fits = time_fits(
        now,
        if has_fields(cfg.file@) {
            tz
        } else {
            0
        },
    );
    match interval_of(cfg) {
        None => fits,
        Some(s) => match interval_secs(s) {
            Err(_) => true,
            Ok(n) => 0 < n <= u64::MAX && fits,
        },
    }
}

/// The logger that the settings ask for; its file is not open yet.
pub open spec fn logger_for(cfg: LogConfig, now: u64, tz: i64, interval: Option<u64>) -> Logger {
    let dated = has_fields(cfg.file@);
    let offset: i64 = if dated {
        tz
    } else {
        0
    };
    Logger {
        pattern: cfg.file@,
        dated,
        tz_offset_secs: offset,
        path: expanded(cfg.file@, local_time(now, offset)),
        max_lines: cfg.max_lines,
        rotate_interval_secs: interval,
        current_lines: 0,
        last_interval_n: match interval {
            Some(i) => now / i,
            None => 0,
        },
        open: false,
    }
}

/// What setting up a logger gives.
pub open spec fn set_up(cfg: LogConfig, now: u64, tz: i64, r: Result<JsonlLogger, IntervalError>) -> bool {
    match interval_of(cfg) {
        None => r matches Ok(logger) && logger@ == logger_for(cfg, now, tz, None),
        Some(s) => match interval_secs(s) {
            Ok(n) => r matches Ok(logger) && logger@ == logger_for(cfg, now, tz, Some(n as u64)),
            Err(_) => r matches Err(e) && interval_read(s, Err(e)),
        },
    }
}

/// Settings can be followed where the local time can be held and the interval is one that is not
/// empty; an interval that cannot be read is refused with an error. A logger works on as long as
/// that holds.
pub proof fn ordinary_settings_can_be_followed(
    cfg: LogConfig,
    now: u64,
    tz: i64,
    n: u64,
    logger: Logger,
)
    requires
        now + tz <= i64::MAX,
        now <= i64::MAX,
        n > 0,
    ensures
        cfg.rotate_interval is None ==> can_follow(cfg, now, tz),
        cfg.rotate_interval matches Some(s) ==> (interval_secs(s@) == Ok::<nat, Option<IntError>>(
            n as nat,
        ) ==> can_follow(cfg, now, tz)),
        cfg.rotate_interval matches Some(s) ==> (interval_secs(s@) is Err ==> can_follow(
            cfg,
            now,
            tz,
        )),
        cfg.rotate_interval matches Some(s) ==> (interval_secs(s@) == Ok::<nat, Option<IntError>>(
            0nat,
        ) ==> !can_follow(cfg, now, tz)),
        logger.tz_offset_secs == tz && logger.rotate_interval_secs != Some(0u64) ==> logger.works_at(
            now,
        ),
{
}

/// A logger has the interval that the settings name, and none where they name none; where it
/// cannot be read, there is no logger.
pub proof fn loggers_have_the_interval_of_the_settings(
    cfg: LogConfig,
    now: u64,
    tz: i64,
    n: u64,
    r: Result<JsonlLogger, IntervalError>,
)
    requires
        set_up(cfg, now, tz, r),
    ensures
        cfg.rotate_interval is None ==> (r matches Ok(logger) && logger.rotate_interval_secs is None
            && logger@ == logger_for(cfg, now, tz, None)),
        cfg.rotate_interval matches Some(s) ==> (interval_secs(s@) == Ok::<nat, Option<IntError>>(
            n as nat,
        ) ==> (r matches Ok(logger) && logger.rotate_interval_secs == Some(n) && logger@
            == logger_for(cfg, now, tz, Some(n)))),
        cfg.rotate_interval matches Some(s) ==> (interval_secs(s@) is Err ==> r is Err),
{
}

impl JsonlLogger {
    /// Sets a logger up; nothing where the settings cannot be followed.
    pub fn checked_new(cfg: &LogConfig, now: u64, tz_offset_secs: i64) -> (r: Option<
        Result<JsonlLogger, IntervalError>,
    >)
        ensures
            r is Some <==> can_follow(*cfg, now, tz_offset_secs),
            r matches Some(made) ==> set_up(*cfg, now, tz_offset_secs, made),
    {
        let interval: Option<u64> = match &cfg.rotate_interval {
            None => None,
            Some(s) => match checked_interval(s.as_str()) {
                None => {
                    return None;
                },
                Some(Err(e)) => {
                    return Some(Err(e));
                },
                Some(Ok(n)) => Some(n),
            },
        };
        let interval_n: u64 = match interval {
            Some(i) => {
                if i == 0 {
                    return None;
                }
                now / i
            },
            None => 0,
        };
        let dated: bool = is_dated(cfg.file.as_str());
        let offset: i64 = if dated {
            tz_offset_secs
        } else {
            0
        };
        if !local_time_fits(now, offset) {
            return None;
        }
        let path = format_log_path(cfg.file.as_str(), now, offset);
        Some(
            Ok(
                JsonlLogger {
                    pattern: cfg.file.clone(),
                    dated,
                    tz_offset_secs: offset,
                    path,
                    max_lines: cfg.max_lines,
                    rotate_interval_secs: interval,
                    current_lines: 0,
                    last_interval_n: interval_n,
                    open: false,
                },
            ),
        )
    }

    /// Sets a logger up.
    pub fn new(cfg: &LogConfig, now: u64, tz_offset_secs: i64) -> (r: Result<
        JsonlLogger,
        IntervalError,
    >)
        requires
            can_follow(*cfg, now, tz_offset_secs),
        ensures
            set_up(*cfg, now, tz_offset_secs, r),
    {
        Self::checked_new(cfg, now, tz_offset_secs).unwrap()
    }

    /// Takes note of the lines that the file has; nothing stands for a file that is not there.
    pub fn counted(&mut self, lines: Option<u64>)
        ensures
            final(self)@ == (Logger {
                current_lines: match lines {
                    Some(n) => n,
                    None => 0,
                },
                ..old(self)@
            }),
    {
        self.current_lines = match lines {
            Some(n) => n,
            None => 0,
        };
    }

    /// Takes note that the file is open.
    pub fn opened(&mut self)
        ensures
            final(self)@ == (Logger { open: true, ..old(self)@ }),
    {
        self.open = true;
    }

    /// Whether the logger can work at a moment.
    pub fn can_work_at(&self, now: u64) -> (r: bool)
        ensures
            r == self@.works_at(now),
    {
        let timely: bool = !self.dated || local_time_fits(now, self.tz_offset_secs);
        match self.rotate_interval_secs {
            Some(0) => false,
            _ => timely,
        }
    }

    fn settle(&mut self, now: u64) -> (r: LogAction)
        requires
            old(self)@.works_at(now),
        ensures
            (final(self)@, r@) == old(self)@.settled(now),
    {
        if let Some(interval) = self.rotate_interval_secs {
            let interval_n: u64 = now / interval;
            if interval_n != self.last_interval_n {
                self.last_interval_n = interval_n;
                self.current_lines = 0;
                self.open = false;
                return LogAction::Rotate { plan: rotate(self.path.as_str()) };
            }
        }
        if let Some(max) = self.max_lines {
            if self.current_lines >= max {
                self.current_lines = 0;
                self.open = false;
                return LogAction::Rotate { plan: rotate(self.path.as_str()) };
            }
        }
        if self.open {
            LogAction::Write
        } else {
            LogAction::Skip
        }
    }

    /// Decides what is to be done after an event.
    pub fn check_rotation(&mut self, event: LogEvent) -> (r: LogAction)
        requires
            event matches LogEvent::Line { now } ==> old(self)@.works_at(now),
            event matches LogEvent::Resumed { now } ==> old(self)@.works_at(now),
        ensures
            (final(self)@, r@) == old(self)@.after(event),
    {
        match event {
            LogEvent::Line { now } => {
                if self.dated {
                    let new_path = format_log_path(
                        self.pattern.as_str(),
                        now,
                        self.tz_offset_secs,
                    );
                    if !same_text(new_path.as_str(), self.path.as_str()) {
                        let from = self.path.clone();
                        self.path = new_path;
                        self.open = false;
                        return LogAction::Reopen { from };
                    }
                }
                self.settle(now)
            },
            LogEvent::Resumed { now } => {
                self.open = true;
                self.settle(now)
            },
            LogEvent::Rotated => {
                self.open = true;
                LogAction::Write
            },
        }
    }

    /// Counts a written line.
    pub fn written(&mut self)
        requires
            old(self).current_lines < u64::MAX,
        ensures
            final(self)@ == (Logger {
                current_lines: (old(self).current_lines + 1) as u64,
                ..old(self)@
            }),
    {
        self.current_lines = self.current_lines + 1;
    }
}

} // verus!
