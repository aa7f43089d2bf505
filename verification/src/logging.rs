//! Logging state: severity levels, the level filter, the bounded ring of
//! recent lines kept for crash reports, and the file-sink and
//! crash-report configurations with the file names they produce.
use vstd::prelude::*;
use std::collections::VecDeque;
use crate::text::{
    ascii_lower_seq, chars_of, decimal, decimal_string, ends_with_chars, is_word, lower_chars,
    starts_with_chars,
};

verus! {

/// Log severity, most severe first.
#[derive(Debug, Clone, Copy, PartialEq, Eq, PartialOrd, Ord, Hash, Structural)]
pub enum LogLevel {
    Error,
    Warn,
    Info,
    Debug,
    Trace,
}

/// A level's position in the severity order (`Error` = 0 .. `Trace` = 4).
pub open spec fn level_rank(l: LogLevel) -> u8 {
    match l {
        LogLevel::Error => 0,
        LogLevel::Warn => 1,
        LogLevel::Info => 2,
        LogLevel::Debug => 3,
        LogLevel::Trace => 4,
    }
}

/// The level a (lower-cased) `MERIDIAN_LOG` value names.
pub open spec fn level_named(s: Seq<char>) -> Option<LogLevel> {
    if s == "error"@ {
        Some(LogLevel::Error)
    } else if s == "warn"@ || s == "warning"@ {
        Some(LogLevel::Warn)
    } else if s == "info"@ {
        Some(LogLevel::Info)
    } else if s == "debug"@ {
        Some(LogLevel::Debug)
    } else if s == "trace"@ {
        Some(LogLevel::Trace)
    } else {
        None
    }
}

impl LogLevel {
    /// The fixed-width label a log line carries.
    pub fn label(self) -> (r: &'static str)
        ensures
            r == match self {
                LogLevel::Error => "ERROR",
                LogLevel::Warn => "WARN ",
                LogLevel::Info => "INFO ",
                LogLevel::Debug => "DEBUG",
                LogLevel::Trace => "TRACE",
            },
    {
        match self {
            LogLevel::Error => "ERROR",
            LogLevel::Warn => "WARN ",
            LogLevel::Info => "INFO ",
            LogLevel::Debug => "DEBUG",
            LogLevel::Trace => "TRACE",
        }
    }

    /// Parses a `MERIDIAN_LOG` value, ASCII case-insensitively.
    pub fn from_env(value: &str) -> (r: Option<LogLevel>)
        ensures
            r == level_named(ascii_lower_seq(value@)),
    {
        let raw = chars_of(value);
        let lowered = lower_chars(raw.as_slice());
        if is_word(lowered.as_slice(), "error") {
            Some(LogLevel::Error)
        } else if is_word(lowered.as_slice(), "warn") || is_word(lowered.as_slice(), "warning") {
            Some(LogLevel::Warn)
        } else if is_word(lowered.as_slice(), "info") {
            Some(LogLevel::Info)
        } else if is_word(lowered.as_slice(), "debug") {
            Some(LogLevel::Debug)
        } else if is_word(lowered.as_slice(), "trace") {
            Some(LogLevel::Trace)
        } else {
            None
        }
    }

    /// The level's position in the severity order.
    pub fn rank(self) -> (r: u8)
        ensures
            r == level_rank(self),
    {
        match self {
            LogLevel::Error => 0,
            LogLevel::Warn => 1,
            LogLevel::Info => 2,
            LogLevel::Debug => 3,
            LogLevel::Trace => 4,
        }
    }
}

/// True if `level` passes a filter whose maximum level has rank
/// `max_rank` — less severe levels than the maximum are dropped.
pub fn enabled(level: LogLevel, max_rank: u8) -> (r: bool)
    ensures
        r == (level_rank(level) <= max_rank),
{
    level.rank() <= max_rank
}

/// Only `Error`, `Warn` and `Info` reach the log file; `Debug` and
/// `Trace` stay stderr-only.
pub fn reaches_file(level: LogLevel) -> (r: bool)
    ensures
        r == (level_rank(level) <= 2),
{
    level.rank() <= 2
}

/// How many formatted lines the in-memory ring keeps for crash reports.
pub const RING_CAPACITY: usize = 256;

/// The most recent log lines, oldest first, never more than `capacity`.
#[derive(Debug)]
pub struct LogRing {
    lines: VecDeque<String>,
    capacity: usize,
}

impl View for LogRing {
    type V = Seq<String>;

    closed spec fn view(&self) -> Seq<String> {
        self.lines@
    }
}

/// The last `cap` elements of `s` (all of them when there are fewer).
pub open spec fn keep_last<A>(cap: nat, s: Seq<A>) -> Seq<A> {
    if s.len() > cap { s.skip(s.len() - cap) } else { s }
}

/// Pushing onto the newest lines keeps the newest lines: a ring that
/// always holds the last `cap` lines still does after one more push.
pub proof fn lemma_keep_last_push<A>(cap: nat, s: Seq<A>, x: A)
    requires
        cap >= 1,
    ensures
        keep_last(cap, keep_last(cap, s).push(x)) == keep_last(cap, s.push(x)),
{
    let k = keep_last(cap, s);
    if s.len() > cap {
        assert(k.len() == cap);
        assert(keep_last(cap, k.push(x)) =~= k.push(x).skip(1));
        assert(k.push(x).skip(1) =~= s.push(x).skip(s.push(x).len() - cap));
    } else {
        assert(k == s);
    }
}

/// Pushing `lines`, one by one, onto an empty ring of capacity `cap`
/// leaves exactly the last `cap` of them, oldest first.
pub proof fn lemma_ring_keeps_newest(cap: nat, lines: Seq<String>)
    requires
        cap >= 1,
    ensures
        ring_after(cap, lines) == keep_last(cap, lines),
    decreases lines.len(),
{
    if lines.len() > 0 {
        let p = lines.drop_last();
        lemma_ring_keeps_newest(cap, p);
        lemma_keep_last_push(cap, p, lines.last());
        assert(p.push(lines.last()) =~= lines);
    } else {
        assert(keep_last(cap, lines) =~= lines);
    }
}

/// The contents of a ring of capacity `cap` after pushing `lines` onto an
/// empty one, by `LogRing::push`'s own rule.
pub open spec fn ring_after(cap: nat, lines: Seq<String>) -> Seq<String>
    decreases lines.len(),
{
    if lines.len() == 0 {
        Seq::empty()
    } else {
        let before = ring_after(cap, lines.drop_last());
        if before.len() == cap {
            before.drop_first().push(lines.last())
        } else {
            before.push(lines.last())
        }
    }
}

/// The lines of the log calls `calls` (level and formatted line, in call
/// order) that a filter of maximum rank `max_rank` lets through.
pub open spec fn emitted_lines(calls: Seq<(LogLevel, String)>, max_rank: u8) -> Seq<String>
    decreases calls.len(),
{
    if calls.len() == 0 {
        Seq::empty()
    } else {
        let rest = emitted_lines(calls.drop_last(), max_rank);
        if level_rank(calls.last().0) <= max_rank {
            rest.push(calls.last().1)
        } else {
            rest
        }
    }
}

/// The log sink's ring after any sequence of log calls holds the last
/// `RING_CAPACITY` lines emitted at enabled levels, oldest first: never
/// more than `RING_CAPACITY` lines, and no line of a call the filter
/// dropped.
pub proof fn lemma_sink_ring(calls: Seq<(LogLevel, String)>, max_rank: u8)
    ensures
        ring_after(RING_CAPACITY as nat, emitted_lines(calls, max_rank)) == keep_last(
            RING_CAPACITY as nat,
            emitted_lines(calls, max_rank),
        ),
        ring_after(RING_CAPACITY as nat, emitted_lines(calls, max_rank)).len() <= RING_CAPACITY,
{
    lemma_ring_keeps_newest(RING_CAPACITY as nat, emitted_lines(calls, max_rank));
}

impl LogRing {
    pub closed spec fn capacity_spec(&self) -> nat {
        self.capacity as nat
    }

    /// The ring's invariant: at most `capacity` lines, and room for one.
    pub closed spec fn wf(&self) -> bool {
        1 <= self.capacity && self.lines@.len() <= self.capacity
    }

    /// An empty ring keeping at most `capacity` lines (at least one).
    pub fn new(capacity: usize) -> (r: Self)
        ensures
            r.wf(),
            r@ == Seq::<String>::empty(),
            r.capacity_spec() == if capacity < 1 { 1 } else { capacity as nat },
    {
        LogRing { lines: VecDeque::new(), capacity: if capacity < 1 { 1 } else { capacity } }
    }

    /// Appends `line`, dropping the oldest line first when full.
    pub fn push(&mut self, line: String)
        requires
            old(self).wf(),
        ensures
            final(self).wf(),
            final(self).capacity_spec() == old(self).capacity_spec(),
            final(self)@ == if old(self)@.len() == old(self).capacity_spec() {
                old(self)@.drop_first().push(line)
            } else {
                old(self)@.push(line)
            },
    {
        if self.lines.len() == self.capacity {
            self.lines.pop_front();
        }
        self.lines.push_back(line);
    }

    pub fn len(&self) -> (r: usize)
        ensures
            r == self@.len(),
    {
        self.lines.len()
    }

    /// Copies of the kept lines, oldest first.
    pub fn recent_lines(&self) -> (r: Vec<String>)
        ensures
            r@ == self@,
    {
        let mut out: Vec<String> = Vec::new();
        let mut i: usize = 0;
        while i < self.lines.len()
            invariant
                i <= self.lines@.len(),
                out@ == self.lines@.take(i as int),
            decreases self.lines@.len() - i,
        {
            let line = self.lines[i].clone();
            out.push(line);
            i = i + 1;
            assert(out@ =~= self.lines@.take(i as int));
        }
        assert(self.lines@.take(self.lines@.len() as int) =~= self.lines@);
        out
    }
}

/// Configuration of the buffered file sink.
#[derive(Debug, Clone)]
pub struct FileLogConfig {
    /// Log file name prefix (typically the binary name).
    pub app_name: String,
    /// Directory for log files; created on demand.
    pub directory: String,
    /// Files older than this many days are deleted.
    pub retention_days: u64,
    /// How often the buffer is flushed to disk.
    pub flush_interval_ms: u64,
}

impl FileLogConfig {
    /// Defaults: directory `logs`, 7 days of retention, 500 ms flushes.
    pub fn new(app_name: String) -> (r: Self)
        ensures
            r.app_name == app_name,
            r.directory@ == "logs"@,
            r.retention_days == 7,
            r.flush_interval_ms == 500,
    {
        FileLogConfig { app_name, directory: "logs".to_owned(), retention_days: 7, flush_interval_ms: 500 }
    }

    pub fn with_directory(self, directory: String) -> (r: Self)
        ensures
            r.directory == directory,
            r.app_name == self.app_name,
            r.retention_days == self.retention_days,
            r.flush_interval_ms == self.flush_interval_ms,
    {
        FileLogConfig { directory, ..self }
    }

    pub fn with_retention_days(self, days: u64) -> (r: Self)
        ensures
            r.retention_days == days,
            r.app_name == self.app_name,
            r.directory == self.directory,
            r.flush_interval_ms == self.flush_interval_ms,
    {
        FileLogConfig { retention_days: days, ..self }
    }

    /// The file this sink writes when started at `unix_seconds`:
    /// `<app_name>-<unix_seconds>.log`.
    pub fn log_file_name(&self, unix_seconds: u64) -> (r: String)
        ensures
            r@ == self.app_name@ + "-"@ + decimal(unix_seconds as nat) + ".log"@,
    {
        let mut name = self.app_name.clone();
        name.append("-");
        let digits = decimal_string(unix_seconds);
        name.append(digits.as_str());
        name.append(".log");
        name
    }

    /// Whether `file_name` is one of this sink's log files
    /// (`<app_name>-*.log`), the only files retention may delete.
    pub fn is_managed_log(&self, file_name: &str) -> (r: bool)
        ensures
            r == ({
                let prefix = self.app_name@ + "-"@;
                let n = file_name@;
                &&& prefix.len() <= n.len() && n.take(prefix.len() as int) == prefix
                &&& ".log"@.len() <= n.len() && n.skip(n.len() - ".log"@.len()) == ".log"@
            }),
    {
        let mut prefix = self.app_name.clone();
        prefix.append("-");
        let prefix_chars = chars_of(prefix.as_str());
        let name = chars_of(file_name);
        let suffix = chars_of(".log");
        starts_with_chars(name.as_slice(), prefix_chars.as_slice()) && ends_with_chars(
            name.as_slice(),
            suffix.as_slice(),
        )
    }

    /// The retention window in seconds.
    pub fn retention_secs(&self) -> (r: u64)
        requires
            self.retention_days * 86400 <= u64::MAX,
        ensures
            r == self.retention_days * 86400,
    {
        self.retention_days * 24 * 60 * 60
    }

    /// How often the buffer is flushed, in milliseconds (at least one).
    pub fn flush_every_ms(&self) -> (r: u64)
        ensures
            r == if self.flush_interval_ms < 1 { 1 } else { self.flush_interval_ms },
    {
        if self.flush_interval_ms < 1 { 1 } else { self.flush_interval_ms }
    }
}

/// Whether a duration of `secs` seconds and `nanos` nanoseconds is longer
/// than `limit_secs` whole seconds: a log file older than the retention
/// window, or a day gone by since the last cleanup.
pub fn longer_than(secs: u64, nanos: u32, limit_secs: u64) -> (r: bool)
    ensures
        r == (secs > limit_secs || (secs == limit_secs && nanos > 0)),
{
    secs > limit_secs || (secs == limit_secs && nanos > 0)
}

/// Seconds between two retention passes of the file sink.
pub const CLEANUP_PERIOD_SECS: u64 = 86400;

/// What the file writer learns while waiting for work.
#[derive(Debug, Clone, Copy, PartialEq, Eq, Structural)]
pub enum WriterEvent {
    /// A line of this level arrived.
    Line(LogLevel),
    /// A caller asked for everything so far to reach the disk.
    FlushRequest,
    /// Nothing arrived within the flush interval; `cleanup_due` tells
    /// whether a day has passed since the last retention pass.
    Idle { cleanup_due: bool },
    /// Every sender is gone.
    Closed,
}

/// What the file writer does in answer to one event, and whether unflushed
/// lines remain in its buffer afterwards.
#[derive(Debug, Clone, Copy, PartialEq, Eq, Structural)]
pub struct WriterStep {
    pub write_line: bool,
    pub flush: bool,
    pub acknowledge: bool,
    pub clean_up: bool,
    pub stop: bool,
    pub dirty: bool,
}

/// The file writer's answer to `event` with a buffer that is `dirty`.
pub open spec fn writer_step_spec(dirty: bool, event: WriterEvent) -> WriterStep {
    match event {
        WriterEvent::Line(level) => WriterStep {
            write_line: true,
            flush: level == LogLevel::Error,
            acknowledge: false,
            clean_up: false,
            stop: false,
            dirty: level != LogLevel::Error,
        },
        WriterEvent::FlushRequest => WriterStep {
            write_line: false,
            flush: true,
            acknowledge: true,
            clean_up: false,
            stop: false,
            dirty: false,
        },
        WriterEvent::Idle { cleanup_due } => WriterStep {
            write_line: false,
            flush: dirty,
            acknowledge: false,
            clean_up: cleanup_due,
            stop: false,
            dirty: false,
        },
        WriterEvent::Closed => WriterStep {
            write_line: false,
            flush: true,
            acknowledge: false,
            clean_up: false,
            stop: true,
            dirty,
        },
    }
}

/// One turn of the file writer's loop: a line is written, and flushed at
/// once when it is an `Error` (it may be the process's last words); a
/// flush request flushes and is acknowledged; an idle interval flushes
/// pending lines and runs the daily cleanup when due; a closed channel
/// flushes and stops.
pub fn writer_step(dirty: bool, event: WriterEvent) -> (s: WriterStep)
    ensures
        s == writer_step_spec(dirty, event),
        // An `Error` line never stays in the buffer.
        event == WriterEvent::Line(LogLevel::Error) ==> s.flush && !s.dirty,
{
    match event {
        WriterEvent::Line(level) => {
            let is_error = level == LogLevel::Error;
            WriterStep {
                write_line: true,
                flush: is_error,
                acknowledge: false,
                clean_up: false,
                stop: false,
                dirty: !is_error,
            }
        },
        WriterEvent::FlushRequest => WriterStep {
            write_line: false,
            flush: true,
            acknowledge: true,
            clean_up: false,
            stop: false,
            dirty: false,
        },
        WriterEvent::Idle { cleanup_due } => WriterStep {
            write_line: false,
            flush: dirty,
            acknowledge: false,
            clean_up: cleanup_due,
            stop: false,
            dirty: false,
        },
        WriterEvent::Closed => WriterStep {
            write_line: false,
            flush: true,
            acknowledge: false,
            clean_up: false,
            stop: true,
            dirty,
        },
    }
}

/// Whether the writer's buffer holds unflushed lines after `events`,
/// starting from an empty buffer.
pub open spec fn writer_dirty(events: Seq<WriterEvent>) -> bool
    decreases events.len(),
{
    if events.len() == 0 {
        false
    } else {
        writer_step_spec(writer_dirty(events.drop_last()), events.last()).dirty
    }
}

/// The writer's answer to event `k` of `events`.
pub open spec fn writer_step_at(events: Seq<WriterEvent>, k: int) -> WriterStep {
    writer_step_spec(writer_dirty(events.take(k)), events[k])
}

/// Event `j` wrote a line that no answer among the first `n` events has
/// flushed since.
pub open spec fn unflushed(events: Seq<WriterEvent>, j: int, n: int) -> bool {
    &&& 0 <= j < n <= events.len()
    &&& events[j] is Line
    &&& forall|i: int| j <= i < n ==> !(#[trigger] writer_step_at(events, i)).flush
}

/// Some line written among the first `n` events is still unflushed.
pub open spec fn holds_unflushed(events: Seq<WriterEvent>, n: int) -> bool {
    exists|j: int| #[trigger] unflushed(events, j, n)
}

proof fn lemma_writer_dirty(events: Seq<WriterEvent>, n: int)
    requires
        0 <= n <= events.len(),
        forall|k: int| 0 <= k < n ==> events[k] != WriterEvent::Closed,
    ensures
        writer_dirty(events.take(n)) <==> holds_unflushed(events, n),
    decreases n,
{
    if n > 0 {
        lemma_writer_dirty(events, n - 1);
        assert(events.take(n).drop_last() =~= events.take(n - 1));
        let d = writer_dirty(events.take(n - 1));
        let st = writer_step_at(events, n - 1);
        assert(st == writer_step_spec(d, events[n - 1]));
        assert(writer_dirty(events.take(n)) == st.dirty);
        if st.dirty {
            if events[n - 1] is Line {
                assert(unflushed(events, n - 1, n));
            } else {
                assert(false);
            }
        } else {
            assert forall|j: int| !#[trigger] unflushed(events, j, n) by {
                if unflushed(events, j, n) {
                    if j < n - 1 {
                        assert(unflushed(events, j, n - 1));
                        assert(!writer_step_at(events, n - 1).flush);
                    } else {
                        assert(!writer_step_at(events, n - 1).flush);
                    }
                }
            }
        }
    }
}

/// The file writer never loses or delays a line it must write out: over
/// any sequence of events, a line stays unflushed exactly while the
/// buffer is marked dirty (until the channel closes), an `Error` line is
/// flushed in its own turn, a flush request is acknowledged only in the
/// turn that flushes, and a closed channel flushes and stops the writer.
pub proof fn lemma_writer_run(events: Seq<WriterEvent>)
    ensures
        forall|k: int| 0 <= k < events.len() && #[trigger] writer_step_at(events, k).acknowledge
            ==> writer_step_at(events, k).flush,
        forall|k: int| 0 <= k < events.len() && events[k] == WriterEvent::Line(LogLevel::Error)
            ==> #[trigger] writer_step_at(events, k).flush,
        forall|k: int| 0 <= k < events.len() && events[k] == WriterEvent::Closed
            ==> #[trigger] writer_step_at(events, k).flush && writer_step_at(events, k).stop,
        forall|k: int| 0 <= k < events.len() && #[trigger] writer_step_at(events, k).flush
            ==> !holds_unflushed(events, k + 1),
        forall|n: int|
            0 <= n <= events.len() && (forall|k: int| 0 <= k < n ==> events[k] != WriterEvent::Closed)
                ==> (#[trigger] writer_dirty(events.take(n)) <==> holds_unflushed(events, n)),
{
    assert forall|k: int| 0 <= k < events.len() && #[trigger] writer_step_at(events, k).flush
        implies !holds_unflushed(events, k + 1) by {
        let m = k + 1;
        if holds_unflushed(events, m) {
            let j = choose|j: int| unflushed(events, j, m);
            assert(!writer_step_at(events, k).flush);
        }
    }
    assert forall|n: int|
        0 <= n <= events.len() && (forall|k: int| 0 <= k < n ==> events[k] != WriterEvent::Closed)
        implies (#[trigger] writer_dirty(events.take(n)) <==> holds_unflushed(events, n)) by {
        lemma_writer_dirty(events, n);
    }
}

/// Marks a maximum level that has not been configured yet.
pub const UNSET_LEVEL: u8 = 255;

/// The maximum level rank in force: the stored one once configured,
/// else the level `MERIDIAN_LOG` names, else `Info`.
pub fn resolve_max_level(stored: u8, env_value: Option<&str>) -> (r: u8)
    ensures
        r == if stored != UNSET_LEVEL {
            stored
        } else {
            match env_value {
                Some(v) => match level_named(ascii_lower_seq(v@)) {
                    Some(l) => level_rank(l),
                    None => 2,
                },
                None => 2,
            }
        },
{
    if stored != UNSET_LEVEL {
        return stored;
    }
    match env_value {
        Some(v) => match LogLevel::from_env(v) {
            Some(l) => l.rank(),
            None => LogLevel::Info.rank(),
        },
        None => LogLevel::Info.rank(),
    }
}

/// Where and under what name crash reports are written.
#[derive(Debug, Clone)]
pub struct CrashReportConfig {
    /// Prefix for report file names (typically the binary/app name).
    pub app_name: String,
    /// Directory for reports; created on demand.
    pub directory: String,
}

impl CrashReportConfig {
    /// Default directory: `crashes`.
    pub fn new(app_name: String) -> (r: Self)
        ensures
            r.app_name == app_name,
            r.directory@ == "crashes"@,
    {
        CrashReportConfig { app_name, directory: "crashes".to_owned() }
    }

    pub fn with_directory(self, directory: String) -> (r: Self)
        ensures
            r.directory == directory,
            r.app_name == self.app_name,
    {
        CrashReportConfig { directory, ..self }
    }

    /// The report written for a crash at `unix_seconds`:
    /// `crash-<app_name>-<unix_seconds>.txt`.
    pub fn report_file_name(&self, unix_seconds: u64) -> (r: String)
        ensures
            r@ == "crash-"@ + self.app_name@ + "-"@ + decimal(unix_seconds as nat) + ".txt"@,
    {
        let mut name = "crash-".to_owned();
        name.append(self.app_name.as_str());
        name.append("-");
        let digits = decimal_string(unix_seconds);
        name.append(digits.as_str());
        name.append(".txt");
        name
    }
}


/// Where a panic happened, as a crash report prints it: `file:line:column`,
/// or `<unknown location>` when the panic carries none.
pub fn panic_location(location: Option<(&str, u32, u32)>) -> (r: String)
    ensures
        r@ == match location {
            Some((file, line, column)) => file@ + ":"@ + decimal(line as nat) + ":"@ + decimal(
                column as nat,
            ),
            None => "<unknown location>"@,
        },
{
    match location {
        Some((file, line, column)) => {
            let mut text = file.to_owned();
            text.append(":");
            let l = decimal_string(line as u64);
            text.append(l.as_str());
            text.append(":");
            let c = decimal_string(column as u64);
            text.append(c.as_str());
            text
        },
        None => "<unknown location>".to_owned(),
    }
}

pub open spec fn string_views(lines: Seq<String>) -> Seq<Seq<char>> {
    lines.map_values(|l: String| l@)
}

/// The lines of a crash report, in order.
pub open spec fn report_lines(
    app_name: Seq<char>,
    unix_seconds: nat,
    os: Seq<char>,
    arch: Seq<char>,
    message: Seq<char>,
    location: Seq<char>,
    backtrace: Seq<char>,
    recent: Seq<Seq<char>>,
) -> Seq<Seq<char>> {
    seq![
        "==== Meridian Engine crash report ===="@,
        "app:       "@ + app_name,
        "time:      "@ + decimal(unix_seconds) + " (unix seconds)"@,
        "platform:  "@ + os + " / "@ + arch,
        Seq::empty(),
        "panic:     "@ + message,
        "location:  "@ + location,
        Seq::empty(),
        "---- backtrace ----"@,
        backtrace,
        Seq::empty(),
        "---- recent log (oldest first) ----"@,
    ] + recent
}

fn joined(a: &str, b: &str) -> (r: String)
    ensures
        r@ == a@ + b@,
{
    let mut s = a.to_owned();
    s.append(b);
    s
}

/// The text of a crash report, line by line: identification, the panic
/// and where it happened, the backtrace, then the recent log lines.
pub fn crash_report_lines(
    config: &CrashReportConfig,
    unix_seconds: u64,
    os: &str,
    arch: &str,
    message: &str,
    location: &str,
    backtrace: &str,
    recent: &Vec<String>,
) -> (r: Vec<String>)
    ensures
        string_views(r@) == report_lines(
            config.app_name@,
            unix_seconds as nat,
            os@,
            arch@,
            message@,
            location@,
            backtrace@,
            string_views(recent@),
        ),
{
    let mut lines: Vec<String> = Vec::new();
    lines.push("==== Meridian Engine crash report ====".to_owned());
    lines.push(joined("app:       ", config.app_name.as_str()));
    let mut time = "time:      ".to_owned();
    let digits = decimal_string(unix_seconds);
    time.append(digits.as_str());
    time.append(" (unix seconds)");
    lines.push(time);
    let mut platform = joined("platform:  ", os);
    platform.append(" / ");
    platform.append(arch);
    lines.push(platform);
    lines.push(String::new());
    lines.push(joined("panic:     ", message));
    lines.push(joined("location:  ", location));
    lines.push(String::new());
    lines.push("---- backtrace ----".to_owned());
    lines.push(backtrace.to_owned());
    lines.push(String::new());
    lines.push("---- recent log (oldest first) ----".to_owned());
    let ghost head = string_views(lines@);
    let mut i: usize = 0;
    while i < recent.len()
        invariant
            i <= recent@.len(),
            string_views(lines@) == head + string_views(recent@).take(i as int),
        decreases recent@.len() - i,
    {
        let line = recent[i].clone();
        let ghost before = lines@;
        lines.push(line);
        assert(string_views(lines@) =~= string_views(before).push(recent@[i as int]@));
        i = i + 1;
        assert(string_views(lines@) =~= head + string_views(recent@).take(i as int));
    }
    assert(string_views(recent@).take(recent@.len() as int) =~= string_views(recent@));
    assert(head =~= seq![
        "==== Meridian Engine crash report ===="@,
        "app:       "@ + config.app_name@,
        "time:      "@ + decimal(unix_seconds as nat) + " (unix seconds)"@,
        "platform:  "@ + os@ + " / "@ + arch@,
        Seq::empty(),
        "panic:     "@ + message@,
        "location:  "@ + location@,
        Seq::empty(),
        "---- backtrace ----"@,
        backtrace@,
        Seq::empty(),
        "---- recent log (oldest first) ----"@,
    ]);
    lines
}
} // verus!
