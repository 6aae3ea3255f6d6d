//! The tailing state machine: where to resume, what one more line changes,
//! when to checkpoint, and what a rotation of the log means.
//!
//! The machine holds no file and no clock. Its caller reads the lines,
//! measures the time and performs what the machine returns.

use vstd::prelude::*;
use vstd::string::*;

use crate::event::{EventView, LogPayload, PayloadView, VrcLogEvent};
use crate::parser::{
    create_invalid_app_stop_payload, dedup_hash, extract_timestamp_spec, parse_spec, LineParser,
};

verus! {

/// The tailer's resumption point, as the settings table keeps it.
#[derive(Debug, PartialEq, Eq)]
pub struct WatcherState {
    pub log_path: String,
    pub is_running: bool,
    pub last_timestamp: String,
    pub last_position: u64,
}

/// The mathematical value of a [`WatcherState`].
pub struct WatcherStateView {
    pub log_path: Seq<char>,
    pub is_running: bool,
    pub last_timestamp: Seq<char>,
    pub last_position: u64,
}

impl View for WatcherState {
    type V = WatcherStateView;

    open spec fn view(&self) -> WatcherStateView {
        WatcherStateView {
            log_path: self.log_path@,
            is_running: self.is_running,
            last_timestamp: self.last_timestamp@,
            last_position: self.last_position,
        }
    }
}

impl DeepView for WatcherState {
    type V = WatcherStateView;

    open spec fn deep_view(&self) -> WatcherStateView {
        self@
    }
}

impl Clone for WatcherState {
    fn clone(&self) -> (copy: Self)
        ensures
            copy == *self,
    {
        WatcherState {
            log_path: self.log_path.clone(),
            is_running: self.is_running,
            last_timestamp: self.last_timestamp.clone(),
            last_position: self.last_position,
        }
    }
}

/// The longest time, in nanoseconds, that read progress goes without a
/// checkpoint.
pub const CHECKPOINT_INTERVAL_NANOS: u64 = 5_000_000_000;

/// How long, in milliseconds, the caller waits at the end of the file
/// before it reads again.
pub const POLL_INTERVAL_MILLIS: u64 = 500;

/// How often, in milliseconds, the caller looks for a newer log while it
/// waits at the end of the file.
pub const ROTATION_CHECK_INTERVAL_MILLIS: u64 = 5_000;

/// The tailer's state in memory.
pub struct Tailer {
    parser: LineParser,
    current_log_path: Option<String>,
    is_app_running: bool,
    last_seen_timestamp: String,
    current_position: u64,
    last_sync: u64,
}

/// The mathematical value of a [`Tailer`].
pub struct TailerView {
    /// The file that is tailed, if one was found.
    pub log_path: Option<Seq<char>>,
    /// Whether the log has reported a start and no stop since.
    pub is_running: bool,
    /// The timestamp of the last line that carried one.
    pub last_timestamp: Seq<char>,
    /// The offset of the next byte to read.
    pub position: u64,
    /// The reading of the caller's monotonic clock, in nanoseconds, at the
    /// start or at the last checkpoint that followed a read.
    pub last_sync: u64,
}

impl View for Tailer {
    type V = TailerView;

    closed spec fn view(&self) -> TailerView {
        TailerView {
            log_path: self.current_log_path.deep_view(),
            is_running: self.is_app_running,
            last_timestamp: self.last_seen_timestamp@,
            position: self.current_position,
            last_sync: self.last_sync,
        }
    }
}

/// What the tailer does with the stored state when it starts.
pub enum ResumeKind {
    /// The stored state belongs to the file found: read on from its offset.
    Resume,
    /// The stored state belongs to another file: replay that file, then
    /// start the file found from its beginning.
    Rescan,
    /// Nothing usable is stored: start from the beginning.
    Fresh,
}

/// How the tailer starts, given what is stored and the file found (the
/// empty path stands for no file).
pub open spec fn resume_kind(
    saved: Option<WatcherStateView>,
    current_path: Seq<char>,
) -> ResumeKind {
    match saved {
        Some(state) => if state.log_path == current_path && current_path.len() != 0 {
            ResumeKind::Resume
        } else if state.log_path.len() != 0 {
            ResumeKind::Rescan
        } else {
            ResumeKind::Fresh
        },
        None => ResumeKind::Fresh,
    }
}

/// The path under which the tailer compares and stores the file found.
pub open spec fn path_text(path: Option<Seq<char>>) -> Seq<char> {
    match path {
        Some(text) => text,
        None => Seq::empty(),
    }
}

/// The tailer's state after the start.
pub open spec fn started(
    saved: Option<WatcherStateView>,
    current: Option<Seq<char>>,
    now: u64,
) -> TailerView {
    match resume_kind(saved, path_text(current)) {
        ResumeKind::Resume => TailerView {
            log_path: current,
            is_running: saved->0.is_running,
            last_timestamp: saved->0.last_timestamp,
            position: saved->0.last_position,
            last_sync: now,
        },
        _ => TailerView {
            log_path: current,
            is_running: false,
            last_timestamp: "unknown"@,
            position: 0,
            last_sync: now,
        },
    }
}

/// The old log that the start replays, if it replays one.
pub open spec fn rescan_path(saved: Option<WatcherStateView>, current: Option<Seq<char>>) -> Option<
    Seq<char>,
> {
    match resume_kind(saved, path_text(current)) {
        ResumeKind::Rescan => Some(saved->0.log_path),
        _ => None,
    }
}

/// What one line changes in the running flag: a start sets it, a stop
/// clears it, anything else leaves it.
pub open spec fn running_after(running: bool, record: Option<PayloadView>) -> bool {
    match record {
        Some(r) => match r.event {
            EventView::AppStart => true,
            EventView::AppStop => false,
            EventView::InvalidAppStop => false,
            _ => running,
        },
        None => running,
    }
}

/// Whether a record is one that sets or clears the running flag.
pub open spec fn changes_running(record: Option<PayloadView>) -> bool {
    match record {
        Some(r) => r.event is AppStart || r.event is AppStop || r.event is InvalidAppStop,
        None => false,
    }
}

/// The last seen timestamp after a line: the line's own where it carries
/// one.
pub open spec fn timestamp_after(last: Seq<char>, line: Seq<char>) -> Seq<char> {
    match extract_timestamp_spec(line) {
        Some(ts) => ts,
        None => last,
    }
}

/// The record of an abnormal stop at `ts`.
pub open spec fn abnormal_stop(ts: Seq<char>) -> PayloadView {
    PayloadView {
        event: EventView::InvalidAppStop,
        timestamp: ts,
        hash: dedup_hash(ts, EventView::InvalidAppStop),
    }
}

/// The state to store for a tailer, where it tails a file.
pub open spec fn snapshot_spec(t: TailerView) -> Option<WatcherStateView> {
    match t.log_path {
        Some(path) => Some(
            WatcherStateView {
                log_path: path,
                is_running: t.is_running,
                last_timestamp: t.last_timestamp,
                last_position: t.position,
            },
        ),
        None => None,
    }
}

/// Whether a checkpoint is due after a read: at once when the running flag
/// was set or cleared, else when a line was read and more than the
/// checkpoint interval has passed since the last checkpoint.
pub open spec fn checkpoint_due(
    t: TailerView,
    state_changed: bool,
    read_success: bool,
    now: u64,
) -> bool {
    state_changed || (read_success && now - t.last_sync > CHECKPOINT_INTERVAL_NANOS)
}

/// The tailer after it settled the offset at which reading begins in a
/// file of `file_len` bytes: the resumption offset where the file holds it,
/// the beginning where the file is shorter.
pub open spec fn opened_at(t: TailerView, file_len: u64) -> TailerView {
    TailerView {
        position: if t.position > file_len {
            0
        } else {
            t.position
        },
        ..t
    }
}

/// The tailer after a rotation to `latest`: at the beginning of that file,
/// not running.
pub open spec fn rotated(t: TailerView, latest: Option<Seq<char>>) -> TailerView {
    TailerView { log_path: latest, is_running: false, position: 0, ..t }
}

/// The tailer after a line of `bytes_read` bytes: the offset is past the
/// line, the line's timestamp is the last seen, and the record that the
/// line parses to has set or cleared the running flag.
pub open spec fn line_read(t: TailerView, line: Seq<char>, bytes_read: u64) -> TailerView {
    TailerView {
        position: (t.position + bytes_read) as u64,
        last_timestamp: timestamp_after(t.last_timestamp, line),
        is_running: running_after(t.is_running, parse_spec(line)),
        ..t
    }
}

/// The state to store after a read: the tailer's state where a checkpoint
/// is due and a file is tailed.
pub open spec fn checkpoint_after(
    t: TailerView,
    state_changed: bool,
    read_success: bool,
    now: u64,
) -> Option<WatcherStateView> {
    if checkpoint_due(t, state_changed, read_success, now) {
        snapshot_spec(t)
    } else {
        None
    }
}

/// The tailer after the checkpoint decision: a checkpoint that is made is
/// made at `now`.
pub open spec fn synced(t: TailerView, state_changed: bool, read_success: bool, now: u64) -> TailerView {
    if checkpoint_after(t, state_changed, read_success, now) is Some {
        TailerView { last_sync: now, ..t }
    } else {
        t
    }
}

/// What a read brought.
pub enum ReadEvent<'a> {
    /// A line of `bytes_read` bytes, line end included.
    Line { text: &'a str, bytes_read: u64 },
    /// Nothing: the end of the file, a read that failed, or no file open.
    Nothing,
}

/// What the caller does after a read.
#[derive(Clone, Copy, Debug, PartialEq, Eq)]
pub enum NextMove {
    /// Read the next line at once.
    ReadOn,
    /// Wait for the poll timer or the rotation timer, whichever ends first.
    Wait,
}

/// What a read asks of the caller, in this order.
pub struct Tick {
    /// The record parsed: to be pushed to the notification sink, then
    /// appended to the store.
    pub record: Option<LogPayload>,
    /// The state to store.
    pub checkpoint: Option<WatcherState>,
    /// Whether to read on or to wait.
    pub next: NextMove,
}

/// What a line did.
pub struct LineOutcome {
    /// The record parsed from the line: to be pushed to the notification
    /// sink, then appended to the store.
    pub record: Option<LogPayload>,
    /// Whether the line set or cleared the running flag.
    pub state_changed: bool,
}

/// What a rotation asks of the caller, in this order.
pub struct Rotation {
    /// The abnormal stop to append and then push, where the old log ended
    /// while running.
    pub crash: Option<LogPayload>,
    /// The state to store at once, where a new file was found.
    pub checkpoint: Option<WatcherState>,
    /// The file to open from its beginning, where one was found.
    pub open: Option<String>,
}

fn same_path(a: &Option<String>, b: &Option<String>) -> (same: bool)
    ensures
        same == (a.deep_view() == b.deep_view()),
{
    match (a, b) {
        (Some(x), Some(y)) => *x == *y,
        (None, None) => true,
        _ => false,
    }
}

fn clone_path(path: &Option<String>) -> (copy: Option<String>)
    ensures
        copy.deep_view() == path.deep_view(),
{
    match path {
        Some(text) => Some(text.clone()),
        None => None,
    }
}

impl Tailer {
    /// Decides how to start. `saved` is what the store holds, `current` the
    /// newest log found, `now` the reading of the caller's monotonic clock.
    /// Returns the tailer and, where the stored state belongs to another
    /// file, the path of that file: the caller replays it with a [`Replay`]
    /// before it reads the file found.
    pub fn start(saved: Option<WatcherState>, current: Option<String>, now: u64) -> (out: (
        Tailer,
        Option<String>,
    ))
        ensures
            out.0@ == started(saved.deep_view(), current.deep_view(), now),
            out.1.deep_view() == rescan_path(saved.deep_view(), current.deep_view()),
    {
        let parser = LineParser::new();
        let has_current = match &current {
            Some(path) => !path.as_str().is_empty(),
            None => false,
        };
        match saved {
            Some(state) => {
                let same = match &current {
                    Some(path) => state.log_path == *path,
                    None => state.log_path.as_str().is_empty(),
                };
                if same && has_current {
                    (
                        Tailer {
                            parser,
                            current_log_path: current,
                            is_app_running: state.is_running,
                            last_seen_timestamp: state.last_timestamp,
                            current_position: state.last_position,
                            last_sync: now,
                        },
                        None,
                    )
                } else if !state.log_path.as_str().is_empty() {
                    (
                        Tailer {
                            parser,
                            current_log_path: current,
                            is_app_running: false,
                            last_seen_timestamp: String::from_str("unknown"),
                            current_position: 0,
                            last_sync: now,
                        },
                        Some(state.log_path),
                    )
                } else {
                    (
                        Tailer {
                            parser,
                            current_log_path: current,
                            is_app_running: false,
                            last_seen_timestamp: String::from_str("unknown"),
                            current_position: 0,
                            last_sync: now,
                        },
                        None,
                    )
                }
            },
            None => (
                Tailer {
                    parser,
                    current_log_path: current,
                    is_app_running: false,
                    last_seen_timestamp: String::from_str("unknown"),
                    current_position: 0,
                    last_sync: now,
                },
                None,
            ),
        }
    }

    /// The file that is tailed.
    pub fn log_path(&self) -> (path: Option<&String>)
        ensures
            path.deep_view() == self@.log_path,
    {
        self.current_log_path.as_ref()
    }

    /// Whether the log has reported a start and no stop since.
    pub fn is_running(&self) -> (running: bool)
        ensures
            running == self@.is_running,
    {
        self.is_app_running
    }

    /// The timestamp of the last line that carried one.
    pub fn last_timestamp(&self) -> (ts: &String)
        ensures
            ts@ == self@.last_timestamp,
    {
        &self.last_seen_timestamp
    }

    /// The offset of the next byte to read.
    pub fn position(&self) -> (offset: u64)
        ensures
            offset == self@.position,
    {
        self.current_position
    }

    /// Settles the offset at which reading begins in a file of `file_len`
    /// bytes and returns it: the resumption offset where the file holds it,
    /// the beginning where the file is shorter.
    pub fn open_at(&mut self, file_len: u64) -> (offset: u64)
        ensures
            final(self)@ == opened_at(old(self)@, file_len),
            offset == final(self)@.position,
    {
        if self.current_position > file_len {
            self.current_position = 0;
        }
        self.current_position
    }

    /// Takes the beginning of the file as the offset, for a caller that
    /// could not move to the offset settled.
    pub fn rewind(&mut self)
        ensures
            final(self)@ == (TailerView { position: 0, ..old(self)@ }),
    {
        self.current_position = 0;
    }

    /// Takes in a line of `bytes_read` bytes, line end included: the offset
    /// moves past it, its timestamp becomes the last seen, and the record
    /// that it parses to sets or clears the running flag.
    pub fn on_line(&mut self, line: &str, bytes_read: u64) -> (outcome: LineOutcome)
        requires
            old(self)@.position + bytes_read <= u64::MAX,
        ensures
            outcome.record.deep_view() == parse_spec(line@),
            outcome.state_changed == changes_running(parse_spec(line@)),
            final(self)@ == line_read(old(self)@, line@, bytes_read),
    {
        self.current_position = self.current_position + bytes_read;
        match self.parser.extract_timestamp(line) {
            Some(ts) => {
                self.last_seen_timestamp = ts;
            },
            None => {},
        }
        let record = self.parser.parse_log_line(line);
        let mut state_changed = false;
        match &record {
            Some(r) => match &r.event {
                VrcLogEvent::AppStart => {
                    self.is_app_running = true;
                    state_changed = true;
                },
                VrcLogEvent::AppStop => {
                    self.is_app_running = false;
                    state_changed = true;
                },
                VrcLogEvent::InvalidAppStop => {
                    self.is_app_running = false;
                    state_changed = true;
                },
                _ => {},
            },
            None => {},
        }
        LineOutcome { record, state_changed }
    }

    /// The state to store for this tailer, where it tails a file.
    pub fn snapshot(&self) -> (state: Option<WatcherState>)
        ensures
            state.deep_view() == snapshot_spec(self@),
    {
        match &self.current_log_path {
            Some(path) => Some(
                WatcherState {
                    log_path: path.clone(),
                    is_running: self.is_app_running,
                    last_timestamp: self.last_seen_timestamp.clone(),
                    last_position: self.current_position,
                },
            ),
            None => None,
        }
    }

    /// Decides after a read whether to checkpoint, and returns the state
    /// to store where it is due and a file is tailed. `state_changed` and
    /// `read_success` tell what the read did, `now` is the reading of the
    /// caller's monotonic clock; a reading before the last checkpoint counts
    /// as no time passed.
    pub fn after_read(&mut self, state_changed: bool, read_success: bool, now: u64) -> (state:
        Option<WatcherState>)
        ensures
            state.deep_view() == checkpoint_after(old(self)@, state_changed, read_success, now),
            final(self)@ == synced(old(self)@, state_changed, read_success, now),
    {
        let elapsed = if now >= self.last_sync {
            now - self.last_sync
        } else {
            0
        };
        if state_changed || (read_success && elapsed > CHECKPOINT_INTERVAL_NANOS) {
            let state = self.snapshot();
            if state.is_some() {
                self.last_sync = now;
            }
            state
        } else {
            None
        }
    }

    /// Takes in what a read brought and tells what to do with it. A line
    /// is taken in as by [`Tailer::on_line`], the checkpoint is decided as
    /// by [`Tailer::after_read`], and the caller reads on. After a read
    /// that brought nothing, nothing changes and the caller waits.
    pub fn on_read(&mut self, read: ReadEvent<'_>, now: u64) -> (tick: Tick)
        requires
            read matches ReadEvent::Line { bytes_read, .. } ==> old(self)@.position + bytes_read
                <= u64::MAX,
        ensures
            match read {
                ReadEvent::Line { text, bytes_read } => {
                    let taken = line_read(old(self)@, text@, bytes_read);
                    let changed = changes_running(parse_spec(text@));
                    &&& tick.record.deep_view() == parse_spec(text@)
                    &&& tick.checkpoint.deep_view() == checkpoint_after(taken, changed, true, now)
                    &&& tick.next == NextMove::ReadOn
                    &&& final(self)@ == synced(taken, changed, true, now)
                },
                ReadEvent::Nothing => {
                    &&& tick.record is None
                    &&& tick.checkpoint is None
                    &&& tick.next == NextMove::Wait
                    &&& final(self)@ == old(self)@
                },
            },
    {
        match read {
            ReadEvent::Line { text, bytes_read } => {
                let outcome = self.on_line(text, bytes_read);
                let checkpoint = self.after_read(outcome.state_changed, true, now);
                Tick { record: outcome.record, checkpoint, next: NextMove::ReadOn }
            },
            ReadEvent::Nothing => {
                let checkpoint = self.after_read(false, false, now);
                Tick { record: None, checkpoint, next: NextMove::Wait }
            },
        }
    }

    /// Compares the newest log found with the one tailed. Where they are
    /// the same, nothing happens and `None` is returned. Where they differ
    /// the log has rotated: the old log, if it was running, gets an abnormal
    /// stop at the last seen timestamp, and the tailer goes on at the
    /// beginning of the file found, not running.
    pub fn on_rotation_check(&mut self, latest: Option<String>) -> (rotation: Option<Rotation>)
        ensures
            rotation is Some <==> latest.deep_view() != old(self)@.log_path,
            rotation is None ==> final(self)@ == old(self)@,
            rotation matches Some(r) ==> {
                &&& r.crash.deep_view() == closing_record(
                    old(self)@.is_running,
                    old(self)@.last_timestamp,
                )
                &&& final(self)@ == rotated(old(self)@, latest.deep_view())
                &&& r.checkpoint.deep_view() == snapshot_spec(final(self)@)
                &&& r.open.deep_view() == latest.deep_view()
            },
    {
        if same_path(&latest, &self.current_log_path) {
            return None;
        }
        let crash = if self.is_app_running {
            Some(create_invalid_app_stop_payload(self.last_seen_timestamp.as_str()))
        } else {
            None
        };
        self.current_log_path = clone_path(&latest);
        self.is_app_running = false;
        self.current_position = 0;
        let checkpoint = self.snapshot();
        Some(Rotation { crash, checkpoint, open: latest })
    }
}

/// The replay of an old log after a rotation that happened while the
/// tailer was not running: every line is parsed again, and the running flag
/// and the last timestamp are followed from the beginning of the file.
pub struct Replay {
    parser: LineParser,
    is_running: bool,
    last_timestamp: String,
}

/// The mathematical value of a [`Replay`].
pub struct ReplayView {
    pub is_running: bool,
    pub last_timestamp: Seq<char>,
}

impl View for Replay {
    type V = ReplayView;

    closed spec fn view(&self) -> ReplayView {
        ReplayView { is_running: self.is_running, last_timestamp: self.last_timestamp@ }
    }
}

/// The replay after one more line.
pub open spec fn replay_step(r: ReplayView, line: Seq<char>) -> ReplayView {
    ReplayView {
        is_running: running_after(r.is_running, parse_spec(line)),
        last_timestamp: timestamp_after(r.last_timestamp, line),
    }
}

/// The record that ends a log: an abnormal stop at the last timestamp where
/// the log ended while running, nothing where it ended stopped.
pub open spec fn closing_record(is_running: bool, last_timestamp: Seq<char>) -> Option<
    PayloadView,
> {
    if is_running {
        Some(abnormal_stop(last_timestamp))
    } else {
        None
    }
}

impl Replay {
    /// A replay at the beginning of a file: not running, no timestamp seen.
    pub fn new() -> (replay: Self)
        ensures
            replay@ == (ReplayView { is_running: false, last_timestamp: "unknown"@ }),
    {
        Replay {
            parser: LineParser::new(),
            is_running: false,
            last_timestamp: String::from_str("unknown"),
        }
    }

    /// Takes in the next line of the old log and returns the record that
    /// it parses to, for the caller to append to the store. The store
    /// ignores a record that it already holds.
    pub fn feed(&mut self, line: &str) -> (record: Option<LogPayload>)
        ensures
            record.deep_view() == parse_spec(line@),
            final(self)@ == replay_step(old(self)@, line@),
    {
        match self.parser.extract_timestamp(line) {
            Some(ts) => {
                self.last_timestamp = ts;
            },
            None => {},
        }
        let record = self.parser.parse_log_line(line);
        match &record {
            Some(r) => match &r.event {
                VrcLogEvent::AppStart => {
                    self.is_running = true;
                },
                VrcLogEvent::AppStop => {
                    self.is_running = false;
                },
                VrcLogEvent::InvalidAppStop => {
                    self.is_running = false;
                },
                _ => {},
            },
            None => {},
        }
        record
    }

    /// Ends the replay: where the old log ended while running, returns the
    /// abnormal stop at its last timestamp, for the caller to append.
    pub fn finish(self) -> (crash: Option<LogPayload>)
        ensures
            crash.deep_view() == closing_record(self@.is_running, self@.last_timestamp),
    {
        if self.is_running {
            Some(create_invalid_app_stop_payload(self.last_timestamp.as_str()))
        } else {
            None
        }
    }
}

/// A tailer that starts on the file of its stored state reads on from the
/// stored offset where the file holds it, and from the beginning where the
/// file is shorter.
pub proof fn resume_reads_from_stored_offset(
    saved: WatcherStateView,
    path: Seq<char>,
    now: u64,
    file_len: u64,
)
    requires
        saved.log_path == path,
        path.len() != 0,
    ensures
        rescan_path(Some(saved), Some(path)) is None,
        started(Some(saved), Some(path), now).position == saved.last_position,
        saved.last_position <= file_len ==> opened_at(
            started(Some(saved), Some(path), now),
            file_len,
        ).position == saved.last_position,
        saved.last_position > file_len ==> opened_at(
            started(Some(saved), Some(path), now),
            file_len,
        ).position == 0,
{
}

/// A rotation of a log that is running yields one abnormal stop, at the
/// last seen timestamp, and the file found starts at offset 0, not running.
pub proof fn rotation_infers_abnormal_stop(t: TailerView, latest: Option<Seq<char>>)
    requires
        t.is_running,
        latest != t.log_path,
    ensures
        closing_record(t.is_running, t.last_timestamp) == Some(abnormal_stop(t.last_timestamp)),
        abnormal_stop(t.last_timestamp).event is InvalidAppStop,
        abnormal_stop(t.last_timestamp).timestamp == t.last_timestamp,
        rotated(t, latest).position == 0,
        !rotated(t, latest).is_running,
        rotated(t, latest).log_path == latest,
        closing_record(rotated(t, latest).is_running, rotated(t, latest).last_timestamp) is None,
{
}

/// No line parses to an abnormal stop: the tailer alone writes them.
pub proof fn no_line_is_an_abnormal_stop(line: Seq<char>)
    ensures
        parse_spec(line) matches Some(record) ==> !(record.event is InvalidAppStop),
{
}

} // verus!
