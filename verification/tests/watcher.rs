use vrcp_lib::event::VrcLogEvent;
use vrcp_lib::parser::create_invalid_app_stop_payload;
use vrcp_lib::watcher::{
    NextMove, ReadEvent, Replay, Tailer, WatcherState, CHECKPOINT_INTERVAL_NANOS,
    POLL_INTERVAL_MILLIS, ROTATION_CHECK_INTERVAL_MILLIS,
};

const START_LINE: &str = "2024.05.01 10:00:00 Log        -  VRCNP: Server started\n";
const STOP_LINE: &str = "2024.05.01 11:00:00 Log        -  VRCNP: Stopping server\n";
const JOIN_LINE: &str = "2024.05.01 10:05:00 Debug      -  [Behaviour] OnPlayerJoined Alice (usr_1)\n";
const PLAIN_LINE: &str = "2024.05.01 10:06:00 Debug      -  nothing of interest\n";

fn saved(path: &str, running: bool, ts: &str, position: u64) -> WatcherState {
    WatcherState {
        log_path: path.to_string(),
        is_running: running,
        last_timestamp: ts.to_string(),
        last_position: position,
    }
}

#[test]
fn resumes_at_the_stored_offset_of_the_same_file() {
    let (mut tailer, rescan) = Tailer::start(
        Some(saved("/logs/a.txt", true, "2024-05-01 10:00:00", 120)),
        Some("/logs/a.txt".to_string()),
        7,
    );
    assert_eq!(rescan, None);
    assert_eq!(tailer.position(), 120);
    assert!(tailer.is_running());
    assert_eq!(tailer.last_timestamp(), "2024-05-01 10:00:00");
    assert_eq!(tailer.log_path(), Some(&"/logs/a.txt".to_string()));
    assert_eq!(tailer.open_at(500), 120);
    assert_eq!(tailer.position(), 120);
    assert_eq!(tailer.open_at(120), 120);
}

#[test]
fn offset_beyond_the_file_resets_to_zero() {
    let (mut tailer, _) = Tailer::start(
        Some(saved("/logs/a.txt", true, "2024-05-01 10:00:00", 120)),
        Some("/logs/a.txt".to_string()),
        0,
    );
    assert_eq!(tailer.open_at(119), 0);
    assert_eq!(tailer.position(), 0);
    assert!(tailer.is_running());
}

#[test]
fn rewind_goes_back_to_the_beginning() {
    let (mut tailer, _) = Tailer::start(
        Some(saved("/logs/a.txt", false, "2024-05-01 10:00:00", 120)),
        Some("/logs/a.txt".to_string()),
        0,
    );
    tailer.rewind();
    assert_eq!(tailer.position(), 0);
    assert_eq!(tailer.last_timestamp(), "2024-05-01 10:00:00");
}

#[test]
fn other_file_is_rescanned_and_new_file_starts_fresh() {
    let (tailer, rescan) = Tailer::start(
        Some(saved("/logs/old.txt", true, "2024-05-01 10:00:00", 120)),
        Some("/logs/new.txt".to_string()),
        0,
    );
    assert_eq!(rescan, Some("/logs/old.txt".to_string()));
    assert_eq!(tailer.position(), 0);
    assert!(!tailer.is_running());
    assert_eq!(tailer.last_timestamp(), "unknown");
    assert_eq!(tailer.log_path(), Some(&"/logs/new.txt".to_string()));
}

#[test]
fn stored_file_is_rescanned_when_no_file_is_found() {
    let (tailer, rescan) = Tailer::start(Some(saved("/logs/old.txt", true, "x", 5)), None, 0);
    assert_eq!(rescan, Some("/logs/old.txt".to_string()));
    assert_eq!(tailer.log_path(), None);
    assert_eq!(tailer.position(), 0);
    assert_eq!(tailer.snapshot(), None);
}

#[test]
fn nothing_stored_starts_fresh() {
    let (tailer, rescan) = Tailer::start(None, Some("/logs/a.txt".to_string()), 0);
    assert_eq!(rescan, None);
    assert_eq!(tailer.position(), 0);
    assert!(!tailer.is_running());
    assert_eq!(tailer.last_timestamp(), "unknown");
    let (tailer, rescan) = Tailer::start(Some(saved("", true, "x", 9)), None, 0);
    assert_eq!(rescan, None);
    assert_eq!(tailer.position(), 0);
    assert!(!tailer.is_running());
}

#[test]
fn line_moves_offset_timestamp_and_running_flag() {
    let (mut tailer, _) = Tailer::start(None, Some("/logs/a.txt".to_string()), 0);
    let outcome = tailer.on_line(PLAIN_LINE, PLAIN_LINE.len() as u64);
    assert_eq!(outcome.record, None);
    assert!(!outcome.state_changed);
    assert_eq!(tailer.position(), PLAIN_LINE.len() as u64);
    assert_eq!(tailer.last_timestamp(), "2024-05-01 10:06:00");
    assert!(!tailer.is_running());

    let outcome = tailer.on_line(START_LINE, START_LINE.len() as u64);
    assert_eq!(outcome.record.unwrap().event, VrcLogEvent::AppStart);
    assert!(outcome.state_changed);
    assert!(tailer.is_running());
    assert_eq!(tailer.last_timestamp(), "2024-05-01 10:00:00");

    let outcome = tailer.on_line(JOIN_LINE, JOIN_LINE.len() as u64);
    assert!(outcome.record.is_some());
    assert!(!outcome.state_changed);
    assert!(tailer.is_running());

    let outcome = tailer.on_line("no timestamp here\n", 18);
    assert_eq!(outcome.record, None);
    assert_eq!(tailer.last_timestamp(), "2024-05-01 10:05:00");

    let outcome = tailer.on_line(STOP_LINE, STOP_LINE.len() as u64);
    assert_eq!(outcome.record.unwrap().event, VrcLogEvent::AppStop);
    assert!(outcome.state_changed);
    assert!(!tailer.is_running());
    assert_eq!(
        tailer.position(),
        (PLAIN_LINE.len() + START_LINE.len() + JOIN_LINE.len() + 18 + STOP_LINE.len()) as u64
    );
}

#[test]
fn checkpoint_is_due_at_once_when_the_flag_changed() {
    let (mut tailer, _) = Tailer::start(None, Some("/logs/a.txt".to_string()), 1_000);
    let outcome = tailer.on_line(START_LINE, 57);
    let state = tailer.after_read(outcome.state_changed, true, 1_001);
    assert_eq!(state, Some(saved("/logs/a.txt", true, "2024-05-01 10:00:00", 57)));
}

#[test]
fn checkpoint_is_due_after_the_interval_of_read_progress() {
    let (mut tailer, _) = Tailer::start(None, Some("/logs/a.txt".to_string()), 1_000);
    tailer.on_line(PLAIN_LINE, 10);
    assert_eq!(tailer.after_read(false, true, 1_000 + CHECKPOINT_INTERVAL_NANOS), None);
    assert_eq!(tailer.after_read(false, false, 1_001 + CHECKPOINT_INTERVAL_NANOS), None);
    assert_eq!(
        tailer.after_read(false, true, 1_001 + CHECKPOINT_INTERVAL_NANOS),
        Some(saved("/logs/a.txt", false, "2024-05-01 10:06:00", 10))
    );
    assert_eq!(tailer.after_read(false, true, 1_002 + CHECKPOINT_INTERVAL_NANOS), None);
    assert_eq!(tailer.after_read(false, true, 0), None);
}

#[test]
fn checkpoint_needs_a_file() {
    let (mut tailer, _) = Tailer::start(None, None, 0);
    assert_eq!(tailer.after_read(true, true, 10 * CHECKPOINT_INTERVAL_NANOS), None);
}

#[test]
fn rotation_of_a_running_log_infers_one_abnormal_stop() {
    let (mut tailer, _) = Tailer::start(None, Some("/logs/a.txt".to_string()), 0);
    tailer.on_line(START_LINE, 57);
    tailer.on_line(JOIN_LINE, 70);
    assert_eq!(tailer.on_rotation_check(Some("/logs/a.txt".to_string())).is_none(), true);
    assert_eq!(tailer.position(), 127);

    let rotation = tailer.on_rotation_check(Some("/logs/b.txt".to_string())).unwrap();
    assert_eq!(rotation.crash, Some(create_invalid_app_stop_payload("2024-05-01 10:05:00")));
    assert_eq!(rotation.checkpoint, Some(saved("/logs/b.txt", false, "2024-05-01 10:05:00", 0)));
    assert_eq!(rotation.open, Some("/logs/b.txt".to_string()));
    assert_eq!(tailer.position(), 0);
    assert!(!tailer.is_running());
    assert_eq!(tailer.log_path(), Some(&"/logs/b.txt".to_string()));
    assert_eq!(tailer.last_timestamp(), "2024-05-01 10:05:00");
    assert!(tailer.on_rotation_check(Some("/logs/b.txt".to_string())).is_none());
}

#[test]
fn rotation_of_a_stopped_log_infers_nothing() {
    let (mut tailer, _) = Tailer::start(None, Some("/logs/a.txt".to_string()), 0);
    tailer.on_line(START_LINE, 57);
    tailer.on_line(STOP_LINE, 59);
    let rotation = tailer.on_rotation_check(Some("/logs/b.txt".to_string())).unwrap();
    assert_eq!(rotation.crash, None);
    assert_eq!(rotation.checkpoint, Some(saved("/logs/b.txt", false, "2024-05-01 11:00:00", 0)));
}

#[test]
fn rotation_to_no_file_stores_nothing() {
    let (mut tailer, _) = Tailer::start(None, Some("/logs/a.txt".to_string()), 0);
    tailer.on_line(START_LINE, 57);
    let rotation = tailer.on_rotation_check(None).unwrap();
    assert!(rotation.crash.is_some());
    assert_eq!(rotation.checkpoint, None);
    assert_eq!(rotation.open, None);
    assert_eq!(tailer.log_path(), None);
}

#[test]
fn first_file_found_counts_as_rotation() {
    let (mut tailer, _) = Tailer::start(None, None, 0);
    assert!(tailer.on_rotation_check(None).is_none());
    let rotation = tailer.on_rotation_check(Some("/logs/a.txt".to_string())).unwrap();
    assert_eq!(rotation.crash, None);
    assert_eq!(rotation.checkpoint, Some(saved("/logs/a.txt", false, "unknown", 0)));
    assert_eq!(rotation.open, Some("/logs/a.txt".to_string()));
}

#[test]
fn replay_of_a_log_that_ended_running_infers_an_abnormal_stop() {
    let mut replay = Replay::new();
    assert_eq!(replay.feed(PLAIN_LINE), None);
    assert_eq!(replay.feed(START_LINE).unwrap().event, VrcLogEvent::AppStart);
    assert!(replay.feed(JOIN_LINE).is_some());
    assert_eq!(replay.feed(PLAIN_LINE), None);
    assert_eq!(replay.finish(), Some(create_invalid_app_stop_payload("2024-05-01 10:06:00")));
}

#[test]
fn replay_of_a_log_that_ended_stopped_infers_nothing() {
    let mut replay = Replay::new();
    replay.feed(START_LINE);
    replay.feed(STOP_LINE);
    assert_eq!(replay.finish(), None);
    assert_eq!(Replay::new().finish(), None);
}

#[test]
fn replay_without_timestamps_stops_at_unknown() {
    let mut replay = Replay::new();
    replay.feed("no timestamp");
    let (mut tailer, _) = Tailer::start(None, Some("a".to_string()), 0);
    tailer.on_line("no timestamp", 12);
    assert_eq!(tailer.last_timestamp(), "unknown");
    assert_eq!(replay.finish(), None);
}

#[test]
fn timers_are_half_a_second_and_five_seconds() {
    assert_eq!(POLL_INTERVAL_MILLIS, 500);
    assert_eq!(ROTATION_CHECK_INTERVAL_MILLIS, 5_000);
    assert_eq!(CHECKPOINT_INTERVAL_NANOS, 5_000_000_000);
}

#[test]
fn read_of_a_line_is_taken_in_and_reading_goes_on() {
    let (mut tailer, _) = Tailer::start(None, Some("/logs/a.txt".to_string()), 1_000);
    let tick = tailer.on_read(ReadEvent::Line { text: PLAIN_LINE, bytes_read: 10 }, 2_000);
    assert_eq!(tick.record, None);
    assert_eq!(tick.checkpoint, None);
    assert_eq!(tick.next, NextMove::ReadOn);
    assert_eq!(tailer.position(), 10);

    let tick = tailer.on_read(ReadEvent::Line { text: START_LINE, bytes_read: 57 }, 3_000);
    assert_eq!(tick.record.unwrap().event, VrcLogEvent::AppStart);
    assert_eq!(tick.checkpoint, Some(saved("/logs/a.txt", true, "2024-05-01 10:00:00", 67)));
    assert_eq!(tick.next, NextMove::ReadOn);

    let late = 3_001 + CHECKPOINT_INTERVAL_NANOS;
    let tick = tailer.on_read(ReadEvent::Line { text: JOIN_LINE, bytes_read: 70 }, late);
    assert!(tick.record.is_some());
    assert_eq!(tick.checkpoint, Some(saved("/logs/a.txt", true, "2024-05-01 10:05:00", 137)));
    let tick = tailer.on_read(ReadEvent::Line { text: JOIN_LINE, bytes_read: 70 }, late + 1);
    assert_eq!(tick.checkpoint, None);
    assert_eq!(tailer.position(), 207);
}

#[test]
fn read_of_nothing_changes_nothing_and_the_caller_waits() {
    let (mut tailer, _) = Tailer::start(None, Some("/logs/a.txt".to_string()), 0);
    tailer.on_line(START_LINE, 57);
    let tick = tailer.on_read(ReadEvent::Nothing, 100 * CHECKPOINT_INTERVAL_NANOS);
    assert_eq!(tick.record, None);
    assert_eq!(tick.checkpoint, None);
    assert_eq!(tick.next, NextMove::Wait);
    assert_eq!(tailer.position(), 57);
    assert!(tailer.is_running());
}
