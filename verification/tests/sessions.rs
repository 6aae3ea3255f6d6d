use vrcp_lib::date::to_timems;
use vrcp_lib::event::{LogPayload, VrcLogEvent};
use vrcp_lib::parser::gen_hash;
use vrcp_lib::sessions::{
    get_sessions, get_sessions_at, total_duration, Interval, PlayerInterval, SessionBuilder,
};

const T0: &str = "2024-05-01 10:00:00";
const T1: &str = "2024-05-01 10:05:00";
const T2: &str = "2024-05-01 10:15:00";
const T3: &str = "2024-05-01 11:00:00";
const NOON: &str = "2024-05-01 12:00:00";

fn record(timestamp: &str, event: VrcLogEvent) -> LogPayload {
    let hash = gen_hash(timestamp, &event);
    LogPayload { event, timestamp: timestamp.to_string(), hash }
}

fn instance_join(timestamp: &str, instance_id: &str) -> LogPayload {
    record(
        timestamp,
        VrcLogEvent::InstanceJoin { world_id: "wrld_1".to_string(), instance_id: instance_id.to_string() },
    )
}

fn join(timestamp: &str, name: &str, user_id: &str) -> LogPayload {
    record(timestamp, VrcLogEvent::PlayerJoin { player_name: name.to_string(), user_id: user_id.to_string() })
}

fn left(timestamp: &str, name: &str, user_id: &str) -> LogPayload {
    record(timestamp, VrcLogEvent::PlayerLeft { player_name: name.to_string(), user_id: user_id.to_string() })
}

fn interval(start: &str, end: &str) -> Interval {
    Interval { start: start.to_string(), end: end.to_string() }
}

#[test]
fn session_is_rebuilt_from_join_leave_and_stop() {
    let logs = vec![
        instance_join(T0, "I1"),
        join(T1, "Alice", "u1"),
        left(T2, "Alice", "u1"),
        record(T3, VrcLogEvent::AppStop),
    ];
    let sessions = SessionBuilder::new().process_until(logs, to_timems(NOON));
    assert_eq!(sessions.len(), 1);
    let session = &sessions[0];
    assert_eq!(session.instance_id, "I1");
    assert_eq!(session.world_name, "Unknown World");
    assert_eq!(session.start_time, T0);
    assert_eq!(session.end_time, T3);
    assert_eq!(session.duration_ms, 3_600_000);
    assert_eq!(session.username, None);
    assert_eq!(
        session.players,
        vec![PlayerInterval {
            name: "Alice".to_string(),
            intervals: vec![interval(T1, T2)],
            total_duration_ms: 600_000,
        }]
    );
}

#[test]
fn self_intervals_redefine_the_session() {
    let logs = vec![
        record(T0, VrcLogEvent::Login { username: "Me".to_string(), user_id: "u1".to_string() }),
        instance_join(T0, "I1"),
        join(T1, "Me", "u1"),
        left(T2, "Me", "u1"),
        record(T3, VrcLogEvent::AppStop),
    ];
    let sessions = SessionBuilder::new().process_until(logs, to_timems(NOON));
    assert_eq!(sessions.len(), 1);
    let session = &sessions[0];
    assert_eq!(session.start_time, T1);
    assert_eq!(session.end_time, T2);
    assert_eq!(session.duration_ms, 600_000);
    assert_eq!(session.username, Some("Me".to_string()));
    assert!(session.players.is_empty());
}

#[test]
fn self_without_intervals_keeps_the_session_bounds() {
    let logs = vec![
        record(T0, VrcLogEvent::Login { username: "Me".to_string(), user_id: "u9".to_string() }),
        instance_join(T0, "I1"),
        join(T1, "Alice", "u1"),
        record(T3, VrcLogEvent::InvalidAppStop),
    ];
    let sessions = SessionBuilder::new().process_until(logs, to_timems(NOON));
    assert_eq!(sessions.len(), 1);
    let session = &sessions[0];
    assert_eq!(session.start_time, T0);
    assert_eq!(session.end_time, T3);
    assert_eq!(session.duration_ms, 3_600_000);
    assert_eq!(session.username, Some("Me".to_string()));
    assert_eq!(session.players.len(), 1);
    assert_eq!(session.players[0].intervals, vec![interval(T1, T3)]);
    assert_eq!(session.players[0].total_duration_ms, 3_300_000);
}

#[test]
fn unterminated_session_is_closed_at_the_time_given() {
    let logs = vec![instance_join(T0, "I1"), join(T1, "Alice", "u1")];
    let sessions = SessionBuilder::new().process_until(logs, to_timems(NOON) + 250);
    assert_eq!(sessions.len(), 1);
    let session = &sessions[0];
    assert_eq!(session.start_time, T0);
    assert_eq!(session.end_time, NOON);
    assert_eq!(session.duration_ms, 7_200_250);
    assert_eq!(session.players[0].intervals, vec![interval(T1, NOON)]);
    assert_eq!(session.players[0].total_duration_ms, 6_900_000);
}

#[test]
fn unterminated_session_is_closed_at_the_current_time() {
    let logs = vec![instance_join(T0, "I1")];
    let sessions = SessionBuilder::new().process(logs);
    assert_eq!(sessions.len(), 1);
    assert_eq!(sessions[0].start_time, T0);
    assert!(sessions[0].end_time.as_str() > "2024-05-01 10:00:00");
    assert_ne!(sessions[0].end_time, "Unknown");
    assert!(sessions[0].duration_ms > 0);
    assert_eq!(to_timems(&sessions[0].end_time) / 1000, (to_timems(T0) + sessions[0].duration_ms) / 1000);
}

#[test]
fn stop_without_instance_join_yields_no_session() {
    let logs = vec![
        record(T0, VrcLogEvent::AppStart),
        join(T1, "Alice", "u1"),
        left(T2, "Alice", "u1"),
        record(T3, VrcLogEvent::AppStop),
    ];
    assert!(SessionBuilder::new().process_until(logs, to_timems(NOON)).is_empty());
    assert!(SessionBuilder::new().process_until(Vec::new(), to_timems(NOON)).is_empty());
}

#[test]
fn second_instance_join_closes_the_first_session() {
    let logs = vec![
        record(T0, VrcLogEvent::WorldEnter { world_name: "First".to_string() }),
        instance_join(T0, "I1"),
        join(T1, "Alice", "u1"),
        instance_join(T2, "I2"),
        record(T3, VrcLogEvent::AppStop),
    ];
    let sessions = SessionBuilder::new().process_until(logs, to_timems(NOON));
    assert_eq!(sessions.len(), 2);
    assert_eq!(sessions[0].instance_id, "I1");
    assert_eq!(sessions[0].world_name, "First");
    assert_eq!(sessions[0].start_time, T0);
    assert_eq!(sessions[0].end_time, T2);
    assert_eq!(sessions[0].players[0].intervals, vec![interval(T1, T2)]);
    assert_eq!(sessions[1].instance_id, "I2");
    assert_eq!(sessions[1].world_name, "Unknown World");
    assert_eq!(sessions[1].start_time, T2);
    assert_eq!(sessions[1].end_time, T3);
    assert!(sessions[1].players.is_empty());
}

#[test]
fn participants_are_ranked_by_total_duration() {
    let logs = vec![
        instance_join(T0, "I1"),
        join(T0, "Short", "u1"),
        join(T0, "Long", "u2"),
        join(T0, "AlsoShort", "u3"),
        left(T1, "Short", "u1"),
        left(T2, "Long", "u2"),
        left(T1, "AlsoShort", "u3"),
        join(T2, "Short", "u1"),
        record(T3, VrcLogEvent::AppStop),
    ];
    let sessions = SessionBuilder::new().process_until(logs, to_timems(NOON));
    let names: Vec<&str> = sessions[0].players.iter().map(|p| p.name.as_str()).collect();
    assert_eq!(names, vec!["Short", "Long", "AlsoShort"]);
    let totals: Vec<i64> = sessions[0].players.iter().map(|p| p.total_duration_ms).collect();
    assert_eq!(totals, vec![3_000_000, 900_000, 300_000]);
    assert_eq!(sessions[0].players[0].intervals, vec![interval(T0, T1), interval(T2, T3)]);
}

#[test]
fn participants_with_equal_totals_keep_their_order() {
    let logs = vec![
        instance_join(T0, "I1"),
        join(T0, "First", "u1"),
        join(T0, "Second", "u2"),
        join(T0, "Third", "u3"),
        record(T3, VrcLogEvent::AppStop),
    ];
    let sessions = SessionBuilder::new().process_until(logs, to_timems(NOON));
    let names: Vec<&str> = sessions[0].players.iter().map(|p| p.name.as_str()).collect();
    assert_eq!(names, vec!["First", "Second", "Third"]);
}

#[test]
fn events_outside_a_session_are_not_recorded() {
    let logs = vec![
        join(T0, "Early", "u1"),
        instance_join(T1, "I1"),
        left(T2, "Early", "u1"),
        left(T2, "Nobody", "u2"),
        record(T3, VrcLogEvent::AppStop),
        join(T3, "Late", "u3"),
    ];
    let sessions = SessionBuilder::new().process_until(logs, to_timems(NOON));
    assert_eq!(sessions.len(), 1);
    assert!(sessions[0].players.is_empty());
}

#[test]
fn rejoin_takes_the_latest_name_and_join_time() {
    let logs = vec![
        instance_join(T0, "I1"),
        join(T0, "Old", "u1"),
        join(T1, "New", "u1"),
        left(T2, "New", "u1"),
        record(T3, VrcLogEvent::AppStop),
    ];
    let sessions = SessionBuilder::new().process_until(logs, to_timems(NOON));
    assert_eq!(sessions[0].players.len(), 1);
    assert_eq!(sessions[0].players[0].name, "New");
    assert_eq!(sessions[0].players[0].intervals, vec![interval(T1, T2)]);
}

#[test]
fn latest_login_is_the_self() {
    let logs = vec![
        record(T0, VrcLogEvent::Login { username: "A".to_string(), user_id: "u1".to_string() }),
        record(T0, VrcLogEvent::Login { username: "B".to_string(), user_id: "u2".to_string() }),
        instance_join(T0, "I1"),
        join(T1, "A", "u1"),
        join(T1, "B", "u2"),
        record(T3, VrcLogEvent::AppStop),
    ];
    let sessions = SessionBuilder::new().process_until(logs, to_timems(NOON));
    assert_eq!(sessions[0].username, Some("B".to_string()));
    assert_eq!(sessions[0].players.len(), 1);
    assert_eq!(sessions[0].players[0].name, "A");
    assert_eq!(sessions[0].start_time, T1);
    assert_eq!(sessions[0].end_time, T3);
}

#[test]
fn close_session_and_apply_work_step_by_step() {
    let mut builder = SessionBuilder::new();
    builder.close_session(to_timems(T0));
    builder.apply(&instance_join(T0, "I1"));
    builder.apply(&join(T1, "Alice", "u1"));
    builder.close_session(to_timems(T2));
    builder.close_session(to_timems(T3));
    let sessions = builder.process_until(Vec::new(), to_timems(NOON));
    assert_eq!(sessions.len(), 1);
    assert_eq!(sessions[0].end_time, T2);
    assert_eq!(sessions[0].players[0].total_duration_ms, 600_000);
}

#[test]
fn total_duration_sums_the_intervals() {
    assert_eq!(total_duration(&Vec::new()), 0);
    assert_eq!(total_duration(&vec![interval(T0, T1), interval(T2, T3)]), 300_000 + 2_700_000);
    assert_eq!(total_duration(&vec![interval(T1, T0)]), -300_000);
    assert_eq!(total_duration(&vec![interval("Unknown", T0)]), to_timems(T0));
}

#[test]
fn sessions_of_a_range_come_from_the_widened_range() {
    let rows = vec![
        record("2024-05-01 09:00:00", VrcLogEvent::AppStart),
        instance_join(T0, "I1"),
        join(T1, "Alice", "u1"),
        left(T2, "Alice", "u1"),
        record(T3, VrcLogEvent::AppStop),
    ];
    let sessions = get_sessions_at(&rows, Some("2024-05-01 10:10:00"), Some("2024-05-01 10:20:00"), to_timems(NOON));
    assert_eq!(sessions.len(), 1);
    assert_eq!(sessions[0].start_time, T0);
    assert_eq!(sessions[0].end_time, T3);
    assert_eq!(sessions[0].players[0].intervals, vec![interval(T1, T2)]);
    let all = get_sessions(&rows, None, None);
    assert_eq!(all, sessions);
}

#[test]
fn history_that_ends_closed_does_not_depend_on_the_time() {
    let logs = || {
        vec![
            instance_join(T0, "I1"),
            join(T1, "Alice", "u1"),
            record(T3, VrcLogEvent::AppStop),
            join(T3, "Late", "u2"),
        ]
    };
    let now = SessionBuilder::new().process(logs());
    assert_eq!(now, SessionBuilder::new().process_until(logs(), 0));
    assert_eq!(now, SessionBuilder::new().process_until(logs(), i64::MAX));
    assert_eq!(now.len(), 1);
    assert_eq!(now[0].end_time, T3);
    assert!(SessionBuilder::new().process(Vec::new()).is_empty());
}

#[test]
fn records_are_folded_in_one_call_as_one_by_one() {
    let logs = vec![instance_join(T0, "I1"), join(T1, "Alice", "u1"), left(T2, "Alice", "u1")];
    let mut all = SessionBuilder::new();
    assert!(!all.has_open_session());
    all.apply_all(&logs);
    assert!(all.has_open_session());
    let mut each = SessionBuilder::new();
    for log in logs.iter() {
        each.apply(log);
    }
    all.close_session(to_timems(T3));
    each.close_session(to_timems(T3));
    assert!(!all.has_open_session());
    let all = all.process_until(Vec::new(), 0);
    assert_eq!(all, each.process_until(Vec::new(), 0));
    assert_eq!(all[0].players[0].total_duration_ms, 600_000);
}
