use std::collections::hash_map::DefaultHasher;
use std::hash::{Hash, Hasher};

use vrcp_lib::event::{LogPayload, VrcLogEvent};
use vrcp_lib::parser::{
    create_invalid_app_stop_payload, event_from_captures, extract_timestamp, gen_hash,
    parse_log_line, record_from_captures, rule_pattern, rule_table, LineParser, RuleKind,
};

fn parsed(line: &str) -> LogPayload {
    match parse_log_line(line) {
        Some(record) => record,
        None => panic!("no rule matched {:?}", line),
    }
}

fn expected_hash(timestamp: &str, event: &VrcLogEvent) -> i64 {
    let mut hasher = DefaultHasher::new();
    timestamp.hash(&mut hasher);
    event.hash(&mut hasher);
    hasher.finish() as i64
}

#[test]
fn parses_app_start() {
    let record = parsed("2024.05.01 12:34:56 Log        -  VRCNP: Server started");
    assert_eq!(record.event, VrcLogEvent::AppStart);
    assert_eq!(record.timestamp, "2024-05-01 12:34:56");
}

#[test]
fn parses_app_stop() {
    let record = parsed("2024.05.01 23:59:59 Log        -  VRCNP: Stopping server");
    assert_eq!(record.event, VrcLogEvent::AppStop);
    assert_eq!(record.timestamp, "2024-05-01 23:59:59");
}

#[test]
fn parses_login() {
    let record = parsed("2024.05.01 12:00:01 Debug      -  User Authenticated: Bob Smith (usr_abc-123)");
    assert_eq!(
        record.event,
        VrcLogEvent::Login { username: "Bob Smith".to_string(), user_id: "usr_abc-123".to_string() }
    );
    assert_eq!(record.timestamp, "2024-05-01 12:00:01");
}

#[test]
fn parses_world_enter() {
    let record = parsed("2024.05.01 12:00:02 Debug      -  [Behaviour] Entering Room: The Black Cat");
    assert_eq!(record.event, VrcLogEvent::WorldEnter { world_name: "The Black Cat".to_string() });
    assert_eq!(record.timestamp, "2024-05-01 12:00:02");
}

#[test]
fn parses_instance_join() {
    let record = parsed(
        "2024.05.01 12:00:03 Debug      -  [Behaviour] Joining wrld_4432ea9b-729c:12345~private(usr_x)~region(jp)",
    );
    assert_eq!(
        record.event,
        VrcLogEvent::InstanceJoin {
            world_id: "wrld_4432ea9b-729c".to_string(),
            instance_id: "wrld_4432ea9b-729c:12345~private(usr_x)~region(jp)".to_string(),
        }
    );
    assert_eq!(record.timestamp, "2024-05-01 12:00:03");
}

#[test]
fn parses_player_join() {
    let record = parsed("2024.05.01 12:00:04 Debug      -  [Behaviour] OnPlayerJoined Alice (usr_1234-abcd)");
    assert_eq!(
        record.event,
        VrcLogEvent::PlayerJoin { player_name: "Alice".to_string(), user_id: "usr_1234-abcd".to_string() }
    );
    assert_eq!(record.timestamp, "2024-05-01 12:00:04");
}

#[test]
fn parses_player_left() {
    let record = parsed("2024.05.01 12:00:05 Debug      -  [Behaviour] OnPlayerLeft Alice (usr_1234-abcd)");
    assert_eq!(
        record.event,
        VrcLogEvent::PlayerLeft { player_name: "Alice".to_string(), user_id: "usr_1234-abcd".to_string() }
    );
    assert_eq!(record.timestamp, "2024-05-01 12:00:05");
}

#[test]
fn parses_self_left() {
    let record = parsed("2024.05.01 12:00:06 Debug      -  [Behaviour] OnLeftRoom");
    assert_eq!(record.event, VrcLogEvent::SelfLeft);
    assert_eq!(record.timestamp, "2024-05-01 12:00:06");
}

#[test]
fn player_name_with_parentheses_keeps_the_last_id() {
    let record = parsed("2024.05.01 12:00:04 Debug      -  [Behaviour] OnPlayerJoined A (b) c (usr_1)");
    assert_eq!(
        record.event,
        VrcLogEvent::PlayerJoin { player_name: "A (b) c".to_string(), user_id: "usr_1".to_string() }
    );
}

#[test]
fn unmatched_lines_yield_nothing() {
    assert_eq!(parse_log_line(""), None);
    assert_eq!(parse_log_line("   \t  "), None);
    assert_eq!(parse_log_line("garbage text"), None);
    assert_eq!(parse_log_line("2024.05.01 12:00:06 Debug      -  something else"), None);
    assert_eq!(parse_log_line("VRCNP: Server started"), None);
    assert_eq!(parse_log_line("2024-05-01 12:34:56 VRCNP: Server started"), None);
}

#[test]
fn line_is_trimmed_before_it_is_matched() {
    let record = parsed("  \t2024.05.01 12:00:02 Debug      -  [Behaviour] Entering Room: Home \r\n");
    assert_eq!(record.event, VrcLogEvent::WorldEnter { world_name: "Home".to_string() });
    assert_eq!(record.timestamp, "2024-05-01 12:00:02");
}

#[test]
fn first_rule_that_matches_wins() {
    let record = parsed("2024.05.01 12:00:00 VRCNP: Server started, VRCNP: Stopping server");
    assert_eq!(record.event, VrcLogEvent::AppStart);
    let record = parsed("2024.05.01 12:00:00 [Behaviour] OnLeftRoom VRCNP: Stopping server");
    assert_eq!(record.event, VrcLogEvent::AppStop);
}

#[test]
fn record_hash_is_the_hash_of_timestamp_and_event() {
    let record = parsed("2024.05.01 12:00:04 Debug      -  [Behaviour] OnPlayerJoined Alice (usr_1234-abcd)");
    assert_eq!(record.hash, expected_hash("2024-05-01 12:00:04", &record.event));
    assert_eq!(record.hash, gen_hash(&record.timestamp, &record.event));
}

#[test]
fn hash_is_deterministic() {
    let a = VrcLogEvent::Login { username: "Bob".to_string(), user_id: "usr_1".to_string() };
    let b = VrcLogEvent::Login { username: "Bob".to_string(), user_id: "usr_1".to_string() };
    assert_eq!(gen_hash("2024-05-01 12:00:00", &a), gen_hash("2024-05-01 12:00:00", &b));
    assert_eq!(gen_hash("2024-05-01 12:00:00", &a), expected_hash("2024-05-01 12:00:00", &a));
}

#[test]
fn hash_changes_with_timestamp_variant_and_fields() {
    let base = VrcLogEvent::PlayerJoin { player_name: "Alice".to_string(), user_id: "usr_1".to_string() };
    let h = gen_hash("2024-05-01 12:00:00", &base);
    assert_ne!(h, gen_hash("2024-05-01 12:00:01", &base));
    let other_name = VrcLogEvent::PlayerJoin { player_name: "Alicf".to_string(), user_id: "usr_1".to_string() };
    assert_ne!(h, gen_hash("2024-05-01 12:00:00", &other_name));
    let other_id = VrcLogEvent::PlayerJoin { player_name: "Alice".to_string(), user_id: "usr_2".to_string() };
    assert_ne!(h, gen_hash("2024-05-01 12:00:00", &other_id));
    let other_variant = VrcLogEvent::PlayerLeft { player_name: "Alice".to_string(), user_id: "usr_1".to_string() };
    assert_ne!(h, gen_hash("2024-05-01 12:00:00", &other_variant));
    assert_ne!(
        gen_hash("2024-05-01 12:00:00", &VrcLogEvent::AppStart),
        gen_hash("2024-05-01 12:00:00", &VrcLogEvent::AppStop)
    );
}

#[test]
fn abnormal_stop_record_is_built_from_the_timestamp() {
    let record = create_invalid_app_stop_payload("2024-05-01 12:00:00");
    assert_eq!(record.event, VrcLogEvent::InvalidAppStop);
    assert_eq!(record.timestamp, "2024-05-01 12:00:00");
    assert_eq!(record.hash, expected_hash("2024-05-01 12:00:00", &VrcLogEvent::InvalidAppStop));
}

#[test]
fn extract_timestamp_reads_any_line_with_a_timestamp() {
    assert_eq!(
        extract_timestamp("2024.05.01 12:34:56 Log        -  anything at all"),
        Some("2024-05-01 12:34:56".to_string())
    );
    assert_eq!(extract_timestamp("  2024.05.01 12:34:56 indented"), None);
    assert_eq!(extract_timestamp("no timestamp"), None);
    assert_eq!(extract_timestamp(""), None);
}

#[test]
fn rule_table_has_eight_rules_in_order() {
    assert_eq!(
        rule_table(),
        vec![
            RuleKind::AppStart,
            RuleKind::AppStop,
            RuleKind::Login,
            RuleKind::WorldEnter,
            RuleKind::InstanceJoin,
            RuleKind::PlayerJoin,
            RuleKind::PlayerLeft,
            RuleKind::SelfLeft,
        ]
    );
}

#[test]
fn rule_pattern_is_prefix_then_fragment() {
    assert_eq!(
        rule_pattern(RuleKind::SelfLeft),
        r"^(\d{4}\.\d{2}\.\d{2} \d{2}:\d{2}:\d{2}).*\[Behaviour\] OnLeftRoom"
    );
    assert_eq!(
        rule_pattern(RuleKind::Login),
        r"^(\d{4}\.\d{2}\.\d{2} \d{2}:\d{2}:\d{2}).*User Authenticated: (.+) \((usr_[\w-]+)\)"
    );
}

#[test]
fn event_is_built_from_groups_two_and_three() {
    let groups = vec![
        Some("whole".to_string()),
        Some("2024.05.01 12:00:00".to_string()),
        Some("wrld_1".to_string()),
        Some("42".to_string()),
    ];
    assert_eq!(
        event_from_captures(RuleKind::InstanceJoin, &groups),
        Some(VrcLogEvent::InstanceJoin { world_id: "wrld_1".to_string(), instance_id: "wrld_1:42".to_string() })
    );
    assert_eq!(
        event_from_captures(RuleKind::WorldEnter, &groups),
        Some(VrcLogEvent::WorldEnter { world_name: "wrld_1".to_string() })
    );
    assert_eq!(event_from_captures(RuleKind::AppStart, &Vec::new()), Some(VrcLogEvent::AppStart));
}

#[test]
fn missing_groups_build_no_event() {
    let short = vec![Some("whole".to_string()), Some("2024.05.01 12:00:00".to_string())];
    assert_eq!(event_from_captures(RuleKind::Login, &short), None);
    assert_eq!(event_from_captures(RuleKind::WorldEnter, &short), None);
    let absent = vec![Some("whole".to_string()), Some("2024.05.01 12:00:00".to_string()), None, Some("x".to_string())];
    assert_eq!(event_from_captures(RuleKind::PlayerJoin, &absent), None);
    assert_eq!(record_from_captures(RuleKind::PlayerLeft, &absent), None);
}

#[test]
fn record_without_timestamp_group_is_unknown() {
    let groups = vec![Some("whole".to_string()), None];
    let record = record_from_captures(RuleKind::AppStop, &groups).unwrap();
    assert_eq!(record.event, VrcLogEvent::AppStop);
    assert_eq!(record.timestamp, "unknown");
    assert_eq!(record.hash, expected_hash("unknown", &VrcLogEvent::AppStop));
}

#[test]
fn event_type_is_the_variant_name() {
    assert_eq!(VrcLogEvent::AppStart.event_type(), "AppStart");
    assert_eq!(VrcLogEvent::AppStop.event_type(), "AppStop");
    assert_eq!(VrcLogEvent::InvalidAppStop.event_type(), "InvalidAppStop");
    assert_eq!(VrcLogEvent::SelfLeft.event_type(), "SelfLeft");
    assert_eq!(
        VrcLogEvent::Login { username: "a".to_string(), user_id: "b".to_string() }.event_type(),
        "Login"
    );
    assert_eq!(VrcLogEvent::WorldEnter { world_name: "w".to_string() }.event_type(), "WorldEnter");
    assert_eq!(
        VrcLogEvent::InstanceJoin { world_id: "w".to_string(), instance_id: "i".to_string() }.event_type(),
        "InstanceJoin"
    );
    assert_eq!(
        VrcLogEvent::PlayerJoin { player_name: "a".to_string(), user_id: "b".to_string() }.event_type(),
        "PlayerJoin"
    );
    assert_eq!(
        VrcLogEvent::PlayerLeft { player_name: "a".to_string(), user_id: "b".to_string() }.event_type(),
        "PlayerLeft"
    );
}

#[test]
fn parser_with_compiled_expressions_parses_as_the_function_does() {
    let parser = LineParser::new();
    let lines = [
        "",
        "   ",
        "garbage text",
        "2024.05.01 12:34:56 Log        -  VRCNP: Server started",
        "2024.05.01 23:59:59 Log        -  VRCNP: Stopping server",
        "2024.05.01 12:00:01 Debug      -  User Authenticated: Bob Smith (usr_abc-123)",
        "2024.05.01 12:00:02 Debug      -  [Behaviour] Entering Room: The Black Cat",
        "2024.05.01 12:00:03 Debug      -  [Behaviour] Joining wrld_1:12345~private(usr_x)",
        "  2024.05.01 12:00:04 Debug      -  [Behaviour] OnPlayerJoined Alice (usr_1234-abcd) \r\n",
        "2024.05.01 12:00:05 Debug      -  [Behaviour] OnPlayerLeft Alice (usr_1234-abcd)",
        "2024.05.01 12:00:06 Debug      -  [Behaviour] OnLeftRoom",
        "2024.05.01 12:00:07 Debug      -  nothing of interest",
    ];
    let mut matched: usize = 0;
    for line in lines.iter() {
        let record = parser.parse_log_line(line);
        assert_eq!(record, parse_log_line(line), "{:?}", line);
        assert_eq!(parser.extract_timestamp(line), extract_timestamp(line), "{:?}", line);
        if record.is_some() {
            matched += 1;
        }
    }
    assert_eq!(matched, 8);
    let record = parser.parse_log_line(lines[8]).unwrap();
    assert_eq!(
        record.event,
        VrcLogEvent::PlayerJoin { player_name: "Alice".to_string(), user_id: "usr_1234-abcd".to_string() }
    );
    assert_eq!(record.timestamp, "2024-05-01 12:00:04");
    assert_eq!(parser.extract_timestamp(lines[3]), Some("2024-05-01 12:34:56".to_string()));
}

#[test]
fn every_kind_of_white_space_is_trimmed() {
    let spaces = "\u{9}\u{a}\u{b}\u{c}\u{d} \u{85}\u{a0}\u{1680}\u{2000}\u{2005}\u{200a}\u{2028}\u{2029}\u{202f}\u{205f}\u{3000}";
    let line = format!("{}2024.05.01 12:00:02 x [Behaviour] Entering Room: Home{}", spaces, spaces);
    let record = parsed(&line);
    assert_eq!(record.event, VrcLogEvent::WorldEnter { world_name: "Home".to_string() });
    assert_eq!(parse_log_line(spaces), None);
}

#[test]
fn what_is_no_white_space_is_not_trimmed() {
    let record = parsed("2024.05.01 12:00:02 x [Behaviour] Entering Room: Home\u{200b}");
    assert_eq!(record.event, VrcLogEvent::WorldEnter { world_name: "Home\u{200b}".to_string() });
    assert_eq!(parse_log_line("\u{200b}2024.05.01 12:00:02 x [Behaviour] Entering Room: Home"), None);
    assert_eq!(parse_log_line("\u{180e}2024.05.01 12:00:02 x [Behaviour] Entering Room: Home"), None);
    assert_eq!(parse_log_line("\u{feff}2024.05.01 12:00:02 x [Behaviour] Entering Room: Home"), None);
}
