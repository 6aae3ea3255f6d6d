use vrcp_lib::settings::{
    decode_watcher_state, encode_watcher_state, parse_u64, u64_to_string, Setting,
};
use vrcp_lib::watcher::WatcherState;

fn setting(key: &str, value: &str) -> Setting {
    Setting { key: key.to_string(), value: value.to_string() }
}

fn state(position: u64, running: bool) -> WatcherState {
    WatcherState {
        log_path: "C:\\logs\\output_log_1.txt".to_string(),
        is_running: running,
        last_timestamp: "2024-05-01 10:00:00".to_string(),
        last_position: position,
    }
}

#[test]
fn state_is_stored_under_four_keys() {
    assert_eq!(
        encode_watcher_state(&state(1234, true)),
        vec![
            setting("watcher_log_path", "C:\\logs\\output_log_1.txt"),
            setting("watcher_is_running", "1"),
            setting("watcher_last_timestamp", "2024-05-01 10:00:00"),
            setting("watcher_last_position", "1234"),
        ]
    );
    assert_eq!(encode_watcher_state(&state(0, false))[1], setting("watcher_is_running", "0"));
    assert_eq!(encode_watcher_state(&state(0, false))[3], setting("watcher_last_position", "0"));
}

#[test]
fn stored_state_is_read_back() {
    for position in [0, 7, 10, 1234, u64::MAX] {
        for running in [false, true] {
            let s = state(position, running);
            assert_eq!(decode_watcher_state(&encode_watcher_state(&s)), Some(s));
        }
    }
}

#[test]
fn state_needs_path_and_timestamp() {
    assert_eq!(decode_watcher_state(&Vec::new()), None);
    assert_eq!(decode_watcher_state(&vec![setting("watcher_log_path", "p")]), None);
    assert_eq!(decode_watcher_state(&vec![setting("watcher_last_timestamp", "t")]), None);
    assert_eq!(
        decode_watcher_state(&vec![setting("watcher_log_path", "p"), setting("watcher_last_timestamp", "t")]),
        Some(WatcherState {
            log_path: "p".to_string(),
            is_running: false,
            last_timestamp: "t".to_string(),
            last_position: 0,
        })
    );
}

#[test]
fn offset_that_is_no_number_is_passed_over() {
    let rows = |position: &str| {
        vec![
            setting("watcher_last_position", "12"),
            setting("watcher_log_path", "p"),
            setting("watcher_last_timestamp", "t"),
            setting("watcher_last_position", position),
        ]
    };
    let position = |text: &str| decode_watcher_state(&rows(text)).unwrap().last_position;
    assert_eq!(position("34"), 34);
    assert_eq!(position("+34"), 34);
    assert_eq!(position("0034"), 34);
    assert_eq!(position("18446744073709551615"), u64::MAX);
    assert_eq!(position("18446744073709551616"), 12);
    assert_eq!(position(""), 12);
    assert_eq!(position("+"), 12);
    assert_eq!(position("-1"), 12);
    assert_eq!(position(" 34"), 12);
    assert_eq!(position("3 4"), 12);
    assert_eq!(position("0x10"), 12);
    assert_eq!(position("١٢"), 12);
}

#[test]
fn later_rows_replace_earlier_ones_and_other_keys_are_passed_over() {
    let rows = vec![
        setting("port", "8727"),
        setting("watcher_log_path", "old"),
        setting("watcher_is_running", "1"),
        setting("watcher_last_timestamp", "t1"),
        setting("watcher_log_path", "new"),
        setting("watcher_is_running", "true"),
        setting("watcher_other", "x"),
    ];
    assert_eq!(
        decode_watcher_state(&rows),
        Some(WatcherState {
            log_path: "new".to_string(),
            is_running: false,
            last_timestamp: "t1".to_string(),
            last_position: 0,
        })
    );
}

#[test]
fn setting_is_read_as_it_was_set() {
    let mut table = vrcp_lib::settings::SettingsTable::new();
    assert_eq!(table.get_setting("port"), None);
    table.set_setting("port", "8727");
    table.set_setting("theme", "dark");
    assert_eq!(table.get_setting("port"), Some("8727".to_string()));
    table.set_setting("port", "9000");
    assert_eq!(table.get_setting("port"), Some("9000".to_string()));
    assert_eq!(table.get_setting("theme"), Some("dark".to_string()));
    assert_eq!(table.get_setting("por"), None);
}

#[test]
fn saved_state_is_read_back_from_the_table() {
    let mut table = vrcp_lib::settings::SettingsTable::new();
    assert_eq!(table.get_watcher_state(), None);
    table.set_setting("watcher_last_position", "junk");
    table.set_setting("port", "8727");
    table.save_watcher_state(&state(77, true));
    assert_eq!(table.get_watcher_state(), Some(state(77, true)));
    table.save_watcher_state(&state(0, false));
    assert_eq!(table.get_watcher_state(), Some(state(0, false)));
    assert_eq!(table.get_setting("watcher_is_running"), Some("0".to_string()));
    assert_eq!(table.get_setting("port"), Some("8727".to_string()));
}

#[test]
fn numbers_are_written_as_std_writes_them() {
    for n in [0u64, 1, 9, 10, 11, 99, 100, 101, 1234567890, u64::MAX - 1, u64::MAX] {
        assert_eq!(u64_to_string(n), n.to_string());
        assert_eq!(parse_u64(&n.to_string()), Some(n));
    }
    assert_eq!(u64_to_string(1_000_000), "1000000");
}

#[test]
fn numbers_are_read_as_std_reads_them() {
    let texts = [
        "", "0", "00", "+", "-", "+0", "-0", "+12", "++12", "12+", " 12", "12 ", "1_000", "0x1f", "12a",
        "18446744073709551615", "18446744073709551616", "99999999999999999999999", "+18446744073709551615",
        "000000000000000000000000012", "١٢", "１２", "1.0", "1e3",
    ];
    for text in texts.iter() {
        assert_eq!(parse_u64(text), text.parse::<u64>().ok(), "{:?}", text);
    }
    assert_eq!(parse_u64("+12"), Some(12));
    assert_eq!(parse_u64("18446744073709551616"), None);
}
