//! The tailer's state as rows of the key-value settings table.

use vstd::prelude::*;
use vstd::string::*;

use crate::text::{push_char, same_text};
use crate::watcher::{WatcherState, WatcherStateView};

verus! {

/// One row of the settings table.
#[derive(Debug, PartialEq, Eq)]
pub struct Setting {
    pub key: String,
    pub value: String,
}

/// The mathematical value of a [`Setting`].
pub struct SettingView {
    pub key: Seq<char>,
    pub value: Seq<char>,
}

impl View for Setting {
    type V = SettingView;

    open spec fn view(&self) -> SettingView {
        SettingView { key: self.key@, value: self.value@ }
    }
}

impl DeepView for Setting {
    type V = SettingView;

    open spec fn deep_view(&self) -> SettingView {
        self@
    }
}

/// The character of a decimal digit.
pub open spec fn digit_char(d: nat) -> char {
    seq!['0', '1', '2', '3', '4', '5', '6', '7', '8', '9'][d as int]
}

/// The decimal numeral of `n`, without sign or leading zeros.
pub open spec fn decimal(n: nat) -> Seq<char>
    decreases n,
{
    if n < 10 {
        seq![digit_char(n)]
    } else {
        decimal(n / 10).push(digit_char(n % 10))
    }
}

/// Whether `c` is one of `0` to `9`.
pub open spec fn is_digit(c: char) -> bool {
    '0' <= c <= '9'
}

/// The number that a string of decimal digits writes.
pub open spec fn digits_value(digits: Seq<char>) -> nat
    decreases digits.len(),
{
    if digits.len() == 0 {
        0
    } else {
        digits_value(digits.drop_last()) * 10 + (digits.last() as nat - '0' as nat) as nat
    }
}

/// Whether `s` is one decimal digit or more and nothing else.
pub open spec fn all_digits(s: Seq<char>) -> bool {
    s.len() > 0 && forall|i: int| 0 <= i < s.len() ==> is_digit(#[trigger] s[i])
}

/// The number that `s` writes, where `s` is an optional `+` and then
/// decimal digits whose number fits in 64 bits.
pub open spec fn parsed_u64(s: Seq<char>) -> Option<u64> {
    let digits = if s.len() > 0 && s[0] == '+' {
        s.drop_first()
    } else {
        s
    };
    if all_digits(digits) && digits_value(digits) <= u64::MAX {
        Some(digits_value(digits) as u64)
    } else {
        None
    }
}

fn digit_value_of(c: char) -> (value: Option<u64>)
    ensures
        match value {
            Some(d) => is_digit(c) && d == c as nat - '0' as nat,
            None => !is_digit(c),
        },
{
    if c == '0' {
        Some(0)
    } else if c == '1' {
        Some(1)
    } else if c == '2' {
        Some(2)
    } else if c == '3' {
        Some(3)
    } else if c == '4' {
        Some(4)
    } else if c == '5' {
        Some(5)
    } else if c == '6' {
        Some(6)
    } else if c == '7' {
        Some(7)
    } else if c == '8' {
        Some(8)
    } else if c == '9' {
        Some(9)
    } else {
        None
    }
}

fn digit_of(d: u64) -> (c: char)
    requires
        d < 10,
    ensures
        c == digit_char(d as nat),
{
    proof {
        digit_char_is_digit(d as nat);
    }
    if d == 0 {
        '0'
    } else if d == 1 {
        '1'
    } else if d == 2 {
        '2'
    } else if d == 3 {
        '3'
    } else if d == 4 {
        '4'
    } else if d == 5 {
        '5'
    } else if d == 6 {
        '6'
    } else if d == 7 {
        '7'
    } else if d == 8 {
        '8'
    } else {
        '9'
    }
}

proof fn digits_value_grows(digits: Seq<char>, k: int)
    requires
        0 <= k <= digits.len(),
    ensures
        digits_value(digits.subrange(0, k)) <= digits_value(digits),
    decreases digits.len() - k,
{
    if k == digits.len() {
        assert(digits.subrange(0, k) =~= digits);
    } else {
        let rest = digits.drop_last();
        assert(rest.subrange(0, k) =~= digits.subrange(0, k));
        digits_value_grows(rest, k);
    }
}

/// Reads a number as std's `str::parse::<u64>` reads it: an optional `+`,
/// then decimal digits and nothing else, whose number fits.
pub fn parse_u64(text: &str) -> (value: Option<u64>)
    ensures
        value == parsed_u64(text@),
{
    let n = text.unicode_len();
    let first: usize = if n > 0 && text.get_char(0) == '+' {
        1
    } else {
        0
    };
    let ghost digits = if first == 1 {
        text@.drop_first()
    } else {
        text@
    };
    if first >= n {
        return None;
    }
    let mut value: u64 = 0;
    let mut i: usize = first;
    proof {
        assert(digits.subrange(0, 0) =~= Seq::<char>::empty());
    }
    while i < n
        invariant
            first <= i <= n,
            n == text@.len(),
            digits.len() == n - first,
            digits == if text@.len() > 0 && text@[0] == '+' {
                text@.drop_first()
            } else {
                text@
            },
            forall|k: int| 0 <= k < digits.len() ==> digits[k] == text@[k + first],
            forall|k: int| 0 <= k < i - first ==> is_digit(#[trigger] digits[k]),
            value == digits_value(digits.subrange(0, i - first)),
        decreases n - i,
    {
        let ghost at = i - first;
        proof {
            let done = digits.subrange(0, at);
            let next = digits.subrange(0, at + 1);
            assert(next.drop_last() =~= done);
            assert(next.last() == digits[at]);
            assert(digits_value(next) == digits_value(done) * 10 + (digits[at] as nat
                - '0' as nat) as nat);
            digits_value_grows(digits, at + 1);
        }
        let d = match digit_value_of(text.get_char(i)) {
            Some(d) => d,
            None => {
                assert(!is_digit(digits[at]));
                assert(!all_digits(digits));
                return None;
            },
        };
        let tens = match value.checked_mul(10) {
            Some(tens) => tens,
            None => {
                assert(digits_value(digits) > u64::MAX);
                return None;
            },
        };
        value = match tens.checked_add(d) {
            Some(sum) => sum,
            None => {
                return None;
            },
        };
        i += 1;
    }
    proof {
        assert(digits.subrange(0, i - first) =~= digits);
    }
    Some(value)
}

fn write_decimal(n: u64, out: &mut String)
    ensures
        final(out)@ == old(out)@ + decimal(n as nat),
    decreases n,
{
    if n >= 10 {
        write_decimal(n / 10, out);
    }
    let ghost before = out@;
    push_char(out, digit_of(n % 10));
    proof {
        if n >= 10 {
            assert(out@ =~= old(out)@ + decimal((n / 10) as nat).push(digit_char((n % 10) as nat)));
        } else {
            assert(out@ =~= old(out)@ + seq![digit_char(n as nat)]);
        }
    }
}

/// Writes a number as std's `u64::to_string` writes it: in decimal, without
/// sign or leading zeros.
pub fn u64_to_string(n: u64) -> (text: String)
    ensures
        text@ == decimal(n as nat),
{
    let mut text = String::new();
    write_decimal(n, &mut text);
    proof {
        assert(text@ =~= decimal(n as nat));
    }
    text
}

/// The key of the tailed file's path.
pub open spec fn key_log_path() -> Seq<char> {
    "watcher_log_path"@
}

/// The key of the running flag.
pub open spec fn key_is_running() -> Seq<char> {
    "watcher_is_running"@
}

/// The key of the last seen timestamp.
pub open spec fn key_last_timestamp() -> Seq<char> {
    "watcher_last_timestamp"@
}

/// The key of the read offset.
pub open spec fn key_last_position() -> Seq<char> {
    "watcher_last_position"@
}

/// The rows that store a state: path, running flag (`1` or `0`),
/// timestamp and offset (in decimal), in this order.
pub open spec fn encoded(state: WatcherStateView) -> Seq<SettingView> {
    seq![
        SettingView { key: key_log_path(), value: state.log_path },
        SettingView {
            key: key_is_running(),
            value: if state.is_running {
                "1"@
            } else {
                "0"@
            },
        },
        SettingView { key: key_last_timestamp(), value: state.last_timestamp },
        SettingView { key: key_last_position(), value: decimal(state.last_position as nat) },
    ]
}

/// The rows under which `state` is stored.
pub fn encode_watcher_state(state: &WatcherState) -> (rows: Vec<Setting>)
    ensures
        rows.deep_view() == encoded(state@),
{
    let mut rows: Vec<Setting> = Vec::new();
    rows.push(Setting { key: String::from_str("watcher_log_path"), value: state.log_path.clone() });
    rows.push(
        Setting {
            key: String::from_str("watcher_is_running"),
            value: if state.is_running {
                String::from_str("1")
            } else {
                String::from_str("0")
            },
        },
    );
    rows.push(
        Setting {
            key: String::from_str("watcher_last_timestamp"),
            value: state.last_timestamp.clone(),
        },
    );
    rows.push(
        Setting {
            key: String::from_str("watcher_last_position"),
            value: u64_to_string(state.last_position),
        },
    );
    proof {
        assert(rows.deep_view() =~= encoded(state@));
    }
    rows
}

/// What has been read of a state from the rows seen so far.
pub struct Decoding {
    pub log_path: Option<Seq<char>>,
    pub is_running: bool,
    pub last_timestamp: Option<Seq<char>>,
    pub last_position: u64,
}

/// What has been read before any row: no path, not running, no
/// timestamp, offset 0.
pub open spec fn decoding_start() -> Decoding {
    Decoding { log_path: None, is_running: false, last_timestamp: None, last_position: 0 }
}

/// What has been read after one more row. A row under one of the four
/// keys replaces what an earlier row under that key gave, but for an
/// offset that is no number, which is passed over; a row under another key
/// is passed over.
pub open spec fn decoding_step(d: Decoding, row: SettingView) -> Decoding {
    if row.key == key_log_path() {
        Decoding { log_path: Some(row.value), ..d }
    } else if row.key == key_is_running() {
        Decoding { is_running: row.value == "1"@, ..d }
    } else if row.key == key_last_timestamp() {
        Decoding { last_timestamp: Some(row.value), ..d }
    } else if row.key == key_last_position() {
        match parsed_u64(row.value) {
            Some(position) => Decoding { last_position: position, ..d },
            None => d,
        }
    } else {
        d
    }
}

/// What has been read after the rows of `rows`, taken in order.
pub open spec fn decoding_of(rows: Seq<SettingView>) -> Decoding
    decreases rows.len(),
{
    if rows.len() == 0 {
        decoding_start()
    } else {
        decoding_step(decoding_of(rows.drop_last()), rows.last())
    }
}

/// The state that `rows` store: there is one where a path and a timestamp
/// are among them.
pub open spec fn decoded(rows: Seq<SettingView>) -> Option<WatcherStateView> {
    let d = decoding_of(rows);
    match (d.log_path, d.last_timestamp) {
        (Some(log_path), Some(last_timestamp)) => Some(
            WatcherStateView {
                log_path,
                is_running: d.is_running,
                last_timestamp,
                last_position: d.last_position,
            },
        ),
        _ => None,
    }
}

/// Reads the tailer's state from rows of the settings table.
pub fn decode_watcher_state(rows: &Vec<Setting>) -> (state: Option<WatcherState>)
    ensures
        state.deep_view() == decoded(rows.deep_view()),
{
    let mut log_path: Option<String> = None;
    let mut is_running = false;
    let mut last_timestamp: Option<String> = None;
    let mut last_position: u64 = 0;
    let mut i: usize = 0;
    proof {
        assert(rows.deep_view().subrange(0, 0) =~= Seq::empty());
    }
    while i < rows.len()
        invariant
            i <= rows.len(),
            decoding_of(rows.deep_view().subrange(0, i as int)) == (Decoding {
                log_path: log_path.deep_view(),
                is_running,
                last_timestamp: last_timestamp.deep_view(),
                last_position,
            }),
        decreases rows.len() - i,
    {
        proof {
            let done = rows.deep_view().subrange(0, i as int);
            let next = rows.deep_view().subrange(0, i + 1);
            assert(next.drop_last() =~= done);
            assert(next.last() == rows[i as int]@);
        }
        let row = &rows[i];
        if same_text(row.key.as_str(), "watcher_log_path") {
            log_path = Some(row.value.clone());
        } else if same_text(row.key.as_str(), "watcher_is_running") {
            is_running = same_text(row.value.as_str(), "1");
        } else if same_text(row.key.as_str(), "watcher_last_timestamp") {
            last_timestamp = Some(row.value.clone());
        } else if same_text(row.key.as_str(), "watcher_last_position") {
            match parse_u64(row.value.as_str()) {
                Some(position) => {
                    last_position = position;
                },
                None => {},
            }
        }
        i += 1;
    }
    proof {
        assert(rows.deep_view().subrange(0, i as int) =~= rows.deep_view());
    }
    match (log_path, last_timestamp) {
        (Some(log_path), Some(last_timestamp)) => Some(
            WatcherState { log_path, is_running, last_timestamp, last_position },
        ),
        _ => None,
    }
}

proof fn digit_char_is_digit(d: nat)
    requires
        d < 10,
    ensures
        is_digit(digit_char(d)),
        digit_char(d) as nat - '0' as nat == d,
        digit_char(d) != '+',
{
    let digits = seq!['0', '1', '2', '3', '4', '5', '6', '7', '8', '9'];
    assert(digits[0] == '0');
    assert(digits[1] == '1');
    assert(digits[2] == '2');
    assert(digits[3] == '3');
    assert(digits[4] == '4');
    assert(digits[5] == '5');
    assert(digits[6] == '6');
    assert(digits[7] == '7');
    assert(digits[8] == '8');
    assert(digits[9] == '9');
}

/// A decimal numeral is made of digits and writes its number.
pub proof fn decimal_is_read_back(n: nat)
    ensures
        all_digits(decimal(n)),
        decimal(n)[0] != '+',
        digits_value(decimal(n)) == n,
    decreases n,
{
    if n < 10 {
        digit_char_is_digit(n);
        let s = seq![digit_char(n)];
        assert(s.drop_last() =~= Seq::<char>::empty());
        assert(digits_value(s.drop_last()) == 0);
        assert(s.last() == digit_char(n));
    } else {
        decimal_is_read_back(n / 10);
        digit_char_is_digit(n % 10);
        let head = decimal(n / 10);
        let s = head.push(digit_char(n % 10));
        assert(s.drop_last() =~= head);
        assert(s.last() == digit_char(n % 10));
        assert(s[0] == head[0]);
        assert forall|i: int| 0 <= i < s.len() implies is_digit(#[trigger] s[i]) by {
            if i < head.len() {
                assert(s[i] == head[i]);
            }
        }
    }
}

/// What std writes for a `u64`, it reads back as the same number.
pub proof fn written_number_is_read_back(n: u64)
    ensures
        parsed_u64(decimal(n as nat)) == Some(n),
{
    decimal_is_read_back(n as nat);
}

/// A state that was stored is read back unchanged.
pub proof fn stored_state_is_read_back(state: WatcherStateView)
    ensures
        decoded(encoded(state)) == Some(state),
{
    reveal_strlit("watcher_log_path");
    reveal_strlit("watcher_is_running");
    reveal_strlit("watcher_last_timestamp");
    reveal_strlit("watcher_last_position");
    reveal_strlit("1");
    reveal_strlit("0");
    written_number_is_read_back(state.last_position);
    assert(key_log_path().len() == 16);
    assert(key_is_running().len() == 18);
    assert(key_last_timestamp().len() == 22);
    assert(key_last_position().len() == 21);
    assert("1"@[0] == '1' && "0"@[0] == '0');
    let rows = encoded(state);
    let r0 = Seq::<SettingView>::empty();
    let r1 = seq![rows[0]];
    let r2 = seq![rows[0], rows[1]];
    let r3 = seq![rows[0], rows[1], rows[2]];
    assert(rows.drop_last() =~= r3);
    assert(r3.drop_last() =~= r2);
    assert(r2.drop_last() =~= r1);
    assert(r1.drop_last() =~= r0);
    let d0 = decoding_start();
    let d1 = Decoding { log_path: Some(state.log_path), ..d0 };
    let d2 = Decoding { is_running: state.is_running, ..d1 };
    let d3 = Decoding { last_timestamp: Some(state.last_timestamp), ..d2 };
    let d4 = Decoding { last_position: state.last_position, ..d3 };
    assert(decoding_of(r0) == d0);
    assert(decoding_of(r1) == decoding_step(decoding_of(r0), rows[0]));
    assert(decoding_of(r1) == d1);
    assert(decoding_of(r2) == decoding_step(decoding_of(r1), rows[1]));
    assert(decoding_of(r2) == d2);
    assert(decoding_of(r3) == decoding_step(decoding_of(r2), rows[2]));
    assert(decoding_of(r3) == d3);
    assert(decoding_of(rows) == decoding_step(decoding_of(r3), rows[3]));
    assert(decoding_of(rows) == d4);
}

/// The place of the first row at or after `from` with the key `key`.
pub open spec fn key_index(rows: Seq<SettingView>, key: Seq<char>, from: int) -> Option<int>
    decreases rows.len() - from,
{
    if from < 0 || from >= rows.len() {
        None
    } else if rows[from].key == key {
        Some(from)
    } else {
        key_index(rows, key, from + 1)
    }
}

/// The value under `key`, where a row has that key.
pub open spec fn value_of(rows: Seq<SettingView>, key: Seq<char>) -> Option<Seq<char>> {
    match key_index(rows, key, 0) {
        Some(i) => Some(rows[i].value),
        None => None,
    }
}

/// The rows after `value` was set under `key`: the row with that key holds
/// the new value, and a key that was not there has a new row at the end.
pub open spec fn stored(rows: Seq<SettingView>, key: Seq<char>, value: Seq<char>) -> Seq<
    SettingView,
> {
    match key_index(rows, key, 0) {
        Some(i) => rows.update(i, SettingView { key, value }),
        None => rows.push(SettingView { key, value }),
    }
}

/// The rows after each of `settings` was set, in order.
pub open spec fn stored_all(rows: Seq<SettingView>, settings: Seq<SettingView>) -> Seq<SettingView>
    decreases settings.len(),
{
    if settings.len() == 0 {
        rows
    } else {
        stored(stored_all(rows, settings.drop_last()), settings.last().key, settings.last().value)
    }
}

/// No two rows have the same key.
pub open spec fn has_unique_keys(rows: Seq<SettingView>) -> bool {
    forall|i: int, j: int|
        0 <= i < rows.len() && 0 <= j < rows.len() && i != j ==> (#[trigger] rows[i]).key != (
        #[trigger] rows[j]).key
}

proof fn key_index_finds(rows: Seq<SettingView>, key: Seq<char>, from: int)
    requires
        0 <= from <= rows.len(),
    ensures
        match key_index(rows, key, from) {
            Some(i) => from <= i < rows.len() && rows[i].key == key && forall|k: int|
                from <= k < i ==> (#[trigger] rows[k]).key != key,
            None => forall|k: int| from <= k < rows.len() ==> (#[trigger] rows[k]).key != key,
        },
    decreases rows.len() - from,
{
    if from < rows.len() && rows[from].key != key {
        key_index_finds(rows, key, from + 1);
    }
}

proof fn key_index_is(rows: Seq<SettingView>, key: Seq<char>, i: int)
    requires
        0 <= i < rows.len(),
        rows[i].key == key,
        forall|k: int| 0 <= k < i ==> (#[trigger] rows[k]).key != key,
    ensures
        key_index(rows, key, 0) == Some(i),
{
    key_index_finds(rows, key, 0);
}

/// Setting a value keeps the keys apart, makes the value the one under its
/// key, and leaves the values under all other keys as they were.
pub proof fn set_then_get(rows: Seq<SettingView>, key: Seq<char>, value: Seq<char>, other: Seq<char>)
    requires
        has_unique_keys(rows),
    ensures
        has_unique_keys(stored(rows, key, value)),
        value_of(stored(rows, key, value), key) == Some(value),
        other != key ==> value_of(stored(rows, key, value), other) == value_of(rows, other),
{
    let out = stored(rows, key, value);
    key_index_finds(rows, key, 0);
    key_index_finds(rows, other, 0);
    key_index_finds(out, key, 0);
    key_index_finds(out, other, 0);
    match key_index(rows, key, 0) {
        Some(i) => {
            assert(out[i].key == key);
            assert forall|a: int, b: int|
                0 <= a < out.len() && 0 <= b < out.len() && a != b implies (#[trigger] out[a]).key
                != (#[trigger] out[b]).key by {
                assert(out[a].key == rows[a].key);
                assert(out[b].key == rows[b].key);
            }
            assert forall|k: int| 0 <= k < i implies (#[trigger] out[k]).key != key by {
                assert(out[k] == rows[k]);
            }
            key_index_is(out, key, i);
            if other != key {
                match key_index(rows, other, 0) {
                    Some(j) => {
                        assert(out[j] == rows[j]);
                        assert forall|k: int| 0 <= k < j implies (#[trigger] out[k]).key
                            != other by {
                            assert(out[k].key == rows[k].key);
                        }
                        key_index_is(out, other, j);
                    },
                    None => {
                        assert forall|k: int| 0 <= k < out.len() implies (#[trigger] out[k]).key
                            != other by {
                            assert(out[k].key == rows[k].key);
                        }
                    },
                }
            }
        },
        None => {
            let n = rows.len() as int;
            assert(out[n].key == key);
            assert forall|a: int, b: int|
                0 <= a < out.len() && 0 <= b < out.len() && a != b implies (#[trigger] out[a]).key
                != (#[trigger] out[b]).key by {
                if a < n {
                    assert(out[a] == rows[a]);
                }
                if b < n {
                    assert(out[b] == rows[b]);
                }
            }
            assert forall|k: int| 0 <= k < n implies (#[trigger] out[k]).key != key by {
                assert(out[k] == rows[k]);
            }
            key_index_is(out, key, n);
            if other != key {
                match key_index(rows, other, 0) {
                    Some(j) => {
                        assert(out[j] == rows[j]);
                        assert forall|k: int| 0 <= k < j implies (#[trigger] out[k]).key
                            != other by {
                            assert(out[k] == rows[k]);
                        }
                        key_index_is(out, other, j);
                    },
                    None => {
                        assert forall|k: int| 0 <= k < out.len() implies (#[trigger] out[k]).key
                            != other by {
                            if k < n {
                                assert(out[k] == rows[k]);
                            }
                        }
                    },
                }
            }
        },
    }
}

/// The settings table in memory. A table that was made by
/// [`SettingsTable::new`] and changed by its methods alone has no two rows
/// with the same key: see [`has_unique_keys`].
pub struct SettingsTable {
    rows: Vec<Setting>,
}

impl View for SettingsTable {
    type V = Seq<SettingView>;

    closed spec fn view(&self) -> Seq<SettingView> {
        self.rows.deep_view()
    }
}

fn find_key(rows: &Vec<Setting>, key: &str) -> (found: Option<usize>)
    ensures
        match found {
            Some(i) => i < rows.len() && key_index(rows.deep_view(), key@, 0) == Some(i as int),
            None => key_index(rows.deep_view(), key@, 0) is None,
        },
{
    let mut i: usize = 0;
    while i < rows.len()
        invariant
            i <= rows.len(),
            key_index(rows.deep_view(), key@, 0) == key_index(rows.deep_view(), key@, i as int),
        decreases rows.len() - i,
    {
        if same_text(rows[i].key.as_str(), key) {
            return Some(i);
        }
        i += 1;
    }
    None
}

impl SettingsTable {
    /// A table without rows.
    pub fn new() -> (table: Self)
        ensures
            table@ == Seq::<SettingView>::empty(),
            has_unique_keys(table@),
    {
        let table = SettingsTable { rows: Vec::new() };
        proof {
            assert(table.rows.deep_view() =~= Seq::empty());
        }
        table
    }

    /// The value under `key`, where one was set.
    pub fn get_setting(&self, key: &str) -> (value: Option<String>)
        ensures
            value.deep_view() == value_of(self@, key@),
    {
        match find_key(&self.rows, key) {
            Some(i) => Some(self.rows[i].value.clone()),
            None => None,
        }
    }

    /// Sets `value` under `key`, in place of the value that was there.
    pub fn set_setting(&mut self, key: &str, value: &str)
        ensures
            final(self)@ == stored(old(self)@, key@, value@),
            has_unique_keys(old(self)@) ==> has_unique_keys(final(self)@),
    {
        proof {
            if has_unique_keys(self@) {
                set_then_get(self@, key@, value@, key@);
            }
        }
        let ghost before = self.rows.deep_view();
        match find_key(&self.rows, key) {
            Some(i) => {
                self.rows[i].value = String::from_str(value);
                proof {
                    key_index_finds(before, key@, 0);
                    assert(self.rows.deep_view() =~= stored(before, key@, value@));
                }
            },
            None => {
                let row = Setting { key: String::from_str(key), value: String::from_str(value) };
                self.rows.push(row);
                proof {
                    assert(self.rows.deep_view() =~= before.push(row@));
                }
            },
        }
    }

    /// Stores the tailer's state: sets its four rows, in their order.
    pub fn save_watcher_state(&mut self, state: &WatcherState)
        ensures
            final(self)@ == stored_all(old(self)@, encoded(state@)),
            has_unique_keys(old(self)@) ==> has_unique_keys(final(self)@),
    {
        let rows = encode_watcher_state(state);
        let ghost start = self@;
        let mut i: usize = 0;
        proof {
            assert(rows.deep_view().subrange(0, 0) =~= Seq::empty());
        }
        while i < rows.len()
            invariant
                i <= rows.len(),
                self@ == stored_all(start, rows.deep_view().subrange(0, i as int)),
                has_unique_keys(start) ==> has_unique_keys(self@),
            decreases rows.len() - i,
        {
            proof {
                let done = rows.deep_view().subrange(0, i as int);
                let next = rows.deep_view().subrange(0, i + 1);
                assert(next.drop_last() =~= done);
                assert(next.last() == rows[i as int]@);
            }
            self.set_setting(rows[i].key.as_str(), rows[i].value.as_str());
            i += 1;
        }
        proof {
            assert(rows.deep_view().subrange(0, i as int) =~= rows.deep_view());
        }
    }

    /// Reads the tailer's state from the table.
    pub fn get_watcher_state(&self) -> (state: Option<WatcherState>)
        ensures
            state.deep_view() == decoded(self@),
    {
        decode_watcher_state(&self.rows)
    }
}

/// What a table with its keys apart is read as: under each of the four
/// keys, what the row with that key holds.
pub open spec fn decoding_by_key(rows: Seq<SettingView>) -> Decoding {
    Decoding {
        log_path: value_of(rows, key_log_path()),
        is_running: value_of(rows, key_is_running()) == Some("1"@),
        last_timestamp: value_of(rows, key_last_timestamp()),
        last_position: match value_of(rows, key_last_position()) {
            Some(text) => match parsed_u64(text) {
                Some(position) => position,
                None => 0,
            },
            None => 0,
        },
    }
}

proof fn keys_are_distinct()
    ensures
        key_log_path() != key_is_running(),
        key_log_path() != key_last_timestamp(),
        key_log_path() != key_last_position(),
        key_is_running() != key_last_timestamp(),
        key_is_running() != key_last_position(),
        key_last_timestamp() != key_last_position(),
{
    reveal_strlit("watcher_log_path");
    reveal_strlit("watcher_is_running");
    reveal_strlit("watcher_last_timestamp");
    reveal_strlit("watcher_last_position");
    assert(key_log_path().len() == 16);
    assert(key_is_running().len() == 18);
    assert(key_last_timestamp().len() == 22);
    assert(key_last_position().len() == 21);
}

proof fn value_of_with_last(rows: Seq<SettingView>, key: Seq<char>)
    requires
        rows.len() > 0,
        has_unique_keys(rows),
    ensures
        has_unique_keys(rows.drop_last()),
        value_of(rows, key) == if rows.last().key == key {
            Some(rows.last().value)
        } else {
            value_of(rows.drop_last(), key)
        },
        rows.last().key == key ==> value_of(rows.drop_last(), key) is None,
{
    let rest = rows.drop_last();
    let n = rest.len() as int;
    assert forall|i: int, j: int|
        0 <= i < rest.len() && 0 <= j < rest.len() && i != j implies (#[trigger] rest[i]).key != (
        #[trigger] rest[j]).key by {
        assert(rest[i] == rows[i] && rest[j] == rows[j]);
    }
    key_index_finds(rows, key, 0);
    key_index_finds(rest, key, 0);
    assert(rows.last() == rows[n]);
    if rows.last().key == key {
        assert forall|k: int| 0 <= k < n implies (#[trigger] rows[k]).key != key by {}
        key_index_is(rows, key, n);
        assert forall|k: int| 0 <= k < rest.len() implies (#[trigger] rest[k]).key != key by {
            assert(rest[k] == rows[k]);
        }
    } else {
        match key_index(rest, key, 0) {
            Some(i) => {
                assert(rest[i] == rows[i]);
                assert forall|k: int| 0 <= k < i implies (#[trigger] rows[k]).key != key by {
                    assert(rest[k] == rows[k]);
                }
                key_index_is(rows, key, i);
            },
            None => {
                assert forall|k: int| 0 <= k < rows.len() implies (#[trigger] rows[k]).key
                    != key by {
                    if k < n {
                        assert(rest[k] == rows[k]);
                    }
                }
            },
        }
    }
}

/// A table with its keys apart is read key by key, whatever the order of
/// its rows.
pub proof fn decoding_is_by_key(rows: Seq<SettingView>)
    requires
        has_unique_keys(rows),
    ensures
        decoding_of(rows) == decoding_by_key(rows),
    decreases rows.len(),
{
    keys_are_distinct();
    if rows.len() == 0 {
    } else {
        value_of_with_last(rows, key_log_path());
        value_of_with_last(rows, key_is_running());
        value_of_with_last(rows, key_last_timestamp());
        value_of_with_last(rows, key_last_position());
        decoding_is_by_key(rows.drop_last());
    }
}

/// A state that was saved to a table is the state that the table is read
/// as, whatever the table held before.
pub proof fn saved_state_is_read_back(rows: Seq<SettingView>, state: WatcherStateView)
    requires
        has_unique_keys(rows),
    ensures
        has_unique_keys(stored_all(rows, encoded(state))),
        decoded(stored_all(rows, encoded(state))) == Some(state),
{
    keys_are_distinct();
    reveal_strlit("1");
    reveal_strlit("0");
    assert("1"@[0] == '1' && "0"@[0] == '0');
    written_number_is_read_back(state.last_position);
    let settings = encoded(state);
    let s1 = seq![settings[0]];
    let s2 = seq![settings[0], settings[1]];
    let s3 = seq![settings[0], settings[1], settings[2]];
    assert(settings.drop_last() =~= s3);
    assert(s3.drop_last() =~= s2);
    assert(s2.drop_last() =~= s1);
    assert(s1.drop_last() =~= Seq::<SettingView>::empty());
    let t0 = rows;
    let t1 = stored(t0, settings[0].key, settings[0].value);
    let t2 = stored(t1, settings[1].key, settings[1].value);
    let t3 = stored(t2, settings[2].key, settings[2].value);
    let t4 = stored(t3, settings[3].key, settings[3].value);
    assert(stored_all(rows, s1.drop_last()) == t0);
    assert(stored_all(rows, s1) == t1);
    assert(stored_all(rows, s2) == t2);
    assert(stored_all(rows, s3) == t3);
    assert(stored_all(rows, settings) == t4);
    set_then_get(t0, settings[0].key, settings[0].value, settings[0].key);
    set_then_get(t1, settings[1].key, settings[1].value, settings[0].key);
    set_then_get(t2, settings[2].key, settings[2].value, settings[0].key);
    set_then_get(t2, settings[2].key, settings[2].value, settings[1].key);
    set_then_get(t3, settings[3].key, settings[3].value, settings[0].key);
    set_then_get(t3, settings[3].key, settings[3].value, settings[1].key);
    set_then_get(t3, settings[3].key, settings[3].value, settings[2].key);
    decoding_is_by_key(t4);
}

} // verus!
