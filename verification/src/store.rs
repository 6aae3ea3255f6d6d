//! The event store's contract, as an event log in memory: appends that
//! ignore what the log already holds, and range queries that widen to the
//! session around the range asked for.
//!
//! A persistent store keeps the same rows in a table; what the queries
//! select is decided here, on rows handed over in the store's order.

use vstd::prelude::*;
use vstd::string::*;

use crate::date::{instant_of, read_timestamp, timestamp_of, write_timestamp};
use crate::event::{LogPayload, PayloadView, VrcLogEvent};
use crate::text::{text_le, text_le_transitive, text_less, text_lt, text_lt_total};

verus! {

/// The milliseconds of the 24 hours by which a query looks beyond its range.
pub const DAY_MS: i64 = 86_400_000;

/// Whether one of `rows` has the hash `hash`.
pub open spec fn holds_hash(rows: Seq<PayloadView>, hash: i64) -> bool {
    exists|i: int| 0 <= i < rows.len() && #[trigger] rows[i].hash == hash
}

/// Where a record with timestamp `ts` goes among `rows`: before the first
/// row at or after `from` with a later timestamp, so behind the rows of its
/// own timestamp that came before it.
pub open spec fn slot(rows: Seq<PayloadView>, ts: Seq<char>, from: int) -> int
    decreases rows.len() - from,
{
    if from < 0 || from >= rows.len() {
        rows.len() as int
    } else if text_lt(ts, rows[from].timestamp) {
        from
    } else {
        slot(rows, ts, from + 1)
    }
}

/// The rows after an append: unchanged where a row has the record's hash,
/// else with the record at its slot.
pub open spec fn appended(rows: Seq<PayloadView>, record: PayloadView) -> Seq<PayloadView> {
    if holds_hash(rows, record.hash) {
        rows
    } else {
        rows.insert(slot(rows, record.timestamp, 0), record)
    }
}

/// What an append answers: 0 for a record that was ignored, 1 for one that
/// was added.
pub open spec fn inserted_count(rows: Seq<PayloadView>, record: PayloadView) -> u64 {
    if holds_hash(rows, record.hash) {
        0
    } else {
        1
    }
}

/// Rows in the store's order: by timestamp.
pub open spec fn is_ordered(rows: Seq<PayloadView>) -> bool {
    forall|i: int, j: int|
        0 <= i <= j < rows.len() ==> text_le(
            (#[trigger] rows[i]).timestamp,
            (#[trigger] rows[j]).timestamp,
        )
}

/// No two rows have the same hash.
pub open spec fn has_unique_hashes(rows: Seq<PayloadView>) -> bool {
    forall|i: int, j: int|
        0 <= i < rows.len() && 0 <= j < rows.len() && i != j ==> (#[trigger] rows[i]).hash != (
        #[trigger] rows[j]).hash
}

/// What holds of the rows of an event log at all times.
pub open spec fn is_event_log(rows: Seq<PayloadView>) -> bool {
    is_ordered(rows) && has_unique_hashes(rows)
}

/// Whether a timestamp lies between `lo` and `hi`; `hi` itself is within,
/// `lo` itself only where `include_lo` says so.
pub open spec fn in_window(ts: Seq<char>, lo: Seq<char>, include_lo: bool, hi: Seq<char>) -> bool {
    &&& if include_lo {
        text_le(lo, ts)
    } else {
        text_lt(lo, ts)
    }
    &&& text_le(ts, hi)
}

/// The rows whose timestamp lies in a window, in the order of `rows`.
pub open spec fn records_within(
    rows: Seq<PayloadView>,
    lo: Seq<char>,
    include_lo: bool,
    hi: Seq<char>,
) -> Seq<PayloadView>
    decreases rows.len(),
{
    if rows.len() == 0 {
        Seq::empty()
    } else {
        let before = records_within(rows.drop_last(), lo, include_lo, hi);
        if in_window(rows.last().timestamp, lo, include_lo, hi) {
            before.push(rows.last())
        } else {
            before
        }
    }
}

/// The timestamp that lies `by` milliseconds from `ts`; `None` where `ts`
/// cannot be read as a timestamp or the instant cannot be written as one.
pub open spec fn shifted(ts: Seq<char>, by: int) -> Option<Seq<char>> {
    match instant_of(ts) {
        Some(at) => if i64::MIN <= at + by <= i64::MAX {
            timestamp_of((at + by) as i64)
        } else {
            None
        },
        None => None,
    }
}

/// Whether a row is a start of the application after `floor` and before
/// `start`.
pub open spec fn is_start_before(row: PayloadView, start: Seq<char>, floor: Seq<char>) -> bool {
    row.event is AppStart && text_lt(row.timestamp, start) && text_lt(floor, row.timestamp)
}

/// Whether a row is a stop of the application, written or inferred, after
/// `end` and before `ceiling`.
pub open spec fn is_stop_after(row: PayloadView, end: Seq<char>, ceiling: Seq<char>) -> bool {
    (row.event is AppStop || row.event is InvalidAppStop) && text_lt(end, row.timestamp)
        && text_lt(row.timestamp, ceiling)
}

/// The latest timestamp of a start after `floor` and before `start`.
pub open spec fn nearest_start(rows: Seq<PayloadView>, start: Seq<char>, floor: Seq<char>) -> Option<
    Seq<char>,
>
    decreases rows.len(),
{
    if rows.len() == 0 {
        None
    } else {
        let best = nearest_start(rows.drop_last(), start, floor);
        let row = rows.last();
        if is_start_before(row, start, floor) && (best is None || text_le(
            best->0,
            row.timestamp,
        )) {
            Some(row.timestamp)
        } else {
            best
        }
    }
}

/// The earliest timestamp of a stop after `end` and before `ceiling`.
pub open spec fn nearest_stop(rows: Seq<PayloadView>, end: Seq<char>, ceiling: Seq<char>) -> Option<
    Seq<char>,
>
    decreases rows.len(),
{
    if rows.len() == 0 {
        None
    } else {
        let best = nearest_stop(rows.drop_last(), end, ceiling);
        let row = rows.last();
        if is_stop_after(row, end, ceiling) && (best is None || text_lt(row.timestamp, best->0)) {
            Some(row.timestamp)
        } else {
            best
        }
    }
}

/// The timestamp of the nearest start of the application in the 24 hours
/// before `start`, where there is one. There is none for a `start` that
/// cannot be read as a timestamp.
pub open spec fn found_start(rows: Seq<PayloadView>, start: Seq<char>) -> Option<Seq<char>> {
    match shifted(start, -DAY_MS) {
        Some(floor) => nearest_start(rows, start, floor),
        None => None,
    }
}

/// The timestamp of the nearest stop of the application in the 24 hours
/// after `end`, where there is one. There is none for an `end` that cannot
/// be read as a timestamp.
pub open spec fn found_stop(rows: Seq<PayloadView>, end: Seq<char>) -> Option<Seq<char>> {
    match shifted(end, DAY_MS as int) {
        Some(ceiling) => nearest_stop(rows, end, ceiling),
        None => None,
    }
}

/// The start of the widened range: the start found, or `start` where none
/// was found.
pub open spec fn expanded_start(rows: Seq<PayloadView>, start: Seq<char>) -> Seq<char> {
    match found_start(rows, start) {
        Some(ts) => ts,
        None => start,
    }
}

/// The end of the widened range: the stop found, or `end` where none was
/// found.
pub open spec fn expanded_end(rows: Seq<PayloadView>, end: Seq<char>) -> Seq<char> {
    match found_stop(rows, end) {
        Some(ts) => ts,
        None => end,
    }
}

/// The start of a query that names none.
pub open spec fn default_start() -> Seq<char> {
    "1970-01-01 00:00:00"@
}

/// The end of a query that names none.
pub open spec fn default_end() -> Seq<char> {
    "9999-12-31 23:59:59"@
}

/// The start that a query asks for.
pub open spec fn start_of(start: Option<Seq<char>>) -> Seq<char> {
    match start {
        Some(ts) => ts,
        None => default_start(),
    }
}

/// The end that a query asks for.
pub open spec fn end_of(end: Option<Seq<char>>) -> Seq<char> {
    match end {
        Some(ts) => ts,
        None => default_end(),
    }
}

/// The rows of the range query: after `start`, up to and with `end`.
pub open spec fn range_records(
    rows: Seq<PayloadView>,
    start: Option<Seq<char>>,
    end: Option<Seq<char>>,
) -> Seq<PayloadView> {
    records_within(rows, start_of(start), false, end_of(end))
}

/// The rows of the widened range query. It is the range query on the
/// widened range: after the start, up to and with the end. A start of the
/// application that was found is itself in the range; a start that was
/// only asked for is not.
pub open spec fn expanded_records(
    rows: Seq<PayloadView>,
    start: Option<Seq<char>>,
    end: Option<Seq<char>>,
) -> Seq<PayloadView> {
    records_within(
        rows,
        expanded_start(rows, start_of(start)),
        found_start(rows, start_of(start)) is Some,
        expanded_end(rows, end_of(end)),
    )
}

fn select(rows: &Vec<LogPayload>, lo: &str, include_lo: bool, hi: &str) -> (out: Vec<LogPayload>)
    ensures
        out.deep_view() == records_within(rows.deep_view(), lo@, include_lo, hi@),
{
    let mut out: Vec<LogPayload> = Vec::new();
    let mut i: usize = 0;
    proof {
        assert(rows.deep_view().subrange(0, 0) =~= Seq::empty());
    }
    while i < rows.len()
        invariant
            i <= rows.len(),
            out.deep_view() == records_within(
                rows.deep_view().subrange(0, i as int),
                lo@,
                include_lo,
                hi@,
            ),
        decreases rows.len() - i,
    {
        proof {
            let done = rows.deep_view().subrange(0, i as int);
            let next = rows.deep_view().subrange(0, i + 1);
            assert(next.drop_last() =~= done);
            assert(next.last() == rows[i as int]@);
        }
        let ts = rows[i].timestamp.as_str();
        let after_lo = if include_lo {
            !text_less(ts, lo)
        } else {
            text_less(lo, ts)
        };
        if after_lo && !text_less(hi, ts) {
            let ghost before = out.deep_view();
            out.push(rows[i].clone());
            proof {
                assert(out.deep_view() =~= before.push(rows[i as int]@));
            }
        }
        i += 1;
    }
    proof {
        assert(rows.deep_view().subrange(0, i as int) =~= rows.deep_view());
    }
    out
}

fn shift(ts: &str, by: i64) -> (out: Option<String>)
    ensures
        out.deep_view() == shifted(ts@, by as int),
{
    match read_timestamp(ts) {
        Some(at) => match at.checked_add(by) {
            Some(moved) => write_timestamp(moved),
            None => None,
        },
        None => None,
    }
}

fn find_nearest_start(rows: &Vec<LogPayload>, start: &str, floor: &str) -> (best: Option<String>)
    ensures
        best.deep_view() == nearest_start(rows.deep_view(), start@, floor@),
{
    let mut best: Option<String> = None;
    let mut i: usize = 0;
    proof {
        assert(rows.deep_view().subrange(0, 0) =~= Seq::empty());
    }
    while i < rows.len()
        invariant
            i <= rows.len(),
            best.deep_view() == nearest_start(
                rows.deep_view().subrange(0, i as int),
                start@,
                floor@,
            ),
        decreases rows.len() - i,
    {
        proof {
            let done = rows.deep_view().subrange(0, i as int);
            let next = rows.deep_view().subrange(0, i + 1);
            assert(next.drop_last() =~= done);
            assert(next.last() == rows[i as int]@);
        }
        let row = &rows[i];
        let is_start = match &row.event {
            VrcLogEvent::AppStart => true,
            _ => false,
        };
        if is_start && text_less(row.timestamp.as_str(), start) && text_less(
            floor,
            row.timestamp.as_str(),
        ) {
            let later = match &best {
                Some(ts) => !text_less(row.timestamp.as_str(), ts.as_str()),
                None => true,
            };
            if later {
                best = Some(row.timestamp.clone());
            }
        }
        i += 1;
    }
    proof {
        assert(rows.deep_view().subrange(0, i as int) =~= rows.deep_view());
    }
    best
}

fn find_nearest_stop(rows: &Vec<LogPayload>, end: &str, ceiling: &str) -> (best: Option<String>)
    ensures
        best.deep_view() == nearest_stop(rows.deep_view(), end@, ceiling@),
{
    let mut best: Option<String> = None;
    let mut i: usize = 0;
    proof {
        assert(rows.deep_view().subrange(0, 0) =~= Seq::empty());
    }
    while i < rows.len()
        invariant
            i <= rows.len(),
            best.deep_view() == nearest_stop(rows.deep_view().subrange(0, i as int), end@, ceiling@),
        decreases rows.len() - i,
    {
        proof {
            let done = rows.deep_view().subrange(0, i as int);
            let next = rows.deep_view().subrange(0, i + 1);
            assert(next.drop_last() =~= done);
            assert(next.last() == rows[i as int]@);
        }
        let row = &rows[i];
        let is_stop = match &row.event {
            VrcLogEvent::AppStop => true,
            VrcLogEvent::InvalidAppStop => true,
            _ => false,
        };
        if is_stop && text_less(end, row.timestamp.as_str()) && text_less(
            row.timestamp.as_str(),
            ceiling,
        ) {
            let earlier = match &best {
                Some(ts) => text_less(row.timestamp.as_str(), ts.as_str()),
                None => true,
            };
            if earlier {
                best = Some(row.timestamp.clone());
            }
        }
        i += 1;
    }
    proof {
        assert(rows.deep_view().subrange(0, i as int) =~= rows.deep_view());
    }
    best
}

/// The rows with a timestamp after `start` and not after `end`, in the
/// order of `rows`. A bound that is not given is the earliest or the
/// latest timestamp that the store knows.
pub fn get_logs(rows: &Vec<LogPayload>, start: Option<&str>, end: Option<&str>) -> (out: Vec<
    LogPayload,
>)
    ensures
        out.deep_view() == range_records(rows.deep_view(), start.deep_view(), end.deep_view()),
{
    let start = match start {
        Some(ts) => ts,
        None => "1970-01-01 00:00:00",
    };
    let end = match end {
        Some(ts) => ts,
        None => "9999-12-31 23:59:59",
    };
    select(rows, start, false, end)
}

/// The rows of the range from `start` to `end`, widened to the session
/// around it: back to the nearest start of the application in the 24 hours
/// before `start`, and on to the nearest stop in the 24 hours after `end`.
/// The start and the stop found are among the rows returned. Where no
/// start is found, the range begins after `start`, as that of [`get_logs`]
/// does; where no stop is found, it ends with `end`. A bound that cannot
/// be read as a timestamp is not widened. The rows come in the order of
/// `rows`.
pub fn get_session_expanded_logs(
    rows: &Vec<LogPayload>,
    start: Option<&str>,
    end: Option<&str>,
) -> (out: Vec<LogPayload>)
    ensures
        out.deep_view() == expanded_records(rows.deep_view(), start.deep_view(), end.deep_view()),
{
    let start = match start {
        Some(ts) => ts,
        None => "1970-01-01 00:00:00",
    };
    let end = match end {
        Some(ts) => ts,
        None => "9999-12-31 23:59:59",
    };
    let found_start = match shift(start, -DAY_MS) {
        Some(floor) => find_nearest_start(rows, start, floor.as_str()),
        None => None,
    };
    let found_stop = match shift(end, DAY_MS) {
        Some(ceiling) => find_nearest_stop(rows, end, ceiling.as_str()),
        None => None,
    };
    let to = match found_stop {
        Some(ts) => ts,
        None => String::from_str(end),
    };
    match found_start {
        Some(from) => select(rows, from.as_str(), true, to.as_str()),
        None => select(rows, start, false, to.as_str()),
    }
}

proof fn slot_splits(rows: Seq<PayloadView>, ts: Seq<char>, from: int)
    requires
        0 <= from <= rows.len(),
    ensures
        from <= slot(rows, ts, from) <= rows.len(),
        forall|k: int|
            from <= k < slot(rows, ts, from) ==> text_le((#[trigger] rows[k]).timestamp, ts),
        slot(rows, ts, from) < rows.len() ==> text_lt(ts, rows[slot(rows, ts, from)].timestamp),
    decreases rows.len() - from,
{
    if from < rows.len() && !text_lt(ts, rows[from].timestamp) {
        slot_splits(rows, ts, from + 1);
    }
}

/// An append keeps the rows in the store's order and their hashes apart.
pub proof fn append_keeps_event_log(rows: Seq<PayloadView>, record: PayloadView)
    requires
        is_event_log(rows),
    ensures
        is_event_log(appended(rows, record)),
{
    if !holds_hash(rows, record.hash) {
        let ts = record.timestamp;
        slot_splits(rows, ts, 0);
        let at = slot(rows, ts, 0);
        let out = rows.insert(at, record);
        assert forall|i: int, j: int| 0 <= i <= j < out.len() implies text_le(
            (#[trigger] out[i]).timestamp,
            (#[trigger] out[j]).timestamp,
        ) by {
            let a = out[i].timestamp;
            let b = out[j].timestamp;
            text_lt_total(a, b);
            if i == j {
            } else if j < at {
                assert(out[i] == rows[i] && out[j] == rows[j]);
            } else if j == at {
                assert(out[i] == rows[i]);
            } else if i < at {
                assert(out[i] == rows[i] && out[j] == rows[j - 1]);
            } else if i == at {
                assert(out[j] == rows[j - 1]);
                assert(text_le(rows[at].timestamp, rows[j - 1].timestamp));
                text_lt_total(ts, rows[at].timestamp);
                text_le_transitive(ts, rows[at].timestamp, b);
            } else {
                assert(out[i] == rows[i - 1] && out[j] == rows[j - 1]);
            }
        }
        assert forall|i: int, j: int|
            0 <= i < out.len() && 0 <= j < out.len() && i != j implies (#[trigger] out[i]).hash != (
            #[trigger] out[j]).hash by {
            let x = if i < at {
                i
            } else {
                i - 1
            };
            let y = if j < at {
                j
            } else {
                j - 1
            };
            if i != at {
                assert(out[i] == rows[x]);
            }
            if j != at {
                assert(out[j] == rows[y]);
            }
        }
    }
}

/// Appending is idempotent: the second append of a record answers 0 and
/// changes nothing, and after the first the log holds exactly one row with
/// the record's hash.
pub proof fn append_is_idempotent(rows: Seq<PayloadView>, record: PayloadView)
    requires
        is_event_log(rows),
    ensures
        inserted_count(appended(rows, record), record) == 0,
        appended(appended(rows, record), record) == appended(rows, record),
        !holds_hash(rows, record.hash) ==> inserted_count(rows, record) == 1 && appended(
            rows,
            record,
        ).len() == rows.len() + 1,
        exists|i: int|
            0 <= i < appended(rows, record).len() && #[trigger] appended(rows, record)[i].hash
                == record.hash && forall|j: int|
                0 <= j < appended(rows, record).len() && #[trigger] appended(rows, record)[j].hash
                    == record.hash ==> j == i,
{
    append_keeps_event_log(rows, record);
    let out = appended(rows, record);
    if holds_hash(rows, record.hash) {
        let i = choose|i: int| 0 <= i < rows.len() && #[trigger] rows[i].hash == record.hash;
        assert(out[i].hash == record.hash);
    } else {
        slot_splits(rows, record.timestamp, 0);
        let at = slot(rows, record.timestamp, 0);
        assert(out[at].hash == record.hash);
    }
}

/// The rows after the appends of `records`, taken in order.
pub open spec fn appended_all(rows: Seq<PayloadView>, records: Seq<PayloadView>) -> Seq<
    PayloadView,
>
    decreases records.len(),
{
    if records.len() == 0 {
        rows
    } else {
        appended(appended_all(rows, records.drop_last()), records.last())
    }
}

proof fn append_keeps_hashes(rows: Seq<PayloadView>, record: PayloadView, hash: i64)
    ensures
        holds_hash(rows, hash) ==> holds_hash(appended(rows, record), hash),
        holds_hash(appended(rows, record), record.hash),
{
    let out = appended(rows, record);
    if !holds_hash(rows, record.hash) {
        slot_splits(rows, record.timestamp, 0);
        let at = slot(rows, record.timestamp, 0);
        assert(out[at].hash == record.hash);
        if holds_hash(rows, hash) {
            let i = choose|i: int| 0 <= i < rows.len() && #[trigger] rows[i].hash == hash;
            if i < at {
                assert(out[i].hash == hash);
            } else {
                assert(out[i + 1].hash == hash);
            }
        }
    }
}

proof fn appends_keep_hashes(rows: Seq<PayloadView>, records: Seq<PayloadView>, hash: i64)
    ensures
        holds_hash(rows, hash) ==> holds_hash(appended_all(rows, records), hash),
        forall|i: int|
            0 <= i < records.len() ==> holds_hash(
                appended_all(rows, records),
                (#[trigger] records[i]).hash,
            ),
    decreases records.len(),
{
    if records.len() != 0 {
        let rest = records.drop_last();
        let last = records.last();
        let before = appended_all(rows, rest);
        appends_keep_hashes(rows, rest, hash);
        append_keeps_hashes(before, last, hash);
        assert forall|i: int| 0 <= i < records.len() implies holds_hash(
            appended_all(rows, records),
            (#[trigger] records[i]).hash,
        ) by {
            if i < rest.len() {
                assert(rest[i] == records[i]);
                append_keeps_hashes(before, last, records[i].hash);
            }
        }
    }
}

/// Records whose hashes the log holds are all ignored.
pub proof fn known_records_are_ignored(rows: Seq<PayloadView>, records: Seq<PayloadView>)
    requires
        forall|i: int| 0 <= i < records.len() ==> holds_hash(rows, (#[trigger] records[i]).hash),
    ensures
        appended_all(rows, records) == rows,
    decreases records.len(),
{
    if records.len() != 0 {
        let rest = records.drop_last();
        assert forall|i: int| 0 <= i < rest.len() implies holds_hash(
            rows,
            (#[trigger] rest[i]).hash,
        ) by {
            assert(rest[i] == records[i]);
        }
        known_records_are_ignored(rows, rest);
        assert(records.last() == records[records.len() - 1]);
    }
}

/// Processing the same records again is absorbed: appending them a second
/// time leaves the log as the first time left it.
pub proof fn reprocessing_is_absorbed(rows: Seq<PayloadView>, records: Seq<PayloadView>)
    ensures
        appended_all(appended_all(rows, records), records) == appended_all(rows, records),
{
    appends_keep_hashes(rows, records, 0);
    known_records_are_ignored(appended_all(rows, records), records);
}

/// A selection holds exactly the rows of the window: each of its rows is
/// a row in the window, and each row in the window is in it.
pub proof fn records_within_members(
    rows: Seq<PayloadView>,
    lo: Seq<char>,
    include_lo: bool,
    hi: Seq<char>,
)
    ensures
        forall|k: int|
            0 <= k < records_within(rows, lo, include_lo, hi).len() ==> rows.contains(
                #[trigger] records_within(rows, lo, include_lo, hi)[k],
            ) && in_window(records_within(rows, lo, include_lo, hi)[k].timestamp, lo, include_lo, hi),
        forall|i: int|
            0 <= i < rows.len() && in_window((#[trigger] rows[i]).timestamp, lo, include_lo, hi)
                ==> records_within(rows, lo, include_lo, hi).contains(rows[i]),
    decreases rows.len(),
{
    if rows.len() != 0 {
        let rest = rows.drop_last();
        records_within_members(rest, lo, include_lo, hi);
        let before = records_within(rest, lo, include_lo, hi);
        let out = records_within(rows, lo, include_lo, hi);
        assert forall|k: int| 0 <= k < out.len() implies rows.contains(#[trigger] out[k])
            && in_window(out[k].timestamp, lo, include_lo, hi) by {
            if k < before.len() {
                assert(out[k] == before[k]);
                assert(rest.contains(before[k]));
                let i = choose|i: int| 0 <= i < rest.len() && rest[i] == before[k];
                assert(rows[i] == out[k]);
            } else {
                assert(out[k] == rows[rows.len() - 1]);
            }
        }
        assert forall|i: int|
            0 <= i < rows.len() && in_window(
                (#[trigger] rows[i]).timestamp,
                lo,
                include_lo,
                hi,
            ) implies out.contains(rows[i]) by {
            if i < rest.len() {
                assert(rest[i] == rows[i]);
                assert(before.contains(rest[i]));
                let k = choose|k: int| 0 <= k < before.len() && before[k] == rest[i];
                assert(out[k] == rows[i]);
            } else {
                assert(out[out.len() - 1] == rows[i]);
            }
        }
    }
}

/// A selection from rows in the store's order is in the store's order.
pub proof fn records_within_keeps_order(
    rows: Seq<PayloadView>,
    lo: Seq<char>,
    include_lo: bool,
    hi: Seq<char>,
)
    requires
        is_ordered(rows),
    ensures
        is_ordered(records_within(rows, lo, include_lo, hi)),
    decreases rows.len(),
{
    if rows.len() != 0 {
        let rest = rows.drop_last();
        let last = rows.last();
        assert forall|i: int, j: int| 0 <= i <= j < rest.len() implies text_le(
            (#[trigger] rest[i]).timestamp,
            (#[trigger] rest[j]).timestamp,
        ) by {
            assert(rest[i] == rows[i] && rest[j] == rows[j]);
        }
        records_within_keeps_order(rest, lo, include_lo, hi);
        records_within_members(rest, lo, include_lo, hi);
        let before = records_within(rest, lo, include_lo, hi);
        let out = records_within(rows, lo, include_lo, hi);
        assert forall|i: int, j: int| 0 <= i <= j < out.len() implies text_le(
            (#[trigger] out[i]).timestamp,
            (#[trigger] out[j]).timestamp,
        ) by {
            if j < before.len() {
                assert(out[i] == before[i] && out[j] == before[j]);
            } else if i < before.len() {
                assert(out[i] == before[i]);
                assert(rest.contains(before[i]));
                let k = choose|k: int| 0 <= k < rest.len() && rest[k] == before[i];
                assert(rows[k] == rest[k]);
                assert(out[j] == rows[rows.len() - 1]);
            } else {
                text_lt_total(out[i].timestamp, out[j].timestamp);
            }
        }
    }
}

/// Where a start lies in the 24 hours before the range, the nearest start
/// is the timestamp of such a start, and no such start is later.
pub proof fn nearest_start_is_latest(rows: Seq<PayloadView>, start: Seq<char>, floor: Seq<char>)
    ensures
        nearest_start(rows, start, floor) is None ==> forall|i: int|
            0 <= i < rows.len() ==> !is_start_before(#[trigger] rows[i], start, floor),
        nearest_start(rows, start, floor) matches Some(ts) ==> {
            &&& exists|i: int|
                0 <= i < rows.len() && is_start_before(#[trigger] rows[i], start, floor)
                    && rows[i].timestamp == ts
            &&& forall|i: int|
                0 <= i < rows.len() && is_start_before(#[trigger] rows[i], start, floor)
                    ==> text_le(rows[i].timestamp, ts)
        },
    decreases rows.len(),
{
    if rows.len() != 0 {
        let rest = rows.drop_last();
        let last = rows.last();
        nearest_start_is_latest(rest, start, floor);
        let best = nearest_start(rest, start, floor);
        let out = nearest_start(rows, start, floor);
        assert(last == rows[rows.len() - 1]);
        assert forall|i: int| 0 <= i < rest.len() implies rest[i] == #[trigger] rows[i] by {}
        if out is Some {
            let ts = out->0;
            if best is Some && best != out {
                assert(is_start_before(last, start, floor));
                assert forall|i: int|
                    0 <= i < rows.len() && is_start_before(
                        #[trigger] rows[i],
                        start,
                        floor,
                    ) implies text_le(rows[i].timestamp, ts) by {
                    text_lt_total(ts, ts);
                    if i < rest.len() {
                        assert(rest[i] == rows[i]);
                        text_le_transitive(rows[i].timestamp, best->0, ts);
                    }
                }
            } else if best is Some {
                let k = choose|k: int|
                    0 <= k < rest.len() && is_start_before(#[trigger] rest[k], start, floor)
                        && rest[k].timestamp == ts;
                assert(rows[k] == rest[k]);
                assert forall|i: int|
                    0 <= i < rows.len() && is_start_before(
                        #[trigger] rows[i],
                        start,
                        floor,
                    ) implies text_le(rows[i].timestamp, ts) by {
                    text_lt_total(ts, last.timestamp);
                    if i < rest.len() {
                        assert(rest[i] == rows[i]);
                    }
                }
            } else {
                assert forall|i: int|
                    0 <= i < rows.len() && is_start_before(
                        #[trigger] rows[i],
                        start,
                        floor,
                    ) implies text_le(rows[i].timestamp, ts) by {
                    text_lt_total(ts, ts);
                    if i < rest.len() {
                        assert(rest[i] == rows[i]);
                    }
                }
            }
        } else {
            assert forall|i: int| 0 <= i < rows.len() implies !is_start_before(
                #[trigger] rows[i],
                start,
                floor,
            ) by {
                if i < rest.len() {
                    assert(rest[i] == rows[i]);
                }
            }
        }
    }
}

/// Where a stop lies in the 24 hours after the range, the nearest stop is
/// the timestamp of such a stop, and no such stop is earlier.
pub proof fn nearest_stop_is_earliest(rows: Seq<PayloadView>, end: Seq<char>, ceiling: Seq<char>)
    ensures
        nearest_stop(rows, end, ceiling) is None ==> forall|i: int|
            0 <= i < rows.len() ==> !is_stop_after(#[trigger] rows[i], end, ceiling),
        nearest_stop(rows, end, ceiling) matches Some(ts) ==> {
            &&& exists|i: int|
                0 <= i < rows.len() && is_stop_after(#[trigger] rows[i], end, ceiling)
                    && rows[i].timestamp == ts
            &&& forall|i: int|
                0 <= i < rows.len() && is_stop_after(#[trigger] rows[i], end, ceiling) ==> text_le(
                    ts,
                    rows[i].timestamp,
                )
        },
    decreases rows.len(),
{
    if rows.len() != 0 {
        let rest = rows.drop_last();
        let last = rows.last();
        nearest_stop_is_earliest(rest, end, ceiling);
        let best = nearest_stop(rest, end, ceiling);
        let out = nearest_stop(rows, end, ceiling);
        assert(last == rows[rows.len() - 1]);
        if out is Some {
            let ts = out->0;
            if best is Some && best != out {
                assert(is_stop_after(last, end, ceiling));
                assert forall|i: int|
                    0 <= i < rows.len() && is_stop_after(
                        #[trigger] rows[i],
                        end,
                        ceiling,
                    ) implies text_le(ts, rows[i].timestamp) by {
                    text_lt_total(ts, ts);
                    text_lt_total(ts, best->0);
                    if i < rest.len() {
                        assert(rest[i] == rows[i]);
                        text_le_transitive(ts, best->0, rows[i].timestamp);
                    }
                }
            } else if best is Some {
                let k = choose|k: int|
                    0 <= k < rest.len() && is_stop_after(#[trigger] rest[k], end, ceiling)
                        && rest[k].timestamp == ts;
                assert(rows[k] == rest[k]);
                assert forall|i: int|
                    0 <= i < rows.len() && is_stop_after(
                        #[trigger] rows[i],
                        end,
                        ceiling,
                    ) implies text_le(ts, rows[i].timestamp) by {
                    text_lt_total(ts, last.timestamp);
                    if i < rest.len() {
                        assert(rest[i] == rows[i]);
                    }
                }
            } else {
                assert forall|i: int|
                    0 <= i < rows.len() && is_stop_after(
                        #[trigger] rows[i],
                        end,
                        ceiling,
                    ) implies text_le(ts, rows[i].timestamp) by {
                    text_lt_total(ts, ts);
                    if i < rest.len() {
                        assert(rest[i] == rows[i]);
                    }
                }
            }
        } else {
            assert forall|i: int| 0 <= i < rows.len() implies !is_stop_after(
                #[trigger] rows[i],
                end,
                ceiling,
            ) by {
                if i < rest.len() {
                    assert(rest[i] == rows[i]);
                }
            }
        }
    }
}

/// The widened range never starts after the range asked for and never ends
/// before it.
pub proof fn expanded_range_contains_range(rows: Seq<PayloadView>, start: Seq<char>, end: Seq<char>)
    ensures
        text_le(expanded_start(rows, start), start),
        text_le(end, expanded_end(rows, end)),
{
    text_lt_total(start, start);
    text_lt_total(end, end);
    match shifted(start, -DAY_MS) {
        Some(floor) => {
            nearest_start_is_latest(rows, start, floor);
            text_lt_total(expanded_start(rows, start), start);
        },
        None => {},
    }
    match shifted(end, DAY_MS as int) {
        Some(ceiling) => {
            nearest_stop_is_earliest(rows, end, ceiling);
            text_lt_total(end, expanded_end(rows, end));
        },
        None => {},
    }
}

/// Where neither a start nor a stop of the application is found, the
/// widened query is the range query: the row at the start asked for is
/// left out and the row at the end asked for is kept.
pub proof fn unwidened_query_is_range_query(
    rows: Seq<PayloadView>,
    start: Option<Seq<char>>,
    end: Option<Seq<char>>,
)
    requires
        found_start(rows, start_of(start)) is None,
        found_stop(rows, end_of(end)) is None,
    ensures
        expanded_records(rows, start, end) == range_records(rows, start, end),
{
}

/// Every row of the range query is a row of the widened query.
pub proof fn expanded_query_keeps_range_rows(
    rows: Seq<PayloadView>,
    start: Option<Seq<char>>,
    end: Option<Seq<char>>,
)
    ensures
        forall|k: int|
            0 <= k < range_records(rows, start, end).len() ==> expanded_records(
                rows,
                start,
                end,
            ).contains(#[trigger] range_records(rows, start, end)[k]),
{
    let lo = start_of(start);
    let hi = end_of(end);
    let wide_lo = expanded_start(rows, lo);
    let wide_hi = expanded_end(rows, hi);
    let with_lo = found_start(rows, lo) is Some;
    let narrow = range_records(rows, start, end);
    let wide = expanded_records(rows, start, end);
    expanded_range_contains_range(rows, lo, hi);
    records_within_members(rows, lo, false, hi);
    records_within_members(rows, wide_lo, with_lo, wide_hi);
    assert forall|k: int| 0 <= k < narrow.len() implies wide.contains(#[trigger] narrow[k]) by {
        let row = narrow[k];
        assert(rows.contains(row));
        let i = choose|i: int| 0 <= i < rows.len() && rows[i] == row;
        let ts = row.timestamp;
        text_lt_total(lo, ts);
        text_le_transitive(wide_lo, lo, ts);
        text_le_transitive(ts, hi, wide_hi);
        assert(in_window(rows[i].timestamp, wide_lo, with_lo, wide_hi));
    }
}

/// A range that lies inside a session yields the whole session: where a
/// start of the application lies in the 24 hours before `start` and a stop
/// in the 24 hours after `end`, the widened query returns the nearest such
/// start and the nearest such stop, though both lie outside the range, and
/// every row of the range itself.
pub proof fn expanded_range_covers_session(
    rows: Seq<PayloadView>,
    start: Seq<char>,
    end: Seq<char>,
    a: int,
    z: int,
)
    requires
        text_le(start, end),
        0 <= a < rows.len(),
        0 <= z < rows.len(),
        shifted(start, -DAY_MS) matches Some(floor) && is_start_before(rows[a], start, floor),
        shifted(end, DAY_MS as int) matches Some(ceiling) && is_stop_after(rows[z], end, ceiling),
    ensures
        ({
            let out = expanded_records(rows, Some(start), Some(end));
            &&& exists|k: int|
                0 <= k < out.len() && (#[trigger] out[k]).event is AppStart && text_lt(
                    out[k].timestamp,
                    start,
                ) && text_le(rows[a].timestamp, out[k].timestamp)
            &&& exists|k: int|
                0 <= k < out.len() && ((#[trigger] out[k]).event is AppStop
                    || out[k].event is InvalidAppStop) && text_lt(end, out[k].timestamp) && text_le(
                    out[k].timestamp,
                    rows[z].timestamp,
                )
            &&& forall|i: int|
                0 <= i < rows.len() && in_window((#[trigger] rows[i]).timestamp, start, false, end)
                    ==> out.contains(rows[i])
        }),
{
    let floor = shifted(start, -DAY_MS)->0;
    let ceiling = shifted(end, DAY_MS as int)->0;
    nearest_start_is_latest(rows, start, floor);
    nearest_stop_is_earliest(rows, end, ceiling);
    let lo = expanded_start(rows, start);
    let hi = expanded_end(rows, end);
    assert(nearest_start(rows, start, floor) == Some(lo));
    assert(nearest_stop(rows, end, ceiling) == Some(hi));
    let out = records_within(rows, lo, true, hi);
    assert(out == expanded_records(rows, Some(start), Some(end)));
    records_within_members(rows, lo, true, hi);
    let i0 = choose|i: int|
        0 <= i < rows.len() && is_start_before(#[trigger] rows[i], start, floor)
            && rows[i].timestamp == lo;
    let i1 = choose|i: int|
        0 <= i < rows.len() && is_stop_after(#[trigger] rows[i], end, ceiling) && rows[i].timestamp
            == hi;
    text_lt_total(lo, lo);
    text_lt_total(hi, hi);
    text_lt_total(lo, start);
    text_lt_total(end, hi);
    text_le_transitive(lo, start, end);
    text_le_transitive(lo, end, hi);
    assert(in_window(rows[i0].timestamp, lo, true, hi));
    assert(in_window(rows[i1].timestamp, lo, true, hi));
    assert(out.contains(rows[i0]));
    assert(out.contains(rows[i1]));
    let k0 = choose|k: int| 0 <= k < out.len() && out[k] == rows[i0];
    let k1 = choose|k: int| 0 <= k < out.len() && out[k] == rows[i1];
    assert(out[k0].event is AppStart && text_lt(out[k0].timestamp, start) && text_le(
        rows[a].timestamp,
        out[k0].timestamp,
    ));
    assert((out[k1].event is AppStop || out[k1].event is InvalidAppStop) && text_lt(
        end,
        out[k1].timestamp,
    ) && text_le(out[k1].timestamp, rows[z].timestamp));
    assert forall|i: int|
        0 <= i < rows.len() && in_window(
            (#[trigger] rows[i]).timestamp,
            start,
            false,
            end,
        ) implies out.contains(rows[i]) by {
        let ts = rows[i].timestamp;
        text_lt_total(start, ts);
        text_le_transitive(lo, start, ts);
        text_le_transitive(ts, end, hi);
        assert(in_window(ts, lo, true, hi));
    }
}

/// The event log in memory. A log that was made by [`EventLog::new`] and
/// changed by its methods alone keeps its rows in the store's order and
/// their hashes apart: see [`is_event_log`].
pub struct EventLog {
    rows: Vec<LogPayload>,
}

impl View for EventLog {
    type V = Seq<PayloadView>;

    closed spec fn view(&self) -> Seq<PayloadView> {
        self.rows.deep_view()
    }
}

impl EventLog {
    /// A log without rows.
    pub fn new() -> (log: Self)
        ensures
            log@ == Seq::<PayloadView>::empty(),
            is_event_log(log@),
    {
        let log = EventLog { rows: Vec::new() };
        proof {
            assert(log.rows.deep_view() =~= Seq::empty());
        }
        log
    }

    /// The number of rows.
    pub fn len(&self) -> (n: usize)
        ensures
            n == self@.len(),
    {
        self.rows.len()
    }

    /// The rows, in the store's order.
    pub fn rows(&self) -> (rows: &Vec<LogPayload>)
        ensures
            rows.deep_view() == self@,
    {
        &self.rows
    }

    /// Appends a record unless a row has its hash. Answers with the number
    /// of rows added: 1 for a new record, 0 for one that was ignored.
    #[verifier::loop_isolation(false)]
    pub fn append(&mut self, record: LogPayload) -> (inserted: u64)
        ensures
            inserted == inserted_count(old(self)@, record@),
            final(self)@ == appended(old(self)@, record@),
            is_event_log(old(self)@) ==> is_event_log(final(self)@),
    {
        proof {
            if is_event_log(self@) {
                append_keeps_event_log(self@, record@);
            }
        }
        let ghost rows = self.rows.deep_view();
        let mut i: usize = 0;
        while i < self.rows.len()
            invariant
                i <= self.rows.len(),
                self.rows.deep_view() == rows,
                forall|j: int| 0 <= j < i ==> (#[trigger] rows[j]).hash != record.hash,
            decreases self.rows.len() - i,
        {
            if self.rows[i].hash == record.hash {
                assert(rows[i as int].hash == record.hash);
                return 0;
            }
            i += 1;
        }
        let mut k: usize = 0;
        while k < self.rows.len() && !text_less(
            record.timestamp.as_str(),
            self.rows[k].timestamp.as_str(),
        )
            invariant
                k <= self.rows.len(),
                self.rows.deep_view() == rows,
                slot(rows, record@.timestamp, 0) == slot(rows, record@.timestamp, k as int),
            decreases self.rows.len() - k,
        {
            k += 1;
        }
        self.rows.insert(k, record);
        proof {
            assert(self.rows.deep_view() =~= rows.insert(k as int, record@));
        }
        1
    }

    /// Removes every row.
    pub fn delete_all(&mut self)
        ensures
            final(self)@ == Seq::<PayloadView>::empty(),
            is_event_log(final(self)@),
    {
        self.rows = Vec::new();
        proof {
            assert(self.rows.deep_view() =~= Seq::empty());
        }
    }

    /// The rows with a timestamp after `start` and not after `end`, by
    /// timestamp and, within a timestamp, in the order in which they were
    /// appended.
    pub fn query_range(&self, start: Option<&str>, end: Option<&str>) -> (out: Vec<LogPayload>)
        ensures
            out.deep_view() == range_records(self@, start.deep_view(), end.deep_view()),
    {
        get_logs(&self.rows, start, end)
    }

    /// The rows of the range widened to the session around it, by
    /// timestamp and, within a timestamp, in the order in which they were
    /// appended.
    pub fn query_expanded_range(&self, start: Option<&str>, end: Option<&str>) -> (out: Vec<
        LogPayload,
    >)
        ensures
            out.deep_view() == expanded_records(self@, start.deep_view(), end.deep_view()),
    {
        get_session_expanded_logs(&self.rows, start, end)
    }
}

} // verus!
