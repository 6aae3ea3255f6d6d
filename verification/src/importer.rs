//! The bookkeeping of a bulk import: which records of a log file go to the
//! store, how many of them were new, and whether the file ended while the
//! application was running.

use vstd::prelude::*;

use crate::event::{LogPayload, VrcLogEvent};
use crate::parser::{create_invalid_app_stop_payload, parse_spec, LineParser};
use crate::watcher::{closing_record, running_after};

verus! {

/// The state of the import of one file.
pub struct ImportRun {
    parser: LineParser,
    is_running: bool,
    last_timestamp: String,
    imported: u64,
    skipped: u64,
}

/// The mathematical value of an [`ImportRun`].
pub struct ImportView {
    /// Whether the file has reported a start and no stop since.
    pub is_running: bool,
    /// The timestamp of the last record parsed; empty before the first.
    pub last_timestamp: Seq<char>,
    /// How many records the store took as new.
    pub imported: nat,
    /// How many records the store ignored as duplicates.
    pub skipped: nat,
}

impl View for ImportRun {
    type V = ImportView;

    closed spec fn view(&self) -> ImportView {
        ImportView {
            is_running: self.is_running,
            last_timestamp: self.last_timestamp@,
            imported: self.imported as nat,
            skipped: self.skipped as nat,
        }
    }
}

/// The import after one more line.
pub open spec fn import_step(run: ImportView, line: Seq<char>) -> ImportView {
    match parse_spec(line) {
        Some(record) => ImportView {
            is_running: running_after(run.is_running, Some(record)),
            last_timestamp: record.timestamp,
            ..run
        },
        None => run,
    }
}

/// The import after the store answered an append with `inserted`, the
/// number of rows that it added: 1 for a new record, 0 for a duplicate.
pub open spec fn import_counted(run: ImportView, inserted: u64) -> ImportView {
    ImportView {
        imported: run.imported + inserted as nat,
        skipped: if inserted == 0 {
            run.skipped + 1
        } else {
            run.skipped
        },
        ..run
    }
}

impl ImportRun {
    /// An import at the beginning of a file.
    pub fn new() -> (run: Self)
        ensures
            run@ == (ImportView {
                is_running: false,
                last_timestamp: Seq::empty(),
                imported: 0,
                skipped: 0,
            }),
    {
        ImportRun {
            parser: LineParser::new(),
            is_running: false,
            last_timestamp: String::new(),
            imported: 0,
            skipped: 0,
        }
    }

    /// Takes in the next line of the file and returns the record that it
    /// parses to, for the caller to append to the store.
    pub fn feed(&mut self, line: &str) -> (record: Option<LogPayload>)
        ensures
            record.deep_view() == parse_spec(line@),
            final(self)@ == import_step(old(self)@, line@),
    {
        let record = self.parser.parse_log_line(line);
        match &record {
            Some(r) => {
                self.last_timestamp = r.timestamp.clone();
                match &r.event {
                    VrcLogEvent::AppStart => {
                        self.is_running = true;
                    },
                    VrcLogEvent::AppStop => {
                        self.is_running = false;
                    },
                    VrcLogEvent::InvalidAppStop => {
                        self.is_running = false;
                    },
                    _ => {},
                }
            },
            None => {},
        }
        record
    }

    /// Counts the store's answer to an append: `inserted` rows were added.
    /// An answer of 0 counts as one record skipped.
    pub fn record_outcome(&mut self, inserted: u64)
        requires
            old(self)@.imported + inserted <= u64::MAX,
            old(self)@.skipped < u64::MAX,
        ensures
            final(self)@ == import_counted(old(self)@, inserted),
    {
        self.imported = self.imported + inserted;
        if inserted == 0 {
            self.skipped = self.skipped + 1;
        }
    }

    /// Ends the file: where it ended while running, returns the abnormal
    /// stop at the timestamp of its last record, for the caller to append
    /// and to count like any other record.
    pub fn finish(&self) -> (crash: Option<LogPayload>)
        ensures
            crash.deep_view() == closing_record(self@.is_running, self@.last_timestamp),
    {
        if self.is_running {
            Some(create_invalid_app_stop_payload(self.last_timestamp.as_str()))
        } else {
            None
        }
    }

    /// How many records the store took as new.
    pub fn imported(&self) -> (count: u64)
        ensures
            count == self@.imported,
    {
        self.imported
    }

    /// How many records the store ignored.
    pub fn skipped(&self) -> (count: u64)
        ensures
            count == self@.skipped,
    {
        self.skipped
    }
}

} // verus!
