//! The choice of the log to tail among the files of the log directory.

use vstd::prelude::*;

use crate::text::{ends_with, has_prefix, has_suffix, starts_with};

verus! {

/// A file of the log directory, as its listing shows it.
#[derive(Debug, PartialEq, Eq)]
pub struct LogCandidate {
    /// The path of the file.
    pub path: String,
    /// The name of the file, where it is valid Unicode.
    pub file_name: Option<String>,
    /// When the file was last modified, in nanoseconds since the epoch,
    /// where the file system tells.
    pub modified: Option<i128>,
}

/// The mathematical value of a [`LogCandidate`].
pub struct CandidateView {
    pub path: Seq<char>,
    pub file_name: Option<Seq<char>>,
    pub modified: Option<i128>,
}

impl View for LogCandidate {
    type V = CandidateView;

    open spec fn view(&self) -> CandidateView {
        CandidateView {
            path: self.path@,
            file_name: self.file_name.deep_view(),
            modified: self.modified,
        }
    }
}

impl DeepView for LogCandidate {
    type V = CandidateView;

    open spec fn deep_view(&self) -> CandidateView {
        self@
    }
}

/// Whether a file name is that of a log: `output_log`, anything, `.txt`.
pub open spec fn is_log_name(name: Seq<char>) -> bool {
    has_prefix(name, "output_log"@) && has_suffix(name, ".txt"@)
}

/// Whether a file is a log by its name.
pub open spec fn is_log(candidate: CandidateView) -> bool {
    candidate.file_name matches Some(name) && is_log_name(name)
}

/// The order of modification times: an unknown time is before every known
/// one.
pub open spec fn older(a: Option<i128>, b: Option<i128>) -> bool {
    match (a, b) {
        (None, Some(_)) => true,
        (Some(x), Some(y)) => x < y,
        _ => false,
    }
}

/// Whether file `i` is the log to tail: a log that no other log is newer
/// than, and the last of the listing among the logs that are as new.
pub open spec fn is_latest(candidates: Seq<CandidateView>, i: int) -> bool {
    &&& 0 <= i < candidates.len()
    &&& is_log(candidates[i])
    &&& forall|j: int|
        0 <= j < candidates.len() && is_log(#[trigger] candidates[j]) ==> older(
            candidates[j].modified,
            candidates[i].modified,
        ) || (candidates[j].modified == candidates[i].modified && j <= i)
}

fn is_log_file(candidate: &LogCandidate) -> (yes: bool)
    ensures
        yes == is_log(candidate@),
{
    match &candidate.file_name {
        Some(name) => starts_with(name.as_str(), "output_log") && ends_with(name.as_str(), ".txt"),
        None => false,
    }
}

fn is_older(a: Option<i128>, b: Option<i128>) -> (yes: bool)
    ensures
        yes == older(a, b),
{
    match (a, b) {
        (None, Some(_)) => true,
        (Some(x), Some(y)) => x < y,
        _ => false,
    }
}

/// The place in the listing of the log to tail; `None` where the listing
/// holds no log.
pub fn latest_log_index(candidates: &Vec<LogCandidate>) -> (latest: Option<usize>)
    ensures
        match latest {
            Some(i) => is_latest(candidates.deep_view(), i as int),
            None => forall|j: int|
                0 <= j < candidates.len() ==> !is_log(#[trigger] candidates.deep_view()[j]),
        },
{
    let mut latest: Option<usize> = None;
    let mut k: usize = 0;
    while k < candidates.len()
        invariant
            k <= candidates.len(),
            match latest {
                Some(i) => i < k && is_latest(candidates.deep_view().subrange(0, k as int), i as int),
                None => forall|j: int|
                    0 <= j < k ==> !is_log(#[trigger] candidates.deep_view()[j]),
            },
        decreases candidates.len() - k,
    {
        let ghost all = candidates.deep_view();
        let ghost done = all.subrange(0, k as int);
        let ghost next = all.subrange(0, k + 1);
        if is_log_file(&candidates[k]) {
            let newer = match latest {
                Some(i) => !is_older(candidates[k].modified, candidates[i].modified),
                None => true,
            };
            if newer {
                proof {
                    assert forall|j: int| 0 <= j < next.len() && is_log(#[trigger] next[j]) implies older(
                        next[j].modified,
                        next[k as int].modified,
                    ) || (next[j].modified == next[k as int].modified && j <= k) by {
                        if j < k {
                            assert(next[j] == done[j]);
                            assert(is_log(done[j]));
                        }
                    }
                }
                latest = Some(k);
            } else {
                proof {
                    let i = latest->0 as int;
                    assert forall|j: int| 0 <= j < next.len() && is_log(#[trigger] next[j]) implies older(
                        next[j].modified,
                        next[i].modified,
                    ) || (next[j].modified == next[i].modified && j <= i) by {
                        if j < k {
                            assert(next[j] == done[j]);
                            assert(is_log(done[j]));
                        }
                    }
                }
            }
        } else {
            proof {
                if latest is Some {
                    let i = latest->0 as int;
                    assert forall|j: int| 0 <= j < next.len() && is_log(#[trigger] next[j]) implies older(
                        next[j].modified,
                        next[i].modified,
                    ) || (next[j].modified == next[i].modified && j <= i) by {
                        if j < k {
                            assert(next[j] == done[j]);
                            assert(is_log(done[j]));
                        }
                    }
                }
            }
        }
        k += 1;
    }
    proof {
        assert(candidates.deep_view().subrange(0, k as int) =~= candidates.deep_view());
    }
    latest
}

/// The path of the log to tail: the log modified last, and among logs
/// modified at the same time the one listed last. `None` where the
/// directory holds no log.
pub fn get_latest_log_path(candidates: &Vec<LogCandidate>) -> (path: Option<String>)
    ensures
        match path {
            Some(p) => exists|i: int|
                is_latest(candidates.deep_view(), i) && p@ == candidates.deep_view()[i].path,
            None => forall|j: int|
                0 <= j < candidates.len() ==> !is_log(#[trigger] candidates.deep_view()[j]),
        },
{
    match latest_log_index(candidates) {
        Some(i) => Some(candidates[i].path.clone()),
        None => None,
    }
}

/// At most one file of a listing is the log to tail.
pub proof fn latest_is_unique(candidates: Seq<CandidateView>, i: int, j: int)
    requires
        is_latest(candidates, i),
        is_latest(candidates, j),
    ensures
        i == j,
{
}

} // verus!
