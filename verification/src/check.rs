//! Per-file check flow and exit status.
//!
//! Wires a rule decision, the cache, and a line count into one file's
//! outcome. The flow is split so a caller first plans the file — learning
//! whether the cached count suffices or the file must be read — and, after
//! reading, folds the inspection result back in. A cache hit yields exactly
//! the outcome a fresh count of the same number of lines would.

use vstd::prelude::*;
use crate::cache::{Cache, CacheEntry};
use crate::config::Severity;
use crate::count::{CountError, FileInspection};
use crate::decide::{Decision, MatchBy};
use crate::report::{over_by_spec, OutcomeKind, Report};

verus! {

/// How a run ends: all passed, violations found, or the run itself failed.
#[derive(Debug, Clone, Copy, PartialEq, Eq, Structural)]
pub enum ExitStatus {
    /// No error-severity violations.
    Success,
    /// At least one error-severity violation.
    Failure,
    /// The run could not be carried out.
    Error,
}

/// The outcome of one file, given its decision and what inspecting it
/// yielded. Only a `Check` decision looks at the inspection.
pub open spec fn outcome_spec(d: Decision, insp: Result<FileInspection, CountError>) -> OutcomeKind {
    match d {
        Decision::Excluded { pattern } => OutcomeKind::Excluded { pattern },
        Decision::Exempt { pattern } => OutcomeKind::Exempt { pattern },
        Decision::SkipNoLimit => OutcomeKind::NoLimit,
        Decision::Check { limit, severity, matched_by } => match insp {
            Ok(FileInspection::Binary) => OutcomeKind::Binary,
            Ok(FileInspection::Text { lines }) => if lines > limit {
                OutcomeKind::Violation { limit, actual: lines, severity, matched_by }
            } else {
                OutcomeKind::Pass { limit, actual: lines, severity, matched_by }
            },
            Err(CountError::Missing) => OutcomeKind::Missing,
            Err(CountError::Unreadable(error)) => OutcomeKind::Unreadable { error },
        },
    }
}

/// Builds the outcome for one file from its decision and inspection result.
pub fn outcome_for(d: Decision, insp: Result<FileInspection, CountError>) -> (k: OutcomeKind)
    ensures
        k == outcome_spec(d, insp),
{
    match d {
        Decision::Excluded { pattern } => OutcomeKind::Excluded { pattern },
        Decision::Exempt { pattern } => OutcomeKind::Exempt { pattern },
        Decision::SkipNoLimit => OutcomeKind::NoLimit,
        Decision::Check { limit, severity, matched_by } => match insp {
            Ok(FileInspection::Binary) => OutcomeKind::Binary,
            Ok(FileInspection::Text { lines }) => {
                if lines > limit {
                    OutcomeKind::Violation { limit, actual: lines, severity, matched_by }
                } else {
                    OutcomeKind::Pass { limit, actual: lines, severity, matched_by }
                }
            },
            Err(CountError::Missing) => OutcomeKind::Missing,
            Err(CountError::Unreadable(error)) => OutcomeKind::Unreadable { error },
        },
    }
}

/// The limit boundary is inclusive: a file under or exactly at its limit
/// passes; one line over violates, and its over-by amount is exactly one.
pub proof fn lemma_limit_boundary(
    limit: usize,
    severity: Severity,
    matched_by: MatchBy,
    lines: usize,
)
    ensures
        lines <= limit ==> outcome_spec(
            Decision::Check { limit, severity, matched_by },
            Ok(FileInspection::Text { lines }),
        ) == (OutcomeKind::Pass { limit, actual: lines, severity, matched_by }),
        lines > limit ==> outcome_spec(
            Decision::Check { limit, severity, matched_by },
            Ok(FileInspection::Text { lines }),
        ) == (OutcomeKind::Violation { limit, actual: lines, severity, matched_by }),
        lines == limit + 1 ==> over_by_spec(limit as nat, lines as nat) == 1,
{
}

/// The outcome of a file whose decision needs no count: excluded, exempt,
/// or unlimited.
pub open spec fn skip_outcome(d: Decision) -> OutcomeKind {
    match d {
        Decision::Excluded { pattern } => OutcomeKind::Excluded { pattern },
        Decision::Exempt { pattern } => OutcomeKind::Exempt { pattern },
        _ => OutcomeKind::NoLimit,
    }
}

/// Whether the cache holds a fresh entry for this path and mtime.
pub open spec fn cache_hit(
    m: Map<Seq<char>, CacheEntry>,
    key: Seq<char>,
    secs: u64,
    nanos: u32,
) -> bool {
    m.contains_key(key) && m[key].mtime_secs == secs && m[key].mtime_nanos == nanos
}

/// What to do with one file after its decision: its outcome is already
/// known, or the file must be read and counted.
#[derive(Debug, Clone)]
pub enum FilePlan {
    /// The outcome is settled without reading the file.
    Ready(OutcomeKind),
    /// The file must be read; fold the inspection in with `finish_file`.
    NeedsCount { limit: usize, severity: Severity, matched_by: MatchBy },
}

/// Plans one file: a non-check decision or a cache hit settles the outcome
/// without reading the file. On a cache hit the outcome is exactly what a
/// fresh count of the cached number of lines would give.
pub fn plan_file(d: Decision, cache: &Cache, key: &str, mtime_secs: u64, mtime_nanos: u32) -> (r:
    FilePlan)
    requires
        cache.wf(),
    ensures
        match d {
            Decision::Check { limit, severity, matched_by } => if cache_hit(
                cache@,
                key@,
                mtime_secs,
                mtime_nanos,
            ) {
                r == FilePlan::Ready(
                    outcome_spec(d, Ok(FileInspection::Text { lines: cache@[key@].lines })),
                )
            } else {
                r == (FilePlan::NeedsCount { limit, severity, matched_by })
            },
            _ => r == FilePlan::Ready(skip_outcome(d)),
        },
{
    match d {
        Decision::Excluded { pattern } => FilePlan::Ready(OutcomeKind::Excluded { pattern }),
        Decision::Exempt { pattern } => FilePlan::Ready(OutcomeKind::Exempt { pattern }),
        Decision::SkipNoLimit => FilePlan::Ready(OutcomeKind::NoLimit),
        Decision::Check { limit, severity, matched_by } => {
            match cache.get(key, mtime_secs, mtime_nanos) {
                Some(lines) => {
                    if lines > limit {
                        FilePlan::Ready(
                            OutcomeKind::Violation { limit, actual: lines, severity, matched_by },
                        )
                    } else {
                        FilePlan::Ready(
                            OutcomeKind::Pass { limit, actual: lines, severity, matched_by },
                        )
                    }
                },
                None => FilePlan::NeedsCount { limit, severity, matched_by },
            }
        },
    }
}

/// Folds a fresh inspection into the outcome, and records a successful text
/// count in the cache; binary, missing, and unreadable files are not cached.
pub fn finish_file(
    limit: usize,
    severity: Severity,
    matched_by: MatchBy,
    insp: Result<FileInspection, CountError>,
    cache: &mut Cache,
    key: &str,
    mtime_secs: u64,
    mtime_nanos: u32,
) -> (k: OutcomeKind)
    requires
        old(cache).wf(),
    ensures
        final(cache).wf(),
        k == outcome_spec(Decision::Check { limit, severity, matched_by }, insp),
        match insp {
            Ok(FileInspection::Text { lines }) => final(cache)@ == old(cache)@.insert(
                key@,
                CacheEntry { mtime_secs, mtime_nanos, lines },
            ),
            _ => final(cache)@ == old(cache)@,
        },
        final(cache).hash_spec() == old(cache).hash_spec(),
{
    if let Ok(FileInspection::Text { lines }) = insp {
        cache.insert(key.to_owned(), mtime_secs, mtime_nanos, lines);
        if lines > limit {
            OutcomeKind::Violation { limit, actual: lines, severity, matched_by }
        } else {
            OutcomeKind::Pass { limit, actual: lines, severity, matched_by }
        }
    } else {
        outcome_for(Decision::Check { limit, severity, matched_by }, insp)
    }
}

/// After a text file is counted and cached, planning the same path with the
/// same mtime is a cache hit, and its outcome equals the one the fresh count
/// produced: an unchanged file is never read twice, and the cached run's
/// outcome is identical to the counting run's.
pub proof fn lemma_cache_round_trip(
    before: Map<Seq<char>, CacheEntry>,
    key: Seq<char>,
    mtime_secs: u64,
    mtime_nanos: u32,
    lines: usize,
    limit: usize,
    severity: Severity,
    matched_by: MatchBy,
)
    ensures
        cache_hit(
            before.insert(key, CacheEntry { mtime_secs, mtime_nanos, lines }),
            key,
            mtime_secs,
            mtime_nanos,
        ),
        outcome_spec(
            Decision::Check { limit, severity, matched_by },
            Ok(
                FileInspection::Text {
                    lines: before.insert(key, CacheEntry { mtime_secs, mtime_nanos, lines })[key].lines,
                },
            ),
        ) == outcome_spec(
            Decision::Check { limit, severity, matched_by },
            Ok(FileInspection::Text { lines }),
        ),
{
}

/// The exit status a report dictates: failure exactly when any
/// error-severity violation was found.
pub fn exit_status_of(report: &Report) -> (r: ExitStatus)
    ensures
        r == (if report.summary.errors > 0 {
            ExitStatus::Failure
        } else {
            ExitStatus::Success
        }),
{
    if report.summary.errors > 0 {
        ExitStatus::Failure
    } else {
        ExitStatus::Success
    }
}

} // verus!
