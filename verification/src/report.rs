//! Outcome aggregation and report generation.
//!
//! Collects per-file outcomes into findings and summary statistics. Findings
//! are sorted: skip warnings first, then warning-severity violations, then
//! error-severity violations; violations of one severity are ordered by how
//! far over the limit they are, then by path, so the worst appear last.

use vstd::prelude::*;
use crate::config::{ConfigOrigin, Severity};
use crate::decide::MatchBy;
use crate::strutil::{lemma_lex_le_total, lex_le, str_le};

verus! {

/// The result of checking a single file.
#[derive(Debug, Clone)]
pub struct FileOutcome {
    /// Path to the file as given.
    pub path: String,
    /// Path relative to the working directory, for display.
    pub display_path: String,
    /// Which config was used for this file.
    pub config_source: ConfigOrigin,
    /// What happened when checking the file.
    pub kind: OutcomeKind,
}

/// What happened when checking a file.
#[derive(Debug, Clone)]
pub enum OutcomeKind {
    /// File was excluded by pattern.
    Excluded { pattern: String },
    /// File was exempted by pattern.
    Exempt { pattern: String },
    /// No limit configured for this file.
    NoLimit,
    /// File does not exist.
    Missing,
    /// File could not be read.
    Unreadable { error: String },
    /// File appears to be binary (contains null bytes).
    Binary,
    /// File exceeds its line limit.
    Violation { limit: usize, actual: usize, severity: Severity, matched_by: MatchBy },
    /// File is within its line limit.
    Pass { limit: usize, actual: usize, severity: Severity, matched_by: MatchBy },
}

/// Why a file was skipped (for warnings).
#[derive(Debug, Clone, PartialEq, Eq)]
pub enum SkipReason {
    /// Binary file (contains null bytes).
    Binary,
    /// Could not read the file.
    Unreadable(String),
    /// File does not exist.
    Missing,
}

/// A reportable finding (violation or skip warning).
#[derive(Debug, Clone, PartialEq, Eq)]
pub enum FindingKind {
    /// File exceeded its line limit.
    Violation {
        severity: Severity,
        limit: usize,
        actual: usize,
        over_by: usize,
        matched_by: MatchBy,
    },
    /// File was skipped with a warning.
    SkipWarning { reason: SkipReason },
}

/// A single finding to report.
#[derive(Debug, Clone)]
pub struct Finding {
    /// Display path for the file.
    pub path: String,
    /// Which config was used.
    pub config_source: ConfigOrigin,
    /// What kind of finding this is.
    pub kind: FindingKind,
}

/// Summary statistics for a check run.
#[derive(Debug, Clone, PartialEq, Eq, Structural)]
pub struct Summary {
    /// Total files processed.
    pub total: usize,
    /// Files skipped (excluded, exempt, no limit, missing, unreadable, binary).
    pub skipped: usize,
    /// Files that passed their limit.
    pub passed: usize,
    /// Files with error-severity violations.
    pub errors: usize,
    /// Files with warning-severity violations.
    pub warnings: usize,
    /// Time taken in milliseconds.
    pub duration_ms: u64,
}

impl Default for Summary {
    fn default() -> (s: Self)
        ensures
            s.total == 0 && s.skipped == 0 && s.passed == 0 && s.errors == 0 && s.warnings == 0
                && s.duration_ms == 0,
    {
        Summary { total: 0, skipped: 0, passed: 0, errors: 0, warnings: 0, duration_ms: 0 }
    }
}

/// The complete report from a check run.
#[derive(Debug, Clone)]
pub struct Report {
    /// All findings, sorted.
    pub findings: Vec<Finding>,
    /// Summary statistics.
    pub summary: Summary,
}

/// Outcomes that are skipped rather than passed or violated.
pub open spec fn is_skipped_kind(k: OutcomeKind) -> bool {
    ||| k is Excluded
    ||| k is Exempt
    ||| k is NoLimit
    ||| k is Missing
    ||| k is Unreadable
    ||| k is Binary
}

/// How many outcomes of `s` satisfy `p`.
pub open spec fn count_where(s: Seq<FileOutcome>, p: spec_fn(FileOutcome) -> bool) -> nat
    decreases s.len(),
{
    if s.len() == 0 {
        0
    } else {
        count_where(s.take(s.len() - 1), p) + if p(s.last()) {
            1nat
        } else {
            0nat
        }
    }
}

pub proof fn lemma_count_where_le(s: Seq<FileOutcome>, p: spec_fn(FileOutcome) -> bool)
    ensures
        count_where(s, p) <= s.len(),
    decreases s.len(),
{
    if s.len() > 0 {
        lemma_count_where_le(s.take(s.len() - 1), p);
    }
}

/// The over-by amount of a violation: lines past the limit, zero if at or under.
pub open spec fn over_by_spec(limit: nat, actual: nat) -> nat {
    if actual > limit {
        (actual - limit) as nat
    } else {
        0
    }
}

/// The finding one outcome produces, if any. Passes and skipped-without-
/// warning outcomes (excluded, exempt, no limit) produce none.
pub open spec fn finding_of(o: FileOutcome) -> Option<Finding> {
    match o.kind {
        OutcomeKind::Missing => Some(
            Finding {
                path: o.display_path,
                config_source: o.config_source,
                kind: FindingKind::SkipWarning { reason: SkipReason::Missing },
            },
        ),
        OutcomeKind::Unreadable { error } => Some(
            Finding {
                path: o.display_path,
                config_source: o.config_source,
                kind: FindingKind::SkipWarning { reason: SkipReason::Unreadable(error) },
            },
        ),
        OutcomeKind::Binary => Some(
            Finding {
                path: o.display_path,
                config_source: o.config_source,
                kind: FindingKind::SkipWarning { reason: SkipReason::Binary },
            },
        ),
        OutcomeKind::Violation { limit, actual, severity, matched_by } => Some(
            Finding {
                path: o.display_path,
                config_source: o.config_source,
                kind: FindingKind::Violation {
                    severity,
                    limit,
                    actual,
                    over_by: over_by_spec(limit as nat, actual as nat) as usize,
                    matched_by,
                },
            },
        ),
        _ => None,
    }
}

/// The findings of a run, in outcome order, before sorting.
pub open spec fn findings_of(s: Seq<FileOutcome>) -> Seq<Finding>
    decreases s.len(),
{
    if s.len() == 0 {
        Seq::empty()
    } else {
        findings_of(s.take(s.len() - 1)) + match finding_of(s.last()) {
            Some(f) => seq![f],
            None => Seq::empty(),
        }
    }
}

/// Sort rank of a finding: skip warnings first, then warnings, then errors.
pub open spec fn finding_rank(k: FindingKind) -> int {
    match k {
        FindingKind::SkipWarning { .. } => 0,
        FindingKind::Violation { severity, .. } => match severity {
            Severity::Warning => 1,
            Severity::Error => 2,
        },
    }
}

/// Secondary sort key: how far over the limit a violation is.
pub open spec fn finding_over(k: FindingKind) -> nat {
    match k {
        FindingKind::Violation { over_by, .. } => over_by as nat,
        FindingKind::SkipWarning { .. } => 0,
    }
}

/// The report order on findings: by rank, then over-by, then path.
pub open spec fn finding_le(a: Finding, b: Finding) -> bool {
    let ra = finding_rank(a.kind);
    let rb = finding_rank(b.kind);
    if ra != rb {
        ra < rb
    } else if finding_over(a.kind) != finding_over(b.kind) {
        finding_over(a.kind) < finding_over(b.kind)
    } else {
        lex_le(a.path@, b.path@)
    }
}

/// Findings ordered by `finding_le`.
pub open spec fn findings_sorted(s: Seq<Finding>) -> bool {
    forall|i: int, j: int| 0 <= i < j < s.len() ==> finding_le(#[trigger] s[i], #[trigger] s[j])
}

/// Any two findings are comparable.
pub proof fn lemma_finding_le_total(a: Finding, b: Finding)
    ensures
        finding_le(a, b) || finding_le(b, a),
{
    lemma_lex_le_total(a.path@, b.path@);
}

/// Lexicographic order is transitive.
pub proof fn lemma_lex_le_trans(a: Seq<char>, b: Seq<char>, c: Seq<char>)
    requires
        lex_le(a, b),
        lex_le(b, c),
    ensures
        lex_le(a, c),
    decreases a.len(),
{
    if a.len() > 0 {
        let a0 = a[0] as u32;
        let b0 = b[0] as u32;
        let c0 = c[0] as u32;
        if !(a0 < b0) && !(b0 < a0) && !(b0 < c0) && !(c0 < b0) {
            lemma_lex_le_trans(a.skip(1), b.skip(1), c.skip(1));
        }
    }
}

/// The report order is transitive.
pub proof fn lemma_finding_le_trans(a: Finding, b: Finding, c: Finding)
    requires
        finding_le(a, b),
        finding_le(b, c),
    ensures
        finding_le(a, c),
{
    if finding_rank(a.kind) == finding_rank(b.kind) && finding_rank(b.kind) == finding_rank(
        c.kind,
    ) && finding_over(a.kind) == finding_over(b.kind) && finding_over(b.kind) == finding_over(
        c.kind,
    ) {
        lemma_lex_le_trans(a.path@, b.path@, c.path@);
    }
}

fn rank_of(k: &FindingKind) -> (r: u8)
    ensures
        r as int == finding_rank(*k),
{
    match k {
        FindingKind::SkipWarning { .. } => 0,
        FindingKind::Violation { severity, .. } => match severity {
            Severity::Warning => 1,
            Severity::Error => 2,
        },
    }
}

fn over_of(k: &FindingKind) -> (r: usize)
    ensures
        r as nat == finding_over(*k),
{
    match k {
        FindingKind::Violation { over_by, .. } => *over_by,
        FindingKind::SkipWarning { .. } => 0,
    }
}

fn finding_le_exec(a: &Finding, b: &Finding) -> (r: bool)
    ensures
        r == finding_le(*a, *b),
{
    let ra = rank_of(&a.kind);
    let rb = rank_of(&b.kind);
    if ra != rb {
        ra < rb
    } else {
        let oa = over_of(&a.kind);
        let ob = over_of(&b.kind);
        if oa != ob {
            oa < ob
        } else {
            str_le(a.path.as_str(), b.path.as_str())
        }
    }
}

fn min_finding_index(v: &Vec<Finding>) -> (r: usize)
    requires
        v@.len() > 0,
    ensures
        0 <= r < v@.len(),
        forall|k: int| 0 <= k < v@.len() ==> finding_le(v@[r as int], #[trigger] v@[k]),
{
    let mut mi: usize = 0;
    proof {
        lemma_finding_le_total(v@[0], v@[0]);
    }
    let mut i: usize = 1;
    while i < v.len()
        invariant
            0 <= mi < i <= v@.len(),
            forall|k: int| 0 <= k < i ==> finding_le(v@[mi as int], #[trigger] v@[k]),
        decreases v@.len() - i,
    {
        if !finding_le_exec(&v[mi], &v[i]) {
            proof {
                lemma_finding_le_total(v@[mi as int], v@[i as int]);
                assert forall|k: int| 0 <= k < i + 1 implies finding_le(
                    v@[i as int],
                    #[trigger] v@[k],
                ) by {
                    if k < i {
                        lemma_finding_le_trans(v@[i as int], v@[mi as int], v@[k]);
                    } else if k == i {
                        lemma_finding_le_total(v@[i as int], v@[i as int]);
                    }
                }
            }
            mi = i;
        }
        i = i + 1;
    }
    mi
}

/// Sorts findings into report order: skip warnings first, then warnings,
/// then errors; within one rank ascending by over-by amount, then by path.
/// The findings are rearranged, none added or dropped.
pub fn sort_findings(findings: &mut Vec<Finding>)
    ensures
        final(findings)@.to_multiset() == old(findings)@.to_multiset(),
        findings_sorted(final(findings)@),
{
    broadcast use vstd::seq_lib::group_to_multiset_ensures;
    broadcast use vstd::multiset::group_multiset_axioms;
    broadcast use vstd::multiset::group_multiset_properties;

    let ghost orig = findings@;
    let mut out: Vec<Finding> = Vec::new();
    proof {
        assert(out@.to_multiset().add(findings@.to_multiset()) =~= orig.to_multiset());
    }
    while findings.len() > 0
        invariant
            out@.to_multiset().add(findings@.to_multiset()) == orig.to_multiset(),
            findings_sorted(out@),
            forall|i: int, j: int|
                0 <= i < out@.len() && 0 <= j < findings@.len() ==> finding_le(
                    #[trigger] out@[i],
                    #[trigger] findings@[j],
                ),
        decreases findings@.len(),
    {
        let mi = min_finding_index(findings);
        let ghost before = findings@;
        let ghost out_before = out@;
        let x = findings.remove(mi);
        out.push(x);
        proof {
            before.to_multiset_ensures();
            out_before.to_multiset_ensures();
            assert(x == before[mi as int]);
            assert(before.contains(before[mi as int]));
            assert(before.to_multiset().count(x) > 0);
            assert(out@ == out_before.push(x));
            assert(out@.to_multiset() =~= out_before.to_multiset().insert(x));
            assert(findings@.to_multiset() =~= before.to_multiset().remove(x));
            assert(out@.to_multiset().add(findings@.to_multiset()) =~= orig.to_multiset());
            assert forall|i: int, j: int|
                0 <= i < out@.len() && 0 <= j < findings@.len() implies finding_le(
                #[trigger] out@[i],
                #[trigger] findings@[j],
            ) by {
                if j < mi {
                    assert(findings@[j] == before[j]);
                } else {
                    assert(findings@[j] == before[j + 1]);
                }
            }
        }
    }
    *findings = out;
}

fn clone_match_by(m: &MatchBy) -> (r: MatchBy)
    ensures
        r == *m,
{
    match m {
        MatchBy::Rule { pattern } => MatchBy::Rule { pattern: pattern.clone() },
        MatchBy::Default => MatchBy::Default,
    }
}

fn clone_origin(o: &ConfigOrigin) -> (r: ConfigOrigin)
    ensures
        r == *o,
{
    match o {
        ConfigOrigin::BuiltIn => ConfigOrigin::BuiltIn,
        ConfigOrigin::File(p) => ConfigOrigin::File(p.clone()),
    }
}

pub open spec fn outcome_skipped(o: FileOutcome) -> bool {
    is_skipped_kind(o.kind)
}

/// The summary's "skipped" predicate, as a function value.
pub open spec fn skip_pred() -> spec_fn(FileOutcome) -> bool {
    |o: FileOutcome| outcome_skipped(o)
}

/// The summary's "passed" predicate, as a function value.
pub open spec fn pass_pred() -> spec_fn(FileOutcome) -> bool {
    |o: FileOutcome| outcome_passed(o)
}

/// The summary's "errors" predicate, as a function value.
pub open spec fn err_pred() -> spec_fn(FileOutcome) -> bool {
    |o: FileOutcome| outcome_error(o)
}

/// The summary's "warnings" predicate, as a function value.
pub open spec fn warn_pred() -> spec_fn(FileOutcome) -> bool {
    |o: FileOutcome| outcome_warning(o)
}

pub open spec fn outcome_passed(o: FileOutcome) -> bool {
    o.kind is Pass
}

pub open spec fn outcome_error(o: FileOutcome) -> bool {
    o.kind is Violation && o.kind->Violation_severity == Severity::Error
}

pub open spec fn outcome_warning(o: FileOutcome) -> bool {
    o.kind is Violation && o.kind->Violation_severity == Severity::Warning
}

/// Builds a report from file outcomes.
///
/// The summary counts every outcome exactly once: skipped, passed, or an
/// error- or warning-severity violation. The findings are exactly those of
/// the outcomes — one per missing, unreadable, binary, or violating file,
/// none for passes or silently skipped files — sorted into report order.
pub fn build_report(outcomes: &Vec<FileOutcome>, duration_ms: u64) -> (r: Report)
    ensures
        r.summary.total == outcomes@.len(),
        r.summary.skipped == count_where(outcomes@, skip_pred()),
        r.summary.passed == count_where(outcomes@, pass_pred()),
        r.summary.errors == count_where(outcomes@, err_pred()),
        r.summary.warnings == count_where(outcomes@, warn_pred()),
        r.summary.duration_ms == duration_ms,
        r.findings@.to_multiset() == findings_of(outcomes@).to_multiset(),
        findings_sorted(r.findings@),
{
    let total = outcomes.len();
    let mut findings: Vec<Finding> = Vec::new();
    let mut skipped: usize = 0;
    let mut passed: usize = 0;
    let mut errors: usize = 0;
    let mut warnings: usize = 0;

    let mut i: usize = 0;
    while i < total
        invariant
            0 <= i <= total,
            total == outcomes@.len(),
            skipped == count_where(outcomes@.take(i as int), skip_pred()),
            passed == count_where(outcomes@.take(i as int), pass_pred()),
            errors == count_where(outcomes@.take(i as int), err_pred()),
            warnings == count_where(outcomes@.take(i as int), warn_pred()),
            findings@ == findings_of(outcomes@.take(i as int)),
        decreases total - i,
    {
        proof {
            lemma_count_where_le(outcomes@.take(i as int), skip_pred());
            lemma_count_where_le(outcomes@.take(i as int), pass_pred());
            lemma_count_where_le(outcomes@.take(i as int), err_pred());
            lemma_count_where_le(outcomes@.take(i as int), warn_pred());
            assert(outcomes@.take(i as int + 1).take(i as int) =~= outcomes@.take(i as int));
            assert(outcomes@.take(i as int + 1).last() == outcomes@[i as int]);
        }
        let o = &outcomes[i];
        match &o.kind {
            OutcomeKind::Excluded { .. } | OutcomeKind::Exempt { .. } | OutcomeKind::NoLimit => {
                skipped = skipped + 1;
            },
            OutcomeKind::Missing => {
                skipped = skipped + 1;
                findings.push(Finding {
                    path: o.display_path.clone(),
                    config_source: clone_origin(&o.config_source),
                    kind: FindingKind::SkipWarning { reason: SkipReason::Missing },
                });
            },
            OutcomeKind::Unreadable { error } => {
                skipped = skipped + 1;
                findings.push(Finding {
                    path: o.display_path.clone(),
                    config_source: clone_origin(&o.config_source),
                    kind: FindingKind::SkipWarning {
                        reason: SkipReason::Unreadable(error.clone()),
                    },
                });
            },
            OutcomeKind::Binary => {
                skipped = skipped + 1;
                findings.push(Finding {
                    path: o.display_path.clone(),
                    config_source: clone_origin(&o.config_source),
                    kind: FindingKind::SkipWarning { reason: SkipReason::Binary },
                });
            },
            OutcomeKind::Pass { .. } => {
                passed = passed + 1;
            },
            OutcomeKind::Violation { limit, actual, severity, matched_by } => {
                let over_by: usize = if *actual > *limit {
                    *actual - *limit
                } else {
                    0
                };
                findings.push(Finding {
                    path: o.display_path.clone(),
                    config_source: clone_origin(&o.config_source),
                    kind: FindingKind::Violation {
                        severity: *severity,
                        limit: *limit,
                        actual: *actual,
                        over_by,
                        matched_by: clone_match_by(matched_by),
                    },
                });
                match severity {
                    Severity::Error => { errors = errors + 1; },
                    Severity::Warning => { warnings = warnings + 1; },
                }
            },
        }
        i = i + 1;
        proof {
            let prev = outcomes@[i as int - 1];
            assert(skip_pred()(prev) == is_skipped_kind(prev.kind));
            assert(pass_pred()(prev) == (prev.kind is Pass));
            assert(err_pred()(prev) == (prev.kind is Violation && prev.kind->Violation_severity
                == Severity::Error));
            assert(warn_pred()(prev) == (prev.kind is Violation && prev.kind->Violation_severity
                == Severity::Warning));
            let t = outcomes@.take(i as int);
            assert(t.take(t.len() - 1) =~= outcomes@.take(i as int - 1));
            assert(t.last() == outcomes@[i as int - 1]);
            assert(count_where(t, skip_pred()) == count_where(outcomes@.take(i as int - 1), skip_pred())
                + if skip_pred()(outcomes@[i as int - 1]) {
                1nat
            } else {
                0nat
            });
            assert(count_where(t, pass_pred()) == count_where(outcomes@.take(i as int - 1), pass_pred())
                + if pass_pred()(outcomes@[i as int - 1]) {
                1nat
            } else {
                0nat
            });
            assert(count_where(t, err_pred()) == count_where(outcomes@.take(i as int - 1), err_pred())
                + if err_pred()(outcomes@[i as int - 1]) {
                1nat
            } else {
                0nat
            });
            assert(count_where(t, warn_pred()) == count_where(outcomes@.take(i as int - 1), warn_pred())
                + if warn_pred()(outcomes@[i as int - 1]) {
                1nat
            } else {
                0nat
            });
            assert(findings@ =~= findings_of(t));
        }
    }
    proof {
        assert(outcomes@.take(total as int) =~= outcomes@);
    }

    sort_findings(&mut findings);

    Report {
        findings,
        summary: Summary { total, skipped, passed, errors, warnings, duration_ms },
    }
}

} // verus!
