use loq::check::{exit_status_of, outcome_for, plan_file, ExitStatus, FilePlan};
use loq::cache::Cache;
use loq::config::{ConfigOrigin, LoqConfig, Rule, Severity};
use loq::count::{inspect_bytes, CountError, FileInspection, LineCounter};
use loq::decide::{decide, Decision, MatchBy};
use loq::globs::{compile_config, CompiledConfig, ConfigError};
use loq::report::{
    build_report, sort_findings, FileOutcome, Finding, FindingKind, OutcomeKind, Report,
    SkipReason, Summary,
};

fn compiled(config: LoqConfig) -> CompiledConfig {
    compile_config(ConfigOrigin::BuiltIn, String::from("."), config, None).unwrap()
}

fn base_config() -> LoqConfig {
    LoqConfig {
        default_max_lines: Some(500),
        respect_gitignore: true,
        exclude: vec![],
        exempt: vec![],
        rules: vec![],
    }
}

#[test]
fn default_config_has_expected_values() {
    let config = LoqConfig::default();
    assert_eq!(config.default_max_lines, Some(500));
    assert!(config.respect_gitignore);
    assert!(config.exclude.is_empty());
    assert!(config.exempt.is_empty());
    assert!(config.rules.is_empty());
}

#[test]
fn built_in_defaults_matches_default() {
    let default = LoqConfig::default();
    let built_in = LoqConfig::built_in_defaults();
    assert_eq!(default.default_max_lines, built_in.default_max_lines);
    assert_eq!(default.respect_gitignore, built_in.respect_gitignore);
}

#[test]
fn init_template_has_rules() {
    let template = LoqConfig::init_template();
    assert_eq!(template.default_max_lines, Some(500));
    assert_eq!(template.rules.len(), 2);
    assert_eq!(template.rules[0].path, "**/*.tsx");
    assert_eq!(template.rules[1].path, "tests/**/*");
}

#[test]
fn decide_rule_order_last_match_wins() {
    let mut config = base_config();
    config.rules = vec![
        Rule {
            path: "**/*.rs".to_string(),
            max_lines: 100,
            severity: Severity::Error,
        },
        Rule {
            path: "**/*.rs".to_string(),
            max_lines: 200,
            severity: Severity::Warning,
        },
    ];
    let decision = decide(&compiled(config), "src/main.rs");
    match decision {
        Decision::Check {
            limit, severity, ..
        } => {
            assert_eq!(limit, 200);
            assert_eq!(severity, Severity::Warning);
        }
        _ => panic!("expected check"),
    }
}

#[test]
fn decide_default_fallback_when_no_rule() {
    let mut config = base_config();
    config.default_max_lines = Some(123);
    let decision = decide(&compiled(config), "src/file.txt");
    match decision {
        Decision::Check {
            limit, matched_by, ..
        } => {
            assert_eq!(limit, 123);
            assert_eq!(matched_by, MatchBy::Default);
        }
        _ => panic!("expected default"),
    }
}

#[test]
fn decide_skip_when_no_default_and_no_rule() {
    let mut config = base_config();
    config.default_max_lines = None;
    let decision = decide(&compiled(config), "src/file.txt");
    assert_eq!(decision, Decision::SkipNoLimit);
}

#[test]
fn decide_exclude_beats_rules() {
    let mut config = base_config();
    config.default_max_lines = Some(10);
    config.exclude = vec!["**/*.txt".to_string()];
    config.rules = vec![Rule {
        path: "**/*.txt".to_string(),
        max_lines: 1,
        severity: Severity::Error,
    }];
    let decision = decide(&compiled(config), "notes.txt");
    match decision {
        Decision::Excluded { pattern } => assert_eq!(pattern, "**/*.txt"),
        _ => panic!("expected excluded"),
    }
}

#[test]
fn exempt_beats_rules() {
    let mut config = base_config();
    config.default_max_lines = Some(10);
    config.exempt = vec!["legacy.rs".to_string()];
    config.rules = vec![Rule {
        path: "**/*.rs".to_string(),
        max_lines: 1,
        severity: Severity::Error,
    }];
    let decision = decide(&compiled(config), "legacy.rs");
    match decision {
        Decision::Exempt { pattern } => assert_eq!(pattern, "legacy.rs"),
        _ => panic!("expected exempt, got {decision:?}"),
    }
}

#[test]
fn exclude_beats_exempt() {
    let mut config = base_config();
    config.default_max_lines = Some(10);
    config.exclude = vec!["**/*.gen.rs".to_string()];
    config.exempt = vec!["**/*.gen.rs".to_string()];
    let decision = decide(&compiled(config), "output.gen.rs");
    match decision {
        Decision::Excluded { pattern } => assert_eq!(pattern, "**/*.gen.rs"),
        _ => panic!("expected excluded, got {decision:?}"),
    }
}

#[test]
fn invalid_glob_reports_error() {
    let mut config = base_config();
    config.default_max_lines = Some(1);
    config.rules = vec![Rule {
        path: "[[".to_string(),
        max_lines: 1,
        severity: Severity::Error,
    }];
    let err = compile_config(ConfigOrigin::BuiltIn, String::from("."), config, None).unwrap_err();
    match err {
        ConfigError::Glob { .. } => {}
        _ => panic!("expected glob error"),
    }
}

#[test]
fn pattern_list_no_match_returns_none() {
    let mut config = base_config();
    config.exclude = vec!["*.rs".to_string()];
    let compiled = compiled(config);
    assert!(compiled.exclude_patterns().matches("foo.txt").is_none());
}

fn outcome(path: &str, kind: OutcomeKind) -> FileOutcome {
    FileOutcome {
        path: path.to_string(),
        display_path: path.to_string(),
        config_source: ConfigOrigin::BuiltIn,
        kind,
    }
}

#[test]
fn report_summary_counts_each_file_once() {
    let outcomes = vec![
        outcome(
            "a",
            OutcomeKind::Pass {
                limit: 10,
                actual: 5,
                severity: Severity::Error,
                matched_by: MatchBy::Default,
            },
        ),
        outcome(
            "b",
            OutcomeKind::Violation {
                limit: 10,
                actual: 20,
                severity: Severity::Error,
                matched_by: MatchBy::Default,
            },
        ),
        outcome(
            "c",
            OutcomeKind::Violation {
                limit: 10,
                actual: 12,
                severity: Severity::Warning,
                matched_by: MatchBy::Default,
            },
        ),
        outcome("d", OutcomeKind::Missing),
        outcome("e", OutcomeKind::Binary),
        outcome(
            "f",
            OutcomeKind::Unreadable {
                error: "denied".to_string(),
            },
        ),
    ];
    let report = build_report(&outcomes, 0);
    assert_eq!(report.summary.total, 6);
    assert_eq!(report.summary.passed, 1);
    assert_eq!(report.summary.errors, 1);
    assert_eq!(report.summary.warnings, 1);
    assert_eq!(report.summary.skipped, 3);
}

#[test]
fn report_findings_sorted_by_severity_and_overage() {
    let mut findings = vec![
        Finding {
            path: "b".to_string(),
            config_source: ConfigOrigin::BuiltIn,
            kind: FindingKind::Violation {
                severity: Severity::Warning,
                limit: 10,
                actual: 12,
                over_by: 2,
                matched_by: MatchBy::Default,
            },
        },
        Finding {
            path: "a".to_string(),
            config_source: ConfigOrigin::BuiltIn,
            kind: FindingKind::Violation {
                severity: Severity::Error,
                limit: 10,
                actual: 20,
                over_by: 10,
                matched_by: MatchBy::Default,
            },
        },
        Finding {
            path: "c".to_string(),
            config_source: ConfigOrigin::BuiltIn,
            kind: FindingKind::SkipWarning {
                reason: SkipReason::Missing,
            },
        },
    ];
    sort_findings(&mut findings);
    assert_eq!(findings[0].path, "c");
    assert_eq!(findings[1].path, "b");
    assert_eq!(findings[2].path, "a");
}

#[test]
fn excluded_exempt_nolimit_are_skipped() {
    let outcomes = vec![
        outcome(
            "excluded.txt",
            OutcomeKind::Excluded {
                pattern: "*.txt".to_string(),
            },
        ),
        outcome(
            "exempt.rs",
            OutcomeKind::Exempt {
                pattern: "exempt.rs".to_string(),
            },
        ),
        outcome("nolimit.js", OutcomeKind::NoLimit),
    ];
    let report = build_report(&outcomes, 0);
    assert_eq!(report.summary.total, 3);
    assert_eq!(report.summary.skipped, 3);
    assert_eq!(report.summary.passed, 0);
    assert_eq!(report.summary.errors, 0);
    assert_eq!(report.summary.warnings, 0);
    assert!(report.findings.is_empty());
}

fn check_decision(limit: usize) -> Decision {
    Decision::Check {
        limit,
        severity: Severity::Error,
        matched_by: MatchBy::Default,
    }
}

#[test]
fn boundary_scenario_default_three_lines() {
    // A directory with default_max_lines = 3: a file with exactly 3 lines
    // passes; "one\ntwo\nthree\nfour\n" violates with limit=3, actual=4,
    // over_by=1; a binary file yields a binary skip; a missing path yields
    // a missing outcome.
    let exact = inspect_bytes(b"one\ntwo\nthree\n");
    assert_eq!(exact, FileInspection::Text { lines: 3 });
    let exact_outcome = outcome_for(check_decision(3), Ok(exact));
    assert!(matches!(exact_outcome, OutcomeKind::Pass { limit: 3, actual: 3, .. }));

    let over = inspect_bytes(b"one\ntwo\nthree\nfour\n");
    assert_eq!(over, FileInspection::Text { lines: 4 });
    let over_outcome = outcome_for(check_decision(3), Ok(over));
    assert!(matches!(
        over_outcome,
        OutcomeKind::Violation { limit: 3, actual: 4, .. }
    ));

    let binary = inspect_bytes(b"\0binary data of any size");
    assert_eq!(binary, FileInspection::Binary);
    let binary_outcome = outcome_for(check_decision(3), Ok(binary));
    assert!(matches!(binary_outcome, OutcomeKind::Binary));

    let missing_outcome = outcome_for(check_decision(3), Err(CountError::Missing));
    assert!(matches!(missing_outcome, OutcomeKind::Missing));

    let outcomes = vec![
        outcome("exact.txt", exact_outcome),
        outcome("over.txt", over_outcome),
    ];
    let report = build_report(&outcomes, 0);
    assert_eq!(report.summary.passed, 1);
    assert_eq!(report.summary.errors, 1);
    assert_eq!(report.findings.len(), 1);
    match &report.findings[0].kind {
        FindingKind::Violation {
            limit,
            actual,
            over_by,
            ..
        } => {
            assert_eq!(*limit, 3);
            assert_eq!(*actual, 4);
            assert_eq!(*over_by, 1);
        }
        _ => panic!("expected a violation finding"),
    }
}

#[test]
fn excluded_file_produces_no_finding() {
    // exclude = ["**/*.gen.txt"] with a rule {path: "**/*.txt", max_lines: 1}:
    // a 5-line a.gen.txt is excluded, not a violation.
    let mut config = base_config();
    config.exclude = vec!["**/*.gen.txt".to_string()];
    config.rules = vec![Rule {
        path: "**/*.txt".to_string(),
        max_lines: 1,
        severity: Severity::Error,
    }];
    let compiled = compiled(config);
    let decision = decide(&compiled, "a.gen.txt");
    assert!(matches!(decision, Decision::Excluded { .. }));

    // The walker filters excluded paths out before counting, so the file
    // never appears among the outcomes or findings at all.
    let report = build_report(&vec![], 0);
    assert!(report.findings.is_empty());
    assert_eq!(report.summary.total, 0);

    // Even if an excluded outcome were recorded, it would produce no finding.
    let kind = outcome_for(decision, Ok(FileInspection::Text { lines: 5 }));
    let report = build_report(&vec![outcome("a.gen.txt", kind)], 0);
    assert!(report.findings.is_empty());
    assert_eq!(report.summary.skipped, 1);
}

#[test]
fn repeated_run_produces_identical_report() {
    // Idempotence: the same outcomes aggregated twice give identical
    // summaries and findings.
    let outcomes = vec![
        outcome(
            "a.txt",
            OutcomeKind::Violation {
                limit: 3,
                actual: 5,
                severity: Severity::Error,
                matched_by: MatchBy::Default,
            },
        ),
        outcome(
            "b.txt",
            OutcomeKind::Pass {
                limit: 3,
                actual: 2,
                severity: Severity::Error,
                matched_by: MatchBy::Default,
            },
        ),
        outcome("c.txt", OutcomeKind::Missing),
    ];
    let first = build_report(&outcomes, 7);
    let second = build_report(&outcomes, 7);
    assert_eq!(first.summary, second.summary);
    assert_eq!(first.findings.len(), second.findings.len());
    for (a, b) in first.findings.iter().zip(second.findings.iter()) {
        assert_eq!(a.path, b.path);
        assert_eq!(a.kind, b.kind);
    }
}

#[test]
fn cached_second_run_skips_counting_and_matches() {
    // Cache correctness: after a counting run stores its result, a second
    // run with the same mtime needs no count and yields the same outcome.
    let mut cache = Cache::with_hash(42);
    let first_count = inspect_bytes(b"one\ntwo\nthree\nfour\n");
    let first = loq::check::finish_file(
        3,
        Severity::Error,
        MatchBy::Default,
        Ok(first_count),
        &mut cache,
        "over.txt",
        1000,
        500,
    );
    assert!(matches!(first, OutcomeKind::Violation { actual: 4, .. }));

    // Unchanged mtime: the plan settles without any count.
    let plan = plan_file(check_decision(3), &cache, "over.txt", 1000, 500);
    match plan {
        FilePlan::Ready(kind) => {
            assert!(matches!(kind, OutcomeKind::Violation { limit: 3, actual: 4, .. }));
        }
        FilePlan::NeedsCount { .. } => panic!("cache hit should not re-count"),
    }

    // Changed mtime: the file must be re-read.
    let plan = plan_file(check_decision(3), &cache, "over.txt", 1000, 501);
    assert!(matches!(plan, FilePlan::NeedsCount { .. }));
}

#[test]
fn counter_is_chunking_independent() {
    let whole = inspect_bytes(b"alpha\nbeta\ngamma");
    let mut counter = LineCounter::new();
    counter.push_chunk(b"alp");
    counter.push_chunk(b"ha\nbe");
    counter.push_chunk(b"");
    counter.push_chunk(b"ta\ngamma");
    assert_eq!(counter.finish(), whole);
    assert_eq!(whole, FileInspection::Text { lines: 3 });
}

#[test]
fn exit_status_follows_error_count() {
    let report = Report {
        findings: vec![],
        summary: Summary {
            total: 1,
            skipped: 0,
            passed: 0,
            errors: 1,
            warnings: 0,
            duration_ms: 0,
        },
    };
    assert_eq!(exit_status_of(&report), ExitStatus::Failure);
    let report = Report {
        findings: vec![],
        summary: Summary {
            total: 1,
            skipped: 0,
            passed: 1,
            errors: 0,
            warnings: 3,
            duration_ms: 0,
        },
    };
    assert_eq!(exit_status_of(&report), ExitStatus::Success);
}
