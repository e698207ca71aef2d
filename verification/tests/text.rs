use loq::baseline::{capitalize_first, change_summary, BaselineStats, ChangeCounts, TightenChange, TightenReport, BaselineReport};
use loq::config::{ConfigOrigin, Severity};
use loq::decide::MatchBy;
use loq::edit::{escape_glob, is_exact_path, normalize_display_path, unescape_glob};
use loq::format::{
    format_finding, format_skip_warning, format_success, format_summary, format_toml_error,
    format_unknown_key_error, relative_config_path, severity_label,
};
use loq::report::{Finding, FindingKind, SkipReason, Summary};
use loq::strutil::format_number;

#[test]
fn output_severity_label_error() {
    assert_eq!(severity_label(Severity::Error), "error");
}

#[test]
fn output_severity_label_warning() {
    assert_eq!(severity_label(Severity::Warning), "warning");
}

#[test]
fn tests_severity_label_error() {
    assert_eq!(severity_label(Severity::Error), "error");
}

#[test]
fn tests_severity_label_warning() {
    assert_eq!(severity_label(Severity::Warning), "warning");
}

#[test]
fn output_format_number_small() {
    assert_eq!(format_number(42), "42");
}

#[test]
fn output_format_number_hundreds() {
    assert_eq!(format_number(999), "999");
}

#[test]
fn output_format_number_thousands() {
    assert_eq!(format_number(1234), "1,234");
}

#[test]
fn output_format_number_millions() {
    assert_eq!(format_number(1234567), "1,234,567");
}

#[test]
fn tests_format_number_small() {
    assert_eq!(format_number(42), "42");
}

#[test]
fn tests_format_number_hundreds() {
    assert_eq!(format_number(999), "999");
}

#[test]
fn tests_format_number_thousands() {
    assert_eq!(format_number(1234), "1,234");
}

#[test]
fn tests_format_number_millions() {
    assert_eq!(format_number(1_234_567), "1,234,567");
}

#[test]
fn output_relative_config_path_builtin() {
    let result = relative_config_path(&ConfigOrigin::BuiltIn);
    assert_eq!(result, "<built-in>");
}

#[test]
fn output_relative_config_path_file() {
    let result = relative_config_path(&ConfigOrigin::File("/some/path/loq.toml".to_string()));
    assert_eq!(result, "loq.toml");
}

#[test]
fn tests_relative_config_path_builtin() {
    let result = relative_config_path(&ConfigOrigin::BuiltIn);
    assert_eq!(result, "<built-in>");
}

#[test]
fn tests_relative_config_path_file() {
    let result = relative_config_path(&ConfigOrigin::File("/some/path/loq.toml".to_string()));
    assert_eq!(result, "loq.toml");
}

#[test]
fn format_error_line() {
    let finding = Finding {
        path: "src/lib.rs".to_string(),
        config_source: ConfigOrigin::BuiltIn,
        kind: FindingKind::Violation {
            severity: Severity::Error,
            limit: 10,
            actual: 12,
            over_by: 2,
            matched_by: MatchBy::Default,
        },
    };
    let line = format_finding(&finding);
    assert_eq!(
        line,
        "error[max-lines]: src/lib.rs: 12 lines (limit: 10, +2 over)"
    );
}

#[test]
fn format_warning_line() {
    let finding = Finding {
        path: "src/lib.rs".to_string(),
        config_source: ConfigOrigin::BuiltIn,
        kind: FindingKind::Violation {
            severity: Severity::Warning,
            limit: 10,
            actual: 12,
            over_by: 2,
            matched_by: MatchBy::Default,
        },
    };
    let line = format_finding(&finding);
    assert_eq!(
        line,
        "warning[max-lines]: src/lib.rs: 12 lines (limit: 10, +2 over)"
    );
}

#[test]
fn format_skip_binary() {
    let line = format_skip_warning("bin", &SkipReason::Binary);
    assert_eq!(line, "warning[skip-binary]: bin: binary file skipped");
}

#[test]
fn format_skip_unreadable_and_missing() {
    let unreadable = format_skip_warning("bin", &SkipReason::Unreadable("denied".to_string()));
    assert_eq!(
        unreadable,
        "warning[skip-unreadable]: bin: unreadable file skipped (denied)"
    );
    let missing = format_skip_warning("bin", &SkipReason::Missing);
    assert_eq!(missing, "warning[skip-missing]: bin: missing file skipped");
}

#[test]
fn format_finding_skip_warning() {
    let finding = Finding {
        path: "missing.txt".to_string(),
        config_source: ConfigOrigin::BuiltIn,
        kind: FindingKind::SkipWarning {
            reason: SkipReason::Missing,
        },
    };
    let line = format_finding(&finding);
    assert_eq!(
        line,
        "warning[skip-missing]: missing.txt: missing file skipped"
    );
}

#[test]
fn format_summary_pluralization() {
    let summary = Summary {
        total: 2,
        skipped: 0,
        passed: 0,
        errors: 1,
        warnings: 2,
        duration_ms: 5,
    };
    let line = format_summary(&summary);
    assert!(line.contains("1 error"));
    assert!(line.contains("2 warnings"));
}

#[test]
fn format_summary_singular_warning() {
    let summary = Summary {
        total: 1,
        skipped: 0,
        passed: 1,
        errors: 2,
        warnings: 1,
        duration_ms: 5,
    };
    let line = format_summary(&summary);
    assert!(line.contains("2 errors"));
    assert!(line.contains("1 warning"));
}

#[test]
fn format_success_message() {
    let summary = Summary {
        total: 10,
        skipped: 2,
        passed: 8,
        errors: 0,
        warnings: 0,
        duration_ms: 42,
    };
    let line = format_success(&summary);
    assert_eq!(line, "All checks passed! (10 files in 42ms)");
}

#[test]
fn format_toml_error_without_location() {
    let msg = format_toml_error("test.toml", &None, "parse error");
    assert_eq!(msg, "test.toml - parse error");
}

#[test]
fn format_unknown_key_error_without_suggestion() {
    let msg = format_unknown_key_error("test.toml", "xyz", &Some((1, 1)), &None);
    assert!(msg.contains("unknown key 'xyz'"));
    assert!(!msg.contains("did you mean"));
}

#[test]
fn is_exact_path_detects_globs() {
    assert!(is_exact_path("src/main.rs"));
    assert!(is_exact_path("foo/bar/baz.txt"));
    assert!(!is_exact_path("**/*.rs"));
    assert!(!is_exact_path("src/*.rs"));
    assert!(!is_exact_path("src/[ab].rs"));
    assert!(!is_exact_path("src/{a,b}.rs"));
    assert!(!is_exact_path("src/?.rs"));
}

#[test]
fn is_exact_path_handles_escaped_brackets() {
    assert!(is_exact_path("routes/[[]id[]]/page.svelte"));
    assert!(is_exact_path("src/[[]handle[]]/+page.svelte"));
    assert!(is_exact_path("routes/[[]id[]]/[*].svelte"));
    assert!(!is_exact_path("routes/[[]id[]]/*.svelte"));
}

#[test]
fn unescape_glob_reverses_escape() {
    assert_eq!(unescape_glob("foo[*]bar"), "foo*bar");
    assert_eq!(unescape_glob("foo[?]bar"), "foo?bar");
    assert_eq!(unescape_glob("foo[[]bar"), "foo[bar");
    assert_eq!(unescape_glob("foo[]]bar"), "foo]bar");
    assert_eq!(unescape_glob("foo[{]bar"), "foo{bar");
    assert_eq!(unescape_glob("foo[}]bar"), "foo}bar");
    assert_eq!(
        unescape_glob("routes/[[]id[]]/page.svelte"),
        "routes/[id]/page.svelte"
    );
}

#[test]
fn escape_then_unescape_is_identity() {
    let paths = vec![
        "routes/[id]/page.svelte",
        "src/{a,b}/?.rs",
        "plain/path.txt",
        "stars**everywhere",
    ];
    for p in paths {
        let escaped = escape_glob(p);
        assert!(is_exact_path(&escaped));
        assert_eq!(unescape_glob(&escaped), p);
    }
    assert_eq!(escape_glob("foo*bar"), "foo[*]bar");
    assert_eq!(escape_glob("foo[bar"), "foo[[]bar");
}

#[test]
fn escaped_literal_path_matches_itself_only() {
    // Round-trip through the real glob compiler: the escaped pattern
    // matches the literal path and not a lookalike.
    let config = loq::config::LoqConfig {
        default_max_lines: Some(1),
        respect_gitignore: true,
        exclude: vec![escape_glob("routes/[id]/page.svelte")],
        exempt: vec![],
        rules: vec![],
    };
    let compiled = loq::globs::compile_config(
        ConfigOrigin::BuiltIn,
        String::from("."),
        config,
        None,
    )
    .unwrap();
    assert!(compiled
        .exclude_patterns()
        .matches("routes/[id]/page.svelte")
        .is_some());
    assert!(compiled
        .exclude_patterns()
        .matches("routes/x/page.svelte")
        .is_none());
    assert!(compiled
        .exclude_patterns()
        .matches("routes/id/page.svelte")
        .is_none());
}

#[test]
fn normalize_display_path_strips_dot_slash() {
    assert_eq!(normalize_display_path("./src/main.rs"), "src/main.rs");
    assert_eq!(normalize_display_path("src/main.rs"), "src/main.rs");
}

#[test]
fn baseline_capitalize_first_handles_empty() {
    assert_eq!(capitalize_first(""), "");
}

#[test]
fn baseline_shared_capitalize_first_handles_empty() {
    assert_eq!(capitalize_first(""), "");
    assert_eq!(capitalize_first("added 1 file"), "Added 1 file");
}

#[test]
fn stats_has_no_changes() {
    let empty = BaselineStats {
        added: 0,
        updated: 0,
        removed: 0,
    };
    assert!(empty.has_no_changes());

    let not_empty = BaselineStats {
        added: 1,
        updated: 0,
        removed: 0,
    };
    assert!(!not_empty.has_no_changes());
}

#[test]
fn change_summary_joins_parts() {
    let counts = ChangeCounts {
        added: 1,
        updated: 2,
        removed: 0,
    };
    assert_eq!(change_summary(&counts), "added 1 file, updated 2 files");
    let counts = ChangeCounts {
        added: 0,
        updated: 1,
        removed: 0,
    };
    assert_eq!(change_summary(&counts), "updated 1 file");
}

#[test]
fn tighten_delta_saturates() {
    let change = TightenChange {
        path: "a.rs".to_string(),
        from: 200,
        to: 150,
    };
    assert_eq!(change.delta(), 50);
    let report = TightenReport {
        changes: vec![],
        removed: 0,
    };
    assert!(report.is_empty());
    let report = BaselineReport { changes: vec![] };
    assert!(report.is_empty());
}
