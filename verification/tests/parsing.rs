use loq::cache::{hash_config, Cache};
use loq::config::{ConfigOrigin, LoqConfig, Rule, Severity};
use loq::count::{inspect_bytes, FileInspection, LineCounter};
use loq::globs::{compile_config, CompiledConfig, ConfigError};
use loq::initcfg::{default_config_text, gitignore_with_cache_line, BaselineEntry};
use loq::parse::parse_config;

#[test]
fn unknown_key_detection() {
    let text = "default_max_lines = 400\nmax_line = 10\n";
    let err = parse_config(".fence.toml", text).unwrap_err();
    match err {
        ConfigError::UnknownKey {
            key, suggestion, ..
        } => {
            assert_eq!(key, "max_line");
            assert_eq!(suggestion, Some("max_lines".to_string()));
        }
        _ => panic!("expected unknown key"),
    }
}

#[test]
fn rule_severity_defaults_to_error() {
    let text = "default_max_lines = 400\n[[rules]]\npath = \"**/*.rs\"\nmax_lines = 10\n";
    let config = parse_config(".fence.toml", text).unwrap();
    assert_eq!(config.rules.len(), 1);
    assert_eq!(config.rules[0].severity, Severity::Error);
}

#[test]
fn respect_gitignore_defaults_true() {
    let text = "default_max_lines = 400\n";
    let config = parse_config(".fence.toml", text).unwrap();
    assert!(config.respect_gitignore);
}

#[test]
fn invalid_toml_reports_error() {
    let text = "default_max_lines =\n";
    let err = parse_config(".fence.toml", text).unwrap_err();
    match err {
        ConfigError::Toml { .. } => {}
        _ => panic!("expected toml error"),
    }
}

#[test]
fn unknown_key_without_location() {
    let text = "rules = [{ path = \"src/*.rs\", max_lines = 10, max_line = 20 }]\n";
    let err = parse_config(".fence.toml", text).unwrap_err();
    match err {
        ConfigError::UnknownKey { line_col, .. } => {
            assert!(line_col.is_none());
        }
        _ => panic!("expected unknown key"),
    }
}

#[test]
fn unknown_key_without_suggestion() {
    let text = "banana = 1\n";
    let err = parse_config(".fence.toml", text).unwrap_err();
    match err {
        ConfigError::UnknownKey { suggestion, .. } => {
            assert!(suggestion.is_none());
        }
        _ => panic!("expected unknown key"),
    }
}

#[test]
fn unknown_key_location_points_at_key() {
    let text = "default_max_lines = 400\nmax_line = 10\n";
    let err = parse_config("loq.toml", text).unwrap_err();
    match err {
        ConfigError::UnknownKey { line_col, .. } => {
            assert_eq!(line_col, Some((2, 1)));
        }
        _ => panic!("expected unknown key"),
    }
}

#[test]
fn parse_reads_all_fields() {
    let text = "default_max_lines = 7\nrespect_gitignore = false\nexclude = [\"**/*.gen.txt\"]\nexempt = [\"legacy.rs\"]\n[[rules]]\npath = [\"a.rs\", \"b.rs\"]\nmax_lines = 12\nseverity = \"warning\"\n";
    let config = parse_config("loq.toml", text).unwrap();
    assert_eq!(config.default_max_lines, Some(7));
    assert!(!config.respect_gitignore);
    assert_eq!(config.exclude, vec!["**/*.gen.txt".to_string()]);
    assert_eq!(config.exempt, vec!["legacy.rs".to_string()]);
    assert_eq!(config.rules.len(), 2);
    assert_eq!(config.rules[0].path, "a.rs");
    assert_eq!(config.rules[1].path, "b.rs");
    assert_eq!(config.rules[0].max_lines, 12);
    assert_eq!(config.rules[0].severity, Severity::Warning);
}

#[test]
fn negative_limit_is_rejected() {
    let text = "default_max_lines = -4\n";
    let err = parse_config("loq.toml", text).unwrap_err();
    assert!(matches!(err, ConfigError::Toml { .. }));
}

fn make_config(default_max: Option<usize>) -> CompiledConfig {
    let config = LoqConfig {
        default_max_lines: default_max,
        ..LoqConfig::default()
    };
    compile_config(ConfigOrigin::BuiltIn, String::from("."), config, None).unwrap()
}

#[test]
fn empty_cache_returns_none() {
    let cache = Cache::empty();
    assert!(cache.get("foo.rs", 1234, 5).is_none());
}

#[test]
fn insert_and_get() {
    let mut cache = Cache::with_hash(123);
    cache.insert("src/main.rs".to_string(), 1700, 42, 42);
    assert_eq!(cache.get("src/main.rs", 1700, 42), Some(42));
}

#[test]
fn mtime_mismatch_returns_none() {
    let mut cache = Cache::with_hash(123);
    cache.insert("src/main.rs".to_string(), 0, 0, 42);
    assert!(cache.get("src/main.rs", 1700, 42).is_none());
}

#[test]
fn insert_overwrites_and_marks_dirty() {
    let mut cache = Cache::with_hash(9);
    assert!(!cache.is_dirty());
    cache.insert("a".to_string(), 1, 2, 10);
    cache.insert("a".to_string(), 3, 4, 20);
    assert!(cache.is_dirty());
    assert_eq!(cache.get("a", 3, 4), Some(20));
    assert!(cache.get("a", 1, 2).is_none());
    assert_eq!(cache.entries_list().len(), 1);
}

#[test]
fn loaded_cache_rejects_version_and_hash_mismatch() {
    let entries = vec![(
        "a".to_string(),
        loq::cache::CacheEntry {
            mtime_secs: 1,
            mtime_nanos: 2,
            lines: 3,
        },
    )];
    let good = Cache::from_loaded(loq::cache::CACHE_VERSION, 77, entries.clone(), 77);
    assert_eq!(good.get("a", 1, 2), Some(3));
    let stale_hash = Cache::from_loaded(loq::cache::CACHE_VERSION, 76, entries.clone(), 77);
    assert!(stale_hash.get("a", 1, 2).is_none());
    let stale_version = Cache::from_loaded(99, 77, entries, 77);
    assert!(stale_version.get("a", 1, 2).is_none());
}

#[test]
fn hash_config_changes_with_default() {
    let config1 = make_config(Some(500));
    let config2 = make_config(Some(600));
    let config3 = make_config(None);

    let hash1 = hash_config(&config1);
    let hash2 = hash_config(&config2);
    let hash3 = hash_config(&config3);

    assert_ne!(hash1, hash2);
    assert_ne!(hash1, hash3);
    assert_ne!(hash2, hash3);
}

#[test]
fn hash_config_is_stable_for_equal_configs() {
    let config1 = make_config(Some(500));
    let config2 = make_config(Some(500));
    assert_eq!(hash_config(&config1), hash_config(&config2));
}

#[test]
fn count_empty_file() {
    assert_eq!(inspect_bytes(b""), FileInspection::Text { lines: 0 });
}

#[test]
fn count_trailing_newline() {
    assert_eq!(inspect_bytes(b"a\n"), FileInspection::Text { lines: 1 });
}

#[test]
fn count_no_trailing_newline() {
    assert_eq!(inspect_bytes(b"a"), FileInspection::Text { lines: 1 });
}

#[test]
fn count_multiple_lines() {
    assert_eq!(inspect_bytes(b"a\nb\n"), FileInspection::Text { lines: 2 });
}

#[test]
fn count_multiple_lines_no_trailing_newline() {
    assert_eq!(inspect_bytes(b"a\nb"), FileInspection::Text { lines: 2 });
}

#[test]
fn binary_detection_first_chunk() {
    assert_eq!(inspect_bytes(b"\0binary"), FileInspection::Binary);
}

#[test]
fn count_large_file_multiple_chunks() {
    let mut content = Vec::new();
    for i in 0..1000 {
        content.extend_from_slice(format!("line number {i}\n").as_bytes());
    }
    let mut counter = LineCounter::new();
    for chunk in content.chunks(8192) {
        counter.push_chunk(chunk);
    }
    assert_eq!(counter.finish(), FileInspection::Text { lines: 1000 });
}

#[test]
fn count_large_file_no_trailing_newline() {
    let mut content = Vec::new();
    for i in 0..999 {
        content.extend_from_slice(format!("line number {i}\n").as_bytes());
    }
    content.extend_from_slice(b"final line without newline");
    let mut counter = LineCounter::new();
    for chunk in content.chunks(8192) {
        counter.push_chunk(chunk);
    }
    assert_eq!(counter.finish(), FileInspection::Text { lines: 1000 });
}

#[test]
fn default_config_without_baseline() {
    let text = default_config_text(&vec![]);
    assert!(text.contains("default_max_lines = 500"));
    assert!(text.contains("respect_gitignore = true"));
    assert!(text.contains("exclude = []"));
    assert!(text.contains("# [[rules]]"));
    assert!(text.contains("# max_lines = 1000"));
}

#[test]
fn default_config_with_baseline() {
    let entries = vec![
        BaselineEntry {
            path: "src/large.rs".to_string(),
            lines: 1200,
        },
        BaselineEntry {
            path: "lib/util.rs".to_string(),
            lines: 800,
        },
    ];
    let text = default_config_text(&entries);
    assert!(text.contains("default_max_lines = 500"));
    assert!(text.contains("# Baseline: files locked at current size"));
    assert!(text.contains("path = \"src/large.rs\""));
    assert!(text.contains("max_lines = 1200"));
    assert!(text.contains("path = \"lib/util.rs\""));
    assert!(text.contains("max_lines = 800"));
    assert!(!text.contains("# [[rules]]"));
}

#[test]
fn generated_config_parses_back() {
    let text = default_config_text(&vec![BaselineEntry {
        path: "src/big.rs".to_string(),
        lines: 999,
    }]);
    let config = parse_config("loq.toml", &text).unwrap();
    assert_eq!(config.default_max_lines, Some(500));
    assert_eq!(config.rules.len(), 1);
    assert_eq!(config.rules[0].path, "src/big.rs");
    assert_eq!(config.rules[0].max_lines, 999);
}

#[test]
fn gitignore_gains_cache_line_once() {
    let updated = gitignore_with_cache_line("node_modules\n").unwrap();
    assert_eq!(updated, "node_modules\n.loq_cache\n");
    assert!(gitignore_with_cache_line(&updated).is_none());
    let updated = gitignore_with_cache_line("node_modules").unwrap();
    assert_eq!(updated, "node_modules\n.loq_cache\n");
    let updated = gitignore_with_cache_line("").unwrap();
    assert_eq!(updated, ".loq_cache\n");
}

#[test]
fn collect_violations_normalizes_paths() {
    let outcomes = vec![loq::report::FileOutcome {
        path: "./src/a.rs".to_string(),
        display_path: "./src/a.rs".to_string(),
        config_source: ConfigOrigin::BuiltIn,
        kind: loq::report::OutcomeKind::Violation {
            limit: 10,
            actual: 15,
            severity: Severity::Error,
            matched_by: loq::decide::MatchBy::Default,
        },
    }];
    let violations = loq::baseline::collect_violations(&outcomes);
    assert_eq!(violations.len(), 1);
    assert_eq!(violations[0].0, "src/a.rs");
    assert_eq!(violations[0].1, 15);
}

#[test]
fn literal_matcher_matches_only_the_literal() {
    let matcher = loq::globs::compile_literal_matcher("routes/[id]/page.svelte").unwrap();
    assert!(matcher.is_match("routes/[id]/page.svelte"));
    assert!(!matcher.is_match("routes/x/page.svelte"));
    assert!(!matcher.is_match("routes/id/page.svelte"));
    assert!(!matcher.is_match("routes/[id]/page.sveltex"));
}

#[test]
fn compile_error_names_first_bad_pattern() {
    let config = LoqConfig {
        default_max_lines: Some(1),
        respect_gitignore: true,
        exclude: vec!["ok/*.rs".to_string()],
        exempt: vec!["[[".to_string(), "[also-bad".to_string()],
        rules: vec![],
    };
    let err = compile_config(ConfigOrigin::BuiltIn, String::from("."), config, None).unwrap_err();
    match err {
        ConfigError::Glob { path, pattern, .. } => {
            assert_eq!(pattern, "[[");
            assert_eq!(path, "<built-in defaults>");
        }
        _ => panic!("expected glob error"),
    }
}

#[test]
fn line_col_counts_bytes_not_chars() {
    // "a" (1 byte), "\u{e9}" (2 bytes), "\n" (1 byte), "b": byte offset 4 is
    // the start of "b" on line 2.
    let text = "a\u{e9}\nb";
    assert_eq!(loq::parse::line_col_from_offset(text, 0), Some((1, 1)));
    assert_eq!(loq::parse::line_col_from_offset(text, 1), Some((1, 2)));
    assert_eq!(loq::parse::line_col_from_offset(text, 3), Some((1, 3)));
    assert_eq!(loq::parse::line_col_from_offset(text, 4), Some((2, 1)));
    assert_eq!(loq::parse::line_col_from_offset(text, 5), Some((2, 2)));
    assert_eq!(loq::parse::line_col_from_offset(text, 6), None);
}

#[test]
fn relative_to_strips_root() {
    assert_eq!(loq::walk::relative_to("/repo/src/a.rs", "/repo"), "src/a.rs");
    assert_eq!(loq::walk::relative_to("/repo/a.rs", "/repo/src"), "../a.rs");
}

#[test]
fn oversize_pattern_is_refused() {
    let config = LoqConfig {
        default_max_lines: Some(1),
        respect_gitignore: true,
        exclude: vec!["x".repeat(loq::globs::MAX_GLOB_PATTERN_LEN + 1)],
        exempt: vec![],
        rules: vec![],
    };
    let err = compile_config(ConfigOrigin::BuiltIn, String::from("."), config, None).unwrap_err();
    match err {
        ConfigError::Glob { pattern, message, .. } => {
            assert_eq!(pattern.len(), loq::globs::MAX_GLOB_PATTERN_LEN + 1);
            assert!(message.contains("longer than the supported maximum"));
        }
        _ => panic!("expected glob error"),
    }
}

#[test]
fn fingerprint_separates_pattern_boundaries() {
    // One rule whose pattern embeds the fingerprint's separators must not
    // hash like two rules spliced at those separators.
    let one = LoqConfig {
        default_max_lines: Some(500),
        respect_gitignore: true,
        exclude: vec![],
        exempt: vec![],
        rules: vec![Rule {
            path: "a,5;r:b".to_string(),
            max_lines: 3,
            severity: Severity::Error,
        }],
    };
    let two = LoqConfig {
        default_max_lines: Some(500),
        respect_gitignore: true,
        exclude: vec![],
        exempt: vec![],
        rules: vec![
            Rule {
                path: "a".to_string(),
                max_lines: 5,
                severity: Severity::Error,
            },
            Rule {
                path: "b".to_string(),
                max_lines: 3,
                severity: Severity::Error,
            },
        ],
    };
    let one = compile_config(ConfigOrigin::BuiltIn, String::from("."), one, None).unwrap();
    let two = compile_config(ConfigOrigin::BuiltIn, String::from("."), two, None).unwrap();
    assert_ne!(hash_config(&one), hash_config(&two));
}
