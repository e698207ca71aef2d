use loq::git::{
    classify_git_failure, command_error_text, is_not_repository, parse_paths,
    spawn_error_to_git_error, GitError, GitFilter,
};
use loq::inputs::{
    check_filter, collect_inputs, git_error_message, normalize_components, output_mode,
    plan_inputs, read_paths, CheckArgs, Cli, JsonFilter, OutputFormat, OutputMode,
};

fn args() -> CheckArgs {
    CheckArgs {
        paths: vec![],
        stdin: false,
        no_cache: false,
        staged: false,
        diff_ref: None,
        output_format: OutputFormat::Text,
    }
}

#[test]
fn lib_output_mode_precedence() {
    let cli = Cli {
        command: None,
        quiet: true,
        silent: true,
        verbose: true,
        config: None,
    };
    assert_eq!(output_mode(&cli), OutputMode::Silent);
}

#[test]
fn check_output_mode_precedence() {
    let cli = Cli {
        command: None,
        quiet: true,
        silent: true,
        verbose: true,
        config: None,
    };
    assert_eq!(output_mode(&cli), OutputMode::Silent);
    let cli = Cli {
        command: None,
        quiet: true,
        silent: false,
        verbose: true,
        config: None,
    };
    assert_eq!(output_mode(&cli), OutputMode::Quiet);
}

#[test]
fn tests_git_error_message_for_not_repository() {
    let message = git_error_message(&JsonFilter::Staged, GitError::NotRepository);
    assert_eq!(message, "--staged requires a git repository");
}

#[test]
fn tests_git_error_message_for_git_not_available() {
    let message = git_error_message(&JsonFilter::Staged, GitError::GitNotAvailable);
    assert_eq!(message, "--staged requires git, but git is not available");
}

#[test]
fn git_error_message_for_io_error() {
    let message = git_error_message(
        &JsonFilter::Diff {
            git_ref: "main".to_string(),
        },
        GitError::Io("boom".to_string()),
    );
    assert_eq!(message, "git failed: boom");
}

#[test]
fn git_error_message_for_command_failure() {
    let message = git_error_message(
        &JsonFilter::Diff {
            git_ref: "main".to_string(),
        },
        GitError::CommandFailed {
            stderr: "bad revision".to_string(),
        },
    );
    assert_eq!(message, "git failed: bad revision");
}

#[test]
fn to_git_filter_maps_staged() {
    let filter = loq::inputs::to_git_filter(&JsonFilter::Staged);
    assert_eq!(filter, GitFilter::Staged);
}

#[test]
fn to_git_filter_maps_diff_ref() {
    let filter = loq::inputs::to_git_filter(&JsonFilter::Diff {
        git_ref: "main".to_string(),
    });
    assert_eq!(
        filter,
        GitFilter::Diff {
            git_ref: "main".to_string(),
        }
    );
}

#[test]
fn check_filter_prefers_staged() {
    let mut a = args();
    a.staged = true;
    a.diff_ref = Some("main".to_string());
    assert_eq!(check_filter(&a), Some(JsonFilter::Staged));
}

#[test]
fn check_filter_uses_diff_ref() {
    let mut a = args();
    a.diff_ref = Some("main".to_string());
    assert_eq!(
        check_filter(&a),
        Some(JsonFilter::Diff {
            git_ref: "main".to_string(),
        })
    );
}

#[test]
fn command_error_prefers_stderr() {
    let text = command_error_text(b"bad ref\n", b"ignored\n");
    assert_eq!(text, "bad ref");
}

#[test]
fn command_error_uses_stdout_when_stderr_is_empty() {
    let text = command_error_text(b"", b"fatal from stdout\n");
    assert_eq!(text, "fatal from stdout");
}

#[test]
fn command_error_falls_back_to_unknown() {
    let text = command_error_text(b"", b"");
    assert_eq!(text, "unknown git error");
}

#[test]
fn not_repository_detection_is_case_insensitive() {
    assert!(is_not_repository("FATAL: Not a git repository"));
}

#[test]
fn not_repository_detection_matches_no_index_usage() {
    assert!(is_not_repository("usage: git diff --no-index [<options>]"));
}

#[test]
fn not_repository_detection_matches_work_tree_message() {
    assert!(is_not_repository(
        "fatal: this operation must be run in a work tree"
    ));
}

#[test]
fn classify_git_failure_uses_command_failed_for_other_errors() {
    let error = classify_git_failure("fatal: bad revision 'nope'".to_string());
    assert!(matches!(error, GitError::CommandFailed { .. }));
}

#[test]
fn spawn_error_maps_notfound_to_git_not_available() {
    let mapped = spawn_error_to_git_error(true, "entity not found".to_string());
    assert!(matches!(mapped, GitError::GitNotAvailable));
    let mapped = spawn_error_to_git_error(false, "interrupted".to_string());
    assert!(matches!(mapped, GitError::Io(_)));
}

#[test]
fn parse_paths_resolves_relative_paths() {
    let output = b"src/main.rs\0README.md\0";
    let paths = parse_paths(output, "/repo");
    assert_eq!(
        paths,
        vec!["/repo/src/main.rs".to_string(), "/repo/README.md".to_string()]
    );
}

#[test]
fn parse_paths_preserves_absolute_paths() {
    let output = b"/tmp/a.rs\0";
    let paths = parse_paths(output, "/repo");
    assert_eq!(paths, vec!["/tmp/a.rs".to_string()]);
}

#[test]
fn parse_paths_keeps_utf8_bytes_without_quoting() {
    let output = b"caf\xC3\xA9.rs\0";
    let paths = parse_paths(output, "/repo");
    assert_eq!(paths, vec!["/repo/caf\u{e9}.rs".to_string()]);
}

#[test]
fn stdin_reads_stdin_list() {
    let paths = read_paths("src/a.rs\n\n./b.rs\n", "/repo");
    assert_eq!(paths.len(), 2);
    assert_eq!(paths[0], "/repo/src/a.rs");
    assert_eq!(paths[1], "/repo/./b.rs");
}

#[test]
fn absolute_paths_preserved() {
    let paths = read_paths("/absolute/path.rs\nrelative.rs\n", "/repo");
    assert_eq!(paths.len(), 2);
    assert_eq!(paths[0], "/absolute/path.rs");
    assert_eq!(paths[1], "/repo/relative.rs");
}

#[test]
fn collect_inputs_reports_stdin_error() {
    let err = collect_inputs(vec![], true, Err("fail".to_string()), ".", None).unwrap_err();
    assert!(err.contains("failed to read stdin"));
}

#[test]
fn collect_inputs_empty_defaults_to_cwd() {
    let result = collect_inputs(vec![], false, Ok(String::new()), "/repo", None).unwrap();
    assert_eq!(result, vec![".".to_string()]);
}

#[test]
fn collect_inputs_stdin_only_no_default() {
    let result = collect_inputs(vec![], true, Ok(String::new()), "/repo", None).unwrap();
    assert!(result.is_empty());
}

#[test]
fn collect_inputs_stdin_with_paths() {
    let result = collect_inputs(
        vec![],
        true,
        Ok("file1.rs\nfile2.rs\n".to_string()),
        "/repo",
        None,
    )
    .unwrap();
    assert_eq!(result.len(), 2);
    assert_eq!(result[0], "/repo/file1.rs");
    assert_eq!(result[1], "/repo/file2.rs");
}

#[test]
fn collect_inputs_mixed_paths_and_stdin() {
    let result = collect_inputs(
        vec!["explicit.rs".to_string()],
        true,
        Ok("from_stdin.rs\n".to_string()),
        "/repo",
        None,
    )
    .unwrap();
    assert_eq!(result.len(), 2);
    assert!(result.contains(&"explicit.rs".to_string()));
    assert!(result.contains(&"/repo/from_stdin.rs".to_string()));
}

#[test]
fn collect_inputs_uses_git_paths_when_no_path_filters() {
    let git_paths = vec!["/repo/src/a.rs".to_string()];
    let result = collect_inputs(
        vec![],
        false,
        Ok(String::new()),
        "/repo",
        Some(git_paths.clone()),
    )
    .unwrap();
    assert_eq!(result, git_paths);
}

#[test]
fn collect_inputs_intersects_git_paths_with_selected_paths() {
    let result = collect_inputs(
        vec!["src".to_string()],
        false,
        Ok(String::new()),
        "/repo",
        Some(vec![
            "/repo/src/a.rs".to_string(),
            "/repo/lib/b.rs".to_string(),
        ]),
    )
    .unwrap();
    assert_eq!(result, vec!["/repo/src/a.rs".to_string()]);
}

#[test]
fn collect_inputs_intersects_git_paths_with_absolute_selected_path() {
    let result = collect_inputs(
        vec!["/repo/src".to_string()],
        false,
        Ok(String::new()),
        "/repo",
        Some(vec![
            "/repo/src/a.rs".to_string(),
            "/repo/lib/b.rs".to_string(),
        ]),
    )
    .unwrap();
    assert_eq!(result, vec!["/repo/src/a.rs".to_string()]);
}

#[test]
fn collect_inputs_git_intersection_can_be_empty() {
    let result = collect_inputs(
        vec!["src".to_string()],
        false,
        Ok(String::new()),
        "/repo",
        Some(vec!["/repo/lib/b.rs".to_string()]),
    )
    .unwrap();
    assert!(result.is_empty());
}

#[test]
fn plan_inputs_rejects_stdin_with_git_filter() {
    let mut a = args();
    a.stdin = true;
    a.staged = true;
    let result = plan_inputs(&a, Ok("a.rs\n".to_string()), "/repo", Ok(vec![]));
    let err = match result {
        Ok(_) => panic!("expected stdin/filter conflict"),
        Err(err) => err,
    };
    assert!(err.contains("cannot combine '-'"));
}

#[test]
fn normalize_components_handles_current_and_parent_segments() {
    let normalized = normalize_components("./src/nested/../file.rs");
    assert_eq!(normalized, "src/file.rs");
}

#[test]
fn sorted_dedup_is_stable_and_unique() {
    let paths = vec![
        "b.txt".to_string(),
        "a.txt".to_string(),
        "b.txt".to_string(),
        "c.txt".to_string(),
        "a.txt".to_string(),
    ];
    let result = loq::walk::sort_dedup_paths(paths);
    assert_eq!(
        result,
        vec!["a.txt".to_string(), "b.txt".to_string(), "c.txt".to_string()]
    );
}
