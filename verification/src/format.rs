//! Human-readable output formatting.
//!
//! Builds the text of findings, summaries, and labels. Every function's
//! result is specified exactly, character for character.

use vstd::prelude::*;
use crate::config::{ConfigOrigin, Severity};
use crate::report::{Finding, FindingKind, SkipReason, Summary};
use crate::strutil::{dec_str, rfind_char, u64_to_string, usize_to_string};

verus! {

/// The label for a severity: `error` or `warning`.
pub open spec fn severity_label_spec(s: Severity) -> Seq<char> {
    match s {
        Severity::Error => "error"@,
        Severity::Warning => "warning"@,
    }
}

/// Returns `error` or `warning`.
pub fn severity_label(severity: Severity) -> (r: &'static str)
    ensures
        r@ == severity_label_spec(severity),
{
    match severity {
        Severity::Error => "error",
        Severity::Warning => "warning",
    }
}

/// The text of a violation line:
/// `{label}[max-lines]: {path}: {actual} lines (limit: {limit}, +{over} over)`.
pub open spec fn violation_text(
    severity: Severity,
    path: Seq<char>,
    actual: nat,
    limit: nat,
    over_by: nat,
) -> Seq<char> {
    severity_label_spec(severity) + "[max-lines]: "@ + path + ": "@ + dec_str(actual)
        + " lines (limit: "@ + dec_str(limit) + ", +"@ + dec_str(over_by) + " over)"@
}

/// Formats a violation message.
pub fn format_violation(
    severity: Severity,
    path: &str,
    actual: usize,
    limit: usize,
    over_by: usize,
) -> (r: String)
    ensures
        r@ == violation_text(severity, path@, actual as nat, limit as nat, over_by as nat),
{
    let mut r = severity_label(severity).to_owned();
    r.append("[max-lines]: ");
    r.append(path);
    r.append(": ");
    r.append(usize_to_string(actual).as_str());
    r.append(" lines (limit: ");
    r.append(usize_to_string(limit).as_str());
    r.append(", +");
    r.append(usize_to_string(over_by).as_str());
    r.append(" over)");
    r
}

/// The text of a skip warning line.
pub open spec fn skip_warning_text(path: Seq<char>, reason: SkipReason) -> Seq<char> {
    match reason {
        SkipReason::Binary => "warning[skip-binary]: "@ + path + ": binary file skipped"@,
        SkipReason::Unreadable(error) => "warning[skip-unreadable]: "@ + path
            + ": unreadable file skipped ("@ + error@ + ")"@,
        SkipReason::Missing => "warning[skip-missing]: "@ + path + ": missing file skipped"@,
    }
}

/// Formats a skip warning message.
pub fn format_skip_warning(path: &str, reason: &SkipReason) -> (r: String)
    ensures
        r@ == skip_warning_text(path@, *reason),
{
    match reason {
        SkipReason::Binary => {
            let mut r = "warning[skip-binary]: ".to_owned();
            r.append(path);
            r.append(": binary file skipped");
            r
        },
        SkipReason::Unreadable(error) => {
            let mut r = "warning[skip-unreadable]: ".to_owned();
            r.append(path);
            r.append(": unreadable file skipped (");
            r.append(error.as_str());
            r.append(")");
            r
        },
        SkipReason::Missing => {
            let mut r = "warning[skip-missing]: ".to_owned();
            r.append(path);
            r.append(": missing file skipped");
            r
        },
    }
}

/// The text of one finding: a violation line or a skip warning line.
pub open spec fn finding_text(f: Finding) -> Seq<char> {
    match f.kind {
        FindingKind::Violation { severity, limit, actual, over_by, .. } => violation_text(
            severity,
            f.path@,
            actual as nat,
            limit as nat,
            over_by as nat,
        ),
        FindingKind::SkipWarning { reason } => skip_warning_text(f.path@, reason),
    }
}

/// Formats a finding for display.
pub fn format_finding(finding: &Finding) -> (r: String)
    ensures
        r@ == finding_text(*finding),
{
    match &finding.kind {
        FindingKind::Violation { severity, limit, actual, over_by, .. } => format_violation(
            *severity,
            finding.path.as_str(),
            *actual,
            *limit,
            *over_by,
        ),
        FindingKind::SkipWarning { reason } => format_skip_warning(finding.path.as_str(), reason),
    }
}

/// `error` when the count is one, else `errors`.
pub open spec fn error_word(n: nat) -> Seq<char> {
    if n == 1 {
        "error"@
    } else {
        "errors"@
    }
}

/// `warning` when the count is one, else `warnings`.
pub open spec fn warning_word(n: nat) -> Seq<char> {
    if n == 1 {
        "warning"@
    } else {
        "warnings"@
    }
}

/// The text of the summary line: `{total} files checked, {skipped} skipped,
/// {passed} passed, {errors} error(s), {warnings} warning(s) ({ms}ms)`.
pub open spec fn summary_text(s: Summary) -> Seq<char> {
    dec_str(s.total as nat) + " files checked, "@ + dec_str(s.skipped as nat) + " skipped, "@
        + dec_str(s.passed as nat) + " passed, "@ + dec_str(s.errors as nat) + " "@ + error_word(
        s.errors as nat,
    ) + ", "@ + dec_str(s.warnings as nat) + " "@ + warning_word(s.warnings as nat) + " ("@
        + dec_str(s.duration_ms as nat) + "ms)"@
}

/// Formats the summary line with counts.
pub fn format_summary(summary: &Summary) -> (r: String)
    ensures
        r@ == summary_text(*summary),
{
    let mut r = usize_to_string(summary.total);
    r.append(" files checked, ");
    r.append(usize_to_string(summary.skipped).as_str());
    r.append(" skipped, ");
    r.append(usize_to_string(summary.passed).as_str());
    r.append(" passed, ");
    r.append(usize_to_string(summary.errors).as_str());
    r.append(" ");
    if summary.errors == 1 {
        r.append("error");
    } else {
        r.append("errors");
    }
    r.append(", ");
    r.append(usize_to_string(summary.warnings).as_str());
    r.append(" ");
    if summary.warnings == 1 {
        r.append("warning");
    } else {
        r.append("warnings");
    }
    r.append(" (");
    r.append(u64_to_string(summary.duration_ms).as_str());
    r.append("ms)");
    r
}

/// The text of the all-passed line: `All checks passed! ({n} files in {ms}ms)`.
pub open spec fn success_text(s: Summary) -> Seq<char> {
    "All checks passed! ("@ + dec_str(s.total as nat) + " files in "@ + dec_str(
        s.duration_ms as nat,
    ) + "ms)"@
}

/// Formats a success message when all checks pass.
pub fn format_success(summary: &Summary) -> (r: String)
    ensures
        r@ == success_text(*summary),
{
    let mut r = "All checks passed! (".to_owned();
    r.append(usize_to_string(summary.total).as_str());
    r.append(" files in ");
    r.append(u64_to_string(summary.duration_ms).as_str());
    r.append("ms)");
    r
}

/// The name a configuration origin is shown under: `<built-in>`, or the last
/// path segment of the configuration file.
pub open spec fn origin_display(o: ConfigOrigin) -> Seq<char> {
    match o {
        ConfigOrigin::BuiltIn => "<built-in>"@,
        ConfigOrigin::File(path) => match rfind_char(path@, '/') {
            Some(i) => path@.skip(i + 1),
            None => path@,
        },
    }
}

/// Shows where a configuration came from: `<built-in>` or the file's name.
pub fn relative_config_path(origin: &ConfigOrigin) -> (r: String)
    ensures
        r@ == origin_display(*origin),
{
    match origin {
        ConfigOrigin::BuiltIn => "<built-in>".to_owned(),
        ConfigOrigin::File(path) => {
            let s = path.as_str();
            match crate::strutil::str_rfind(s, '/') {
                Some(i) => {
                    let n = s.unicode_len();
                    proof {
                        crate::strutil::lemma_rfind_char(s@, '/');
                    }
                    let tail = s.substring_char(i + 1, n);
                    proof {
                        assert(tail@ =~= s@.skip(i as int + 1));
                    }
                    tail.to_owned()
                },
                None => path.clone(),
            }
        },
    }
}

/// The text a syntax error is reported with: `path:line:col - message`, or
/// `path - message` when no location is known.
pub open spec fn toml_error_text(
    path: Seq<char>,
    line_col: Option<(usize, usize)>,
    message: Seq<char>,
) -> Seq<char> {
    match line_col {
        Some((l, c)) => path + ":"@ + dec_str(l as nat) + ":"@ + dec_str(c as nat) + " - "@
            + message,
        None => path + " - "@ + message,
    }
}

/// Formats a configuration syntax error with its location when one is known.
pub fn format_toml_error(path: &str, line_col: &Option<(usize, usize)>, message: &str) -> (r:
    String)
    ensures
        r@ == toml_error_text(path@, *line_col, message@),
{
    let mut r = path.to_owned();
    match line_col {
        Some((l, c)) => {
            r.append(":");
            r.append(usize_to_string(*l).as_str());
            r.append(":");
            r.append(usize_to_string(*c).as_str());
            r.append(" - ");
        },
        None => {
            r.append(" - ");
        },
    }
    r.append(message);
    r
}

/// The text an unknown key is reported with: the syntax-error line for
/// `unknown key '<key>'`, then a `did you mean` hint when a suggestion
/// exists.
pub open spec fn unknown_key_text(
    path: Seq<char>,
    key: Seq<char>,
    line_col: Option<(usize, usize)>,
    suggestion: Option<Seq<char>>,
) -> Seq<char> {
    let base = toml_error_text(path, line_col, "unknown key '"@ + key + "'"@);
    match suggestion {
        Some(s) => base + "\n       did you mean '"@ + s + "'?"@,
        None => base,
    }
}

/// Formats an unknown-key error, with a suggestion when one is close enough.
pub fn format_unknown_key_error(
    path: &str,
    key: &str,
    line_col: &Option<(usize, usize)>,
    suggestion: &Option<String>,
) -> (r: String)
    ensures
        r@ == unknown_key_text(path@, key@, *line_col, match suggestion {
            Some(s) => Some(s@),
            None => None,
        }),
{
    let mut msg = "unknown key '".to_owned();
    msg.append(key);
    msg.append("'");
    let mut r = format_toml_error(path, line_col, msg.as_str());
    match suggestion {
        Some(s) => {
            r.append("\n       did you mean '");
            r.append(s.as_str());
            r.append("'?");
        },
        None => {},
    }
    proof {
        assert(r@ =~= unknown_key_text(path@, key@, *line_col, match suggestion {
            Some(s) => Some(s@),
            None => None::<Seq<char>>,
        }));
    }
    r
}


} // verus!
