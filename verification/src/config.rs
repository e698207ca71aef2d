//! Configuration types: severity levels, per-path rules, and the parsed
//! configuration with its built-in defaults.

use vstd::prelude::*;

verus! {

/// Default line limit used when no configuration file is found.
pub const DEFAULT_MAX_LINES: usize = 500;

/// Violation severity level.
#[derive(Debug, Clone, Copy, PartialEq, Eq, Structural)]
pub enum Severity {
    /// Causes a failing exit status.
    Error,
    /// Reported but does not fail the check.
    Warning,
}

/// A path-specific line limit rule.
#[derive(Debug, Clone)]
pub struct Rule {
    /// Glob pattern to match files (e.g., `**/*.rs`).
    pub path: String,
    /// Maximum allowed lines for matched files.
    pub max_lines: usize,
    /// Severity when the limit is exceeded.
    pub severity: Severity,
}

/// Parsed configuration (before glob compilation).
#[derive(Debug, Clone)]
pub struct LoqConfig {
    /// Default line limit for files not matching any rule.
    pub default_max_lines: Option<usize>,
    /// Whether to skip files matched by `.gitignore`.
    pub respect_gitignore: bool,
    /// Glob patterns for files to completely skip (not counted).
    pub exclude: Vec<String>,
    /// Glob patterns for files to exempt (counted but not checked).
    pub exempt: Vec<String>,
    /// Path-specific rules (last match wins).
    pub rules: Vec<Rule>,
}

impl Default for LoqConfig {
    /// The built-in defaults: a limit of `DEFAULT_MAX_LINES` lines,
    /// gitignore respected, and no patterns or rules.
    fn default() -> (c: Self)
        ensures
            c.default_max_lines == Some(DEFAULT_MAX_LINES),
            c.respect_gitignore == true,
            c.exclude@.len() == 0,
            c.exempt@.len() == 0,
            c.rules@.len() == 0,
    {
        LoqConfig {
            default_max_lines: Some(DEFAULT_MAX_LINES),
            respect_gitignore: true,
            exclude: Vec::new(),
            exempt: Vec::new(),
            rules: Vec::new(),
        }
    }
}

impl LoqConfig {
    /// Returns the built-in defaults used when no config file is found.
    pub fn built_in_defaults() -> (c: Self)
        ensures
            c.default_max_lines == Some(DEFAULT_MAX_LINES),
            c.respect_gitignore == true,
            c.exclude@.len() == 0,
            c.exempt@.len() == 0,
            c.rules@.len() == 0,
    {
        Self::default()
    }

    /// Returns a template configuration with two example rules.
    pub fn init_template() -> (c: Self)
        ensures
            c.default_max_lines == Some(DEFAULT_MAX_LINES),
            c.respect_gitignore == true,
            c.exclude@.len() == 0,
            c.exempt@.len() == 0,
            c.rules@.len() == 2,
            c.rules@[0].path@ == "**/*.tsx"@,
            c.rules@[0].max_lines == 300,
            c.rules@[0].severity == Severity::Warning,
            c.rules@[1].path@ == "tests/**/*"@,
            c.rules@[1].max_lines == 500,
            c.rules@[1].severity == Severity::Error,
    {
        let mut rules: Vec<Rule> = Vec::new();
        rules.push(Rule {
            path: String::from_str("**/*.tsx"),
            max_lines: 300,
            severity: Severity::Warning,
        });
        rules.push(Rule {
            path: String::from_str("tests/**/*"),
            max_lines: 500,
            severity: Severity::Error,
        });
        LoqConfig {
            default_max_lines: Some(DEFAULT_MAX_LINES),
            respect_gitignore: true,
            exclude: Vec::new(),
            exempt: Vec::new(),
            rules,
        }
    }
}

/// Where a configuration came from.
#[derive(Debug, Clone)]
pub enum ConfigOrigin {
    /// Using built-in defaults (no config file found).
    BuiltIn,
    /// Loaded from a specific file path.
    File(String),
}

} // verus!
