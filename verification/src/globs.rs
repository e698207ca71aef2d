//! Compiled glob patterns.
//!
//! Pattern matching itself is done by the `globset` crate; the library speaks
//! of it through two named spec functions: `matcher_glob` (the pattern a
//! matcher was compiled from) and `glob_match` (whether a pattern matches a
//! path). Everything layered on top — pattern lists, rules, the compiled
//! configuration — is verified against those names.

use vstd::prelude::*;
use crate::config::{ConfigOrigin, LoqConfig, Rule, Severity};
use crate::edit::escape_seq;

verus! {

#[verifier::external_type_specification]
#[verifier::external_body]
pub struct ExGlobMatcher(globset::GlobMatcher);

/// The pattern a compiled matcher was built from.
pub uninterp spec fn matcher_glob(m: globset::GlobMatcher) -> Seq<char>;

/// Whether a glob pattern matches a path, as `globset` decides it.
pub uninterp spec fn glob_match(pattern: Seq<char>, path: Seq<char>) -> bool;

/// Whether `globset` accepts a pattern: acceptance depends on the pattern
/// text alone.
pub uninterp spec fn glob_ok(pattern: Seq<char>) -> bool;

/// The longest glob pattern the library compiles, in characters. The bound
/// keeps the compiled program far below `globset`'s fixed size cap, which
/// aborts compilation when exceeded; configuration patterns are a few dozen
/// characters.
pub const MAX_GLOB_PATTERN_LEN: usize = 16384;

/// A pattern the library will compile: within the supported length, and
/// accepted by `globset`.
pub open spec fn pattern_ok(p: Seq<char>) -> bool {
    p.len() <= MAX_GLOB_PATTERN_LEN && glob_ok(p)
}

/// Relies on `globset::GlobMatcher` being a plain compiled value: cloning it
/// keeps the pattern it was compiled from.
pub assume_specification[ <globset::GlobMatcher as Clone>::clone ](
    m: &globset::GlobMatcher,
) -> (r: globset::GlobMatcher)
    ensures
        matcher_glob(r) == matcher_glob(*m),
;

/// Relies on `globset::Glob::new` and `Glob::compile_matcher`: whether a
/// pattern is accepted depends on its text alone, and a successfully
/// compiled matcher matches paths according to its pattern alone. A literal
/// path escaped as `escape_seq` writes it — each `*?[]{}` wrapped in a
/// one-character class, exactly `globset::escape`'s documented mapping —
/// always parses, and matches that literal path and no other, provided the
/// literal holds no backslash (under the default options a backslash in a
/// pattern escapes the character after it; the match clause, like the
/// relative-path function, reads paths under this build's path syntax).
/// The length bound keeps the compiled program far below `globset`'s fixed
/// size cap, past which `compile_matcher` would abort.
#[verifier::external_body]
fn compile_glob_matcher(pattern: &str) -> (r: Result<globset::GlobMatcher, String>)
    requires
        pattern@.len() <= MAX_GLOB_PATTERN_LEN,
    ensures
        (r is Ok) == glob_ok(pattern@),
        r is Ok ==> matcher_glob(r->Ok_0) == pattern@,
        forall|lit: Seq<char>|
            pattern@ == #[trigger] escape_seq(lit) && !lit.contains('\\') ==> r is Ok,
        forall|lit: Seq<char>, p: Seq<char>|
            r is Ok && pattern@ == #[trigger] escape_seq(lit) && !lit.contains('\\') ==> (
            #[trigger] glob_match(pattern@, p)) == (p == lit),
{
    match globset::Glob::new(pattern) {
        Ok(glob) => Ok(glob.compile_matcher()),
        Err(err) => Err(err.to_string()),
    }
}

/// Compiles a matcher for exactly one literal path: the path is escaped so
/// its glob metacharacters count as literal text. For a path within the
/// supported length and without backslashes (the library normalizes
/// separators to `/` before matching), compilation succeeds and the matcher
/// accepts that path and no other, candidates read under this build's path
/// syntax.
pub fn compile_literal_matcher(path: &str) -> (r: Result<globset::GlobMatcher, String>)
    ensures
        !path@.contains('\\') && 3 * path@.len() <= MAX_GLOB_PATTERN_LEN ==> r is Ok,
        r is Ok ==> matcher_glob(r->Ok_0) == escape_seq(path@),
        r is Ok && !path@.contains('\\') ==> forall|p: Seq<char>| #[trigger] glob_match(
            matcher_glob(r->Ok_0),
            p,
        ) == (p == path@),
{
    if path.unicode_len() > MAX_GLOB_PATTERN_LEN / 3 {
        return Err("the path is longer than the supported maximum".to_owned());
    }
    proof {
        crate::edit::lemma_escape_seq_len(path@);
    }
    let escaped = crate::edit::escape_glob(path);
    let r = compile_glob_matcher(escaped.as_str());
    proof {
        if r is Ok && !path@.contains('\\') {
            assert forall|p: Seq<char>| #[trigger] glob_match(matcher_glob(r->Ok_0), p) == (p
                == path@) by {
                assert(escaped@ == escape_seq(path@));
            }
        }
    }
    r
}

/// Relies on `globset::GlobMatcher::is_match`: deterministic in the matcher's
/// pattern and the path.
#[verifier::external_body]
fn matcher_is_match(m: &globset::GlobMatcher, path: &str) -> (r: bool)
    ensures
        r == glob_match(matcher_glob(*m), path@),
{
    m.is_match(path)
}

/// A single compiled glob pattern.
#[derive(Debug, Clone)]
pub struct PatternMatcher {
    pub pattern: String,
    pub matcher: globset::GlobMatcher,
}

impl PatternMatcher {
    /// The matcher really was compiled from the stored pattern.
    pub open spec fn wf(self) -> bool {
        matcher_glob(self.matcher) == self.pattern@
    }
}

/// The index of the first pattern in `pats` that the library will not
/// compile — over the length bound, or rejected by `globset` — if any.
pub open spec fn first_bad_pattern(pats: Seq<Seq<char>>) -> Option<int>
    decreases pats.len(),
{
    if pats.len() == 0 {
        None
    } else if !pattern_ok(pats[0]) {
        Some(0int)
    } else {
        match first_bad_pattern(pats.skip(1)) {
            None => None,
            Some(i) => Some(i + 1),
        }
    }
}

/// The index of the first pattern in `pats` that matches `path`, if any.
pub open spec fn first_match_index(pats: Seq<Seq<char>>, path: Seq<char>) -> Option<int>
    decreases pats.len(),
{
    if pats.len() == 0 {
        None
    } else if glob_match(pats[0], path) {
        Some(0int)
    } else {
        match first_match_index(pats.skip(1), path) {
            None => None,
            Some(i) => Some(i + 1),
        }
    }
}

/// A list of compiled glob patterns, matched first-match-wins.
#[derive(Debug, Clone)]
pub struct PatternList {
    pub patterns: Vec<PatternMatcher>,
}

impl PatternList {
    /// The patterns, as a sequence of character sequences.
    pub open spec fn view(self) -> Seq<Seq<char>> {
        self.patterns@.map(|i: int, p: PatternMatcher| p.pattern@)
    }

    pub open spec fn wf(self) -> bool {
        forall|i: int| 0 <= i < self.patterns@.len() ==> (#[trigger] self.patterns@[i]).wf()
    }

    /// Creates a new pattern list from compiled matchers.
    pub fn new(patterns: Vec<PatternMatcher>) -> (r: Self)
        ensures
            r.patterns == patterns,
    {
        PatternList { patterns }
    }

    /// Returns the first matching pattern, or `None` if no pattern matches.
    pub fn matches(&self, path: &str) -> (r: Option<String>)
        requires
            self.wf(),
        ensures
            match first_match_index(self.view(), path@) {
                None => r is None,
                Some(i) => r is Some && r->0@ == self.view()[i],
            },
            (r is Some) == (exists|i: int|
                0 <= i < self.view().len() && glob_match(#[trigger] self.view()[i], path@)),
    {
        let ghost pats = self.view();
        proof {
            assert(pats.skip(0) =~= pats);
        }
        let mut idx: usize = 0;
        while idx < self.patterns.len()
            invariant
                0 <= idx <= self.patterns@.len(),
                pats == self.view(),
                self.wf(),
                forall|j: int| 0 <= j < idx ==> !glob_match(#[trigger] pats[j], path@),
                first_match_index(pats, path@) == match first_match_index(
                    pats.skip(idx as int),
                    path@,
                ) {
                    None => None::<int>,
                    Some(i) => Some(i + idx),
                },
            decreases self.patterns@.len() - idx,
        {
            let m = &self.patterns[idx];
            if matcher_is_match(&m.matcher, path) {
                proof {
                    assert(pats.skip(idx as int)[0] == pats[idx as int]);
                    assert(first_match_index(pats.skip(idx as int), path@) == Some(0int));
                }
                return Some(m.pattern.clone());
            }
            proof {
                assert(pats.skip(idx as int)[0] == pats[idx as int]);
                assert(pats.skip(idx as int).skip(1) =~= pats.skip(idx as int + 1));
            }
            idx = idx + 1;
        }
        proof {
            assert(pats.skip(idx as int) =~= Seq::<Seq<char>>::empty());
        }
        None
    }
}

/// A rule with a compiled glob matcher.
#[derive(Debug, Clone)]
pub struct CompiledRule {
    /// Original glob pattern string.
    pub pattern: String,
    /// Maximum allowed lines.
    pub max_lines: usize,
    /// Severity when the limit is exceeded.
    pub severity: Severity,
    pub matcher: globset::GlobMatcher,
}

impl CompiledRule {
    pub open spec fn wf(self) -> bool {
        matcher_glob(self.matcher) == self.pattern@
    }

    /// Tests if the given path matches this rule's pattern.
    pub fn is_match(&self, path: &str) -> (r: bool)
        requires
            self.wf(),
        ensures
            r == glob_match(self.pattern@, path@),
    {
        matcher_is_match(&self.matcher, path)
    }
}

/// Configuration with compiled glob matchers, ready for use.
#[derive(Debug, Clone)]
pub struct CompiledConfig {
    /// Where this config came from.
    pub origin: ConfigOrigin,
    /// Root directory for relative path matching.
    pub root_dir: String,
    /// Default line limit for files not matching any rule.
    pub default_max_lines: Option<usize>,
    /// Whether to respect `.gitignore` patterns.
    pub respect_gitignore: bool,
    pub exclude: PatternList,
    pub exempt: PatternList,
    pub rules: Vec<CompiledRule>,
}

impl CompiledConfig {
    pub open spec fn wf(self) -> bool {
        &&& self.exclude.wf()
        &&& self.exempt.wf()
        &&& forall|i: int| 0 <= i < self.rules@.len() ==> (#[trigger] self.rules@[i]).wf()
    }

    /// Returns the exclude pattern list.
    pub fn exclude_patterns(&self) -> (r: &PatternList)
        ensures
            r == self.exclude,
    {
        &self.exclude
    }

    /// Returns the exempt pattern list.
    pub fn exempt_patterns(&self) -> (r: &PatternList)
        ensures
            r == self.exempt,
    {
        &self.exempt
    }

    /// Returns the compiled rules.
    pub fn rules(&self) -> (r: &Vec<CompiledRule>)
        ensures
            r == self.rules,
    {
        &self.rules
    }
}

/// Errors from parsing or compiling a configuration.
#[derive(Debug, Clone)]
pub enum ConfigError {
    /// Syntax error in the configuration text.
    Toml { path: String, message: String, line_col: Option<(usize, usize)> },
    /// Unknown key in the configuration.
    UnknownKey {
        path: String,
        key: String,
        line_col: Option<(usize, usize)>,
        suggestion: Option<String>,
    },
    /// Invalid glob pattern.
    Glob { path: String, pattern: String, message: String },
}

fn compile_patterns(patterns: &Vec<String>, source_path: &str) -> (r: Result<
    PatternList,
    ConfigError,
>)
    ensures
        (r is Ok) == (first_bad_pattern(patterns@.map(|i: int, p: String| p@)) is None),
        r is Ok ==> {
            &&& r->Ok_0.wf()
            &&& r->Ok_0.view() == patterns@.map(|i: int, p: String| p@)
        },
        r is Err ==> {
            let views = patterns@.map(|i: int, p: String| p@);
            &&& r->Err_0 is Glob
            &&& r->Err_0->Glob_path@ == source_path@
            &&& first_bad_pattern(views) is Some
            &&& r->Err_0->Glob_pattern@ == views[first_bad_pattern(views)->0]
        },
{
    let ghost views = patterns@.map(|i: int, p: String| p@);
    proof {
        assert(views.skip(0) =~= views);
    }
    let mut compiled: Vec<PatternMatcher> = Vec::new();
    let mut idx: usize = 0;
    while idx < patterns.len()
        invariant
            0 <= idx <= patterns@.len(),
            views == patterns@.map(|i: int, p: String| p@),
            compiled@.len() == idx,
            forall|j: int| 0 <= j < idx ==> (#[trigger] compiled@[j]).wf(),
            forall|j: int| 0 <= j < idx ==> (#[trigger] compiled@[j]).pattern@ == patterns@[j]@,
            first_bad_pattern(views) == match first_bad_pattern(views.skip(idx as int)) {
                None => None::<int>,
                Some(i) => Some(i + idx),
            },
        decreases patterns@.len() - idx,
    {
        proof {
            assert(views.skip(idx as int)[0] == views[idx as int]);
            assert(views.skip(idx as int).skip(1) =~= views.skip(idx as int + 1));
        }
        let pattern = &patterns[idx];
        if pattern.as_str().unicode_len() > MAX_GLOB_PATTERN_LEN {
            proof {
                assert(first_bad_pattern(views.skip(idx as int)) == Some(0int));
            }
            return Err(ConfigError::Glob {
                path: source_path.to_owned(),
                pattern: pattern.clone(),
                message: "pattern is longer than the supported maximum".to_owned(),
            });
        }
        match compile_glob_matcher(pattern.as_str()) {
            Ok(matcher) => {
                compiled.push(PatternMatcher { pattern: pattern.clone(), matcher });
            },
            Err(message) => {
                proof {
                    assert(first_bad_pattern(views.skip(idx as int)) == Some(0int));
                }
                return Err(ConfigError::Glob {
                    path: source_path.to_owned(),
                    pattern: pattern.clone(),
                    message,
                });
            },
        }
        idx = idx + 1;
    }
    proof {
        assert(views.skip(idx as int) =~= Seq::<Seq<char>>::empty());
    }
    let list = PatternList::new(compiled);
    proof {
        assert(list.view() =~= patterns@.map(|i: int, p: String| p@));
    }
    Ok(list)
}

/// Where a configuration's compile error is reported: the source path, or a
/// fixed tag for the built-in defaults.
pub open spec fn compile_error_path(source_path: Option<&String>) -> Seq<char> {
    match source_path {
        Some(p) => p@,
        None => "<built-in defaults>"@,
    }
}

/// The rule patterns of a parsed configuration, in declaration order.
pub open spec fn rule_patterns(config: LoqConfig) -> Seq<Seq<char>> {
    config.rules@.map(|i: int, r: Rule| r.path@)
}

/// Whether the library compiles every pattern of a parsed configuration:
/// each within the supported length and accepted by `globset`.
pub open spec fn all_globs_ok(config: LoqConfig) -> bool {
    &&& first_bad_pattern(config.exclude@.map(|i: int, p: String| p@)) is None
    &&& first_bad_pattern(config.exempt@.map(|i: int, p: String| p@)) is None
    &&& first_bad_pattern(rule_patterns(config)) is None
}

/// The first pattern the library will not compile, in evaluation order:
/// excludes, then exempts, then the rules.
pub open spec fn first_bad_config_pattern(config: LoqConfig) -> Seq<char> {
    let ex = config.exclude@.map(|i: int, p: String| p@);
    let em = config.exempt@.map(|i: int, p: String| p@);
    let rl = rule_patterns(config);
    match first_bad_pattern(ex) {
        Some(i) => ex[i],
        None => match first_bad_pattern(em) {
            Some(i) => em[i],
            None => match first_bad_pattern(rl) {
                Some(i) => rl[i],
                None => Seq::empty(),
            },
        },
    }
}

/// Compiles a parsed configuration into matchers ready for rule decisions.
///
/// Compilation succeeds exactly when every exclude, exempt, and rule
/// pattern is within the supported length and accepted by `globset`; the
/// result then carries every pattern and rule
/// over in order, each matcher compiled from exactly its pattern. Otherwise
/// the error names the first refused pattern, in evaluation order, and the
/// source path it came from.
pub fn compile_config(
    origin: ConfigOrigin,
    root_dir: String,
    config: LoqConfig,
    source_path: Option<&String>,
) -> (r: Result<CompiledConfig, ConfigError>)
    ensures
        (r is Ok) == all_globs_ok(config),
        r is Ok ==> {
            &&& r->Ok_0.wf()
            &&& r->Ok_0.origin == origin
            &&& r->Ok_0.root_dir@ == root_dir@
            &&& r->Ok_0.default_max_lines == config.default_max_lines
            &&& r->Ok_0.respect_gitignore == config.respect_gitignore
            &&& r->Ok_0.exclude.view() == config.exclude@.map(|i: int, p: String| p@)
            &&& r->Ok_0.exempt.view() == config.exempt@.map(|i: int, p: String| p@)
            &&& r->Ok_0.rules@.len() == config.rules@.len()
            &&& forall|i: int|
                0 <= i < config.rules@.len() ==> {
                    &&& (#[trigger] r->Ok_0.rules@[i]).pattern@ == config.rules@[i].path@
                    &&& r->Ok_0.rules@[i].max_lines == config.rules@[i].max_lines
                    &&& r->Ok_0.rules@[i].severity == config.rules@[i].severity
                }
        },
        r is Err ==> {
            &&& r->Err_0 is Glob
            &&& r->Err_0->Glob_path@ == compile_error_path(source_path)
            &&& r->Err_0->Glob_pattern@ == first_bad_config_pattern(config)
        },
{
    let path_for_errors: String = match source_path {
        Some(p) => p.clone(),
        None => String::from_str("<built-in defaults>"),
    };

    let exclude = match compile_patterns(&config.exclude, path_for_errors.as_str()) {
        Ok(list) => list,
        Err(err) => { return Err(err); },
    };
    let exempt = match compile_patterns(&config.exempt, path_for_errors.as_str()) {
        Ok(list) => list,
        Err(err) => { return Err(err); },
    };

    let ghost rl = rule_patterns(config);
    let ghost ex = config.exclude@.map(|i: int, p: String| p@);
    let ghost em = config.exempt@.map(|i: int, p: String| p@);
    proof {
        assert(rl.skip(0) =~= rl);
    }
    let mut rules: Vec<CompiledRule> = Vec::new();
    let mut idx: usize = 0;
    while idx < config.rules.len()
        invariant
            0 <= idx <= config.rules@.len(),
            rl == rule_patterns(config),
            rules@.len() == idx,
            forall|j: int| 0 <= j < idx ==> (#[trigger] rules@[j]).wf(),
            forall|j: int|
                0 <= j < idx ==> {
                    &&& (#[trigger] rules@[j]).pattern@ == config.rules@[j].path@
                    &&& rules@[j].max_lines == config.rules@[j].max_lines
                    &&& rules@[j].severity == config.rules@[j].severity
                },
            first_bad_pattern(rl) == match first_bad_pattern(rl.skip(idx as int)) {
                None => None::<int>,
                Some(i) => Some(i + idx),
            },
            ex == config.exclude@.map(|i: int, p: String| p@),
            em == config.exempt@.map(|i: int, p: String| p@),
            first_bad_pattern(ex) is None,
            first_bad_pattern(em) is None,
            path_for_errors@ == compile_error_path(source_path),
        decreases config.rules@.len() - idx,
    {
        proof {
            assert(rl.skip(idx as int)[0] == rl[idx as int]);
            assert(rl.skip(idx as int).skip(1) =~= rl.skip(idx as int + 1));
        }
        let rule = &config.rules[idx];
        if rule.path.as_str().unicode_len() > MAX_GLOB_PATTERN_LEN {
            proof {
                assert(first_bad_pattern(rl.skip(idx as int)) == Some(0int));
            }
            return Err(ConfigError::Glob {
                path: path_for_errors,
                pattern: rule.path.clone(),
                message: "pattern is longer than the supported maximum".to_owned(),
            });
        }
        match compile_glob_matcher(rule.path.as_str()) {
            Ok(matcher) => {
                rules.push(CompiledRule {
                    pattern: rule.path.clone(),
                    max_lines: rule.max_lines,
                    severity: rule.severity,
                    matcher,
                });
            },
            Err(message) => {
                proof {
                    assert(first_bad_pattern(rl.skip(idx as int)) == Some(0int));
                }
                return Err(ConfigError::Glob {
                    path: path_for_errors,
                    pattern: rule.path.clone(),
                    message,
                });
            },
        }
        idx = idx + 1;
    }
    proof {
        assert(rl.skip(idx as int) =~= Seq::<Seq<char>>::empty());
    }

    Ok(CompiledConfig {
        origin,
        root_dir,
        default_max_lines: config.default_max_lines,
        respect_gitignore: config.respect_gitignore,
        exclude,
        exempt,
        rules,
    })
}

} // verus!
