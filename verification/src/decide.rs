//! Rule matching and decision logic.
//!
//! Determines what action to take for each file path:
//! exclude patterns first (first match wins), then exempt patterns, then the
//! rules in declaration order (last match wins), then the default limit.

use vstd::prelude::*;
use crate::config::Severity;
use crate::globs::{first_match_index, glob_match, CompiledConfig, CompiledRule};

verus! {

/// How a file's limit was determined.
#[derive(Debug, Clone, PartialEq, Eq)]
pub enum MatchBy {
    /// Matched a specific rule pattern.
    Rule { pattern: String },
    /// Used the default limit.
    Default,
}

/// The decision for how to handle a file.
#[derive(Debug, Clone, PartialEq, Eq)]
pub enum Decision {
    /// File matches an exclude pattern; skip entirely.
    Excluded { pattern: String },
    /// File matches an exempt pattern; count but don't check.
    Exempt { pattern: String },
    /// File should be checked against a limit.
    Check { limit: usize, severity: Severity, matched_by: MatchBy },
    /// No default limit and no matching rule; skip.
    SkipNoLimit,
}

/// The index of the last rule in `rules` whose pattern matches `path`.
pub open spec fn last_rule_match(rules: Seq<CompiledRule>, path: Seq<char>) -> Option<int>
    decreases rules.len(),
{
    if rules.len() == 0 {
        None
    } else if glob_match(rules[rules.len() - 1].pattern@, path) {
        Some(rules.len() - 1)
    } else {
        last_rule_match(rules.take(rules.len() - 1), path)
    }
}

/// What `decide` returns for a path under a compiled configuration:
/// excluded if any exclude pattern matches, else exempt if any exempt pattern
/// matches, else the last matching rule's limit and severity, else the
/// default limit with error severity, else no limit.
pub open spec fn decide_post(config: CompiledConfig, path: Seq<char>, d: Decision) -> bool {
    match first_match_index(config.exclude.view(), path) {
        Some(i) => d is Excluded && d->Excluded_pattern@ == config.exclude.view()[i],
        None => match first_match_index(config.exempt.view(), path) {
            Some(i) => d is Exempt && d->Exempt_pattern@ == config.exempt.view()[i],
            None => match last_rule_match(config.rules@, path) {
                Some(i) => {
                    &&& d is Check
                    &&& d->Check_limit == config.rules@[i].max_lines
                    &&& d->Check_severity == config.rules@[i].severity
                    &&& d->Check_matched_by is Rule
                    &&& d->Check_matched_by->Rule_pattern@ == config.rules@[i].pattern@
                },
                None => match config.default_max_lines {
                    Some(limit) => {
                        &&& d is Check
                        &&& d->Check_limit == limit
                        &&& d->Check_severity == Severity::Error
                        &&& d->Check_matched_by is Default
                    },
                    None => d is SkipNoLimit,
                },
            },
        },
    }
}

/// Decides what action to take for a file path.
pub fn decide(config: &CompiledConfig, path: &str) -> (d: Decision)
    requires
        config.wf(),
    ensures
        decide_post(*config, path@, d),
{
    if let Some(pattern) = config.exclude_patterns().matches(path) {
        return Decision::Excluded { pattern };
    }
    if let Some(pattern) = config.exempt_patterns().matches(path) {
        return Decision::Exempt { pattern };
    }

    let ghost rules_seq = config.rules@;
    let mut matched: Option<usize> = None;
    let mut idx: usize = 0;
    while idx < config.rules.len()
        invariant
            0 <= idx <= rules_seq.len(),
            rules_seq == config.rules@,
            config.wf(),
            last_rule_match(rules_seq.take(idx as int), path@) == match matched {
                None => None::<int>,
                Some(i) => Some(i as int),
            },
            matched is Some ==> matched->0 < idx,
        decreases rules_seq.len() - idx,
    {
        let rule = &config.rules[idx];
        proof {
            assert(rules_seq.take(idx as int + 1)[idx as int] == rules_seq[idx as int]);
            assert(rules_seq.take(idx as int + 1).take(idx as int) =~= rules_seq.take(
                idx as int,
            ));
        }
        if rule.is_match(path) {
            matched = Some(idx);
        }
        idx = idx + 1;
    }
    proof {
        assert(rules_seq.take(idx as int) =~= rules_seq);
    }

    if let Some(i) = matched {
        let rule = &config.rules[i];
        return Decision::Check {
            limit: rule.max_lines,
            severity: rule.severity,
            matched_by: MatchBy::Rule { pattern: rule.pattern.clone() },
        };
    }

    if let Some(limit) = config.default_max_lines {
        Decision::Check { limit, severity: Severity::Error, matched_by: MatchBy::Default }
    } else {
        Decision::SkipNoLimit
    }
}

/// A pattern list matches a path exactly when one of its patterns does.
pub proof fn lemma_first_match_exists(pats: Seq<Seq<char>>, path: Seq<char>)
    ensures
        (first_match_index(pats, path) is Some) <==> (exists|i: int|
            0 <= i < pats.len() && glob_match(#[trigger] pats[i], path)),
        first_match_index(pats, path) matches Some(i) ==> 0 <= i < pats.len() && glob_match(
            pats[i],
            path,
        ),
    decreases pats.len(),
{
    if pats.len() > 0 && !glob_match(pats[0], path) {
        lemma_first_match_exists(pats.skip(1), path);
        assert forall|i: int|
            0 <= i < pats.len() && glob_match(#[trigger] pats[i], path) implies (
        first_match_index(pats, path) is Some) by {
            assert(pats.skip(1)[i - 1] == pats[i]);
        }
        let fm = first_match_index(pats.skip(1), path);
        if fm is Some {
            let j = fm->0;
            assert(pats.skip(1)[j] == pats[j + 1]);
        }
    }
}

/// Exclude patterns take priority over every rule and the default: a path
/// that matches any exclude pattern is excluded, whatever the rules and the
/// default limit say.
pub proof fn lemma_exclude_priority(config: CompiledConfig, path: Seq<char>, d: Decision)
    requires
        decide_post(config, path, d),
        exists|i: int|
            0 <= i < config.exclude.view().len() && glob_match(
                #[trigger] config.exclude.view()[i],
                path,
            ),
    ensures
        d is Excluded,
{
    lemma_first_match_exists(config.exclude.view(), path);
}

/// Rule evaluation is last-match-wins: when the last rule of the
/// configuration matches a path that no exclude or exempt pattern matches,
/// that rule's limit and severity apply.
pub proof fn lemma_last_rule_wins(config: CompiledConfig, path: Seq<char>, d: Decision)
    requires
        decide_post(config, path, d),
        first_match_index(config.exclude.view(), path) is None,
        first_match_index(config.exempt.view(), path) is None,
        config.rules@.len() > 0,
        glob_match(config.rules@.last().pattern@, path),
    ensures
        d is Check,
        d->Check_limit == config.rules@.last().max_lines,
        d->Check_severity == config.rules@.last().severity,
        d->Check_matched_by matches MatchBy::Rule { pattern } && pattern@ == config.rules@.last().pattern@,
{
}

/// Given two rules with the same pattern but different limits or severities,
/// the later-declared rule's limit and severity apply on every path the
/// pattern matches (that no exclude or exempt pattern matches).
pub proof fn lemma_later_duplicate_rule_wins(config: CompiledConfig, path: Seq<char>, d: Decision)
    requires
        decide_post(config, path, d),
        first_match_index(config.exclude.view(), path) is None,
        first_match_index(config.exempt.view(), path) is None,
        config.rules@.len() == 2,
        config.rules@[0].pattern@ == config.rules@[1].pattern@,
        glob_match(config.rules@[1].pattern@, path),
    ensures
        d is Check,
        d->Check_limit == config.rules@[1].max_lines,
        d->Check_severity == config.rules@[1].severity,
{
    lemma_last_rule_wins(config, path, d);
}

} // verus!
