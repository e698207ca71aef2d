//! Parsing the configuration document.
//!
//! Works on the plain document tree (`RawValue`): checks the whole structure
//! for unknown keys — including inside each rule table — before reading any
//! value, suggests the nearest known key by edit distance, and locates keys
//! and parse errors as 1-based line and column positions in the source text.

use vstd::prelude::*;
use crate::config::{LoqConfig, Rule, Severity};
use crate::globs::ConfigError;
use crate::raw::{parse_toml_text, toml_parse_of, RawValue};
use crate::strutil::{is_ws, starts_with_seq, str_eq, str_starts_with};

verus! {

/// A parsed configuration, as plain mathematical values.
pub ghost struct ConfigV {
    pub default_max_lines: Option<nat>,
    pub respect_gitignore: bool,
    pub exclude: Seq<Seq<char>>,
    pub exempt: Seq<Seq<char>>,
    pub rules: Seq<RuleV>,
}

/// One parsed rule, as plain mathematical values.
pub ghost struct RuleV {
    pub path: Seq<char>,
    pub max_lines: nat,
    pub severity: Severity,
}

/// The mathematical value of a parsed configuration.
pub open spec fn config_view(c: LoqConfig) -> ConfigV {
    ConfigV {
        default_max_lines: match c.default_max_lines {
            Some(m) => Some(m as nat),
            None => None,
        },
        respect_gitignore: c.respect_gitignore,
        exclude: c.exclude@.map(|i: int, p: String| p@),
        exempt: c.exempt@.map(|i: int, p: String| p@),
        rules: c.rules@.map(
            |i: int, r: Rule| RuleV {
                path: r.path@,
                max_lines: r.max_lines as nat,
                severity: r.severity,
            },
        ),
    }
}

/// The keys allowed at the top level of the configuration.
pub open spec fn is_known_top(k: Seq<char>) -> bool {
    ||| k == "default_max_lines"@
    ||| k == "respect_gitignore"@
    ||| k == "exclude"@
    ||| k == "exempt"@
    ||| k == "rules"@
}

/// The keys allowed inside a rule table.
pub open spec fn is_known_rule_key(k: Seq<char>) -> bool {
    k == "path"@ || k == "max_lines"@ || k == "severity"@
}

/// The first unknown key inside one rule table, in entry order.
pub open spec fn tbl_unknown(entries: Seq<(String, RawValue)>) -> Option<Seq<char>>
    decreases entries.len(),
{
    if entries.len() == 0 {
        None
    } else if !is_known_rule_key(entries[0].0@) {
        Some(entries[0].0@)
    } else {
        tbl_unknown(entries.skip(1))
    }
}

/// The first unknown key across the items of the rules array, in order.
pub open spec fn arr_unknown(items: Seq<RawValue>) -> Option<Seq<char>>
    decreases items.len(),
{
    if items.len() == 0 {
        None
    } else {
        let head = match items[0] {
            RawValue::Table(entries) => tbl_unknown(entries@),
            _ => None,
        };
        match head {
            Some(k) => Some(k),
            None => arr_unknown(items.skip(1)),
        }
    }
}

/// The first unknown key under the `rules` value.
pub open spec fn rules_unknown(v: RawValue) -> Option<Seq<char>> {
    match v {
        RawValue::Arr(items) => arr_unknown(items@),
        _ => None,
    }
}

/// The first unknown key in the whole document, walking the top-level
/// entries in order and, at `rules`, each rule table's keys.
pub open spec fn doc_unknown(entries: Seq<(String, RawValue)>) -> Option<Seq<char>>
    decreases entries.len(),
{
    if entries.len() == 0 {
        None
    } else if !is_known_top(entries[0].0@) {
        Some(entries[0].0@)
    } else {
        let nested = if entries[0].0@ == "rules"@ {
            rules_unknown(entries[0].1)
        } else {
            None
        };
        match nested {
            Some(k) => Some(k),
            None => doc_unknown(entries.skip(1)),
        }
    }
}

/// The value of the first entry with the given key, if any.
pub open spec fn tbl_get(entries: Seq<(String, RawValue)>, k: Seq<char>) -> Option<RawValue>
    decreases entries.len(),
{
    if entries.len() == 0 {
        None
    } else if entries[0].0@ == k {
        Some(entries[0].1)
    } else {
        tbl_get(entries.skip(1), k)
    }
}

/// The default limit of a document: absent, a limit, or ill-typed (`None`).
pub open spec fn default_of(entries: Seq<(String, RawValue)>) -> Option<Option<nat>> {
    match tbl_get(entries, "default_max_lines"@) {
        None => Some(None),
        Some(RawValue::Int(i)) => if 0 <= i <= usize::MAX {
            Some(Some(i as nat))
        } else {
            None
        },
        Some(_) => None,
    }
}

/// The gitignore flag of a document: true when absent, or ill-typed (`None`).
pub open spec fn gitignore_of(entries: Seq<(String, RawValue)>) -> Option<bool> {
    match tbl_get(entries, "respect_gitignore"@) {
        None => Some(true),
        Some(RawValue::Bool(b)) => Some(b),
        Some(_) => None,
    }
}

/// A list of strings, or ill-typed (`None`).
pub open spec fn strs_of(items: Seq<RawValue>) -> Option<Seq<Seq<char>>>
    decreases items.len(),
{
    if items.len() == 0 {
        Some(Seq::empty())
    } else {
        match items[0] {
            RawValue::Str(s) => match strs_of(items.skip(1)) {
                Some(rest) => Some(seq![s@] + rest),
                None => None,
            },
            _ => None,
        }
    }
}

/// A pattern-list value (`exclude`, `exempt`): empty when absent, the strings
/// of the array, or ill-typed (`None`).
pub open spec fn strlist_of(v: Option<RawValue>) -> Option<Seq<Seq<char>>> {
    match v {
        None => Some(Seq::empty()),
        Some(RawValue::Arr(items)) => strs_of(items@),
        Some(_) => None,
    }
}

/// The paths of one rule: a single string, or an array of strings.
pub open spec fn rule_paths_of(v: Option<RawValue>) -> Option<Seq<Seq<char>>> {
    match v {
        Some(RawValue::Str(s)) => Some(seq![s@]),
        Some(RawValue::Arr(items)) => strs_of(items@),
        _ => None,
    }
}

/// The limit of one rule; required, an integer fitting `usize`.
pub open spec fn rule_limit_of(v: Option<RawValue>) -> Option<nat> {
    match v {
        Some(RawValue::Int(i)) => if 0 <= i <= usize::MAX {
            Some(i as nat)
        } else {
            None
        },
        _ => None,
    }
}

/// The severity of one rule: error when absent, else `error` or `warning`.
pub open spec fn rule_severity_of(v: Option<RawValue>) -> Option<Severity> {
    match v {
        None => Some(Severity::Error),
        Some(RawValue::Str(s)) => if s@ == "error"@ {
            Some(Severity::Error)
        } else if s@ == "warning"@ {
            Some(Severity::Warning)
        } else {
            None
        },
        Some(_) => None,
    }
}

/// The rules one rule table yields: one per path, sharing the table's limit
/// and severity; or ill-typed (`None`).
pub open spec fn rule_of(entries: Seq<(String, RawValue)>) -> Option<Seq<RuleV>> {
    match rule_paths_of(tbl_get(entries, "path"@)) {
        None => None,
        Some(paths) => match rule_limit_of(tbl_get(entries, "max_lines"@)) {
            None => None,
            Some(limit) => match rule_severity_of(tbl_get(entries, "severity"@)) {
                None => None,
                Some(severity) => Some(
                    paths.map(|i: int, p: Seq<char>| RuleV { path: p, max_lines: limit, severity }),
                ),
            },
        },
    }
}

/// The rules of the rules array, concatenated in order; or ill-typed.
pub open spec fn rule_items_of(items: Seq<RawValue>) -> Option<Seq<RuleV>>
    decreases items.len(),
{
    if items.len() == 0 {
        Some(Seq::empty())
    } else {
        match items[0] {
            RawValue::Table(entries) => match rule_of(entries@) {
                None => None,
                Some(head) => match rule_items_of(items.skip(1)) {
                    None => None,
                    Some(rest) => Some(head + rest),
                },
            },
            _ => None,
        }
    }
}

/// The `rules` value: empty when absent, the rule tables of the array, or
/// ill-typed (`None`).
pub open spec fn rules_of(v: Option<RawValue>) -> Option<Seq<RuleV>> {
    match v {
        None => Some(Seq::empty()),
        Some(RawValue::Arr(items)) => rule_items_of(items@),
        Some(_) => None,
    }
}

/// What a well-formed document resolves to: `None` when any value is
/// ill-typed.
pub open spec fn resolve_doc(entries: Seq<(String, RawValue)>) -> Option<ConfigV> {
    match default_of(entries) {
        None => None,
        Some(default_max_lines) => match gitignore_of(entries) {
            None => None,
            Some(respect_gitignore) => match strlist_of(tbl_get(entries, "exclude"@)) {
                None => None,
                Some(exclude) => match strlist_of(tbl_get(entries, "exempt"@)) {
                    None => None,
                    Some(exempt) => match rules_of(tbl_get(entries, "rules"@)) {
                        None => None,
                        Some(rules) => Some(
                            ConfigV { default_max_lines, respect_gitignore, exclude, exempt, rules },
                        ),
                    },
                },
            },
        },
    }
}

/// The number of leading ASCII whitespace characters.
pub open spec fn ws_prefix(s: Seq<char>) -> int
    decreases s.len(),
{
    if s.len() > 0 && is_ws(s[0]) {
        1 + ws_prefix(s.skip(1))
    } else {
        0
    }
}

pub proof fn lemma_ws_prefix(s: Seq<char>)
    ensures
        0 <= ws_prefix(s) <= s.len(),
        forall|j: int| 0 <= j < ws_prefix(s) ==> is_ws(#[trigger] s[j]),
        ws_prefix(s) < s.len() ==> !is_ws(s[ws_prefix(s)]),
    decreases s.len(),
{
    if s.len() > 0 && is_ws(s[0]) {
        lemma_ws_prefix(s.skip(1));
        assert forall|j: int| 0 <= j < ws_prefix(s) implies is_ws(#[trigger] s[j]) by {
            if j > 0 {
                assert(s.skip(1)[j - 1] == s[j]);
            }
        }
        if ws_prefix(s) < s.len() {
            assert(s.skip(1)[ws_prefix(s) - 1] == s[ws_prefix(s)]);
        }
    }
}

fn ws_prefix_exec(s: &str) -> (r: usize)
    ensures
        r == ws_prefix(s@),
{
    proof {
        lemma_ws_prefix(s@);
    }
    let n = s.unicode_len();
    let mut i: usize = 0;
    while i < n
        invariant
            0 <= i <= n,
            n == s@.len(),
            forall|j: int| 0 <= j < i ==> is_ws(#[trigger] s@[j]),
        decreases n - i,
    {
        if !crate::strutil::is_ws_exec(s.get_char(i)) {
            proof {
                lemma_ws_prefix(s@);
                let w = ws_prefix(s@);
                assert(!(w < i as int) && !((i as int) < w));
            }
            return i;
        }
        i = i + 1;
    }
    proof {
        lemma_ws_prefix(s@);
    }
    n
}

/// Whether a line assigns the given key: optional leading whitespace, the
/// key, optional whitespace, then `=`.
pub open spec fn key_line_match(line: Seq<char>, key: Seq<char>) -> bool {
    let t = line.skip(ws_prefix(line));
    &&& starts_with_seq(t, key)
    &&& {
        let rest = t.skip(key.len() as int);
        let rt = rest.skip(ws_prefix(rest));
        rt.len() > 0 && rt[0] == '='
    }
}

fn line_matches_key(line: &str, key: &str) -> (r: bool)
    ensures
        r == key_line_match(line@, key@),
{
    proof {
        lemma_ws_prefix(line@);
    }
    let w = ws_prefix_exec(line);
    let n = line.unicode_len();
    let t = line.substring_char(w, n);
    proof {
        assert(t@ =~= line@.skip(ws_prefix(line@)));
    }
    if !str_starts_with(t, key) {
        return false;
    }
    let kl = key.unicode_len();
    let tn = t.unicode_len();
    let rest = t.substring_char(kl, tn);
    proof {
        assert(rest@ =~= t@.skip(key@.len() as int));
        lemma_ws_prefix(rest@);
    }
    let w2 = ws_prefix_exec(rest);
    let rn = rest.unicode_len();
    if w2 < rn {
        let c = rest.get_char(w2);
        proof {
            assert(rest@.skip(ws_prefix(rest@))[0] == rest@[ws_prefix(rest@)]);
        }
        c == '='
    } else {
        proof {
            assert(rest@.skip(ws_prefix(rest@)).len() == 0);
        }
        false
    }
}

/// The first line that assigns the key, as a 1-based line number and the
/// 1-based column where the key starts.
pub open spec fn key_location(lines: Seq<Seq<char>>, key: Seq<char>) -> Option<(int, int)>
    decreases lines.len(),
{
    if lines.len() == 0 {
        None
    } else if key_line_match(lines[0], key) {
        Some((1int, ws_prefix(lines[0]) + 1))
    } else {
        match key_location(lines.skip(1), key) {
            Some((l, c)) => Some((l + 1, c)),
            None => None,
        }
    }
}

/// Where the key is assigned in the text, as 1-based line and column.
pub open spec fn key_location_in_text(text: Seq<char>, key: Seq<char>) -> Option<(int, int)> {
    key_location(crate::strutil::split_seq(text, '\n'), key)
}

/// Finds where a key is assigned in the configuration text.
pub fn find_key_location(text: &str, key: &str) -> (r: Option<(usize, usize)>)
    ensures
        match key_location_in_text(text@, key@) {
            Some((l, c)) => r is Some && (r->0).0 == l && (r->0).1 == c,
            None => r is None,
        },
{
    let lines = crate::strutil::str_split(text, '\n');
    let ghost lseq = crate::strutil::split_seq(text@, '\n');
    proof {
        assert(lines@.map(|i: int, p: String| p@) =~= lseq);
        assert(lseq.skip(0) =~= lseq);
    }
    let n = lines.len();
    let mut i: usize = 0;
    while i < n
        invariant
            0 <= i <= n,
            n == lines@.len(),
            lines@.map(|k: int, p: String| p@) == lseq,
            lseq == crate::strutil::split_seq(text@, '\n'),
            key_location(lseq, key@) == match key_location(lseq.skip(i as int), key@) {
                Some((l, c)) => Some((l + i, c)),
                None => None::<(int, int)>,
            },
        decreases n - i,
    {
        proof {
            assert(lseq.skip(i as int)[0] == lseq[i as int]);
            assert(lseq[i as int] == lines@[i as int]@);
            assert(lseq.skip(i as int).skip(1) =~= lseq.skip(i as int + 1));
        }
        if line_matches_key(lines[i].as_str(), key) {
            let _ln: usize = lines[i].as_str().unicode_len();
            proof {
                let line = lines@[i as int]@;
                lemma_ws_prefix(line);
                let t = line.skip(ws_prefix(line));
                let rest = t.skip(key@.len() as int);
                lemma_ws_prefix(rest);
                assert(rest.skip(ws_prefix(rest)).len() > 0);
                assert(ws_prefix(line) < line.len());
                assert(key_location(lseq.skip(i as int), key@) == Some((
                    1int,
                    ws_prefix(line) + 1,
                )));
            }
            let w = ws_prefix_exec(lines[i].as_str());
            proof {
                assert(key_location(lseq, key@) == Some((
                    i as int + 1,
                    ws_prefix(lines@[i as int]@) + 1,
                )));
                assert(w == ws_prefix(lines@[i as int]@));
            }
            return Some((i + 1, w + 1));
        }
        i = i + 1;
    }
    proof {
        assert(lseq.skip(i as int).len() == 0);
    }
    None
}

/// The 1-based line and column after the first `count` characters of the
/// text: a newline advances the line and resets the column.
pub open spec fn line_col_of(text: Seq<char>, count: int) -> (int, int)
    decreases count,
{
    if count <= 0 {
        (1int, 1int)
    } else {
        let prev = line_col_of(text, count - 1);
        if text[count - 1] == '\n' {
            (prev.0 + 1, 1int)
        } else {
            (prev.0, prev.1 + 1)
        }
    }
}

/// The length of one character's UTF-8 encoding.
pub open spec fn char_utf8_len(c: char) -> int {
    if (c as u32) < 0x80 {
        1
    } else if (c as u32) < 0x800 {
        2
    } else if (c as u32) < 0x10000 {
        3
    } else {
        4
    }
}

/// The UTF-8 byte length of a character sequence.
pub open spec fn byte_len(s: Seq<char>) -> int
    decreases s.len(),
{
    if s.len() == 0 {
        0
    } else {
        byte_len(s.take(s.len() - 1)) + char_utf8_len(s.last())
    }
}

/// How many characters of the text start before the given byte offset.
pub open spec fn chars_before(s: Seq<char>, off: int) -> int
    decreases s.len(),
{
    if s.len() == 0 || off <= 0 {
        0
    } else {
        1 + chars_before(s.skip(1), off - char_utf8_len(s[0]))
    }
}

/// A sequence's byte length covers at least one byte per character.
pub proof fn lemma_byte_len_bounds(s: Seq<char>)
    ensures
        byte_len(s) >= s.len(),
    decreases s.len(),
{
    if s.len() > 0 {
        lemma_byte_len_bounds(s.take(s.len() - 1));
    }
}

/// The byte length of a prefix never exceeds the whole sequence's.
pub proof fn lemma_byte_len_take_le(s: Seq<char>, i: int)
    requires
        0 <= i <= s.len(),
    ensures
        byte_len(s.take(i)) <= byte_len(s),
    decreases s.len(),
{
    if i < s.len() {
        assert(s.take(s.len() - 1).take(i) =~= s.take(i));
        lemma_byte_len_take_le(s.take(s.len() - 1), i);
    } else {
        assert(s.take(i) =~= s);
    }
}

/// The byte length splits off its first character's.
proof fn lemma_byte_len_front(s: Seq<char>)
    requires
        s.len() > 0,
    ensures
        byte_len(s) == char_utf8_len(s[0]) + byte_len(s.skip(1)),
    decreases s.len(),
{
    reveal_with_fuel(byte_len, 3);
    if s.len() == 1 {
        assert(s.take(0) =~= Seq::<char>::empty());
        assert(s.skip(1) =~= Seq::<char>::empty());
    } else {
        lemma_byte_len_front(s.take(s.len() - 1));
        assert(s.take(s.len() - 1)[0] == s[0]);
        assert(s.take(s.len() - 1).skip(1) =~= s.skip(1).take(s.skip(1).len() - 1));
        assert(s.skip(1).last() == s.last());
    }
}

fn char_len_exec(c: char) -> (r: usize)
    ensures
        r as int == char_utf8_len(c),
{
    let u = c as u32;
    if u < 0x80 {
        1
    } else if u < 0x800 {
        2
    } else if u < 0x10000 {
        3
    } else {
        4
    }
}

/// Converts a byte offset into the text into a 1-based line and column, as
/// the position of the first character starting at or after that offset.
/// `None` when the offset lies past the end of the text (or, at the edge,
/// when the text's byte length leaves no headroom below `usize::MAX`).
pub fn line_col_from_offset(text: &str, offset: usize) -> (r: Option<(usize, usize)>)
    ensures
        byte_len(text@) > usize::MAX - 4 ==> r is None,
        byte_len(text@) <= usize::MAX - 4 && offset > byte_len(text@) ==> r is None,
        byte_len(text@) <= usize::MAX - 4 && offset <= byte_len(text@) ==> r is Some && (
        r->0).0 == line_col_of(text@, chars_before(text@, offset as int)).0 && (r->0).1
            == line_col_of(text@, chars_before(text@, offset as int)).1,
{
    let n = text.unicode_len();

    let mut total: usize = 0;
    let mut i: usize = 0;
    while i < n
        invariant
            0 <= i <= n,
            n == text@.len(),
            total == byte_len(text@.take(i as int)),
            total <= usize::MAX - 4,
        decreases n - i,
    {
        proof {
            let t = text@.take(i as int + 1);
            assert(t.take(t.len() - 1) =~= text@.take(i as int));
            assert(t.last() == text@[i as int]);
        }
        let l = char_len_exec(text.get_char(i));
        total = total + l;
        i = i + 1;
        if total > usize::MAX - 4 {
            proof {
                lemma_byte_len_take_le(text@, i as int);
            }
            return None;
        }
    }
    proof {
        assert(text@.take(n as int) =~= text@);
    }
    if offset > total {
        return None;
    }

    let mut line: usize = 1;
    let mut col: usize = 1;
    let mut byte_pos: usize = 0;
    let mut i: usize = 0;
    proof {
        assert(text@.take(0) =~= Seq::<char>::empty());
        assert(text@.skip(0) =~= text@);
        lemma_byte_len_bounds(text@.take(0));
    }
    while i < n && byte_pos < offset
        invariant
            0 <= i <= n,
            n == text@.len(),
            offset <= byte_len(text@) <= usize::MAX - 4,
            byte_pos == byte_len(text@.take(i as int)),
            i <= byte_pos,
            chars_before(text@, offset as int) == i + chars_before(
                text@.skip(i as int),
                offset - byte_pos,
            ),
            line == line_col_of(text@, i as int).0,
            col == line_col_of(text@, i as int).1,
            line <= i + 1,
            col <= i + 1,
        decreases n - i,
    {
        let c = text.get_char(i);
        proof {
            let rest = text@.skip(i as int);
            assert(rest[0] == text@[i as int]);
            assert(rest.skip(1) =~= text@.skip(i as int + 1));
            let t = text@.take(i as int + 1);
            assert(t.take(t.len() - 1) =~= text@.take(i as int));
            assert(t.last() == text@[i as int]);
            lemma_byte_len_bounds(t);
        }
        if c == '\n' {
            line = line + 1;
            col = 1;
        } else {
            col = col + 1;
        }
        byte_pos = byte_pos + char_len_exec(c);
        i = i + 1;
    }
    proof {
        if i == n {
            assert(text@.skip(i as int).len() == 0);
            assert(chars_before(text@.skip(i as int), offset - byte_pos) == 0);
        } else {
            assert(chars_before(text@.skip(i as int), offset - byte_pos) == 0);
        }
    }
    Some((line, col))
}

/// The known configuration keys offered as suggestions.
pub open spec fn candidates() -> Seq<Seq<char>> {
    seq![
        "default_max_lines"@,
        "respect_gitignore"@,
        "exclude"@,
        "exempt"@,
        "rules"@,
        "path"@,
        "max_lines"@,
        "severity"@,
    ]
}

/// The Levenshtein edit distance: the least number of character insertions,
/// deletions, and substitutions turning one sequence into the other.
pub open spec fn levenshtein_spec(a: Seq<char>, b: Seq<char>) -> nat
    decreases a.len(), b.len(),
{
    if a.len() == 0 {
        b.len()
    } else if b.len() == 0 {
        a.len()
    } else {
        let delete = levenshtein_spec(a.skip(1), b) + 1;
        let insert = levenshtein_spec(a, b.skip(1)) + 1;
        let substitute = levenshtein_spec(a.skip(1), b.skip(1)) + if a[0] == b[0] {
            0nat
        } else {
            1nat
        };
        if delete <= insert && delete <= substitute {
            delete
        } else if insert <= substitute {
            insert
        } else {
            substitute
        }
    }
}

/// Relies on `strsim::levenshtein`: it computes the minimum number of
/// insertions, deletions, and substitutions turning one string into the
/// other — the distance `levenshtein_spec` defines.
#[verifier::external_body]
fn levenshtein(a: &str, b: &str) -> (r: usize)
    ensures
        r == levenshtein_spec(a@, b@),
{
    strsim::levenshtein(a, b)
}

/// The first candidate with the least edit distance among the first `i`.
pub open spec fn best_upto(key: Seq<char>, i: int) -> int
    decreases i,
{
    if i <= 1 {
        0
    } else {
        let b = best_upto(key, i - 1);
        if levenshtein_spec(key, candidates()[i - 1]) < levenshtein_spec(key, candidates()[b]) {
            i - 1
        } else {
            b
        }
    }
}

/// The suggestion for an unknown key: the first known key at the least edit
/// distance, when that distance is at most three.
pub open spec fn suggestion_spec(key: Seq<char>) -> Option<Seq<char>> {
    let b = best_upto(key, candidates().len() as int);
    if levenshtein_spec(key, candidates()[b]) <= 3 {
        Some(candidates()[b])
    } else {
        None
    }
}

/// Suggests the nearest known configuration key, if any is close enough.
pub fn suggest_key(key: &str) -> (r: Option<String>)
    ensures
        match suggestion_spec(key@) {
            Some(s) => r is Some && r->0@ == s,
            None => r is None,
        },
{
    let mut cands: Vec<&'static str> = Vec::new();
    cands.push("default_max_lines");
    cands.push("respect_gitignore");
    cands.push("exclude");
    cands.push("exempt");
    cands.push("rules");
    cands.push("path");
    cands.push("max_lines");
    cands.push("severity");
    proof {
        assert(cands@.map(|i: int, s: &'static str| s@) =~= candidates());
    }
    let mut best: usize = 0;
    let mut best_score = levenshtein(key, cands[0]);
    let mut i: usize = 1;
    while i < cands.len()
        invariant
            1 <= i <= cands@.len(),
            cands@.map(|k: int, s: &'static str| s@) == candidates(),
            cands@.len() == candidates().len(),
            0 <= best < i,
            best == best_upto(key@, i as int),
            best_score == levenshtein_spec(key@, candidates()[best as int]),
        decreases cands@.len() - i,
    {
        let score = levenshtein(key, cands[i]);
        proof {
            assert(candidates()[i as int] == cands@[i as int]@);
        }
        if score < best_score {
            best = i;
            best_score = score;
        }
        i = i + 1;
    }
    if best_score <= 3 {
        Some(cands[best].to_owned())
    } else {
        None
    }
}

fn tbl_unknown_exec(entries: &Vec<(String, RawValue)>, from: usize) -> (r: Option<String>)
    requires
        from <= entries@.len(),
    ensures
        match tbl_unknown(entries@.skip(from as int)) {
            Some(k) => r is Some && r->0@ == k,
            None => r is None,
        },
    decreases entries@.len() - from,
{
    proof {
        if from < entries@.len() {
            assert(entries@.skip(from as int)[0] == entries@[from as int]);
            assert(entries@.skip(from as int).skip(1) =~= entries@.skip(from as int + 1));
        }
    }
    if from >= entries.len() {
        return None;
    }
    let k = &entries[from].0;
    if !(str_eq(k.as_str(), "path") || str_eq(k.as_str(), "max_lines") || str_eq(
        k.as_str(),
        "severity",
    )) {
        return Some(k.clone());
    }
    tbl_unknown_exec(entries, from + 1)
}

fn arr_unknown_exec(items: &Vec<RawValue>, from: usize) -> (r: Option<String>)
    requires
        from <= items@.len(),
    ensures
        match arr_unknown(items@.skip(from as int)) {
            Some(k) => r is Some && r->0@ == k,
            None => r is None,
        },
    decreases items@.len() - from,
{
    proof {
        if from < items@.len() {
            assert(items@.skip(from as int)[0] == items@[from as int]);
            assert(items@.skip(from as int).skip(1) =~= items@.skip(from as int + 1));
        }
    }
    if from >= items.len() {
        return None;
    }
    if let RawValue::Table(entries) = &items[from] {
        proof {
            assert(entries@.skip(0) =~= entries@);
        }
        if let Some(k) = tbl_unknown_exec(entries, 0) {
            return Some(k);
        }
    }
    arr_unknown_exec(items, from + 1)
}

fn doc_unknown_exec(entries: &Vec<(String, RawValue)>, from: usize) -> (r: Option<String>)
    requires
        from <= entries@.len(),
    ensures
        match doc_unknown(entries@.skip(from as int)) {
            Some(k) => r is Some && r->0@ == k,
            None => r is None,
        },
    decreases entries@.len() - from,
{
    proof {
        if from < entries@.len() {
            assert(entries@.skip(from as int)[0] == entries@[from as int]);
            assert(entries@.skip(from as int).skip(1) =~= entries@.skip(from as int + 1));
        }
    }
    if from >= entries.len() {
        return None;
    }
    let k = &entries[from].0;
    let known = str_eq(k.as_str(), "default_max_lines") || str_eq(k.as_str(), "respect_gitignore")
        || str_eq(k.as_str(), "exclude") || str_eq(k.as_str(), "exempt") || str_eq(
        k.as_str(),
        "rules",
    );
    if !known {
        return Some(k.clone());
    }
    if str_eq(k.as_str(), "rules") {
        if let RawValue::Arr(items) = &entries[from].1 {
            proof {
                assert(items@.skip(0) =~= items@);
            }
            if let Some(u) = arr_unknown_exec(items, 0) {
                return Some(u);
            }
        }
    }
    doc_unknown_exec(entries, from + 1)
}

fn tbl_get_exec<'a>(entries: &'a Vec<(String, RawValue)>, key: &str, from: usize) -> (r: Option<
    &'a RawValue,
>)
    requires
        from <= entries@.len(),
    ensures
        match tbl_get(entries@.skip(from as int), key@) {
            Some(v) => r is Some && *r->0 == v,
            None => r is None,
        },
    decreases entries@.len() - from,
{
    proof {
        if from < entries@.len() {
            assert(entries@.skip(from as int)[0] == entries@[from as int]);
            assert(entries@.skip(from as int).skip(1) =~= entries@.skip(from as int + 1));
        }
    }
    if from >= entries.len() {
        return None;
    }
    if str_eq(entries[from].0.as_str(), key) {
        return Some(&entries[from].1);
    }
    tbl_get_exec(entries, key, from + 1)
}

fn strs_of_exec(items: &Vec<RawValue>, from: usize) -> (r: Option<Vec<String>>)
    requires
        from <= items@.len(),
    ensures
        match strs_of(items@.skip(from as int)) {
            Some(views) => r is Some && r->0@.map(|i: int, p: String| p@) == views,
            None => r is None,
        },
    decreases items@.len() - from,
{
    proof {
        if from < items@.len() {
            assert(items@.skip(from as int)[0] == items@[from as int]);
            assert(items@.skip(from as int).skip(1) =~= items@.skip(from as int + 1));
        }
    }
    if from >= items.len() {
        let r: Vec<String> = Vec::new();
        proof {
            assert(r@.map(|i: int, p: String| p@) =~= Seq::<Seq<char>>::empty());
        }
        return Some(r);
    }
    if let RawValue::Str(s) = &items[from] {
        match strs_of_exec(items, from + 1) {
            Some(mut rest) => {
                rest.insert(0, s.clone());
                proof {
                    let views = strs_of(items@.skip(from as int))->0;
                    assert(rest@.map(|i: int, p: String| p@) =~= views);
                }
                Some(rest)
            },
            None => None,
        }
    } else {
        None
    }
}

fn extract_default(entries: &Vec<(String, RawValue)>) -> (r: Result<Option<usize>, ()>)
    ensures
        default_of(entries@) == match r {
            Ok(Some(u)) => Some(Some(u as nat)),
            Ok(None) => Some(None::<nat>),
            Err(_) => None::<Option<nat>>,
        },
{
    proof {
        assert(entries@.skip(0) =~= entries@);
    }
    match tbl_get_exec(entries, "default_max_lines", 0) {
        None => Ok(None),
        Some(RawValue::Int(i)) => {
            if *i < 0 {
                Err(())
            } else {
                let u = *i as u64;
                if u <= usize::MAX as u64 {
                    Ok(Some(u as usize))
                } else {
                    Err(())
                }
            }
        },
        Some(_) => Err(()),
    }
}

fn extract_gitignore(entries: &Vec<(String, RawValue)>) -> (r: Result<bool, ()>)
    ensures
        gitignore_of(entries@) == match r {
            Ok(b) => Some(b),
            Err(_) => None::<bool>,
        },
{
    proof {
        assert(entries@.skip(0) =~= entries@);
    }
    match tbl_get_exec(entries, "respect_gitignore", 0) {
        None => Ok(true),
        Some(RawValue::Bool(b)) => Ok(*b),
        Some(_) => Err(()),
    }
}

fn extract_strlist(entries: &Vec<(String, RawValue)>, key: &str) -> (r: Result<Vec<String>, ()>)
    ensures
        strlist_of(tbl_get(entries@, key@)) == match r {
            Ok(v) => Some(v@.map(|i: int, p: String| p@)),
            Err(_) => None::<Seq<Seq<char>>>,
        },
{
    proof {
        assert(entries@.skip(0) =~= entries@);
    }
    match tbl_get_exec(entries, key, 0) {
        None => {
            let v: Vec<String> = Vec::new();
            proof {
                assert(v@.map(|i: int, p: String| p@) =~= Seq::<Seq<char>>::empty());
            }
            Ok(v)
        },
        Some(RawValue::Arr(items)) => {
            proof {
                assert(items@.skip(0) =~= items@);
            }
            match strs_of_exec(items, 0) {
                Some(v) => Ok(v),
                None => Err(()),
            }
        },
        Some(_) => Err(()),
    }
}

/// The mathematical value of one executable rule.
pub open spec fn rule_view(r: Rule) -> RuleV {
    RuleV { path: r.path@, max_lines: r.max_lines as nat, severity: r.severity }
}

fn rule_of_exec(tbl: &Vec<(String, RawValue)>) -> (r: Result<Vec<Rule>, ()>)
    ensures
        rule_of(tbl@) == match r {
            Ok(v) => Some(v@.map(|i: int, x: Rule| rule_view(x))),
            Err(_) => None::<Seq<RuleV>>,
        },
{
    proof {
        assert(tbl@.skip(0) =~= tbl@);
    }
    let paths: Vec<String> = match tbl_get_exec(tbl, "path", 0) {
        Some(RawValue::Str(s)) => {
            let mut v: Vec<String> = Vec::new();
            v.push(s.clone());
            proof {
                assert(v@.map(|i: int, p: String| p@) =~= seq![s@]);
            }
            v
        },
        Some(RawValue::Arr(items)) => {
            proof {
                assert(items@.skip(0) =~= items@);
            }
            match strs_of_exec(items, 0) {
                Some(v) => v,
                None => { return Err(()); },
            }
        },
        _ => { return Err(()); },
    };
    let limit: usize = match tbl_get_exec(tbl, "max_lines", 0) {
        Some(RawValue::Int(i)) => {
            if *i < 0 {
                return Err(());
            }
            let u = *i as u64;
            if u <= usize::MAX as u64 {
                u as usize
            } else {
                return Err(());
            }
        },
        _ => { return Err(()); },
    };
    let severity: Severity = match tbl_get_exec(tbl, "severity", 0) {
        None => Severity::Error,
        Some(RawValue::Str(s)) => {
            if str_eq(s.as_str(), "error") {
                Severity::Error
            } else if str_eq(s.as_str(), "warning") {
                Severity::Warning
            } else {
                return Err(());
            }
        },
        Some(_) => { return Err(()); },
    };

    let ghost pviews = paths@.map(|i: int, p: String| p@);
    let mut rules: Vec<Rule> = Vec::new();
    let mut i: usize = 0;
    while i < paths.len()
        invariant
            0 <= i <= paths@.len(),
            pviews == paths@.map(|k: int, p: String| p@),
            rules@.len() == i,
            forall|k: int|
                0 <= k < i ==> rule_view(#[trigger] rules@[k]) == (RuleV {
                    path: pviews[k],
                    max_lines: limit as nat,
                    severity,
                }),
        decreases paths@.len() - i,
    {
        rules.push(Rule { path: paths[i].clone(), max_lines: limit, severity });
        i = i + 1;
    }
    proof {
        assert(rules@.map(|k: int, x: Rule| rule_view(x)) =~= pviews.map(
            |k: int, p: Seq<char>| RuleV { path: p, max_lines: limit as nat, severity },
        ));
    }
    Ok(rules)
}

fn rule_items_exec(items: &Vec<RawValue>, from: usize) -> (r: Result<Vec<Rule>, ()>)
    requires
        from <= items@.len(),
    ensures
        rule_items_of(items@.skip(from as int)) == match r {
            Ok(v) => Some(v@.map(|i: int, x: Rule| rule_view(x))),
            Err(_) => None::<Seq<RuleV>>,
        },
    decreases items@.len() - from,
{
    proof {
        if from < items@.len() {
            assert(items@.skip(from as int)[0] == items@[from as int]);
            assert(items@.skip(from as int).skip(1) =~= items@.skip(from as int + 1));
        }
    }
    if from >= items.len() {
        let v: Vec<Rule> = Vec::new();
        proof {
            assert(v@.map(|i: int, x: Rule| rule_view(x)) =~= Seq::<RuleV>::empty());
        }
        return Ok(v);
    }
    if let RawValue::Table(entries) = &items[from] {
        let mut head = match rule_of_exec(entries) {
            Ok(h) => h,
            Err(_) => { return Err(()); },
        };
        let mut rest = match rule_items_exec(items, from + 1) {
            Ok(t) => t,
            Err(_) => { return Err(()); },
        };
        let ghost head_seq = head@;
        let ghost rest_seq = rest@;
        head.append(&mut rest);
        proof {
            assert(head@ == head_seq + rest_seq);
            assert(head@.map(|i: int, x: Rule| rule_view(x)) =~= head_seq.map(
                |i: int, x: Rule| rule_view(x),
            ) + rest_seq.map(|i: int, x: Rule| rule_view(x)));
        }
        Ok(head)
    } else {
        Err(())
    }
}

fn extract_rules(entries: &Vec<(String, RawValue)>) -> (r: Result<Vec<Rule>, ()>)
    ensures
        rules_of(tbl_get(entries@, "rules"@)) == match r {
            Ok(v) => Some(v@.map(|i: int, x: Rule| rule_view(x))),
            Err(_) => None::<Seq<RuleV>>,
        },
{
    proof {
        assert(entries@.skip(0) =~= entries@);
    }
    match tbl_get_exec(entries, "rules", 0) {
        None => {
            let v: Vec<Rule> = Vec::new();
            proof {
                assert(v@.map(|i: int, x: Rule| rule_view(x)) =~= Seq::<RuleV>::empty());
            }
            Ok(v)
        },
        Some(RawValue::Arr(items)) => {
            proof {
                assert(items@.skip(0) =~= items@);
            }
            rule_items_exec(items, 0)
        },
        Some(_) => Err(()),
    }
}

/// The line and column a parse error at the given offset is reported at.
pub open spec fn toml_err_line_col(text: Seq<char>, offset: Option<usize>) -> Option<(int, int)> {
    match offset {
        None => None,
        Some(o) => if byte_len(text) <= usize::MAX - 4 && o <= byte_len(text) {
            Some(line_col_of(text, chars_before(text, o as int)))
        } else {
            None
        },
    }
}

/// Whether an error value is the `Toml` variant naming the given source path.
pub open spec fn is_toml_err_for(e: ConfigError, path: Seq<char>) -> bool {
    e is Toml && e->Toml_path@ == path
}

fn resolve_table(path: &str, text: &str, entries: &Vec<(String, RawValue)>) -> (r: Result<
    LoqConfig,
    ConfigError,
>)
    ensures
        match doc_unknown(entries@) {
            Some(k) => {
                &&& r is Err
                &&& r->Err_0 is UnknownKey
                &&& r->Err_0->UnknownKey_path@ == path@
                &&& r->Err_0->UnknownKey_key@ == k
                &&& match suggestion_spec(k) {
                    Some(s) => r->Err_0->UnknownKey_suggestion is Some
                        && r->Err_0->UnknownKey_suggestion->0@ == s,
                    None => r->Err_0->UnknownKey_suggestion is None,
                }
                &&& match key_location_in_text(text@, k) {
                    Some((l, c)) => r->Err_0->UnknownKey_line_col is Some
                        && r->Err_0->UnknownKey_line_col->0 == (l as usize, c as usize),
                    None => r->Err_0->UnknownKey_line_col is None,
                }
            },
            None => match resolve_doc(entries@) {
                Some(cv) => r is Ok && config_view(r->Ok_0) == cv,
                None => r is Err && is_toml_err_for(r->Err_0, path@),
            },
        },
{
    proof {
        assert(entries@.skip(0) =~= entries@);
    }
    if let Some(key) = doc_unknown_exec(entries, 0) {
        let suggestion = suggest_key(key.as_str());
        let line_col = find_key_location(text, key.as_str());
        return Err(ConfigError::UnknownKey { path: path.to_owned(), key, line_col, suggestion });
    }

    let default_max_lines = match extract_default(entries) {
        Ok(d) => d,
        Err(_) => {
            return Err(ConfigError::Toml {
                path: path.to_owned(),
                message: "invalid value for 'default_max_lines'".to_owned(),
                line_col: None,
            });
        },
    };
    let respect_gitignore = match extract_gitignore(entries) {
        Ok(b) => b,
        Err(_) => {
            return Err(ConfigError::Toml {
                path: path.to_owned(),
                message: "invalid value for 'respect_gitignore'".to_owned(),
                line_col: None,
            });
        },
    };
    let exclude = match extract_strlist(entries, "exclude") {
        Ok(v) => v,
        Err(_) => {
            return Err(ConfigError::Toml {
                path: path.to_owned(),
                message: "invalid value for 'exclude'".to_owned(),
                line_col: None,
            });
        },
    };
    let exempt = match extract_strlist(entries, "exempt") {
        Ok(v) => v,
        Err(_) => {
            return Err(ConfigError::Toml {
                path: path.to_owned(),
                message: "invalid value for 'exempt'".to_owned(),
                line_col: None,
            });
        },
    };
    let rules = match extract_rules(entries) {
        Ok(v) => v,
        Err(_) => {
            return Err(ConfigError::Toml {
                path: path.to_owned(),
                message: "invalid value in 'rules'".to_owned(),
                line_col: None,
            });
        },
    };
    let config = LoqConfig { default_max_lines, respect_gitignore, exclude, exempt, rules };
    proof {
        let cv = resolve_doc(entries@)->0;
        assert(config_view(config).rules =~= cv.rules);
        assert(config_view(config).exclude =~= cv.exclude);
        assert(config_view(config).exempt =~= cv.exempt);
    }
    Ok(config)
}

/// Parses a configuration text.
///
/// A syntax error is reported with the parser's message and, when the parser
/// gives an offset inside the text, its 1-based line and column. With a
/// well-formed document, the whole structure — including every rule table —
/// is scanned for unknown keys first; the first unknown key is reported with
/// its location in the text and the nearest known key as a suggestion, when
/// one is within edit distance three. Otherwise the document's values are
/// read, and the parsed configuration's fields are exactly the document's:
/// an ill-typed value is a `Toml` error naming the source path.
pub fn parse_config(path: &str, text: &str) -> (r: Result<LoqConfig, ConfigError>)
    ensures
        match toml_parse_of(text@) {
            Err(f) => {
                &&& r is Err
                &&& is_toml_err_for(r->Err_0, path@)
                &&& r->Err_0->Toml_message@ == f.message@
                &&& match toml_err_line_col(text@, f.offset) {
                    Some((l, c)) => r->Err_0->Toml_line_col is Some && r->Err_0->Toml_line_col->0
                        == (l as usize, c as usize),
                    None => r->Err_0->Toml_line_col is None,
                }
            },
            Ok(doc) => match doc {
                RawValue::Table(entries) => match doc_unknown(entries@) {
                    Some(k) => {
                        &&& r is Err
                        &&& r->Err_0 is UnknownKey
                        &&& r->Err_0->UnknownKey_path@ == path@
                        &&& r->Err_0->UnknownKey_key@ == k
                        &&& match suggestion_spec(k) {
                            Some(s) => r->Err_0->UnknownKey_suggestion is Some
                                && r->Err_0->UnknownKey_suggestion->0@ == s,
                            None => r->Err_0->UnknownKey_suggestion is None,
                        }
                        &&& match key_location_in_text(text@, k) {
                            Some((l, c)) => r->Err_0->UnknownKey_line_col is Some
                                && r->Err_0->UnknownKey_line_col->0 == (l as usize, c as usize),
                            None => r->Err_0->UnknownKey_line_col is None,
                        }
                    },
                    None => match resolve_doc(entries@) {
                        Some(cv) => r is Ok && config_view(r->Ok_0) == cv,
                        None => r is Err && is_toml_err_for(r->Err_0, path@),
                    },
                },
                _ => r is Err && is_toml_err_for(r->Err_0, path@),
            },
        },
{
    match parse_toml_text(text) {
        Err(f) => {
            let line_col = match f.offset {
                Some(o) => line_col_from_offset(text, o),
                None => None,
            };
            Err(ConfigError::Toml { path: path.to_owned(), message: f.message, line_col })
        },
        Ok(RawValue::Table(entries)) => resolve_table(path, text, &entries),
        Ok(_) => Err(
            ConfigError::Toml {
                path: path.to_owned(),
                message: "the configuration must be a table".to_owned(),
                line_col: None,
            },
        ),
    }
}

} // verus!
