//! Bookkeeping for the baseline-style configuration commands.
//!
//! These commands rewrite the configuration's exact-path rules from the
//! current violations. The rewriting itself edits a file outside the
//! library; the counting, sorting keys, display widths, and summary lines it
//! needs are here.

use vstd::prelude::*;
use crate::edit::normalize_display_spec;
use crate::report::{FileOutcome, OutcomeKind};
use crate::strutil::{dec_str, formatted_number, usize_to_string};

verus! {

/// Statistics about rule changes.
#[derive(Debug, Clone, Copy, PartialEq, Eq, Structural)]
pub struct BaselineStats {
    /// Rules added.
    pub added: usize,
    /// Rules updated.
    pub updated: usize,
    /// Rules removed.
    pub removed: usize,
}

impl BaselineStats {
    /// Whether the run changed nothing.
    pub fn has_no_changes(&self) -> (r: bool)
        ensures
            r == (self.added == 0 && self.updated == 0 && self.removed == 0),
    {
        self.added == 0 && self.updated == 0 && self.removed == 0
    }
}

/// How one baseline change affected the rules.
#[derive(Debug, Clone, Copy, PartialEq, Eq, Structural)]
pub enum BaselineChangeKind {
    /// A new exact-path rule was added.
    Added,
    /// An existing rule's limit was updated.
    Updated,
    /// A rule for a now-compliant file was removed.
    Removed,
}

/// One change a baseline run made.
#[derive(Debug, Clone)]
pub struct BaselineChange {
    /// The file the rule names.
    pub path: String,
    /// The limit before the change.
    pub from: usize,
    /// The limit after the change; `None` for a removed rule.
    pub to: Option<usize>,
    /// What happened to the rule.
    pub kind: BaselineChangeKind,
}

/// All changes a baseline run made.
#[derive(Debug, Clone)]
pub struct BaselineReport {
    /// The individual changes.
    pub changes: Vec<BaselineChange>,
}

impl BaselineReport {
    /// Whether the run changed nothing.
    pub fn is_empty(&self) -> (r: bool)
        ensures
            r == (self.changes@.len() == 0),
    {
        self.changes.len() == 0
    }
}

/// The value a change is sorted by: the removed rule's old limit, or the
/// new limit of an added or updated rule.
pub fn change_sort_value(change: &BaselineChange) -> (r: usize)
    ensures
        r == (match change.kind {
            BaselineChangeKind::Removed => change.from,
            _ => match change.to {
                Some(t) => t,
                None => change.from,
            },
        }),
{
    match change.kind {
        BaselineChangeKind::Removed => change.from,
        _ => match change.to {
            Some(t) => t,
            None => change.from,
        },
    }
}

/// The old limit a change is displayed with; an added rule has none.
pub fn display_from(change: &BaselineChange) -> (r: Option<usize>)
    ensures
        change.kind is Added ==> r is None,
        !(change.kind is Added) ==> r == Some(change.from),
{
    match change.kind {
        BaselineChangeKind::Added => None,
        _ => Some(change.from),
    }
}

/// Counts of the changes written, by kind.
#[derive(Debug, Clone, Copy, PartialEq, Eq, Structural)]
pub struct ChangeCounts {
    /// Rules added.
    pub added: usize,
    /// Rules updated.
    pub updated: usize,
    /// Rules removed.
    pub removed: usize,
}

/// The display width of a formatted number: its grouped decimal length.
pub open spec fn number_width(n: nat) -> nat {
    formatted_number(n).len()
}

/// The column width the change table needs: at least six, and wide enough
/// for every displayed limit.
pub fn max_width(changes: &Vec<BaselineChange>) -> (r: usize)
    ensures
        r >= 6,
        forall|i: int|
            0 <= i < changes@.len() ==> {
                let c = #[trigger] changes@[i];
                &&& (!(c.kind is Added) ==> r >= number_width(c.from as nat))
                &&& (c.to matches Some(t) ==> r >= number_width(t as nat))
            },
{
    let mut width: usize = 6;
    let mut i: usize = 0;
    while i < changes.len()
        invariant
            0 <= i <= changes@.len(),
            width >= 6,
            forall|k: int|
                0 <= k < i ==> {
                    let c = #[trigger] changes@[k];
                    &&& (!(c.kind is Added) ==> width >= number_width(c.from as nat))
                    &&& (c.to matches Some(t) ==> width >= number_width(t as nat))
                },
        decreases changes@.len() - i,
    {
        let change = &changes[i];
        match display_from(change) {
            Some(from) => {
                let s = crate::strutil::format_number(from);
                let l = s.as_str().unicode_len();
                if l > width {
                    width = l;
                }
            },
            None => {},
        }
        match change.to {
            Some(t) => {
                let s = crate::strutil::format_number(t);
                let l = s.as_str().unicode_len();
                if l > width {
                    width = l;
                }
            },
            None => {},
        }
        i = i + 1;
    }
    width
}

/// The summary phrase of a change run: `added N file(s)` and
/// `updated M file(s)`, joined with a comma, for the nonzero counts.
pub open spec fn change_summary_spec(counts: ChangeCounts) -> Seq<char> {
    let added: Seq<char> = if counts.added > 0 {
        "added "@ + dec_str(counts.added as nat) + " file"@ + (if counts.added == 1 {
            Seq::<char>::empty()
        } else {
            "s"@
        })
    } else {
        Seq::<char>::empty()
    };
    let updated: Seq<char> = if counts.updated > 0 {
        "updated "@ + dec_str(counts.updated as nat) + " file"@ + (if counts.updated == 1 {
            Seq::<char>::empty()
        } else {
            "s"@
        })
    } else {
        Seq::<char>::empty()
    };
    if counts.added > 0 && counts.updated > 0 {
        added + ", "@ + updated
    } else {
        added + updated
    }
}

/// Builds the summary phrase for the added and updated counts.
pub fn change_summary(counts: &ChangeCounts) -> (r: String)
    ensures
        r@ == change_summary_spec(*counts),
{
    let mut r: String = "".to_owned();
    proof {
        reveal_strlit("");
    }
    if counts.added > 0 {
        r.append("added ");
        r.append(usize_to_string(counts.added).as_str());
        r.append(" file");
        if counts.added != 1 {
            r.append("s");
        }
    }
    if counts.added > 0 && counts.updated > 0 {
        r.append(", ");
    }
    if counts.updated > 0 {
        r.append("updated ");
        r.append(usize_to_string(counts.updated).as_str());
        r.append(" file");
        if counts.updated != 1 {
            r.append("s");
        }
    }
    proof {
        assert(r@ =~= change_summary_spec(*counts));
    }
    r
}

/// Uppercase of an ASCII letter; anything else is unchanged.
pub open spec fn upper_char(c: char) -> char {
    if 97 <= (c as u32) && (c as u32) <= 122 {
        (((c as u32) - 32) as char)
    } else {
        c
    }
}

/// A string with its first character uppercased (ASCII letters only).
pub open spec fn capitalize_spec(s: Seq<char>) -> Seq<char> {
    if s.len() == 0 {
        s
    } else {
        seq![upper_char(s[0])] + s.skip(1)
    }
}

/// Uppercases the first character of a string (ASCII letters only); an
/// empty string stays empty.
pub fn capitalize_first(s: &str) -> (r: String)
    ensures
        r@ == capitalize_spec(s@),
{
    let n = s.unicode_len();
    if n == 0 {
        return s.to_owned();
    }
    let c = s.get_char(0);
    let u = c as u32;
    if 97 <= u && u <= 122 {
        proof {
            vstd::utf8::char_u32_cast(c, u);
        }
        let b: u8 = (u - 32) as u8;
        let upper: char = b as char;
        let up_str: &'static str = match b {
            65 => "A",
            66 => "B",
            67 => "C",
            68 => "D",
            69 => "E",
            70 => "F",
            71 => "G",
            72 => "H",
            73 => "I",
            74 => "J",
            75 => "K",
            76 => "L",
            77 => "M",
            78 => "N",
            79 => "O",
            80 => "P",
            81 => "Q",
            82 => "R",
            83 => "S",
            84 => "T",
            85 => "U",
            86 => "V",
            87 => "W",
            88 => "X",
            89 => "Y",
            _ => "Z",
        };
        proof {
            reveal_strlit("A");
            reveal_strlit("B");
            reveal_strlit("C");
            reveal_strlit("D");
            reveal_strlit("E");
            reveal_strlit("F");
            reveal_strlit("G");
            reveal_strlit("H");
            reveal_strlit("I");
            reveal_strlit("J");
            reveal_strlit("K");
            reveal_strlit("L");
            reveal_strlit("M");
            reveal_strlit("N");
            reveal_strlit("O");
            reveal_strlit("P");
            reveal_strlit("Q");
            reveal_strlit("R");
            reveal_strlit("S");
            reveal_strlit("T");
            reveal_strlit("U");
            reveal_strlit("V");
            reveal_strlit("W");
            reveal_strlit("X");
            reveal_strlit("Y");
            reveal_strlit("Z");
            assert(up_str@ =~= seq![upper]);
        }
        let mut r = up_str.to_owned();
        let rest = s.substring_char(1, n);
        proof {
            assert(rest@ =~= s@.skip(1));
        }
        r.append(rest);
        proof {
            assert(r@ =~= capitalize_spec(s@));
        }
        r
    } else {
        proof {
            vstd::utf8::char_u32_cast(c, u);
            assert(capitalize_spec(s@) =~= s@);
        }
        s.to_owned()
    }
}

/// One tightened limit.
#[derive(Debug, Clone)]
pub struct TightenChange {
    /// The file whose limit changed.
    pub path: String,
    /// The old limit.
    pub from: usize,
    /// The new, lower limit.
    pub to: usize,
}

impl TightenChange {
    /// How far the limit came down; zero if it did not.
    pub fn delta(&self) -> (r: usize)
        ensures
            self.from >= self.to ==> r == self.from - self.to,
            self.from < self.to ==> r == 0,
    {
        if self.from >= self.to {
            self.from - self.to
        } else {
            0
        }
    }
}

/// All changes a tighten run made.
#[derive(Debug, Clone)]
pub struct TightenReport {
    /// The limits lowered.
    pub changes: Vec<TightenChange>,
    /// The rules removed.
    pub removed: usize,
}

impl TightenReport {
    /// Whether the run changed nothing.
    pub fn is_empty(&self) -> (r: bool)
        ensures
            r == (self.changes@.len() == 0 && self.removed == 0),
    {
        self.changes.len() == 0 && self.removed == 0
    }
}

/// The violations of a run, as (normalized display path, line count)
/// pairs in outcome order.
pub open spec fn violations_of(s: Seq<FileOutcome>) -> Seq<(Seq<char>, nat)>
    decreases s.len(),
{
    if s.len() == 0 {
        Seq::empty()
    } else {
        let head: Seq<(Seq<char>, nat)> = match s[0].kind {
            OutcomeKind::Violation { actual, .. } => seq![
                (normalize_display_spec(s[0].display_path@), actual as nat),
            ],
            _ => Seq::empty(),
        };
        head + violations_of(s.skip(1))
    }
}

fn collect_violations_from(outcomes: &Vec<FileOutcome>, from: usize) -> (r: Vec<(String, usize)>)
    requires
        from <= outcomes@.len(),
    ensures
        r@.map(|i: int, p: (String, usize)| (p.0@, p.1 as nat)) == violations_of(
            outcomes@.skip(from as int),
        ),
    decreases outcomes@.len() - from,
{
    proof {
        if from < outcomes@.len() {
            assert(outcomes@.skip(from as int)[0] == outcomes@[from as int]);
            assert(outcomes@.skip(from as int).skip(1) =~= outcomes@.skip(from as int + 1));
        }
    }
    if from >= outcomes.len() {
        let r: Vec<(String, usize)> = Vec::new();
        proof {
            assert(r@.map(|i: int, p: (String, usize)| (p.0@, p.1 as nat)) =~= Seq::<(
                Seq<char>,
                nat,
            )>::empty());
        }
        return r;
    }
    let o = &outcomes[from];
    let mut rest = collect_violations_from(outcomes, from + 1);
    match &o.kind {
        OutcomeKind::Violation { actual, .. } => {
            let key = crate::edit::normalize_display_path(o.display_path.as_str());
            rest.insert(0, (key, *actual));
            proof {
                assert(rest@.map(|i: int, p: (String, usize)| (p.0@, p.1 as nat))
                    =~= violations_of(outcomes@.skip(from as int)));
            }
            rest
        },
        _ => rest,
    }
}

/// Collects the violations of a run as (normalized display path, actual
/// line count) pairs, one per violating outcome, in outcome order.
pub fn collect_violations(outcomes: &Vec<FileOutcome>) -> (r: Vec<(String, usize)>)
    ensures
        r@.map(|i: int, p: (String, usize)| (p.0@, p.1 as nat)) == violations_of(outcomes@),
{
    proof {
        assert(outcomes@.skip(0) =~= outcomes@);
    }
    collect_violations_from(outcomes, 0)
}

} // verus!
