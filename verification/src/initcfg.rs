//! The generated configuration file's text.
//!
//! A fresh configuration either shows commented example rules, or — for a
//! baseline — locks each currently violating file at its current size. The
//! text is specified character for character. Also here: the content edit
//! that adds the cache file to an ignore list.

use vstd::prelude::*;
use crate::strutil::{dec_str, split_seq, str_split, str_trim, trim_spec, usize_to_string};

verus! {

/// A file that violates the default limit, captured for a baseline.
#[derive(Debug, Clone)]
pub struct BaselineEntry {
    /// The file's display path.
    pub path: String,
    /// Its current line count.
    pub lines: usize,
}

/// The fixed head of a generated configuration.
pub open spec fn config_head() -> Seq<char> {
    "default_max_lines = 500\n"@ + "respect_gitignore = true\n"@ + "\n"@
        + "# Paths, files, or glob patterns to exclude\n"@ + "exclude = []\n"@
}

/// The commented example rules shown when there is no baseline.
pub open spec fn example_rules() -> Seq<char> {
    "\n"@ + "# Rules override defaults for specific paths. Last match wins.\n"@ + "# [[rules]]\n"@
        + "# path = \"**/*.ext\"\n"@ + "# severity = \"warning\"\n"@ + "#\n"@ + "# [[rules]]\n"@
        + "# path = \"some/path/**/*\"\n"@ + "# max_lines = 1000"@
}

/// One baseline entry's rule block.
pub open spec fn entry_text(path: Seq<char>, lines: nat) -> Seq<char> {
    "\n[[rules]]\n"@ + "path = \""@ + path + "\"\n"@ + "max_lines = "@ + dec_str(lines)
}

/// All baseline entries' rule blocks, in order.
pub open spec fn entries_text(entries: Seq<(Seq<char>, nat)>) -> Seq<char>
    decreases entries.len(),
{
    if entries.len() == 0 {
        Seq::empty()
    } else {
        entries_text(entries.take(entries.len() - 1)) + entry_text(
            entries.last().0,
            entries.last().1,
        )
    }
}

/// The full text of a generated configuration: the head, then either the
/// example rules or the baseline blocks.
pub open spec fn config_text(entries: Seq<(Seq<char>, nat)>) -> Seq<char> {
    if entries.len() == 0 {
        config_head() + example_rules()
    } else {
        config_head() + "\n"@ + "# Baseline: files locked at current size (any growth is an error)\n"@
            + entries_text(entries)
    }
}

/// Builds the text of a generated configuration, optionally locking the
/// given files at their current sizes.
pub fn default_config_text(baseline: &Vec<BaselineEntry>) -> (r: String)
    ensures
        r@ == config_text(
            baseline@.map(|i: int, e: BaselineEntry| (e.path@, e.lines as nat)),
        ),
{
    let ghost entries = baseline@.map(|i: int, e: BaselineEntry| (e.path@, e.lines as nat));
    let mut out: String = "default_max_lines = 500\n".to_owned();
    out.append("respect_gitignore = true\n");
    out.append("\n");
    out.append("# Paths, files, or glob patterns to exclude\n");
    out.append("exclude = []\n");
    proof {
        assert(out@ =~= config_head());
    }

    if baseline.len() == 0 {
        out.append("\n");
        out.append("# Rules override defaults for specific paths. Last match wins.\n");
        out.append("# [[rules]]\n");
        out.append("# path = \"**/*.ext\"\n");
        out.append("# severity = \"warning\"\n");
        out.append("#\n");
        out.append("# [[rules]]\n");
        out.append("# path = \"some/path/**/*\"\n");
        out.append("# max_lines = 1000");
        proof {
            assert(out@ =~= config_text(entries));
        }
        return out;
    }

    out.append("\n");
    out.append("# Baseline: files locked at current size (any growth is an error)\n");
    let ghost prefix = out@;
    let mut i: usize = 0;
    while i < baseline.len()
        invariant
            0 <= i <= baseline@.len(),
            entries == baseline@.map(|k: int, e: BaselineEntry| (e.path@, e.lines as nat)),
            out@ == prefix + entries_text(entries.take(i as int)),
        decreases baseline@.len() - i,
    {
        let entry = &baseline[i];
        out.append("\n[[rules]]\n");
        out.append("path = \"");
        out.append(entry.path.as_str());
        out.append("\"\n");
        out.append("max_lines = ");
        out.append(usize_to_string(entry.lines).as_str());
        i = i + 1;
        proof {
            let t = entries.take(i as int);
            assert(t.take(t.len() - 1) =~= entries.take(i as int - 1));
            assert(t.last() == entries[i as int - 1]);
            assert(out@ =~= prefix + entries_text(t));
        }
    }
    proof {
        assert(entries.take(entries.len() as int) =~= entries);
        assert(out@ =~= config_text(entries));
    }
    out
}

/// Whether some line of the contents, trimmed, is exactly the cache file's
/// name.
pub open spec fn has_cache_line(contents: Seq<char>) -> bool {
    exists|i: int|
        0 <= i < split_seq(contents, '\n').len() && trim_spec(
            #[trigger] split_seq(contents, '\n')[i],
        ) == ".loq_cache"@
}

/// The ignore-file contents with the cache file added: `None` when a line
/// for it already exists; otherwise the contents, a separating newline when
/// one is missing, and the cache line.
pub fn gitignore_with_cache_line(contents: &str) -> (r: Option<String>)
    ensures
        has_cache_line(contents@) ==> r is None,
        !has_cache_line(contents@) ==> r is Some && r->0@ == contents@ + (
        if contents@.len() == 0 || contents@.last() == '\n' {
            Seq::<char>::empty()
        } else {
            "\n"@
        }) + ".loq_cache\n"@,
{
    let lines = str_split(contents, '\n');
    let ghost lviews = split_seq(contents@, '\n');
    proof {
        assert(lines@.map(|i: int, l: String| l@) =~= lviews);
        reveal_strlit(".loq_cache");
    }
    let n = lines.len();
    let mut i: usize = 0;
    while i < n
        invariant
            0 <= i <= n,
            n == lines@.len(),
            lines@.map(|k: int, l: String| l@) == lviews,
            lviews == split_seq(contents@, '\n'),
            forall|k: int| 0 <= k < i ==> trim_spec(#[trigger] lviews[k]) != ".loq_cache"@,
        decreases n - i,
    {
        let t = str_trim(lines[i].as_str());
        proof {
            reveal_strlit(".loq_cache");
        }
        if crate::strutil::str_eq(t, ".loq_cache") {
            proof {
                assert(trim_spec(lviews[i as int]) == ".loq_cache"@);
            }
            return None;
        }
        i = i + 1;
    }

    let m = contents.unicode_len();
    let mut out = contents.to_owned();
    if !(m == 0 || contents.get_char(m - 1) == '\n') {
        out.append("\n");
    }
    out.append(".loq_cache\n");
    proof {
        assert(out@ =~= contents@ + (if contents@.len() == 0 || contents@.last() == '\n' {
            Seq::<char>::empty()
        } else {
            "\n"@
        }) + ".loq_cache\n"@);
    }
    Some(out)
}

} // verus!
