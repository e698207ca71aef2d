//! Escaping glob metacharacters in literal paths.
//!
//! A literal filesystem path can contain glob metacharacters (bracketed
//! route-style filenames, for example); to match itself literally as a
//! pattern, each metacharacter is wrapped in a character class: `*` becomes
//! `[*]`, `[` becomes `[[]`, and so on. The pair `escape_glob` /
//! `unescape_glob` is a proved round trip, and an escaped path always counts
//! as an exact path.

use vstd::prelude::*;
use crate::strutil::starts_with_seq;

verus! {

/// The glob metacharacters that need escaping.
pub open spec fn is_glob_meta(c: char) -> bool {
    c == '?' || c == '*' || c == '[' || c == ']' || c == '{' || c == '}'
}

/// The escaped form of one character.
pub open spec fn escape_char(c: char) -> Seq<char> {
    if is_glob_meta(c) {
        seq!['[', c, ']']
    } else {
        seq![c]
    }
}

/// A path with every glob metacharacter wrapped in a character class.
pub open spec fn escape_seq(s: Seq<char>) -> Seq<char>
    decreases s.len(),
{
    if s.len() == 0 {
        Seq::empty()
    } else {
        escape_char(s[0]) + escape_seq(s.skip(1))
    }
}

/// Whether `s` starts with a single-character class escape: `[`, a
/// metacharacter, `]`.
pub open spec fn starts_with_escape(s: Seq<char>) -> bool {
    s.len() >= 3 && s[0] == '[' && is_glob_meta(s[1]) && s[2] == ']'
}

/// The unescaped form: each single-character class collapses back to its
/// character, scanning left to right.
pub open spec fn unescape_seq(s: Seq<char>) -> Seq<char>
    decreases s.len(),
{
    if s.len() == 0 {
        Seq::empty()
    } else if starts_with_escape(s) {
        seq![s[1]] + unescape_seq(s.skip(3))
    } else {
        seq![s[0]] + unescape_seq(s.skip(1))
    }
}

/// Whether a pattern is an exact path: scanning left to right, escaped
/// metacharacters are literal, and no unescaped `*`, `?`, `[`, or `{`
/// remains.
pub open spec fn is_exact_seq(s: Seq<char>) -> bool
    decreases s.len(),
{
    if s.len() == 0 {
        true
    } else if starts_with_escape(s) {
        is_exact_seq(s.skip(3))
    } else if s[0] == '*' || s[0] == '?' || s[0] == '[' || s[0] == '{' {
        false
    } else {
        is_exact_seq(s.skip(1))
    }
}

fn starts_with_escape_exec(s: &str, n: usize) -> (r: bool)
    requires
        n == s@.len(),
    ensures
        r == starts_with_escape(s@),
{
    if n < 3 {
        return false;
    }
    let c0 = s.get_char(0);
    let c1 = s.get_char(1);
    let c2 = s.get_char(2);
    c0 == '[' && (c1 == '?' || c1 == '*' || c1 == '[' || c1 == ']' || c1 == '{' || c1 == '}') && c2
        == ']'
}

/// Escapes a literal path so it matches itself as a glob pattern.
pub fn escape_glob(path: &str) -> (r: String)
    ensures
        r@ == escape_seq(path@),
    decreases path@.len(),
{
    let n = path.unicode_len();
    if n == 0 {
        proof {
            reveal_strlit("");
        }
        return "".to_owned();
    }
    let c = path.get_char(0);
    let head: &'static str = if c == '?' {
        "[?]"
    } else if c == '*' {
        "[*]"
    } else if c == '[' {
        "[[]"
    } else if c == ']' {
        "[]]"
    } else if c == '{' {
        "[{]"
    } else if c == '}' {
        "[}]"
    } else {
        ""
    };
    let rest = path.substring_char(1, n);
    proof {
        assert(rest@ =~= path@.skip(1));
        reveal_strlit("[?]");
        reveal_strlit("[*]");
        reveal_strlit("[[]");
        reveal_strlit("[]]");
        reveal_strlit("[{]");
        reveal_strlit("[}]");
        reveal_strlit("");
    }
    let mut r: String;
    if head.unicode_len() > 0 {
        r = head.to_owned();
    } else {
        r = path.substring_char(0, 1).to_owned();
        proof {
            assert(r@ =~= seq![path@[0]]);
        }
    }
    let tail = escape_glob(rest);
    r.append(tail.as_str());
    proof {
        assert(r@ =~= escape_seq(path@));
    }
    r
}

/// Reverses `escape_glob`: collapses each single-character class back to
/// its literal character.
pub fn unescape_glob(path: &str) -> (r: String)
    ensures
        r@ == unescape_seq(path@),
    decreases path@.len(),
{
    let n = path.unicode_len();
    if n == 0 {
        proof {
            reveal_strlit("");
        }
        return "".to_owned();
    }
    if starts_with_escape_exec(path, n) {
        let mut r = path.substring_char(1, 2).to_owned();
        let rest = path.substring_char(3, n);
        proof {
            assert(r@ =~= seq![path@[1]]);
            assert(rest@ =~= path@.skip(3));
        }
        let tail = unescape_glob(rest);
        r.append(tail.as_str());
        proof {
            assert(r@ =~= unescape_seq(path@));
        }
        r
    } else {
        let mut r = path.substring_char(0, 1).to_owned();
        let rest = path.substring_char(1, n);
        proof {
            assert(r@ =~= seq![path@[0]]);
            assert(rest@ =~= path@.skip(1));
        }
        let tail = unescape_glob(rest);
        r.append(tail.as_str());
        proof {
            assert(r@ =~= unescape_seq(path@));
        }
        r
    }
}

/// Whether a pattern is an exact literal path: escaped metacharacters count
/// as literal, and no unescaped glob metacharacter remains.
pub fn is_exact_path(path: &str) -> (r: bool)
    ensures
        r == is_exact_seq(path@),
    decreases path@.len(),
{
    let n = path.unicode_len();
    if n == 0 {
        return true;
    }
    if starts_with_escape_exec(path, n) {
        let rest = path.substring_char(3, n);
        proof {
            assert(rest@ =~= path@.skip(3));
        }
        is_exact_path(rest)
    } else {
        let c = path.get_char(0);
        if c == '*' || c == '?' || c == '[' || c == '{' {
            false
        } else {
            let rest = path.substring_char(1, n);
            proof {
                assert(rest@ =~= path@.skip(1));
            }
            is_exact_path(rest)
        }
    }
}

/// Escaping a literal path and unescaping the result gives the path back,
/// whatever characters it holds.
pub proof fn lemma_escape_unescape_roundtrip(p: Seq<char>)
    ensures
        unescape_seq(escape_seq(p)) == p,
    decreases p.len(),
{
    if p.len() == 0 {
        assert(unescape_seq(escape_seq(p)) =~= p);
    } else {
        lemma_escape_unescape_roundtrip(p.skip(1));
        let e = escape_seq(p);
        if is_glob_meta(p[0]) {
            assert(e =~= seq!['[', p[0], ']'] + escape_seq(p.skip(1)));
            assert(e[0] == '[' && e[1] == p[0] && e[2] == ']');
            assert(starts_with_escape(e));
            assert(e.skip(3) =~= escape_seq(p.skip(1)));
            assert(unescape_seq(e) =~= seq![p[0]] + unescape_seq(escape_seq(p.skip(1))));
            assert(unescape_seq(e) =~= p);
        } else {
            assert(e =~= seq![p[0]] + escape_seq(p.skip(1)));
            assert(e[0] == p[0]);
            assert(!starts_with_escape(e));
            assert(e.skip(1) =~= escape_seq(p.skip(1)));
            assert(unescape_seq(e) =~= seq![p[0]] + unescape_seq(escape_seq(p.skip(1))));
            assert(unescape_seq(e) =~= p);
        }
    }
}

/// Escaping at most triples a path's length: each character becomes itself
/// or a three-character class.
pub proof fn lemma_escape_seq_len(s: Seq<char>)
    ensures
        escape_seq(s).len() <= 3 * s.len(),
    decreases s.len(),
{
    if s.len() > 0 {
        lemma_escape_seq_len(s.skip(1));
    }
}

/// An escaped literal path is always an exact path: escaping leaves no
/// unescaped metacharacter behind.
pub proof fn lemma_escaped_is_exact(p: Seq<char>)
    ensures
        is_exact_seq(escape_seq(p)),
    decreases p.len(),
{
    if p.len() > 0 {
        lemma_escaped_is_exact(p.skip(1));
        let e = escape_seq(p);
        if is_glob_meta(p[0]) {
            assert(e =~= seq!['[', p[0], ']'] + escape_seq(p.skip(1)));
            assert(starts_with_escape(e));
            assert(e.skip(3) =~= escape_seq(p.skip(1)));
        } else {
            assert(e =~= seq![p[0]] + escape_seq(p.skip(1)));
            assert(!starts_with_escape(e));
            assert(e.skip(1) =~= escape_seq(p.skip(1)));
        }
    }
}

/// A display path normalized for matching and comparison: path separators
/// unified to `/`, and a leading `./` removed.
pub open spec fn normalize_display_spec(s: Seq<char>) -> Seq<char> {
    let slashes = s.map(
        |i: int, c: char|
            if c == '\\' {
                '/'
            } else {
                c
            },
    );
    if starts_with_seq(slashes, "./"@) {
        slashes.skip(2)
    } else {
        slashes
    }
}

/// Normalizes a display path: backslashes become `/`, and a leading `./` is
/// dropped.
pub fn normalize_display_path(path: &str) -> (r: String)
    ensures
        r@ == normalize_display_spec(path@),
{
    let ghost slashes = path@.map(
        |i: int, c: char|
            if c == '\\' {
                '/'
            } else {
                c
            },
    );
    let n = path.unicode_len();
    let mut out: String = "".to_owned();
    proof {
        reveal_strlit("");
        assert(out@ =~= slashes.take(0));
    }
    let mut i: usize = 0;
    while i < n
        invariant
            0 <= i <= n,
            n == path@.len(),
            slashes == path@.map(
                |k: int, c: char|
                    if c == '\\' {
                        '/'
                    } else {
                        c
                    },
            ),
            out@ == slashes.take(i as int),
        decreases n - i,
    {
        let c = path.get_char(i);
        if c == '\\' {
            out.append("/");
            proof {
                reveal_strlit("/");
            }
        } else {
            let piece = path.substring_char(i, i + 1);
            proof {
                assert(piece@ =~= seq![path@[i as int]]);
            }
            out.append(piece);
        }
        i = i + 1;
        proof {
            assert(out@ =~= slashes.take(i as int));
        }
    }
    proof {
        assert(slashes.take(n as int) =~= slashes);
    }
    if str_starts_with_dot_slash(out.as_str()) {
        let m = out.as_str().unicode_len();
        proof {
            reveal_strlit("./");
        }
        let rest = out.as_str().substring_char(2, m);
        proof {
            assert(rest@ =~= out@.skip(2));
        }
        rest.to_owned()
    } else {
        out
    }
}

fn str_starts_with_dot_slash(s: &str) -> (r: bool)
    ensures
        r == starts_with_seq(s@, "./"@),
{
    proof {
        reveal_strlit("./");
    }
    crate::strutil::str_starts_with(s, "./")
}

} // verus!
