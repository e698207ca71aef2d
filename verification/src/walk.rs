//! Candidate-file list handling and exclusion decisions.
//!
//! The directory walk itself is filesystem work done by the caller; the
//! library puts the discovered paths into a deterministic order — sorted,
//! duplicates dropped — and decides which paths the exclusion context rules
//! out before they reach the counters.

use vstd::prelude::*;
use crate::globs::{first_match_index, PatternList};
use crate::report::lemma_lex_le_trans;
use crate::strutil::{lemma_lex_le_total, lex_le, str_eq, str_le};

verus! {

/// Error encountered while walking a directory.
#[derive(Debug, Clone, PartialEq, Eq)]
pub struct WalkError(pub String);

/// Result of expanding paths: the files found, and the non-fatal errors met
/// along the way.
#[derive(Debug, Clone)]
pub struct WalkResult {
    /// All discovered file paths (already filtered).
    pub paths: Vec<String>,
    /// Errors encountered during walking, collected rather than fatal.
    pub errors: Vec<WalkError>,
}

/// The views of a sequence of path strings.
pub open spec fn views_of(v: Seq<String>) -> Seq<Seq<char>> {
    v.map(|i: int, p: String| p@)
}

/// Path views in ascending order.
pub open spec fn paths_sorted(s: Seq<Seq<char>>) -> bool {
    forall|i: int, j: int| 0 <= i < j < s.len() ==> lex_le(#[trigger] s[i], #[trigger] s[j])
}

/// No two equal path views.
pub open spec fn paths_distinct(s: Seq<Seq<char>>) -> bool {
    forall|i: int, j: int| 0 <= i < j < s.len() ==> (#[trigger] s[i]) != (#[trigger] s[j])
}

/// The order is antisymmetric: mutually comparable sequences are equal.
pub proof fn lemma_lex_le_antisym(a: Seq<char>, b: Seq<char>)
    requires
        lex_le(a, b),
        lex_le(b, a),
    ensures
        a == b,
    decreases a.len(),
{
    if a.len() > 0 && b.len() > 0 {
        lemma_lex_le_antisym(a.skip(1), b.skip(1));
        vstd::utf8::char_u32_cast(a[0], a[0] as u32);
        vstd::utf8::char_u32_cast(b[0], b[0] as u32);
        assert(a =~= seq![a[0]] + a.skip(1));
        assert(b =~= seq![b[0]] + b.skip(1));
    } else {
        assert(a.len() == 0 && b.len() == 0);
        assert(a =~= b);
    }
}

fn min_path_index(v: &Vec<String>) -> (r: usize)
    requires
        v@.len() > 0,
    ensures
        0 <= r < v@.len(),
        forall|k: int| 0 <= k < v@.len() ==> lex_le(v@[r as int]@, (#[trigger] v@[k])@),
{
    let mut mi: usize = 0;
    proof {
        lemma_lex_le_total(v@[0]@, v@[0]@);
    }
    let mut i: usize = 1;
    while i < v.len()
        invariant
            0 <= mi < i <= v@.len(),
            forall|k: int| 0 <= k < i ==> lex_le(v@[mi as int]@, (#[trigger] v@[k])@),
        decreases v@.len() - i,
    {
        if !str_le(v[mi].as_str(), v[i].as_str()) {
            proof {
                lemma_lex_le_total(v@[mi as int]@, v@[i as int]@);
                assert forall|k: int| 0 <= k < i + 1 implies lex_le(
                    v@[i as int]@,
                    (#[trigger] v@[k])@,
                ) by {
                    if k < i {
                        lemma_lex_le_trans(v@[i as int]@, v@[mi as int]@, v@[k]@);
                    } else {
                        lemma_lex_le_total(v@[i as int]@, v@[i as int]@);
                    }
                }
            }
            mi = i;
        }
        i = i + 1;
    }
    mi
}

/// Sorts the discovered paths and drops duplicates: the result is ascending,
/// holds no path twice, and holds exactly the paths of the input.
pub fn sort_dedup_paths(paths: Vec<String>) -> (r: Vec<String>)
    ensures
        paths_sorted(views_of(r@)),
        paths_distinct(views_of(r@)),
        forall|p: Seq<char>| #[trigger]
            views_of(r@).contains(p) <==> views_of(paths@).contains(p),
{
    broadcast use vstd::seq_lib::group_to_multiset_ensures;

    let ghost orig = paths@;
    let mut rest = paths;
    let mut sorted: Vec<String> = Vec::new();
    while rest.len() > 0
        invariant
            sorted@.to_multiset().add(rest@.to_multiset()) == orig.to_multiset(),
            paths_sorted(views_of(sorted@)),
            forall|i: int, j: int|
                0 <= i < sorted@.len() && 0 <= j < rest@.len() ==> lex_le(
                    (#[trigger] sorted@[i])@,
                    (#[trigger] rest@[j])@,
                ),
        decreases rest@.len(),
    {
        let mi = min_path_index(&rest);
        let ghost before = rest@;
        let ghost sorted_before = sorted@;
        let x = rest.remove(mi);
        sorted.push(x);
        proof {
            before.to_multiset_ensures();
            sorted_before.to_multiset_ensures();
            assert(x == before[mi as int]);
            assert(before.contains(before[mi as int]));
            assert(before.to_multiset().count(x) > 0);
            assert(sorted@ == sorted_before.push(x));
            assert(sorted@.to_multiset() =~= sorted_before.to_multiset().insert(x));
            assert(rest@.to_multiset() =~= before.to_multiset().remove(x));
            assert(sorted@.to_multiset().add(rest@.to_multiset()) =~= orig.to_multiset());
            assert forall|a: int, b: int|
                0 <= a < b < views_of(sorted@).len() implies lex_le(
                #[trigger] views_of(sorted@)[a],
                #[trigger] views_of(sorted@)[b],
            ) by {
                if b < views_of(sorted@).len() - 1 {
                    assert(views_of(sorted_before)[a] == views_of(sorted@)[a]);
                    assert(views_of(sorted_before)[b] == views_of(sorted@)[b]);
                } else {
                    assert(lex_le(sorted_before[a]@, before[mi as int]@));
                }
            }
            assert(paths_sorted(views_of(sorted@)));
            assert forall|i: int, j: int|
                0 <= i < sorted@.len() && 0 <= j < rest@.len() implies lex_le(
                (#[trigger] sorted@[i])@,
                (#[trigger] rest@[j])@,
            ) by {
                if j < mi {
                    assert(rest@[j] == before[j]);
                } else {
                    assert(rest@[j] == before[j + 1]);
                }
            }
        }
    }
    proof {
        rest@.to_multiset_ensures();
        sorted@.to_multiset_ensures();
        orig.to_multiset_ensures();
        assert(rest@.to_multiset().len() == 0);
        assert(rest@.len() == 0);
        assert(sorted@.to_multiset() =~= orig.to_multiset());
        assert forall|p: Seq<char>|
            views_of(sorted@).contains(p) <==> views_of(orig).contains(p) by {
            if views_of(sorted@).contains(p) {
                let w = choose|w: int|
                    0 <= w < views_of(sorted@).len() && (#[trigger] views_of(sorted@)[w]) == p;
                assert(sorted@.contains(sorted@[w]));
                assert(sorted@.to_multiset().count(sorted@[w]) > 0);
                assert(orig.contains(sorted@[w]));
                let u = choose|u: int| 0 <= u < orig.len() && orig[u] == sorted@[w];
                assert(views_of(orig)[u] == p);
            }
            if views_of(orig).contains(p) {
                let w = choose|w: int|
                    0 <= w < views_of(orig).len() && (#[trigger] views_of(orig)[w]) == p;
                assert(orig.contains(orig[w]));
                assert(orig.to_multiset().count(orig[w]) > 0);
                assert(sorted@.contains(orig[w]));
                let u = choose|u: int| 0 <= u < sorted@.len() && sorted@[u] == orig[w];
                assert(views_of(sorted@)[u] == p);
            }
        }
    }

    let mut out: Vec<String> = Vec::new();
    let n = sorted.len();
    let mut i: usize = 0;
    while i < n
        invariant
            0 <= i <= n,
            n == sorted@.len(),
            paths_sorted(views_of(sorted@)),
            paths_sorted(views_of(out@)),
            paths_distinct(views_of(out@)),
            forall|p: Seq<char>|
                views_of(out@).contains(p) <==> views_of(sorted@).take(i as int).contains(p),
            out@.len() > 0 && i < n ==> lex_le(out@.last()@, sorted@[i as int]@),
            out@.len() > 0 ==> exists|w: int|
                0 <= w < i && (#[trigger] sorted@[w])@ == out@.last()@,
        decreases n - i,
    {
        let push_it: bool = if out.len() == 0 {
            true
        } else {
            !str_eq(out[out.len() - 1].as_str(), sorted[i].as_str())
        };
        let ghost out_before = out@;
        if push_it {
            proof {
                if out_before.len() > 0 {
                    assert forall|k: int| 0 <= k < out_before.len() implies (
                    #[trigger] out_before[k])@ != sorted@[i as int]@ by {
                        if k < out_before.len() - 1 {
                            assert(views_of(out_before)[k] == out_before[k]@);
                            assert(views_of(out_before)[out_before.len() - 1]
                                == out_before.last()@);
                            assert(lex_le(out_before[k]@, out_before.last()@));
                        } else {
                            lemma_lex_le_total(out_before.last()@, out_before.last()@);
                        }
                        if out_before[k]@ == sorted@[i as int]@ {
                            assert(lex_le(sorted@[i as int]@, out_before.last()@));
                            lemma_lex_le_antisym(out_before.last()@, sorted@[i as int]@);
                        }
                    }
                }
            }
            proof {
                if out_before.len() > 0 {
                    assert forall|k: int| 0 <= k < out_before.len() implies lex_le(
                        (#[trigger] out_before[k])@,
                        sorted@[i as int]@,
                    ) by {
                        if k < out_before.len() - 1 {
                            assert(views_of(out_before)[k] == out_before[k]@);
                            assert(views_of(out_before)[out_before.len() - 1]
                                == out_before.last()@);
                            assert(lex_le(out_before[k]@, out_before.last()@));
                            lemma_lex_le_trans(
                                out_before[k]@,
                                out_before.last()@,
                                sorted@[i as int]@,
                            );
                        }
                    }
                }
            }
            out.push(sorted[i].clone());
            proof {
                assert forall|a: int, b: int|
                    0 <= a < b < views_of(out@).len() implies lex_le(
                    #[trigger] views_of(out@)[a],
                    #[trigger] views_of(out@)[b],
                ) by {
                    if b < views_of(out@).len() - 1 {
                        assert(views_of(out_before)[a] == views_of(out@)[a]);
                        assert(views_of(out_before)[b] == views_of(out@)[b]);
                    } else {
                        assert(views_of(out@)[b] == sorted@[i as int]@);
                        assert(views_of(out@)[a] == out_before[a]@);
                    }
                }
                assert(paths_sorted(views_of(out@)));
                assert forall|a: int, b: int|
                    0 <= a < b < views_of(out@).len() implies (#[trigger] views_of(out@)[a]) != (
                    #[trigger] views_of(out@)[b]) by {
                    if b < views_of(out@).len() - 1 {
                        assert(views_of(out_before)[a] == views_of(out@)[a]);
                        assert(views_of(out_before)[b] == views_of(out@)[b]);
                    } else {
                        assert(views_of(out@)[b] == sorted@[i as int]@);
                        assert(views_of(out@)[a] == out_before[a]@);
                        assert(out_before[a]@ != sorted@[i as int]@);
                    }
                }
                assert(paths_distinct(views_of(out@)));
            }
        } else {
            proof {
                assert(out_before.last()@ == sorted@[i as int]@);
            }
        }
        i = i + 1;
        proof {
            let sv = views_of(sorted@);
            assert forall|p: Seq<char>|
                views_of(out@).contains(p) <==> sv.take(i as int).contains(
                    p,
                ) by {
                assert(sv.take(i as int).take(i as int - 1) =~= sv.take(i as int - 1));
                if views_of(out@).contains(p) {
                    let w = choose|w: int|
                        0 <= w < views_of(out@).len() && (#[trigger] views_of(out@)[w]) == p;
                    if w < out_before.len() {
                        assert(views_of(out_before)[w] == p);
                        assert(views_of(out_before).contains(p));
                        assert(sv.take(i as int - 1).contains(p));
                        let u = choose|u: int|
                            0 <= u < sv.take(i as int - 1).len() && (#[trigger] sv.take(
                                i as int - 1,
                            )[u]) == p;
                        assert(sv.take(i as int)[u] == p);
                    } else {
                        assert(out@[w] == sorted@[i as int - 1]);
                        assert(sv.take(i as int)[i - 1] == p);
                    }
                }
                if sv.take(i as int).contains(p) {
                    let w = choose|w: int|
                        0 <= w < sv.take(i as int).len() && (#[trigger] sv.take(i as int)[w])
                            == p;
                    if w < i - 1 {
                        assert(sv.take(i as int - 1)[w] == p);
                        assert(sv.take(i as int - 1).contains(p));
                        assert(views_of(out_before).contains(p));
                        let u = choose|u: int|
                            0 <= u < views_of(out_before).len() && (#[trigger] views_of(
                                out_before,
                            )[u]) == p;
                        assert(views_of(out@)[u] == p);
                    } else {
                        assert(sv[i - 1] == p);
                        if push_it {
                            assert(views_of(out@)[out@.len() - 1] == p);
                        } else {
                            assert(out@.last()@ == p);
                            assert(views_of(out@)[out@.len() - 1] == p);
                        }
                    }
                }
            }
            if i < n {
                if out@.len() > 0 {
                    let w = choose|w: int|
                        0 <= w < i && (#[trigger] sorted@[w])@ == out@.last()@;
                    assert(lex_le(views_of(sorted@)[w], views_of(sorted@)[i as int]));
                }
            }
        }
    }
    proof {
        assert(views_of(sorted@).take(n as int) =~= views_of(sorted@));
    }
    out
}

/// Whether a path is ruled out by the exclusion context: ignored by the
/// gitignore matcher (and not whitelisted), or matched by an exclude
/// pattern. The gitignore verdict is computed by the caller's matcher and
/// handed in; the exclude patterns are consulted here.
pub fn is_excluded(
    gitignore_ignored: bool,
    gitignore_whitelisted: bool,
    exclude: &PatternList,
    rel_path: &str,
) -> (r: bool)
    requires
        exclude.wf(),
    ensures
        r == ((gitignore_ignored && !gitignore_whitelisted) || first_match_index(
            exclude.view(),
            rel_path@,
        ) is Some),
{
    if gitignore_ignored && !gitignore_whitelisted {
        return true;
    }
    exclude.matches(rel_path).is_some()
}

/// What `pathdiff::diff_paths` yields for a path against a base directory,
/// as text: a function of the two path texts alone (under the platform's
/// path syntax, fixed for a build).
pub uninterp spec fn rel_path_of(path: Seq<char>, base: Seq<char>) -> Option<Seq<char>>;

/// Relies on `pathdiff::diff_paths` (pure path algebra over the two
/// arguments, no filesystem access) and `Path::to_string_lossy`.
#[verifier::external_body]
fn diff_paths(path: &str, base: &str) -> (r: Option<String>)
    ensures
        match rel_path_of(path@, base@) {
            Some(p) => r is Some && r->0@ == p,
            None => r is None,
        },
{
    pathdiff::diff_paths(path, base).map(|p| p.to_string_lossy().into_owned())
}

/// A path's form for matching and caching, relative to a root: the relative
/// path when one exists, else the path itself, with separators unified to
/// `/`.
pub open spec fn relative_spec(path: Seq<char>, root: Seq<char>) -> Seq<char> {
    let raw = match rel_path_of(path, root) {
        Some(p) => p,
        None => path,
    };
    raw.map(
        |i: int, c: char|
            if c == '\\' {
                '/'
            } else {
                c
            },
    )
}

fn unify_separators(s: &str) -> (r: String)
    ensures
        r@ == s@.map(
            |i: int, c: char|
                if c == '\\' {
                    '/'
                } else {
                    c
                },
        ),
{
    let ghost mapped = s@.map(
        |i: int, c: char|
            if c == '\\' {
                '/'
            } else {
                c
            },
    );
    let n = s.unicode_len();
    let mut out: String = "".to_owned();
    proof {
        reveal_strlit("");
        assert(out@ =~= mapped.take(0));
    }
    let mut i: usize = 0;
    while i < n
        invariant
            0 <= i <= n,
            n == s@.len(),
            mapped == s@.map(
                |k: int, c: char|
                    if c == '\\' {
                        '/'
                    } else {
                        c
                    },
            ),
            out@ == mapped.take(i as int),
        decreases n - i,
    {
        let c = s.get_char(i);
        if c == '\\' {
            out.append("/");
            proof {
                reveal_strlit("/");
            }
        } else {
            let piece = s.substring_char(i, i + 1);
            proof {
                assert(piece@ =~= seq![s@[i as int]]);
            }
            out.append(piece);
        }
        i = i + 1;
        proof {
            assert(out@ =~= mapped.take(i as int));
        }
    }
    proof {
        assert(mapped.take(n as int) =~= mapped);
    }
    out
}

/// Relativizes a path against a root for rule matching, display, and the
/// cache key: the relative path when one exists, else the path unchanged,
/// with separators unified to `/`.
pub fn relative_to(path: &str, root: &str) -> (r: String)
    ensures
        r@ == relative_spec(path@, root@),
{
    match diff_paths(path, root) {
        Some(p) => unify_separators(p.as_str()),
        None => unify_separators(path),
    }
}


} // verus!
