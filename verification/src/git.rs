//! Git path-filter support: classifying git's errors and parsing the path
//! lists it prints.
//!
//! Running git is the caller's business; the library takes the raw bytes and
//! exit information and does everything that can be decided from them.

use vstd::prelude::*;
use crate::strutil::{
    contains_seq, lower_seq, split_seq, str_contains_lower, str_split, str_trim, trim_spec,
};

verus! {

/// Git-backed path filter.
#[derive(Debug, Clone, PartialEq, Eq)]
pub enum GitFilter {
    /// Files in the staging area.
    Staged,
    /// Files changed relative to the provided git ref.
    Diff { git_ref: String },
}

/// Errors from git path discovery.
#[derive(Debug, Clone, PartialEq, Eq)]
pub enum GitError {
    /// Git executable not found.
    GitNotAvailable,
    /// Current directory is not inside a git repository.
    NotRepository,
    /// Git ran and failed.
    CommandFailed { stderr: String },
    /// I/O failure while launching git.
    Io(String),
}

/// What `String::from_utf8_lossy` decodes a byte sequence to.
pub uninterp spec fn lossy_of(bytes: Seq<u8>) -> Seq<char>;

/// Relies on `String::from_utf8_lossy`: decoding is a deterministic function
/// of the bytes, and ASCII bytes decode to themselves.
#[verifier::external_body]
pub(crate) fn from_utf8_lossy(bytes: &[u8]) -> (r: String)
    ensures
        r@ == lossy_of(bytes@),
        (forall|i: int| 0 <= i < bytes@.len() ==> bytes@[i] < 128) ==> r@ == bytes@.map(
            |i: int, b: u8| b as char,
        ),
{
    String::from_utf8_lossy(bytes).into_owned()
}

/// The error text of a failed git command: stderr if it has content after
/// trimming, else stdout, else a fixed fallback.
pub open spec fn command_error_spec(stderr: Seq<u8>, stdout: Seq<u8>) -> Seq<char> {
    if trim_spec(lossy_of(stderr)).len() > 0 {
        trim_spec(lossy_of(stderr))
    } else if trim_spec(lossy_of(stdout)).len() > 0 {
        trim_spec(lossy_of(stdout))
    } else {
        "unknown git error"@
    }
}

/// Extracts the error text of a failed git command, preferring stderr.
pub fn command_error_text(stderr: &[u8], stdout: &[u8]) -> (r: String)
    ensures
        r@ == command_error_spec(stderr@, stdout@),
{
    let se = from_utf8_lossy(stderr);
    let set = str_trim(se.as_str());
    if set.unicode_len() > 0 {
        return set.to_owned();
    }
    let so = from_utf8_lossy(stdout);
    let sot = str_trim(so.as_str());
    if sot.unicode_len() > 0 {
        return sot.to_owned();
    }
    "unknown git error".to_owned()
}

/// Whether a git error message says the directory is not a repository,
/// matching case-insensitively against git's known phrasings.
pub open spec fn not_repository_spec(error: Seq<char>) -> bool {
    ||| contains_seq(lower_seq(error), "not a git repository"@)
    ||| contains_seq(lower_seq(error), "must be run in a work tree"@)
    ||| contains_seq(lower_seq(error), "usage: git diff --no-index"@)
}

/// Detects git's "not a repository" failure modes, case-insensitively.
pub fn is_not_repository(error: &str) -> (r: bool)
    ensures
        r == not_repository_spec(error@),
{
    str_contains_lower(error, "not a git repository") || str_contains_lower(
        error,
        "must be run in a work tree",
    ) || str_contains_lower(error, "usage: git diff --no-index")
}

/// Classifies the error text of a failed git command.
pub fn classify_git_failure(error: String) -> (r: GitError)
    ensures
        not_repository_spec(error@) ==> r == GitError::NotRepository,
        !not_repository_spec(error@) ==> r == (GitError::CommandFailed { stderr: error }),
{
    if is_not_repository(error.as_str()) {
        GitError::NotRepository
    } else {
        GitError::CommandFailed { stderr: error }
    }
}

/// Classifies a failure to launch git at all: a missing executable is its
/// own error, anything else an I/O error with its message.
pub fn spawn_error_to_git_error(not_found: bool, message: String) -> (r: GitError)
    ensures
        not_found ==> r == GitError::GitNotAvailable,
        !not_found ==> r == GitError::Io(message),
{
    if not_found {
        GitError::GitNotAvailable
    } else {
        GitError::Io(message)
    }
}

/// A path resolved against a working directory: kept as is when absolute,
/// else joined with a separator.
pub open spec fn resolve_against(cwd: Seq<char>, p: Seq<char>) -> Seq<char> {
    if p.len() > 0 && p[0] == '/' {
        p
    } else {
        cwd + "/"@ + p
    }
}

fn resolve_against_exec(cwd: &str, p: &str) -> (r: String)
    ensures
        r@ == resolve_against(cwd@, p@),
{
    let n = p.unicode_len();
    if n > 0 && p.get_char(0) == '/' {
        p.to_owned()
    } else {
        let mut r = cwd.to_owned();
        r.append("/");
        r.append(p);
        proof {
            assert(r@ =~= cwd@ + "/"@ + p@);
        }
        r
    }
}

/// The non-empty pieces, each resolved against the working directory.
pub open spec fn resolved_paths(pieces: Seq<Seq<char>>, cwd: Seq<char>) -> Seq<Seq<char>>
    decreases pieces.len(),
{
    if pieces.len() == 0 {
        Seq::empty()
    } else if pieces[0].len() == 0 {
        resolved_paths(pieces.skip(1), cwd)
    } else {
        seq![resolve_against(cwd, pieces[0])] + resolved_paths(pieces.skip(1), cwd)
    }
}

fn resolve_pieces(pieces: &Vec<String>, from: usize, cwd: &str) -> (r: Vec<String>)
    requires
        from <= pieces@.len(),
    ensures
        r@.map(|i: int, p: String| p@) == resolved_paths(
            pieces@.map(|i: int, p: String| p@).skip(from as int),
            cwd@,
        ),
    decreases pieces@.len() - from,
{
    let ghost views = pieces@.map(|i: int, p: String| p@);
    proof {
        if from < pieces@.len() {
            assert(views.skip(from as int)[0] == views[from as int]);
            assert(views.skip(from as int).skip(1) =~= views.skip(from as int + 1));
        }
    }
    if from >= pieces.len() {
        let r: Vec<String> = Vec::new();
        proof {
            assert(r@.map(|i: int, p: String| p@) =~= Seq::<Seq<char>>::empty());
        }
        return r;
    }
    let piece = &pieces[from];
    let mut rest = resolve_pieces(pieces, from + 1, cwd);
    if piece.as_str().unicode_len() == 0 {
        rest
    } else {
        let resolved = resolve_against_exec(cwd, piece.as_str());
        rest.insert(0, resolved);
        proof {
            assert(rest@.map(|i: int, p: String| p@) =~= resolved_paths(
                views.skip(from as int),
                cwd@,
            ));
        }
        rest
    }
}

/// Resolves a list of path pieces: empty pieces are dropped, the rest
/// resolved against the working directory.
pub fn resolve_path_pieces(pieces: &Vec<String>, cwd: &str) -> (r: Vec<String>)
    ensures
        r@.map(|i: int, p: String| p@) == resolved_paths(
            pieces@.map(|i: int, p: String| p@),
            cwd@,
        ),
{
    proof {
        assert(pieces@.map(|i: int, p: String| p@).skip(0) =~= pieces@.map(
            |i: int, p: String| p@,
        ));
    }
    resolve_pieces(pieces, 0, cwd)
}

/// What parsing git's NUL-separated path list yields: each non-empty piece,
/// resolved against the working directory.
pub open spec fn parse_paths_spec(stdout: Seq<u8>, cwd: Seq<char>) -> Seq<Seq<char>> {
    resolved_paths(split_seq(lossy_of(stdout), '\u{0}'), cwd)
}

/// Parses the NUL-separated path list a git diff command prints: each
/// non-empty entry, resolved against the working directory.
pub fn parse_paths(stdout: &[u8], cwd: &str) -> (r: Vec<String>)
    ensures
        r@.map(|i: int, p: String| p@) == parse_paths_spec(stdout@, cwd@),
{
    let text = from_utf8_lossy(stdout);
    let pieces = str_split(text.as_str(), '\u{0}');
    proof {
        assert(pieces@.map(|i: int, p: String| p@).skip(0) =~= split_seq(lossy_of(stdout@), '\u{0}'));
    }
    resolve_pieces(&pieces, 0, cwd)
}

} // verus!
