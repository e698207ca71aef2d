//! Command arguments and input-path planning.
//!
//! Decides which paths a check run covers: explicit arguments, a path list
//! read from standard input, and an optional git-derived filter whose paths
//! are intersected with the selection. Reading standard input and running
//! git happen outside the library; their results are handed in as values.

use vstd::prelude::*;
use crate::git::{resolve_against, resolved_paths, GitError, GitFilter};
use crate::strutil::{
    split_seq, starts_with_seq, str_split, str_starts_with, str_trim, trim_spec,
};

verus! {

/// How much the check run prints.
#[derive(Debug, Clone, Copy, PartialEq, Eq, Structural)]
pub enum OutputMode {
    /// Findings and a summary.
    Default,
    /// Error-severity findings only.
    Quiet,
    /// Nothing.
    Silent,
    /// Findings with provenance, skip warnings, and a summary.
    Verbose,
}

/// The output serialization the caller asked for.
#[derive(Debug, Clone, Copy, PartialEq, Eq, Structural)]
pub enum OutputFormat {
    /// Human-readable text.
    Text,
    /// Structured JSON.
    Json,
}

/// Arguments for the check command.
#[derive(Debug, Clone)]
pub struct CheckArgs {
    /// Paths to check; empty means the current directory.
    pub paths: Vec<String>,
    /// Read additional paths from standard input.
    pub stdin: bool,
    /// Disable the result cache for this run.
    pub no_cache: bool,
    /// Check only files in the git staging area.
    pub staged: bool,
    /// Check only files changed relative to this git ref.
    pub diff_ref: Option<String>,
    /// How to render the report.
    pub output_format: OutputFormat,
}

/// Arguments for the init command.
#[derive(Debug, Clone, Copy, PartialEq, Eq, Structural)]
pub struct InitArgs {
    /// Record current violations as a baseline in the new configuration.
    pub baseline: bool,
}

/// Available commands.
#[derive(Debug, Clone)]
pub enum Command {
    /// Validate files against configured constraints.
    Check(CheckArgs),
    /// Create a configuration file.
    Init(InitArgs),
}

/// Parsed command-line arguments.
#[derive(Debug, Clone)]
pub struct Cli {
    /// Subcommand to run.
    pub command: Option<Command>,
    /// Suppress summary output.
    pub quiet: bool,
    /// Suppress all output.
    pub silent: bool,
    /// Show extra information.
    pub verbose: bool,
    /// Explicit configuration file path.
    pub config: Option<String>,
}

/// The output mode the flags select: silent wins over quiet, quiet over
/// verbose, verbose over the default.
pub fn output_mode(cli: &Cli) -> (r: OutputMode)
    ensures
        cli.silent ==> r == OutputMode::Silent,
        !cli.silent && cli.quiet ==> r == OutputMode::Quiet,
        !cli.silent && !cli.quiet && cli.verbose ==> r == OutputMode::Verbose,
        !cli.silent && !cli.quiet && !cli.verbose ==> r == OutputMode::Default,
{
    if cli.silent {
        OutputMode::Silent
    } else if cli.quiet {
        OutputMode::Quiet
    } else if cli.verbose {
        OutputMode::Verbose
    } else {
        OutputMode::Default
    }
}

/// A git-backed selection of the paths to check.
#[derive(Debug, Clone, PartialEq, Eq)]
pub enum JsonFilter {
    /// Files in the staging area.
    Staged,
    /// Files changed relative to a git ref.
    Diff { git_ref: String },
}

/// Whether a filter value is the one the arguments select: staged, or a
/// diff against the arguments' ref.
pub open spec fn filter_matches(f: JsonFilter, args: CheckArgs) -> bool {
    if args.staged {
        f is Staged
    } else {
        f is Diff && args.diff_ref is Some && f->Diff_git_ref@ == args.diff_ref->0@
    }
}

/// The git filter the arguments select: staged wins over a diff ref.
pub fn check_filter(args: &CheckArgs) -> (r: Option<JsonFilter>)
    ensures
        args.staged ==> r == Some(JsonFilter::Staged),
        !args.staged ==> match args.diff_ref {
            Some(git_ref) => r is Some && r->0 is Diff && r->0->Diff_git_ref@ == git_ref@,
            None => r is None,
        },
{
    if args.staged {
        Some(JsonFilter::Staged)
    } else {
        match &args.diff_ref {
            Some(git_ref) => Some(JsonFilter::Diff { git_ref: git_ref.clone() }),
            None => None,
        }
    }
}

/// Translates the output-layer filter into the git layer's filter.
pub fn to_git_filter(filter: &JsonFilter) -> (r: GitFilter)
    ensures
        filter is Staged ==> r == GitFilter::Staged,
        filter is Diff ==> r is Diff && r->Diff_git_ref@ == filter->Diff_git_ref@,
{
    match filter {
        JsonFilter::Staged => GitFilter::Staged,
        JsonFilter::Diff { git_ref } => GitFilter::Diff { git_ref: git_ref.clone() },
    }
}

/// The message a git failure is reported with, naming the flag that needed
/// git.
pub open spec fn git_error_message_spec(filter: JsonFilter, error: GitError) -> Seq<char> {
    let flag: Seq<char> = if filter is Staged {
        "--staged"@
    } else {
        "--diff"@
    };
    match error {
        GitError::GitNotAvailable => flag + " requires git, but git is not available"@,
        GitError::NotRepository => flag + " requires a git repository"@,
        GitError::CommandFailed { stderr } => "git failed: "@ + stderr@,
        GitError::Io(e) => "git failed: "@ + e@,
    }
}

/// Builds the message a git failure is reported with.
pub fn git_error_message(filter: &JsonFilter, error: GitError) -> (r: String)
    ensures
        r@ == git_error_message_spec(*filter, error),
{
    let flag: &'static str = match filter {
        JsonFilter::Staged => "--staged",
        JsonFilter::Diff { .. } => "--diff",
    };
    match error {
        GitError::GitNotAvailable => {
            let mut r = flag.to_owned();
            r.append(" requires git, but git is not available");
            r
        },
        GitError::NotRepository => {
            let mut r = flag.to_owned();
            r.append(" requires a git repository");
            r
        },
        GitError::CommandFailed { stderr } => {
            let mut r = "git failed: ".to_owned();
            r.append(stderr.as_str());
            r
        },
        GitError::Io(e) => {
            let mut r = "git failed: ".to_owned();
            r.append(e.as_str());
            r
        },
    }
}

/// The non-empty lines of a path list, trimmed and resolved against the
/// working directory.
pub open spec fn read_paths_spec(input: Seq<char>, cwd: Seq<char>) -> Seq<Seq<char>> {
    resolved_paths(split_seq(input, '\n').map(|i: int, l: Seq<char>| trim_spec(l)), cwd)
}

/// Reads a newline-separated path list: lines are trimmed, empty lines
/// skipped, and relative paths resolved against the working directory.
pub fn read_paths(input: &str, cwd: &str) -> (r: Vec<String>)
    ensures
        r@.map(|i: int, p: String| p@) == read_paths_spec(input@, cwd@),
{
    let lines = str_split(input, '\n');
    let mut trimmed: Vec<String> = Vec::new();
    let ghost lviews = lines@.map(|i: int, l: String| l@);
    let mut i: usize = 0;
    while i < lines.len()
        invariant
            0 <= i <= lines@.len(),
            lviews == lines@.map(|k: int, l: String| l@),
            trimmed@.len() == i,
            forall|k: int|
                0 <= k < i ==> (#[trigger] trimmed@[k])@ == trim_spec(lviews[k]),
        decreases lines@.len() - i,
    {
        let t = str_trim(lines[i].as_str());
        trimmed.push(t.to_owned());
        i = i + 1;
    }
    proof {
        assert(trimmed@.map(|k: int, l: String| l@) =~= lviews.map(
            |k: int, l: Seq<char>| trim_spec(l),
        ));
        assert(trimmed@.map(|k: int, l: String| l@).skip(0) =~= trimmed@.map(
            |k: int, l: String| l@,
        ));
    }
    crate::git::resolve_path_pieces(&trimmed, cwd)
}

/// The planned inputs of a check run.
#[derive(Debug, Clone)]
pub struct PlannedInputs {
    /// The paths to walk and check.
    pub paths: Vec<String>,
    /// The git filter in effect, if any.
    pub filter: Option<JsonFilter>,
}

/// The git paths kept by the intersection: those equal to, or underneath,
/// one of the selected prefixes.
pub open spec fn kept_by_prefixes(p: Seq<char>, prefixes: Seq<Seq<char>>) -> bool {
    exists|i: int|
        0 <= i < prefixes.len() && (p == prefixes[i] || starts_with_seq(
            p,
            #[trigger] prefixes[i] + "/"@,
        ))
}

/// The normalized, absolute form a path takes for prefix comparison.
pub open spec fn prefix_form(cwd: Seq<char>, p: Seq<char>) -> Seq<char> {
    normalize_spec(resolve_against(cwd, p))
}

/// The git paths that fall under one of the selected prefixes, in order.
pub open spec fn intersect_spec(
    git: Seq<Seq<char>>,
    prefixes: Seq<Seq<char>>,
    cwd: Seq<char>,
) -> Seq<Seq<char>>
    decreases git.len(),
{
    if git.len() == 0 {
        Seq::empty()
    } else if kept_by_prefixes(prefix_form(cwd, git[0]), prefixes) {
        seq![git[0]] + intersect_spec(git.skip(1), prefixes, cwd)
    } else {
        intersect_spec(git.skip(1), prefixes, cwd)
    }
}

fn kept_exec(normalized: &str, prefixes: &Vec<String>) -> (r: bool)
    ensures
        r == kept_by_prefixes(normalized@, prefixes@.map(|i: int, p: String| p@)),
{
    let ghost pviews = prefixes@.map(|i: int, p: String| p@);
    let mut k: usize = 0;
    while k < prefixes.len()
        invariant
            0 <= k <= prefixes@.len(),
            pviews == prefixes@.map(|i: int, p: String| p@),
            forall|j: int|
                0 <= j < k ==> !(normalized@ == pviews[j] || starts_with_seq(
                    normalized@,
                    #[trigger] pviews[j] + "/"@,
                )),
        decreases prefixes@.len() - k,
    {
        if crate::strutil::str_eq(normalized, prefixes[k].as_str()) {
            proof {
                assert(normalized@ == pviews[k as int]);
            }
            return true;
        }
        let mut with_sep = prefixes[k].clone();
        with_sep.append("/");
        proof {
            assert(with_sep@ =~= pviews[k as int] + "/"@);
        }
        if str_starts_with(normalized, with_sep.as_str()) {
            return true;
        }
        k = k + 1;
    }
    false
}

fn intersect_from(
    git_paths: &Vec<String>,
    from: usize,
    prefixes: &Vec<String>,
    cwd: &str,
) -> (r: Vec<String>)
    requires
        from <= git_paths@.len(),
    ensures
        r@.map(|i: int, p: String| p@) == intersect_spec(
            git_paths@.map(|i: int, p: String| p@).skip(from as int),
            prefixes@.map(|i: int, p: String| p@),
            cwd@,
        ),
    decreases git_paths@.len() - from,
{
    let ghost views = git_paths@.map(|i: int, p: String| p@);
    proof {
        if from < git_paths@.len() {
            assert(views.skip(from as int)[0] == views[from as int]);
            assert(views.skip(from as int).skip(1) =~= views.skip(from as int + 1));
        }
    }
    if from >= git_paths.len() {
        let r: Vec<String> = Vec::new();
        proof {
            assert(r@.map(|i: int, p: String| p@) =~= Seq::<Seq<char>>::empty());
        }
        return r;
    }
    let g = normalize_for_prefix(git_paths[from].as_str(), cwd);
    let hit = kept_exec(g.as_str(), prefixes);
    let mut rest = intersect_from(git_paths, from + 1, prefixes, cwd);
    if hit {
        rest.insert(0, git_paths[from].clone());
        proof {
            assert(rest@.map(|i: int, p: String| p@) =~= intersect_spec(
                views.skip(from as int),
                prefixes@.map(|i: int, p: String| p@),
                cwd@,
            ));
        }
    }
    rest
}

/// Keeps the git paths that fall under one of the selected paths, in order;
/// both sides are made absolute against the working directory and
/// normalized before comparing.
pub fn intersect_paths(git_paths: Vec<String>, selected: &Vec<String>, cwd: &str) -> (r: Vec<
    String,
>)
    ensures
        r@.map(|i: int, p: String| p@) == intersect_spec(
            git_paths@.map(|i: int, p: String| p@),
            selected@.map(|i: int, p: String| prefix_form(cwd@, p@)),
            cwd@,
        ),
{
    let mut prefixes: Vec<String> = Vec::new();
    let ghost sviews = selected@.map(|i: int, p: String| prefix_form(cwd@, p@));
    let mut i: usize = 0;
    while i < selected.len()
        invariant
            0 <= i <= selected@.len(),
            sviews == selected@.map(|k: int, p: String| prefix_form(cwd@, p@)),
            prefixes@.len() == i,
            forall|k: int| 0 <= k < i ==> (#[trigger] prefixes@[k])@ == sviews[k],
        decreases selected@.len() - i,
    {
        prefixes.push(normalize_for_prefix(selected[i].as_str(), cwd));
        i = i + 1;
    }
    proof {
        assert(prefixes@.map(|k: int, p: String| p@) =~= sviews);
        assert(git_paths@.map(|k: int, p: String| p@).skip(0) =~= git_paths@.map(
            |k: int, p: String| p@,
        ));
    }
    intersect_from(&git_paths, 0, &prefixes, cwd)
}

/// One path segment folded into a normalized component stack: `.` and empty
/// segments vanish, `..` pops, anything else is pushed.
pub open spec fn fold_component(acc: Seq<Seq<char>>, piece: Seq<char>) -> Seq<Seq<char>> {
    if piece.len() == 0 || piece == "."@ {
        acc
    } else if piece == ".."@ {
        if acc.len() > 0 {
            acc.drop_last()
        } else {
            acc
        }
    } else {
        acc.push(piece)
    }
}

/// All segments folded, left to right.
pub open spec fn fold_components(acc: Seq<Seq<char>>, pieces: Seq<Seq<char>>) -> Seq<Seq<char>>
    decreases pieces.len(),
{
    if pieces.len() == 0 {
        acc
    } else {
        fold_components(fold_component(acc, pieces[0]), pieces.skip(1))
    }
}

/// Components joined with `/`.
pub open spec fn join_slash(pieces: Seq<Seq<char>>) -> Seq<char>
    decreases pieces.len(),
{
    if pieces.len() == 0 {
        Seq::empty()
    } else if pieces.len() == 1 {
        pieces[0]
    } else {
        join_slash(pieces.take(pieces.len() - 1)) + "/"@ + pieces.last()
    }
}

/// The normalized form of a path: `.` segments dropped, `..` segments
/// resolved, a leading `/` kept.
pub open spec fn normalize_spec(path: Seq<char>) -> Seq<char> {
    let comps = fold_components(Seq::empty(), split_seq(path, '/'));
    if path.len() > 0 && path[0] == '/' {
        "/"@ + join_slash(comps)
    } else {
        join_slash(comps)
    }
}

/// Normalizes a path's segments: drops `.` and empty segments, resolves
/// `..` against what precedes it, and keeps a leading `/`.
pub fn normalize_components(path: &str) -> (r: String)
    ensures
        r@ == normalize_spec(path@),
{
    let pieces = str_split(path, '/');
    let ghost pviews = pieces@.map(|i: int, p: String| p@);
    let mut comps: Vec<String> = Vec::new();
    let mut i: usize = 0;
    while i < pieces.len()
        invariant
            0 <= i <= pieces@.len(),
            pviews == pieces@.map(|k: int, p: String| p@),
            comps@.map(|k: int, c: String| c@) == fold_components(
                Seq::empty(),
                pviews.take(i as int),
            ),
        decreases pieces@.len() - i,
    {
        proof {
            assert(pviews.take(i as int + 1).take(i as int) =~= pviews.take(i as int));
            assert(pviews.take(i as int + 1)[i as int] == pviews[i as int]);
            lemma_fold_components_snoc(Seq::empty(), pviews.take(i as int + 1));
            reveal_strlit(".");
            reveal_strlit("..");
        }
        let p = &pieces[i];
        if p.as_str().unicode_len() == 0 || crate::strutil::str_eq(p.as_str(), ".") {
        } else if crate::strutil::str_eq(p.as_str(), "..") {
            if comps.len() > 0 {
                let _popped = comps.pop();
            }
        } else {
            comps.push(p.clone());
        }
        i = i + 1;
        proof {
            assert(comps@.map(|k: int, c: String| c@) =~= fold_components(
                Seq::empty(),
                pviews.take(i as int),
            ));
        }
    }
    proof {
        assert(pviews.take(pviews.len() as int) =~= pviews);
    }

    let mut out: String;
    let n = path.unicode_len();
    if n > 0 && path.get_char(0) == '/' {
        out = "/".to_owned();
        proof {
            reveal_strlit("/");
        }
    } else {
        out = "".to_owned();
        proof {
            reveal_strlit("");
        }
    }
    let ghost cviews = comps@.map(|k: int, c: String| c@);
    let mut j: usize = 0;
    while j < comps.len()
        invariant
            0 <= j <= comps@.len(),
            cviews == comps@.map(|k: int, c: String| c@),
            j == 0 ==> out@ == (if path@.len() > 0 && path@[0] == '/' {
                "/"@
            } else {
                Seq::<char>::empty()
            }),
            j > 0 ==> out@ == (if path@.len() > 0 && path@[0] == '/' {
                "/"@
            } else {
                Seq::<char>::empty()
            }) + join_slash(cviews.take(j as int)),
        decreases comps@.len() - j,
    {
        proof {
            assert(cviews.take(j as int + 1).take(j as int) =~= cviews.take(j as int));
            assert(cviews.take(j as int + 1).last() == cviews[j as int]);
            if j == 0 {
                assert(join_slash(cviews.take(1)) == cviews[0]);
            }
        }
        if j > 0 {
            out.append("/");
        }
        out.append(comps[j].as_str());
        j = j + 1;
        proof {
            if j > 1 {
                assert(out@ =~= (if path@.len() > 0 && path@[0] == '/' {
                    "/"@
                } else {
                    Seq::<char>::empty()
                }) + join_slash(cviews.take(j as int)));
            }
        }
    }
    proof {
        assert(cviews.take(cviews.len() as int) =~= cviews);
        if cviews.len() == 0 {
            assert(join_slash(cviews) == Seq::<char>::empty());
            assert(out@ =~= normalize_spec(path@));
        } else {
            assert(out@ =~= normalize_spec(path@));
        }
    }
    out
}

proof fn lemma_fold_components_snoc(acc: Seq<Seq<char>>, pieces: Seq<Seq<char>>)
    requires
        pieces.len() > 0,
    ensures
        fold_components(acc, pieces) == fold_component(
            fold_components(acc, pieces.take(pieces.len() - 1)),
            pieces.last(),
        ),
    decreases pieces.len(),
{
    reveal_with_fuel(fold_components, 3);
    if pieces.len() == 1 {
        assert(pieces.take(0) =~= Seq::<Seq<char>>::empty());
        assert(pieces.skip(1) =~= Seq::<Seq<char>>::empty());
    } else {
        lemma_fold_components_snoc(fold_component(acc, pieces[0]), pieces.skip(1));
        assert(pieces.take(pieces.len() - 1)[0] == pieces[0]);
        assert(pieces.take(pieces.len() - 1).skip(1) =~= pieces.skip(1).take(
            pieces.skip(1).len() - 1,
        ));
        assert(pieces.skip(1).last() == pieces.last());
        assert(fold_components(acc, pieces.take(pieces.len() - 1)) == fold_components(
            fold_component(acc, pieces.take(pieces.len() - 1)[0]),
            pieces.take(pieces.len() - 1).skip(1),
        ));
        assert(fold_components(acc, pieces) == fold_components(
            fold_component(acc, pieces[0]),
            pieces.skip(1),
        ));
    }
}

/// Makes a path absolute against the working directory, then normalizes it.
pub fn normalize_for_prefix(path: &str, cwd: &str) -> (r: String)
    ensures
        r@ == normalize_spec(resolve_against(cwd@, path@)),
{
    let n = path.unicode_len();
    if n > 0 && path.get_char(0) == '/' {
        normalize_components(path)
    } else {
        let mut joined = cwd.to_owned();
        joined.append("/");
        joined.append(path);
        proof {
            assert(joined@ =~= cwd@ + "/"@ + path@);
        }
        normalize_components(joined.as_str())
    }
}

/// The full selection a run starts from: the explicit paths, then any read
/// from standard input.
pub open spec fn combined_inputs(
    paths: Seq<Seq<char>>,
    use_stdin: bool,
    stdin_text: Seq<char>,
    cwd: Seq<char>,
) -> Seq<Seq<char>> {
    paths + if use_stdin {
        read_paths_spec(stdin_text, cwd)
    } else {
        Seq::empty()
    }
}

/// What a run's collected paths are: the combined selection, intersected
/// with the git list when one is given; the current directory when nothing
/// at all was selected.
pub open spec fn collected_paths(
    paths: Seq<Seq<char>>,
    use_stdin: bool,
    stdin_text: Seq<char>,
    cwd: Seq<char>,
    git: Option<Seq<Seq<char>>>,
) -> Seq<Seq<char>> {
    let combined = combined_inputs(paths, use_stdin, stdin_text, cwd);
    match git {
        Some(g) => if combined.len() == 0 {
            g
        } else {
            intersect_spec(g, combined.map(|i: int, p: Seq<char>| prefix_form(cwd, p)), cwd)
        },
        None => if combined.len() == 0 && !use_stdin {
            seq!["."@]
        } else {
            combined
        },
    }
}

/// Collects the input paths of a run: the explicit paths, any read from
/// standard input, intersected with the git-derived list when one is given;
/// with nothing selected at all, the current directory.
pub fn collect_inputs(
    paths: Vec<String>,
    use_stdin: bool,
    stdin_read: Result<String, String>,
    cwd: &str,
    git_paths: Option<Vec<String>>,
) -> (r: Result<Vec<String>, String>)
    ensures
        use_stdin && stdin_read is Err ==> r is Err && starts_with_seq(
            r->Err_0@,
            "failed to read stdin"@,
        ),
        !(use_stdin && stdin_read is Err) ==> r is Ok && r->Ok_0@.map(|i: int, p: String| p@)
            == collected_paths(
            paths@.map(|i: int, p: String| p@),
            use_stdin,
            stdin_read->Ok_0@,
            cwd@,
            match git_paths {
                Some(git) => Some(git@.map(|i: int, p: String| p@)),
                None => None,
            },
        ),
{
    let ghost orig_views = paths@.map(|i: int, p: String| p@);
    let mut paths = paths;
    if use_stdin {
        match stdin_read {
            Ok(text) => {
                let mut stdin_paths = read_paths(text.as_str(), cwd);
                let ghost before = paths@;
                let ghost added = stdin_paths@;
                paths.append(&mut stdin_paths);
                proof {
                    assert(paths@.map(|i: int, p: String| p@) =~= before.map(
                        |i: int, p: String| p@,
                    ) + added.map(|i: int, p: String| p@));
                }
            },
            Err(e) => {
                let mut msg = "failed to read stdin: ".to_owned();
                msg.append(e.as_str());
                proof {
                    reveal_strlit("failed to read stdin: ");
                    reveal_strlit("failed to read stdin");
                    assert(msg@.take(20) =~= "failed to read stdin"@);
                }
                return Err(msg);
            },
        }
    }
    proof {
        if !(use_stdin && stdin_read is Err) {
            assert(paths@.map(|i: int, p: String| p@) =~= combined_inputs(
                orig_views,
                use_stdin,
                stdin_read->Ok_0@,
                cwd@,
            ));
        }
    }

    if let Some(git) = git_paths {
        if paths.len() == 0 {
            return Ok(git);
        }
        let ghost pviews = paths@.map(|i: int, p: String| p@);
        let kept = intersect_paths(git, &paths, cwd);
        proof {
            assert(pviews.map(|i: int, p: Seq<char>| prefix_form(cwd@, p)) =~= paths@.map(
                |i: int, p: String| prefix_form(cwd@, p@),
            ));
        }
        return Ok(kept);
    }

    if paths.len() == 0 && !use_stdin {
        paths.push(".".to_owned());
        proof {
            reveal_strlit(".");
            assert(paths@.map(|i: int, p: String| p@) =~= seq!["."@]);
        }
    }
    Ok(paths)
}

/// The git filter the arguments put in effect, if any.
pub open spec fn filter_spec(args: CheckArgs) -> Option<JsonFilter> {
    if args.staged {
        Some(JsonFilter::Staged)
    } else {
        match args.diff_ref {
            Some(git_ref) => Some(JsonFilter::Diff { git_ref }),
            None => None,
        }
    }
}

/// Plans the inputs of a check run from the arguments, the standard-input
/// read (used only with `stdin`), and the git-derived paths (used only when
/// a filter is in effect). Combining the stdin path list with a git filter
/// is rejected; a git failure is reported with the flag that needed git;
/// otherwise the planned paths are exactly the collected selection.
pub fn plan_inputs(
    args: &CheckArgs,
    stdin_read: Result<String, String>,
    cwd: &str,
    git_result: Result<Vec<String>, GitError>,
) -> (r: Result<PlannedInputs, String>)
    ensures
        ({
            let conflict = args.stdin && filter_spec(*args) is Some;
            let git_failed = filter_spec(*args) is Some && git_result is Err;
            &&& conflict ==> r is Err && starts_with_seq(r->Err_0@, "cannot combine '-'"@)
            &&& !conflict && git_failed ==> r is Err && (exists|f: JsonFilter|
                filter_matches(f, *args) && r->Err_0@ == git_error_message_spec(
                    f,
                    git_result->Err_0,
                ))
            &&& !conflict && !(args.stdin && stdin_read is Err) && !git_failed ==> {
                &&& r is Ok
                &&& r->Ok_0.paths@.map(|i: int, p: String| p@) == collected_paths(
                    args.paths@.map(|i: int, p: String| p@),
                    args.stdin,
                    stdin_read->Ok_0@,
                    cwd@,
                    match filter_spec(*args) {
                        Some(_) => Some(git_result->Ok_0@.map(|i: int, p: String| p@)),
                        None => None,
                    },
                )
                &&& (r->Ok_0.filter is Some) == (filter_spec(*args) is Some)
            }
        }),
{
    let filter = check_filter(args);
    proof {
        assert((filter is Some) == (filter_spec(*args) is Some));
        if filter is Some {
            assert(filter_matches(filter->0, *args));
        }
    }
    if args.stdin && filter.is_some() {
        proof {
            reveal_strlit("cannot combine '-' (stdin path list) with --staged/--diff");
            reveal_strlit("cannot combine '-'");
            assert("cannot combine '-' (stdin path list) with --staged/--diff"@.take(18)
                =~= "cannot combine '-'"@);
        }
        return Err("cannot combine '-' (stdin path list) with --staged/--diff".to_owned());
    }

    let git_paths: Option<Vec<String>> = match &filter {
        Some(f) => match git_result {
            Ok(paths) => Some(paths),
            Err(error) => {
                return Err(git_error_message(f, error));
            },
        },
        None => None,
    };

    let mut own_paths: Vec<String> = Vec::new();
    let mut i: usize = 0;
    while i < args.paths.len()
        invariant
            0 <= i <= args.paths@.len(),
            own_paths@.len() == i,
            forall|k: int| 0 <= k < i ==> (#[trigger] own_paths@[k])@ == args.paths@[k]@,
        decreases args.paths@.len() - i,
    {
        own_paths.push(args.paths[i].clone());
        i = i + 1;
    }
    proof {
        assert(own_paths@.map(|k: int, p: String| p@) =~= args.paths@.map(
            |k: int, p: String| p@,
        ));
    }

    match collect_inputs(own_paths, args.stdin, stdin_read, cwd, git_paths) {
        Ok(paths) => Ok(PlannedInputs { paths, filter }),
        Err(e) => Err(e),
    }
}

} // verus!
