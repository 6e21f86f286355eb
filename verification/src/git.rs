//! Git: revision expressions, the commands that are run, and the choice between two backends.

use vstd::prelude::*;
use crate::error::{ErrorView, TuicrError};
use crate::text;
use crate::words;

verus! {

/// A revision string, parsed. `REV` is a single commit, `A..B`, `A..` and `..B` are ranges, and
/// `A...B` is a range from the merge base.
#[derive(Debug, Clone)]
pub enum RevisionExpression {
    Single(String),
    Range { base: String, head: String },
    MergeBaseRange { left: String, right: String },
}

/// The view of a revision expression.
pub enum RevisionView {
    Single(Seq<char>),
    Range { base: Seq<char>, head: Seq<char> },
    MergeBaseRange { left: Seq<char>, right: Seq<char> },
}

impl View for RevisionExpression {
    type V = RevisionView;

    open spec fn view(&self) -> RevisionView {
        match self {
            RevisionExpression::Single(rev) => RevisionView::Single(rev@),
            RevisionExpression::Range { base, head } => RevisionView::Range {
                base: base@,
                head: head@,
            },
            RevisionExpression::MergeBaseRange { left, right } => RevisionView::MergeBaseRange {
                left: left@,
                right: right@,
            },
        }
    }
}

/// An endpoint of a range; an open end is `HEAD`.
pub open spec fn range_endpoint(end: Seq<char>) -> Seq<char> {
    if end.len() == 0 {
        "HEAD"@
    } else {
        end
    }
}

/// What a revision string means, or the error it gives. Three dots are looked for before two.
pub open spec fn revision_expression(revisions: Seq<char>) -> Result<RevisionView, ErrorView> {
    match text::split_once(revisions, "..."@) {
        Some((left, right)) => if left.len() == 0 || right.len() == 0 {
            Err(ErrorView::VcsCommand("Invalid revision range: missing endpoint"@))
        } else {
            Ok(RevisionView::MergeBaseRange { left, right })
        },
        None => match text::split_once(revisions, ".."@) {
            Some((base, head)) => Ok(
                RevisionView::Range { base: range_endpoint(base), head: range_endpoint(head) },
            ),
            None => Ok(RevisionView::Single(revisions)),
        },
    }
}

fn endpoint(end: &[char]) -> (res: String)
    ensures
        res@ == range_endpoint(end@),
{
    if end.len() == 0 {
        "HEAD".to_owned()
    } else {
        text::text_of(end)
    }
}

impl RevisionExpression {
    /// Parses a revision string.
    pub fn parse(revisions: &str) -> (res: Result<RevisionExpression, TuicrError>)
        ensures
            crate::error::outcome(res) == revision_expression(revisions@),
    {
        let chars = text::chars_of(revisions);
        if let Some((left, right)) = text::divide_once(chars.as_slice(), "...") {
            if left.len() == 0 || right.len() == 0 {
                return Err(
                    TuicrError::VcsCommand("Invalid revision range: missing endpoint".to_owned()),
                );
            }
            return Ok(
                RevisionExpression::MergeBaseRange {
                    left: text::text_of(left),
                    right: text::text_of(right),
                },
            );
        }
        if let Some((base, head)) = text::divide_once(chars.as_slice(), "..") {
            return Ok(RevisionExpression::Range { base: endpoint(base), head: endpoint(head) });
        }
        Ok(RevisionExpression::Single(revisions.to_owned()))
    }
}

/// Whether one text holds another.
pub open spec fn holds(s: Seq<char>, pat: Seq<char>) -> bool {
    exists|i: int| #[trigger] text::occurs_at(s, pat, i)
}

/// A revision string without two dots in a row names a single commit.
pub proof fn law_single_revision(revisions: Seq<char>)
    requires
        !holds(revisions, ".."@),
    ensures
        revision_expression(revisions) == Ok::<RevisionView, ErrorView>(
            RevisionView::Single(revisions),
        ),
{
    reveal_strlit("...");
    reveal_strlit("..");
    text::lemma_find_from(revisions, "..."@, 0);
    text::lemma_find_from(revisions, ".."@, 0);
    if let Some(k) = text::find_from(revisions, "..."@, 0) {
        assert(revisions.subrange(k, k + 3)[0] == '.');
        assert(revisions.subrange(k, k + 3)[1] == '.');
        assert(revisions.subrange(k, k + 2) == ".."@);
        assert(text::occurs_at(revisions, ".."@, k));
    }
}

/// Two revisions with two dots between them are a range, and an open end of it is `HEAD`.
pub proof fn law_two_dot_range(base: Seq<char>, head: Seq<char>)
    requires
        !holds(base, ".."@),
        !holds(head, "..."@),
        base.len() > 0 ==> base.last() != '.',
        head.len() > 0 ==> head[0] != '.',
    ensures
        revision_expression(base + ".."@ + head) == Ok::<RevisionView, ErrorView>(
            RevisionView::Range { base: range_endpoint(base), head: range_endpoint(head) },
        ),
{
    reveal_strlit("...");
    reveal_strlit("..");
    let s = base + ".."@ + head;
    let n = base.len() as int;
    text::lemma_find_from(s, "..."@, 0);
    if let Some(k) = text::find_from(s, "..."@, 0) {
        let found = s.subrange(k, k + 3);
        assert(found[0] == '.' && found[1] == '.' && found[2] == '.');
        assert(s[k] == '.' && s[k + 1] == '.' && s[k + 2] == '.');
        if k + 2 <= n {
            assert(base.subrange(k, k + 2) == ".."@);
            assert(text::occurs_at(base, ".."@, k));
        } else if k == n - 1 {
            assert(base.last() == s[k]);
        } else if k < n + 2 {
            assert(s[n + 2] == head[0]);
        } else {
            assert(head.subrange(k - n - 2, k - n + 1) == "..."@) by {
                assert(head[k - n - 2] == s[k]);
                assert(head[k - n - 1] == s[k + 1]);
                assert(head[k - n] == s[k + 2]);
            }
            assert(text::occurs_at(head, "..."@, k - n - 2));
        }
    }
    assert(s.subrange(n, n + 2) == ".."@);
    assert forall|j: int| 0 <= j < n implies !text::occurs_at(s, ".."@, j) by {
        if text::occurs_at(s, ".."@, j) {
            let found = s.subrange(j, j + 2);
            assert(found[0] == '.' && found[1] == '.');
            if j + 2 <= n {
                assert(base.subrange(j, j + 2) == ".."@);
                assert(text::occurs_at(base, ".."@, j));
            } else {
                assert(base.last() == s[j]);
            }
        }
    }
    text::lemma_split_once_at(s, ".."@, n);
    assert(s.take(n) == base);
    assert(s.skip(n + 2) == head);
}

/// Two revisions with three dots between them are a range from the merge base, and a missing end
/// is an error.
pub proof fn law_three_dot_range(left: Seq<char>, right: Seq<char>)
    requires
        !holds(left, "..."@),
        left.len() > 0 ==> left.last() != '.',
    ensures
        revision_expression(left + "..."@ + right) == (if left.len() == 0 || right.len() == 0 {
            Err(ErrorView::VcsCommand("Invalid revision range: missing endpoint"@))
        } else {
            Ok(RevisionView::MergeBaseRange { left, right })
        }),
{
    reveal_strlit("...");
    let s = left + "..."@ + right;
    let n = left.len() as int;
    assert(s.subrange(n, n + 3) == "..."@);
    assert forall|j: int| 0 <= j < n implies !text::occurs_at(s, "..."@, j) by {
        if text::occurs_at(s, "..."@, j) {
            let found = s.subrange(j, j + 3);
            assert(found[0] == '.' && found[1] == '.' && found[2] == '.');
            if j + 3 <= n {
                assert(left.subrange(j, j + 3) == "..."@);
                assert(text::occurs_at(left, "..."@, j));
            } else {
                assert(found[n - 1 - j] == left.last());
            }
        }
    }
    text::lemma_split_once_at(s, "..."@, n);
    assert(s.take(n) == left);
    assert(s.skip(n + 3) == right);
}

/// Which of the two backends a user asks for.
#[derive(Debug, Clone, Copy, PartialEq, Eq, Structural)]
pub enum GitBackendPreference {
    Libgit2,
    Cli,
}

impl GitBackendPreference {
    /// The preference that a configuration value states. Only `cli` asks for the command line.
    pub fn from_config(value: Option<&str>) -> (res: Self)
        ensures
            res == if text::opt_view(value) == Some("cli"@) {
                GitBackendPreference::Cli
            } else {
                GitBackendPreference::Libgit2
            },
    {
        match value {
            Some(value) => {
                let chars = text::chars_of(value);
                if text::is_text(chars.as_slice(), "cli") {
                    GitBackendPreference::Cli
                } else {
                    GitBackendPreference::Libgit2
                }
            },
            None => GitBackendPreference::Libgit2,
        }
    }
}

/// Whether a configuration value, without the white space around it, turns a setting on.
pub open spec fn is_enabled(value: Seq<char>) -> bool {
    let word = words::trimmed(value);
    word == "true"@ || word == "1"@ || word == "yes"@ || word == "on"@
}

/// Whether a configuration value turns a setting on.
pub fn git_bool_config_enabled(value: &str) -> (res: bool)
    ensures
        res == is_enabled(value@),
{
    let chars = text::chars_of(value);
    chars_enable(chars.as_slice())
}

fn chars_enable(value: &[char]) -> (res: bool)
    ensures
        res == is_enabled(value@),
{
    let word = words::trim(value);
    text::is_text(word, "true") || text::is_text(word, "1") || text::is_text(word, "yes")
        || text::is_text(word, "on")
}

/// Whether a configuration value turns the file system monitor on: besides a true value that is
/// any hook, so every word but the false ones.
pub open spec fn is_fsmonitor_enabled(value: Seq<char>) -> bool {
    let word = words::trimmed(value);
    is_enabled(word) || word.len() > 0 && word != "false"@ && word != "0"@ && word != "no"@ && word
        != "off"@
}

/// Whether a configuration value turns the file system monitor on.
pub fn git_fsmonitor_config_enabled(value: &str) -> (res: bool)
    ensures
        res == is_fsmonitor_enabled(value@),
{
    let chars = text::chars_of(value);
    let word = words::trim(chars.as_slice());
    chars_enable(word) || word.len() > 0 && !text::is_text(word, "false") && !text::is_text(
        word,
        "0",
    ) && !text::is_text(word, "no") && !text::is_text(word, "off")
}

/// How the working tree of a repository is checked out.
#[derive(Debug, Clone, Copy, PartialEq, Eq, Structural)]
pub enum GitRepoMode {
    Standard,
    SparseCheckout,
    SparseIndex,
}

/// The key of a printed setting: what stands before the first white space.
pub open spec fn setting_key(line: Seq<char>) -> Seq<char> {
    line.take(text::run_len(line, words::not_space()) as int)
}

/// The value of a printed setting: what stands after the first white space.
pub open spec fn setting_value(line: Seq<char>) -> Seq<char> {
    let n = text::run_len(line, words::not_space()) as int;
    if n < line.len() {
        line.skip(n + 1)
    } else {
        Seq::empty()
    }
}

/// Whether the last of the printed settings with a key turns it on; a key that is not printed is
/// off.
pub open spec fn is_set(lines: Seq<Seq<char>>, key: Seq<char>) -> bool
    decreases lines.len(),
{
    if lines.len() == 0 {
        false
    } else if setting_key(lines.last()) == key {
        is_enabled(setting_value(lines.last()))
    } else {
        is_set(lines.drop_last(), key)
    }
}

/// The mode that printed settings state.
pub open spec fn configured_mode(output: Seq<char>) -> GitRepoMode {
    let lines = text::lines(output);
    if is_set(lines, "index.sparse"@) {
        GitRepoMode::SparseIndex
    } else if is_set(lines, "core.sparsecheckout"@) {
        GitRepoMode::SparseCheckout
    } else {
        GitRepoMode::Standard
    }
}

impl GitRepoMode {
    /// The mode that printed settings state.
    pub fn from_config(output: &str) -> (res: Self)
        ensures
            res == configured_mode(output@),
    {
        let chars = text::chars_of(output);
        let lines = text::split_lines(chars.as_slice());
        let ghost all = text::lines(output@);
        let mut sparse_checkout = false;
        let mut sparse_index = false;
        let mut i: usize = 0;
        proof {
            assert("core.sparsecheckout"@ != "index.sparse"@) by {
                reveal_strlit("core.sparsecheckout");
                reveal_strlit("index.sparse");
                assert("core.sparsecheckout"@.len() != "index.sparse"@.len());
            }
        }
        while i < lines.len()
            invariant
                i <= lines@.len(),
                all == text::lines(output@),
                all == text::views(lines@),
                "core.sparsecheckout"@ != "index.sparse"@,
                sparse_checkout == is_set(all.take(i as int), "core.sparsecheckout"@),
                sparse_index == is_set(all.take(i as int), "index.sparse"@),
            decreases lines@.len() - i,
        {
            let line = lines[i].as_slice();
            let total: usize = line.len();
            proof {
                assert(all.take(i + 1).drop_last() == all.take(i as int));
                assert(all[i as int] == line@);
            }
            let n: usize = words::word_length(line);
            let key = vstd::slice::slice_subrange(line, 0, n);
            let value = if n < total {
                vstd::slice::slice_subrange(line, n + 1, total)
            } else {
                vstd::slice::slice_subrange(line, n, total)
            };
            proof {
                assert(key@ == setting_key(line@));
                assert(value@ == setting_value(line@));
            }
            if text::is_text(key, "core.sparsecheckout") {
                sparse_checkout = chars_enable(value);
            } else if text::is_text(key, "index.sparse") {
                sparse_index = chars_enable(value);
            }
            i = i + 1;
        }
        assert(all.take(all.len() as int) == all);
        if sparse_index {
            GitRepoMode::SparseIndex
        } else if sparse_checkout {
            GitRepoMode::SparseCheckout
        } else {
            GitRepoMode::Standard
        }
    }

    /// Whether part of the tree is not checked out.
    pub fn is_sparse_checkout(self) -> (res: bool)
        ensures
            res == (self != GitRepoMode::Standard),
    {
        match self {
            GitRepoMode::Standard => false,
            _ => true,
        }
    }
}

/// Why a command gave no output.
#[derive(Debug, Clone, Copy, PartialEq, Eq, Structural)]
pub enum CommandOutputErrorKind {
    Unsuccessful,
    NotFound,
    SpawnFailed,
}

/// A command that gave no output, and what it, or the attempt to start it, reported.
#[derive(Debug, Clone)]
pub struct CommandOutputError {
    pub kind: CommandOutputErrorKind,
    pub stderr: String,
}

/// The error that a failed git command gives.
pub open spec fn command_error(error: CommandOutputError) -> ErrorView {
    match error.kind {
        CommandOutputErrorKind::Unsuccessful => ErrorView::VcsCommand(error.stderr@),
        _ => ErrorView::VcsCommand("Failed to run git: "@ + error.stderr@),
    }
}

/// The error that a failed git command gives.
pub fn git_command_error(error: CommandOutputError) -> (res: TuicrError)
    ensures
        res@ == command_error(error),
{
    match error.kind {
        CommandOutputErrorKind::Unsuccessful => TuicrError::VcsCommand(error.stderr),
        _ => {
            let mut message = "Failed to run git: ".to_owned();
            message.append(error.stderr.as_str());
            TuicrError::VcsCommand(message)
        },
    }
}

/// What stands before the arguments of every git command: no commit is signed, and a new
/// repository keeps its references in files.
pub open spec fn leading_arguments() -> Seq<Seq<char>> {
    seq!["-c"@, "commit.gpgsign=false"@, "-c"@, "init.defaultRefFormat=files"@]
}

/// The output of a command as a git command gives it.
pub open spec fn is_git_result(
    out: Result<String, CommandOutputError>,
    res: Result<String, TuicrError>,
) -> bool {
    match (out, res) {
        (Ok(text), Ok(output)) => text == output,
        (Err(error), Err(reported)) => reported@ == command_error(error),
        _ => false,
    }
}

/// Whether `res` is what git, run in a directory with these arguments, can give.
pub open spec fn git_gives<R: Fn(&str, &Vec<String>) -> Result<String, CommandOutputError>>(
    run: R,
    workdir: Seq<char>,
    args: Seq<Seq<char>>,
    res: Result<String, TuicrError>,
) -> bool {
    exists|dir: &str, given: &Vec<String>, out: Result<String, CommandOutputError>|
        dir@ == workdir && text::views(given@) == leading_arguments() + args && #[trigger] run.ensures(
            (dir, given),
            out,
        ) && is_git_result(out, res)
}

/// Whether git can be run in any directory with any arguments.
pub open spec fn runs_anywhere<R: Fn(&str, &Vec<String>) -> Result<String, CommandOutputError>>(
    run: R,
) -> bool {
    forall|dir: &str, given: &Vec<String>| #[trigger] run.requires((dir, given))
}

/// The output of a command as a git command gives it.
pub fn git_result(out: Result<String, CommandOutputError>) -> (res: Result<String, TuicrError>)
    ensures
        is_git_result(out, res),
{
    match out {
        Ok(output) => Ok(output),
        Err(error) => Err(git_command_error(error)),
    }
}

/// Runs git in a directory.
pub fn run_git_command<R: Fn(&str, &Vec<String>) -> Result<String, CommandOutputError>>(
    run: &R,
    workdir: &str,
    args: &Vec<String>,
) -> (res: Result<String, TuicrError>)
    requires
        runs_anywhere(*run),
    ensures
        git_gives(*run, workdir@, text::views(args@), res),
{
    let mut full_args: Vec<String> = vec![
        "-c".to_owned(),
        "commit.gpgsign=false".to_owned(),
        "-c".to_owned(),
        "init.defaultRefFormat=files".to_owned(),
    ];
    assert(text::views(full_args@) =~= leading_arguments());
    let mut i: usize = 0;
    proof {
        assert(leading_arguments() + text::views(args@).take(0) == leading_arguments());
    }
    while i < args.len()
        invariant
            i <= args@.len(),
            text::views(full_args@) == leading_arguments() + text::views(args@).take(i as int),
        decreases args@.len() - i,
    {
        let ghost before = full_args@;
        full_args.push(args[i].clone());
        proof {
            let all = text::views(args@);
            text::lemma_views_push(before, full_args@.last());
            assert(full_args@ == before.push(full_args@.last()));
            assert(all[i as int] == args@[i as int]@);
            assert(leading_arguments() + all.take(i + 1) == (leading_arguments() + all.take(
                i as int,
            )).push(all[i as int]));
        }
        i = i + 1;
    }
    proof {
        assert(text::views(args@).take(args@.len() as int) == text::views(args@));
    }
    let out = run(workdir, &full_args);
    assert(run.ensures((workdir, &full_args), out));
    git_result(out)
}

/// The arguments that print the settings of a sparse checkout.
pub open spec fn sparse_settings_arguments() -> Seq<Seq<char>> {
    seq!["config"@, "--get-regexp"@, "^(core\\.sparsecheckout|index\\.sparse)$"@]
}

/// The output of a command, or nothing where it failed.
pub open spec fn output_or_nothing(out: Result<String, TuicrError>) -> Seq<char> {
    match out {
        Ok(output) => output@,
        Err(_) => Seq::empty(),
    }
}

impl GitRepoMode {
    /// The mode of the repository at a path. A repository whose settings cannot be read counts
    /// as a standard one.
    pub fn detect<R: Fn(&str, &Vec<String>) -> Result<String, CommandOutputError>>(
        run: &R,
        root_path: &str,
    ) -> (res: Self)
        requires
            runs_anywhere(*run),
        ensures
            exists|out: Result<String, TuicrError>| #[trigger]
                git_gives(*run, root_path@, sparse_settings_arguments(), out) && res
                    == configured_mode(output_or_nothing(out)),
    {
        let args: Vec<String> = vec![
            "config".to_owned(),
            "--get-regexp".to_owned(),
            "^(core\\.sparsecheckout|index\\.sparse)$".to_owned(),
        ];
        assert(text::views(args@) =~= sparse_settings_arguments());
        let out = run_git_command(run, root_path, &args);
        match out {
            Ok(output) => GitRepoMode::from_config(output.as_str()),
            Err(_) => {
                let nothing = String::new();
                assert(nothing@ == Seq::<char>::empty());
                GitRepoMode::from_config(nothing.as_str())
            },
        }
    }
}

/// The arguments that print the fetch URL of a remote. What follows the two dashes is a name,
/// even where it looks like an option.
pub open spec fn remote_url_arguments(name: Seq<char>) -> Seq<Seq<char>> {
    seq!["remote"@, "get-url"@, "--"@, name]
}

/// The fetch URL of a remote, with the rewrites that git applies.
pub fn remote_url<R: Fn(&str, &Vec<String>) -> Result<String, CommandOutputError>>(
    run: &R,
    repo_root: &str,
    name: &str,
) -> (res: Result<String, TuicrError>)
    requires
        runs_anywhere(*run),
    ensures
        git_gives(*run, repo_root@, remote_url_arguments(name@), res),
{
    let args: Vec<String> = vec![
        "remote".to_owned(),
        "get-url".to_owned(),
        "--".to_owned(),
        name.to_owned(),
    ];
    assert(text::views(args@) =~= remote_url_arguments(name@));
    run_git_command(run, repo_root, &args)
}

/// Whether a repository that prints this as its object format uses SHA-256.
pub open spec fn states_sha256(out: Result<String, TuicrError>) -> bool {
    out matches Ok(output) && words::trimmed(output@) == "sha256"@
}

/// Whether a repository that prints this as its reference storage uses reftable.
pub open spec fn states_reftable(out: Result<String, TuicrError>) -> bool {
    out matches Ok(output) && text::lowered(words::trimmed(output@)) == "reftable"@
}

/// Whether a repository that prints this for the split index uses one.
pub open spec fn states_split_index(out: Result<String, TuicrError>) -> bool {
    out matches Ok(output) && is_enabled(output@)
}

/// Whether a repository that prints this as its object format uses SHA-256.
pub fn is_sha256(out: &Result<String, TuicrError>) -> (res: bool)
    ensures
        res == states_sha256(*out),
{
    match out {
        Ok(output) => {
            let chars = text::chars_of(output.as_str());
            text::is_text(words::trim(chars.as_slice()), "sha256")
        },
        Err(_) => false,
    }
}

/// Whether a repository that prints this as its reference storage uses reftable.
pub fn is_reftable(out: &Result<String, TuicrError>) -> (res: bool)
    ensures
        res == states_reftable(*out),
{
    match out {
        Ok(output) => {
            let chars = text::chars_of(output.as_str());
            let lower = text::lower_case(words::trim(chars.as_slice()));
            text::is_text(lower.as_slice(), "reftable")
        },
        Err(_) => false,
    }
}

/// Whether a repository that prints this for the split index uses one.
pub fn is_split_index(out: &Result<String, TuicrError>) -> (res: bool)
    ensures
        res == states_split_index(*out),
{
    match out {
        Ok(output) => git_bool_config_enabled(output.as_str()),
        Err(_) => false,
    }
}

pub open spec fn object_format_arguments() -> Seq<Seq<char>> {
    seq!["rev-parse"@, "--show-object-format"@]
}

pub open spec fn reference_storage_arguments() -> Seq<Seq<char>> {
    seq!["config"@, "--get"@, "extensions.refStorage"@]
}

pub open spec fn split_index_arguments() -> Seq<Seq<char>> {
    seq!["config"@, "--get"@, "core.splitIndex"@]
}

/// Whether `answer` is what git can say of the object format of a repository.
pub open spec fn sha256_told<R: Fn(&str, &Vec<String>) -> Result<String, CommandOutputError>>(
    run: R,
    cwd: Seq<char>,
    answer: bool,
) -> bool {
    exists|out: Result<String, TuicrError>| #[trigger]
        git_gives(run, cwd, object_format_arguments(), out) && answer == states_sha256(out)
}

/// Whether `answer` is what git can say of the reference storage of a repository.
pub open spec fn reftable_told<R: Fn(&str, &Vec<String>) -> Result<String, CommandOutputError>>(
    run: R,
    cwd: Seq<char>,
    answer: bool,
) -> bool {
    exists|out: Result<String, TuicrError>| #[trigger]
        git_gives(run, cwd, reference_storage_arguments(), out) && answer == states_reftable(out)
}

/// Whether `answer` is what git can say of the split index of a repository.
pub open spec fn split_index_told<R: Fn(&str, &Vec<String>) -> Result<String, CommandOutputError>>(
    run: R,
    cwd: Seq<char>,
    answer: bool,
) -> bool {
    exists|out: Result<String, TuicrError>| #[trigger]
        git_gives(run, cwd, split_index_arguments(), out) && answer == states_split_index(out)
}

/// Whether the repository around a directory uses SHA-256. One that cannot be asked does not.
pub fn uses_sha256<R: Fn(&str, &Vec<String>) -> Result<String, CommandOutputError>>(
    run: &R,
    cwd: &str,
) -> (res: bool)
    requires
        runs_anywhere(*run),
    ensures
        sha256_told(*run, cwd@, res),
{
    let args: Vec<String> = vec!["rev-parse".to_owned(), "--show-object-format".to_owned()];
    assert(text::views(args@) =~= object_format_arguments());
    let out = run_git_command(run, cwd, &args);
    is_sha256(&out)
}

/// Whether the repository around a directory uses reftable. One that cannot be asked does not.
pub fn uses_reftable<R: Fn(&str, &Vec<String>) -> Result<String, CommandOutputError>>(
    run: &R,
    cwd: &str,
) -> (res: bool)
    requires
        runs_anywhere(*run),
    ensures
        reftable_told(*run, cwd@, res),
{
    let args: Vec<String> = vec![
        "config".to_owned(),
        "--get".to_owned(),
        "extensions.refStorage".to_owned(),
    ];
    assert(text::views(args@) =~= reference_storage_arguments());
    let out = run_git_command(run, cwd, &args);
    is_reftable(&out)
}

/// Whether the repository around a directory uses a split index. One that cannot be asked does
/// not.
pub fn uses_split_index<R: Fn(&str, &Vec<String>) -> Result<String, CommandOutputError>>(
    run: &R,
    cwd: &str,
) -> (res: bool)
    requires
        runs_anywhere(*run),
    ensures
        split_index_told(*run, cwd@, res),
{
    let args: Vec<String> = vec![
        "config".to_owned(),
        "--get".to_owned(),
        "core.splitIndex".to_owned(),
    ];
    assert(text::views(args@) =~= split_index_arguments());
    let out = run_git_command(run, cwd, &args);
    is_split_index(&out)
}

} // verus!
