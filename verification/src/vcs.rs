//! What the version control backends share: paths to fetch, colouring from batches, context lines
//! and the detection of a repository.

use vstd::prelude::*;
use crate::batch;
use crate::batch::{BatchCall, BatchFetcher, BatchSource, FileBatch};
use crate::contents;
use crate::contents::Fetch;
use crate::error::TuicrError;
use crate::full_file;
use crate::full_file::{ask_need, enhance_with_full_file_highlight};
use crate::git::GitBackendPreference;
use crate::model::{
    ColoringView,
    DiffFile,
    DiffLine,
    FileView,
    LineColoring,
    LineOrigin,
    LineSide,
    LineView,
};
use crate::paths;
use crate::record;
use crate::syntax::{HighlightedLines, SyntaxHighlighter};
use crate::text;
use crate::whitespace::DiffWhitespaceMode;

verus! {

/// A line of context with the same number on both sides.
pub open spec fn context_line(number: u32, line: Seq<char>) -> LineView {
    LineView {
        origin: LineOrigin::Context,
        content: text::tabified(line),
        old_lineno: Some(number),
        new_lineno: Some(number),
        coloring: ColoringView::Pending,
    }
}

/// How many lines of a text of `total` lines stand between two line numbers, both counted.
pub open spec fn lines_between(total: int, start_line: u32, end_line: u32) -> int {
    if start_line > end_line || start_line == 0 || start_line > total {
        0
    } else if end_line < total {
        end_line - start_line + 1
    } else {
        total - start_line + 1
    }
}

/// The lines of a text from one line number to another, both counted from one.
pub open spec fn context_lines(content: Seq<char>, start_line: u32, end_line: u32) -> Seq<LineView> {
    let lines = text::lines(content);
    Seq::new(
        lines_between(lines.len() as int, start_line, end_line) as nat,
        |k: int| context_line((start_line + k) as u32, lines[start_line - 1 + k]),
    )
}

/// The lines of a text from one line number to another, as context.
pub fn slice_context_lines(content: &str, start_line: u32, end_line: u32) -> (res: Vec<DiffLine>)
    ensures
        text::views(res@) == context_lines(content@, start_line, end_line),
{
    let mut res: Vec<DiffLine> = Vec::new();
    if start_line > end_line || start_line == 0 {
        assert(text::views(res@) =~= context_lines(content@, start_line, end_line));
        return res;
    }
    let chars = text::chars_of(content);
    let lines = text::split_lines(chars.as_slice());
    let ghost all = text::lines(content@);
    let mut number: u32 = start_line;
    let mut done = false;
    while !done && ((number - 1) as usize) < lines.len()
        invariant
            1 <= start_line <= number <= end_line,
            all == text::lines(content@),
            all == text::views(lines@),
            !done ==> res@.len() == number - start_line,
            done ==> number == end_line && res@.len() == number - start_line + 1,
            res@.len() > 0 ==> start_line - 1 + res@.len() <= all.len(),
            forall|k: int|
                0 <= k < res@.len() ==> (#[trigger] res@[k])@ == context_line(
                    (start_line + k) as u32,
                    all[start_line - 1 + k],
                ),
        decreases end_line - number + (if done {
            0int
        } else {
            1int
        }),
    {
        let idx: usize = (number - 1) as usize;
        proof {
            assert(all[idx as int] == lines@[idx as int]@);
        }
        res.push(
            DiffLine {
                origin: LineOrigin::Context,
                content: text::expand_tabs(lines[idx].as_slice()),
                old_lineno: Some(number),
                new_lineno: Some(number),
                coloring: LineColoring::Pending,
            },
        );
        if number == end_line {
            done = true;
        } else {
            number = number + 1;
        }
    }
    proof {
        assert(all.len() == lines@.len());
        assert(text::views(res@) =~= context_lines(content@, start_line, end_line));
    }
    res
}

/// The path of one side of a file.
pub open spec fn side_path(file: FileView, side: LineSide) -> Option<Seq<char>> {
    match side {
        LineSide::Old => file.old_path,
        LineSide::New => file.new_path,
    }
}

/// Whether a list of paths names a path already.
pub open spec fn names_path(listed: Seq<Seq<char>>, path: Seq<char>) -> bool {
    exists|i: int|
        0 <= i < listed.len() && paths::path_parts(#[trigger] listed[i]) == paths::path_parts(path)
}

/// The paths of one side of the files that are to be highlighted as a whole, each listed once.
/// `needed` says of every file whether its grammar needs the whole file.
pub open spec fn container_paths(
    files: Seq<FileView>,
    side: LineSide,
    needed: Seq<bool>,
) -> Seq<Seq<char>>
    decreases files.len(),
{
    if files.len() == 0 {
        Seq::empty()
    } else {
        let listed = container_paths(files.drop_last(), side, needed);
        let file = files.last();
        match side_path(file, side) {
            Some(path) => if full_file::is_wanted(file, needed[files.len() - 1])
                && !names_path(listed, path) {
                listed.push(path)
            } else {
                listed
            },
            None => listed,
        }
    }
}

fn lists_path(listed: &Vec<String>, path: &String) -> (res: bool)
    ensures
        res == names_path(text::views(listed@), path@),
{
    let mut i: usize = 0;
    while i < listed.len()
        invariant
            i <= listed@.len(),
            forall|j: int|
                0 <= j < i ==> paths::path_parts(#[trigger] text::views(listed@)[j])
                    != paths::path_parts(path@),
        decreases listed@.len() - i,
    {
        proof {
            assert(text::views(listed@)[i as int] == listed@[i as int]@);
        }
        if paths::same_path(listed[i].as_str(), path.as_str()) {
            return true;
        }
        i = i + 1;
    }
    false
}

/// The paths of one side of the files that are to be highlighted as a whole, each listed once:
/// what a backend fetches in one batch.
pub fn container_file_paths<N: Fn(&str) -> bool>(
    files: &Vec<DiffFile>,
    side: LineSide,
    needs: &N,
) -> (res: Vec<String>)
    requires
        contents::takes_any_path(*needs),
    ensures
        exists|needed: Seq<bool>| #[trigger]
            full_file::needs_told(*needs, text::views(files@), needed) && text::views(res@)
                == container_paths(text::views(files@), side, needed),
{
    let ghost all = text::views(files@);
    let ghost mut needed: Seq<bool> = Seq::empty();
    let mut listed: Vec<String> = Vec::new();
    let mut i: usize = 0;
    proof {
        text::lemma_views_empty::<String>();
        assert(all.take(0) == Seq::<FileView>::empty());
    }
    while i < files.len()
        invariant
            i <= files@.len(),
            all == text::views(files@),
            contents::takes_any_path(*needs),
            full_file::needs_told(*needs, all.take(i as int), needed),
            text::views(listed@) == container_paths(all.take(i as int), side, needed),
        decreases files@.len() - i,
    {
        let file = &files[i];
        let ghost before = listed@;
        let ghost told = needed;
        proof {
            assert(all[i as int] == file@);
            assert(all.take(i + 1).drop_last() == all.take(i as int));
        }
        let wanted = ask_need(needs, file);
        let path = match side {
            LineSide::Old => &file.old_path,
            LineSide::New => &file.new_path,
        };
        proof {
            needed = needed.push(wanted);
            lemma_flags_prefix(all.take(i as int), side, told, needed);
            assert forall|k: int| 0 <= k < all.take(i + 1).len() implies (
            full_file::candidate_path(#[trigger] all.take(i + 1)[k]) matches Some(path)
                ==> full_file::need_told(*needs, path, needed[k])) by {
                if k < i {
                    assert(all.take(i + 1)[k] == all.take(i as int)[k]);
                    assert(needed[k] == told[k]);
                }
            }
        }
        if let Some(path) = path {
            if wanted && !lists_path(&listed, path) {
                listed.push(path.clone());
                proof {
                    text::lemma_views_push(before, listed@.last());
                    assert(listed@ == before.push(listed@.last()));
                }
            }
        }
        i = i + 1;
    }
    proof {
        assert(all.take(all.len() as int) == all);
    }
    listed
}

proof fn lemma_flags_prefix(
    files: Seq<FileView>,
    side: LineSide,
    needed: Seq<bool>,
    longer: Seq<bool>,
)
    requires
        needed.len() >= files.len(),
        longer.len() >= files.len(),
        forall|i: int| 0 <= i < files.len() ==> needed[i] == longer[i],
    ensures
        container_paths(files, side, needed) == container_paths(files, side, longer),
    decreases files.len(),
{
    if files.len() > 0 {
        lemma_flags_prefix(files.drop_last(), side, needed, longer);
    }
}

/// No path is listed twice.
pub proof fn law_container_paths_are_unique(
    files: Seq<FileView>,
    side: LineSide,
    needed: Seq<bool>,
)
    ensures
        forall|i: int, j: int|
            0 <= i < j < container_paths(files, side, needed).len() ==> paths::path_parts(
                #[trigger] container_paths(files, side, needed)[i],
            ) != paths::path_parts(#[trigger] container_paths(files, side, needed)[j]),
    decreases files.len(),
{
    if files.len() > 0 {
        law_container_paths_are_unique(files.drop_last(), side, needed);
        let before = container_paths(files.drop_last(), side, needed);
        let after = container_paths(files, side, needed);
        assert forall|i: int, j: int| 0 <= i < j < after.len() implies paths::path_parts(
            #[trigger] after[i],
        ) != paths::path_parts(#[trigger] after[j]) by {
            assert(after[i] == before[i]);
            if j < before.len() {
                assert(after[j] == before[j]);
            }
        }
    }
}

/// The paths listed for a side are those that a pass over the files asks for on that side: what
/// it fetches is listed, and what is listed it fetches.
pub proof fn law_listed_paths_are_those_asked_for(
    files: Seq<FileView>,
    side: LineSide,
    needed: Seq<bool>,
)
    ensures
        forall|path: Seq<char>|
            full_file::all_requests(files, needed).contains((side, path)) ==> #[trigger] names_path(
                container_paths(files, side, needed),
                path,
            ),
        forall|path: Seq<char>|
            container_paths(files, side, needed).contains(path) ==> #[trigger] full_file::all_requests(
                files,
                needed,
            ).contains((side, path)),
    decreases files.len(),
{
    let requests = full_file::all_requests(files, needed);
    let listed = container_paths(files, side, needed);
    if files.len() > 0 {
        let rest = files.drop_last();
        let file = files.last();
        let earlier = full_file::all_requests(rest, needed);
        let before = container_paths(rest, side, needed);
        let asked = full_file::file_requests(file);
        let wanted = full_file::is_wanted(file, needed[files.len() - 1]);
        law_listed_paths_are_those_asked_for(rest, side, needed);
        assert forall|path: Seq<char>| requests.contains((side, path)) implies #[trigger] names_path(
            listed,
            path,
        ) by {
            if earlier.contains((side, path)) {
                assert(names_path(before, path));
                let i = choose|i: int|
                    0 <= i < before.len() && paths::path_parts(#[trigger] before[i])
                        == paths::path_parts(path);
                assert(listed[i] == before[i]);
            } else {
                let i = choose|i: int| 0 <= i < requests.len() && requests[i] == (side, path);
                if i < earlier.len() {
                    assert(earlier[i] == (side, path));
                }
                assert(asked[i - earlier.len()] == (side, path));
                assert(side_path(file, side) == Some(path));
                if names_path(before, path) {
                    let j = choose|j: int|
                        0 <= j < before.len() && paths::path_parts(#[trigger] before[j])
                            == paths::path_parts(path);
                    assert(listed[j] == before[j]);
                } else {
                    assert(listed[before.len() as int] == path);
                }
            }
        }
        assert forall|path: Seq<char>| listed.contains(path) implies #[trigger] requests.contains(
            (side, path),
        ) by {
            if before.contains(path) {
                assert(earlier.contains((side, path)));
                let i = choose|i: int| 0 <= i < earlier.len() && earlier[i] == (side, path);
                assert(requests[i] == earlier[i]);
            } else {
                let i = choose|i: int| 0 <= i < listed.len() && listed[i] == path;
                if i < before.len() {
                    assert(before[i] == path);
                }
                assert(wanted && side_path(file, side) == Some(path));
                let k: int = if side == LineSide::New && file.old_path is Some {
                    1
                } else {
                    0
                };
                assert(asked[k] == (side, path));
                assert(requests[earlier.len() + k] == asked[k]);
            }
        }
    }
}

/// Whether these can be the paths that a backend has to fetch for one side of the files.
pub open spec fn paths_listed<N: Fn(&str) -> bool>(
    needs: N,
    files: Seq<DiffFile>,
    side: LineSide,
    listed: Seq<Seq<char>>,
) -> bool {
    exists|needed: Seq<bool>| #[trigger]
        full_file::needs_told(needs, text::views(files), needed) && listed == container_paths(
            text::views(files),
            side,
            needed,
        )
}

/// Whether `after` are the files that a pass over whole files can make of `before` with what the
/// batches give.
pub open spec fn is_batch_pass<
    G: Fn(&str, &Vec<String>) -> Option<HighlightedLines>,
    N: Fn(&str) -> bool,
    R: Fn(&str) -> Option<String>,
>(
    highlighter: SyntaxHighlighter<G>,
    needs: N,
    read_workdir: R,
    old_files: FileBatch,
    new_files: Option<FileBatch>,
    before: Seq<DiffFile>,
    after: Seq<DiffFile>,
) -> bool {
    exists|fetches: Seq<Fetch>| #[trigger]
        full_file::is_pass(
            highlighter,
            needs,
            batch::batches_give(old_files, new_files, read_workdir),
            text::views(before),
            text::views(after),
            fetches,
        )
}

/// The text of a revision, where there is one.
pub open spec fn rev_view(rev: Option<&str>) -> Option<Seq<char>> {
    match rev {
        Some(rev) => Some(rev@),
        None => None,
    }
}

/// Whether these are the batches that are fetched for the listed paths, and the outcome that they
/// lead to.
///
/// Nothing is fetched where nothing is listed. Otherwise the batch of the old side comes first,
/// and that of the new side, where there is a new revision, after it has been fetched. The error
/// of a batch is the outcome, and then the files stay as they are.
pub open spec fn is_container_outcome<
    G: Fn(&str, &Vec<String>) -> Option<HighlightedLines>,
    N: Fn(&str) -> bool,
    R: Fn(&str) -> Option<String>,
>(
    highlighter: SyntaxHighlighter<G>,
    needs: N,
    read_workdir: R,
    old_rev: Seq<char>,
    new_rev: Option<Seq<char>>,
    old_paths: Seq<Seq<char>>,
    new_paths: Seq<Seq<char>>,
    calls: Seq<BatchCall>,
    before: Seq<DiffFile>,
    after: Seq<DiffFile>,
    res: Result<(), TuicrError>,
) -> bool {
    if old_paths.len() == 0 && new_paths.len() == 0 {
        calls.len() == 0 && res is Ok && after == before
    } else {
        &&& calls.len() >= 1
        &&& calls[0].rev == old_rev
        &&& calls[0].paths == old_paths
        &&& match (calls[0].result, new_rev) {
            (Err(error), _) => calls.len() == 1 && res == Err::<(), TuicrError>(error) && after
                == before,
            (Ok(old_files), None) => calls.len() == 1 && res is Ok && is_batch_pass(
                highlighter,
                needs,
                read_workdir,
                old_files,
                None,
                before,
                after,
            ),
            (Ok(old_files), Some(rev)) => {
                &&& calls.len() == 2
                &&& calls[1].rev == rev
                &&& calls[1].paths == new_paths
                &&& match calls[1].result {
                    Err(error) => res == Err::<(), TuicrError>(error) && after == before,
                    Ok(new_files) => res is Ok && is_batch_pass(
                        highlighter,
                        needs,
                        read_workdir,
                        old_files,
                        Some(new_files),
                        before,
                        after,
                    ),
                }
            },
        }
    }
}

/// Colours files from batches of their contents.
fn highlight_from_batches<
    G: Fn(&str, &Vec<String>) -> Option<HighlightedLines>,
    N: Fn(&str) -> bool,
    R: Fn(&str) -> Option<String>,
>(
    files: &mut Vec<DiffFile>,
    highlighter: &SyntaxHighlighter<G>,
    needs: &N,
    old_files: FileBatch,
    new_files: Option<FileBatch>,
    read_workdir: &R,
)
    requires
        highlighter.takes_any_file(),
        contents::takes_any_path(*needs),
        contents::takes_any_path(*read_workdir),
    ensures
        is_batch_pass(
            *highlighter,
            *needs,
            *read_workdir,
            old_files,
            new_files,
            old(files)@,
            final(files)@,
        ),
{
    let mut source = BatchSource::new(old_files, new_files, read_workdir);
    proof {
        assert(full_file::gives_of(source) =~= batch::batches_give(
            old_files,
            new_files,
            *read_workdir,
        ));
    }
    enhance_with_full_file_highlight(files, highlighter, needs, &mut source);
}

/// Colours files whose grammar needs the whole file from their contents at two revisions, which
/// are fetched in one batch for each. Without a new revision the new side is read from the
/// working tree. Nothing is fetched, and nothing changes, where no file needs it; where a batch
/// cannot be fetched its error is returned and nothing changes.
pub fn apply_container_full_file_highlight<
    G: Fn(&str, &Vec<String>) -> Option<HighlightedLines>,
    N: Fn(&str) -> bool,
    B: Fn(&str, &Vec<String>) -> Result<FileBatch, TuicrError>,
    R: Fn(&str) -> Option<String>,
>(
    old_rev: &str,
    new_rev: Option<&str>,
    files: &mut Vec<DiffFile>,
    highlighter: &SyntaxHighlighter<G>,
    needs: &N,
    fetcher: &mut BatchFetcher<B>,
    read_workdir: &R,
) -> (res: Result<(), TuicrError>)
    requires
        highlighter.takes_any_file(),
        contents::takes_any_path(*needs),
        contents::takes_any_path(*read_workdir),
        old(fetcher).takes_any_batch(),
    ensures
        final(fetcher).function() == old(fetcher).function(),
        record::extends(old(fetcher).calls(), final(fetcher).calls()),
        ({
            let calls = record::since(old(fetcher).calls(), final(fetcher).calls());
            &&& forall|k: int|
                0 <= k < calls.len() ==> old(fetcher).can_give(#[trigger] calls[k])
            &&& exists|old_paths: Seq<Seq<char>>, new_paths: Seq<Seq<char>>| #[trigger]
                paths_listed(*needs, old(files)@, LineSide::Old, old_paths) && #[trigger]
                    paths_listed(*needs, old(files)@, LineSide::New, new_paths)
                    && is_container_outcome(
                    *highlighter,
                    *needs,
                    *read_workdir,
                    old_rev@,
                    rev_view(new_rev),
                    old_paths,
                    new_paths,
                    calls,
                    old(files)@,
                    final(files)@,
                    res,
                )
        }),
{
    let ghost before = fetcher.calls();
    let old_paths = container_file_paths(files, LineSide::Old, needs);
    let new_paths = container_file_paths(files, LineSide::New, needs);
    proof {
        assert(paths_listed(*needs, files@, LineSide::Old, text::views(old_paths@)));
        assert(paths_listed(*needs, files@, LineSide::New, text::views(new_paths@)));
    }
    if old_paths.len() == 0 && new_paths.len() == 0 {
        proof {
            record::lemma_extends(before, fetcher.calls(), Seq::empty());
        }
        return Ok(());
    }
    let old_batch = fetcher.fetch(old_rev, &old_paths);
    let ghost first = BatchCall {
        rev: old_rev@,
        paths: text::views(old_paths@),
        result: old_batch,
    };
    proof {
        record::lemma_extends(before, fetcher.calls(), seq![first]);
    }
    let old_files = match old_batch {
        Ok(old_files) => old_files,
        Err(error) => {
            return Err(error);
        },
    };
    let new_files = match new_rev {
        Some(rev) => {
            let new_batch = fetcher.fetch(rev, &new_paths);
            let ghost second = BatchCall {
                rev: rev@,
                paths: text::views(new_paths@),
                result: new_batch,
            };
            proof {
                record::lemma_extends(before, fetcher.calls(), seq![first, second]);
            }
            match new_batch {
                Ok(new_files) => Some(new_files),
                Err(error) => {
                    return Err(error);
                },
            }
        },
        None => None,
    };
    highlight_from_batches(files, highlighter, needs, old_files, new_files, read_workdir);
    Ok(())
}

/// A text with every tab expanded, so that highlighted spans line up with the displayed text.
pub fn tabify(s: &str) -> (res: String)
    ensures
        res@ == text::tabified(s@),
{
    let chars = text::chars_of(s);
    text::expand_tabs(chars.as_slice())
}

/// The backend of a repository.
#[derive(Debug)]
pub enum DetectedBackend<J, G, M> {
    Jujutsu(J),
    Git(G),
    Mercurial(M),
}

/// Whether `res` can be the outcome of looking for a repository: Jujutsu is tried first, since
/// its repositories are git repositories too, then git, then Mercurial. Why a system was not
/// found does not matter.
pub open spec fn is_detected<
    J,
    G,
    M,
    P: Fn(&DiffWhitespaceMode) -> Result<J, TuicrError>,
    Q: Fn(GitBackendPreference, &DiffWhitespaceMode) -> Result<G, TuicrError>,
    R: Fn(&DiffWhitespaceMode) -> Result<M, TuicrError>,
>(
    discover_jj: P,
    discover_git: Q,
    discover_hg: R,
    preference: GitBackendPreference,
    mode: &DiffWhitespaceMode,
    res: Result<DetectedBackend<J, G, M>, TuicrError>,
) -> bool {
    exists|jj: Result<J, TuicrError>| #[trigger] discover_jj.ensures((mode,), jj) && match jj {
        Ok(backend) => res == Ok::<DetectedBackend<J, G, M>, TuicrError>(
            DetectedBackend::Jujutsu(backend),
        ),
        Err(_) => exists|git: Result<G, TuicrError>| #[trigger]
            discover_git.ensures((preference, mode), git) && match git {
                Ok(backend) => res == Ok::<DetectedBackend<J, G, M>, TuicrError>(
                    DetectedBackend::Git(backend),
                ),
                Err(_) => exists|hg: Result<M, TuicrError>| #[trigger]
                    discover_hg.ensures((mode,), hg) && match hg {
                        Ok(backend) => res == Ok::<DetectedBackend<J, G, M>, TuicrError>(
                            DetectedBackend::Mercurial(backend),
                        ),
                        Err(_) => res == Err::<DetectedBackend<J, G, M>, TuicrError>(
                            TuicrError::NotARepository,
                        ),
                    },
            },
    }
}

/// Detects the version control system of the current directory.
pub fn detect_vcs<
    J,
    G,
    M,
    P: Fn(&DiffWhitespaceMode) -> Result<J, TuicrError>,
    Q: Fn(GitBackendPreference, &DiffWhitespaceMode) -> Result<G, TuicrError>,
    R: Fn(&DiffWhitespaceMode) -> Result<M, TuicrError>,
>(
    discover_jj: &P,
    discover_git: &Q,
    discover_hg: &R,
    git_backend_preference: GitBackendPreference,
    whitespace_mode: &DiffWhitespaceMode,
) -> (res: Result<DetectedBackend<J, G, M>, TuicrError>)
    requires
        discover_jj.requires((whitespace_mode,)),
        discover_git.requires((git_backend_preference, whitespace_mode)),
        discover_hg.requires((whitespace_mode,)),
    ensures
        is_detected(
            *discover_jj,
            *discover_git,
            *discover_hg,
            git_backend_preference,
            whitespace_mode,
            res,
        ),
{
    if let Ok(backend) = discover_jj(whitespace_mode) {
        return Ok(DetectedBackend::Jujutsu(backend));
    }
    if let Ok(backend) = discover_git(git_backend_preference, whitespace_mode) {
        return Ok(DetectedBackend::Git(backend));
    }
    if let Ok(backend) = discover_hg(whitespace_mode) {
        return Ok(DetectedBackend::Mercurial(backend));
    }
    Err(TuicrError::NotARepository)
}

} // verus!
