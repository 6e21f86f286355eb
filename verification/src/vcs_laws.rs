//! What the version control backends share: context lines, the paths that are fetched, the batches
//! that come of them, and the detection of a repository.

use vstd::prelude::*;
use crate::batch;
use crate::batch::{BatchCall, FileBatch};
use crate::batch_laws;
use crate::batch_laws::is_latest;
use crate::contents::Fetch;
use crate::error::TuicrError;
use crate::full_file;
use crate::full_file_laws;
use crate::full_file_laws::{
    can_be_colored,
    coloring_path,
    is_file_worn,
    is_known,
    need_is,
    text_at,
    SideSpans,
};
use crate::git::GitBackendPreference;
use crate::model::{DiffFile, FileView, LineOrigin, LineSide, SpanView};
use crate::syntax::{HighlightedLines, SyntaxHighlighter};
use crate::syntax_laws;
use crate::text;
use crate::text_laws;
use crate::text_laws::{is_lines_of, is_same_place, shows_tabs_as_spaces};
use crate::vcs;
use crate::vcs::DetectedBackend;
use crate::whitespace::DiffWhitespaceMode;

verus! {

/// The lines between two line numbers are taken by their numbers, counted from one and both ends
/// counted in, as many as the text has. Each bears its number on both sides and shows its tabs as
/// four spaces. Before the first line there is none, so that nothing is taken from there.
pub proof fn law_context_lines_bear_their_numbers(
    content: Seq<char>,
    lines: Seq<Seq<char>>,
    start_line: u32,
    end_line: u32,
)
    requires
        is_lines_of(lines, content),
    ensures
        ({
            let taken = vcs::context_lines(content, start_line, end_line);
            &&& start_line == 0 ==> taken.len() == 0
            &&& taken.len() > 0 ==> start_line + taken.len() - 1 <= end_line && start_line
                + taken.len() - 1 <= lines.len()
            &&& start_line >= 1 ==> start_line + taken.len() > end_line || start_line + taken.len()
                > lines.len()
            &&& forall|k: int|
                0 <= k < taken.len() ==> {
                    &&& (#[trigger] taken[k]).origin == LineOrigin::Context
                    &&& taken[k].old_lineno matches Some(n) && n == start_line + k
                    &&& taken[k].new_lineno matches Some(n) && n == start_line + k
                    &&& shows_tabs_as_spaces(lines[start_line + k - 1], taken[k].content)
                    &&& taken[k].coloring is Pending
                }
        }),
{
    let taken = vcs::context_lines(content, start_line, end_line);
    text_laws::lemma_lines_once(lines, content);
    assert forall|k: int| 0 <= k < taken.len() implies shows_tabs_as_spaces(
        lines[start_line + k - 1],
        (#[trigger] taken[k]).content,
    ) by {
        text_laws::law_tabs_become_four_spaces(lines[start_line - 1 + k]);
    }
}

/// The path of a file on a side.
pub open spec fn path_on(file: FileView, side: LineSide) -> Option<Seq<char>> {
    if side == LineSide::Old {
        file.old_path
    } else {
        file.new_path
    }
}

/// Whether a path on a side is sought for a file: the file can be coloured, its grammar needs the
/// whole of it, and it has that path there.
pub open spec fn is_sought(
    file: FileView,
    needed: bool,
    side: LineSide,
    path: Seq<char>,
) -> bool {
    can_be_colored(file) && needed && path_on(file, side) == Some(path)
}

/// Whether a path is sought for none of the first `n` files.
pub open spec fn is_new_at(
    files: Seq<FileView>,
    needed: Seq<bool>,
    side: LineSide,
    path: Seq<char>,
    n: int,
) -> bool {
    forall|i: int, earlier: Seq<char>|
        0 <= i < n && #[trigger] is_sought(files[i], needed[i], side, earlier) ==> !is_same_place(
            earlier,
            path,
        )
}

/// Whether `places` are the files whose paths are listed: each the first file for which its path
/// is sought, in order.
pub open spec fn are_first_sought(
    files: Seq<FileView>,
    needed: Seq<bool>,
    side: LineSide,
    listed: Seq<Seq<char>>,
    places: Seq<int>,
) -> bool {
    &&& places.len() == listed.len()
    &&& forall|k: int|
        0 <= k < listed.len() ==> 0 <= #[trigger] places[k] < files.len() && is_sought(
            files[places[k]],
            needed[places[k]],
            side,
            listed[k],
        ) && is_new_at(files, needed, side, listed[k], places[k])
    &&& forall|k: int, l: int|
        0 <= k < l < places.len() ==> #[trigger] places[k] < #[trigger] places[l]
}

/// Whether every path that is sought is listed, under this or another name for the same place.
pub open spec fn are_all_sought(
    files: Seq<FileView>,
    needed: Seq<bool>,
    side: LineSide,
    listed: Seq<Seq<char>>,
) -> bool {
    forall|i: int, path: Seq<char>|
        0 <= i < files.len() && #[trigger] is_sought(files[i], needed[i], side, path) ==> exists|
            k: int,
        | 0 <= k < listed.len() && is_same_place(#[trigger] listed[k], path)
}

/// The paths that are fetched for a side are those that are sought there, each once and in the
/// order of the files.
#[verifier::rlimit(40)]
pub proof fn law_sought_paths_are_listed_once(
    files: Seq<FileView>,
    side: LineSide,
    needed: Seq<bool>,
) -> (places: Seq<int>)
    ensures
        are_first_sought(
            files,
            needed,
            side,
            vcs::container_paths(files, side, needed),
            places,
        ),
        are_all_sought(files, needed, side, vcs::container_paths(files, side, needed)),
    decreases files.len(),
{
    let listed = vcs::container_paths(files, side, needed);
    if files.len() == 0 {
        Seq::empty()
    } else {
        let rest = files.drop_last();
        let n = files.len() - 1;
        let file = files[n];
        let before = vcs::container_paths(rest, side, needed);
        let others = law_sought_paths_are_listed_once(rest, side, needed);
        assert(forall|i: int| 0 <= i < n ==> #[trigger] files[i] == rest[i]);
        assert(forall|i: int| 0 <= i < n ==> #[trigger] rest[i] == files[i]);
        assert forall|k: int| 0 <= k < before.len() implies #[trigger] listed[k] == before[k] by {}
        assert forall|k: int| 0 <= k < before.len() implies 0 <= #[trigger] others[k] < n
            && is_sought(files[others[k]], needed[others[k]], side, before[k]) && is_new_at(
            files,
            needed,
            side,
            before[k],
            others[k],
        ) by {
            assert forall|i: int, earlier: Seq<char>|
                0 <= i < others[k] && #[trigger] is_sought(
                    files[i],
                    needed[i],
                    side,
                    earlier,
                ) implies !is_same_place(earlier, before[k]) by {
                assert(is_sought(rest[i], needed[i], side, earlier));
            }
        }
        let path = vcs::side_path(file, side);
        let added = path is Some && full_file::is_wanted(file, needed[n]) && !vcs::names_path(
            before,
            path->0,
        );
        if path is Some {
            lemma_named(before, path->0);
        }
        assert(full_file::is_wanted(file, needed[n]) == (can_be_colored(file) && needed[n]));
        assert forall|i: int, sought: Seq<char>|
            0 <= i < files.len() && #[trigger] is_sought(
                files[i],
                needed[i],
                side,
                sought,
            ) implies exists|k: int|
            0 <= k < listed.len() && is_same_place(#[trigger] listed[k], sought) by {
            if i < n {
                assert(is_sought(rest[i], needed[i], side, sought));
                let k = choose|k: int|
                    0 <= k < before.len() && is_same_place(#[trigger] before[k], sought);
                assert(is_same_place(listed[k], sought));
            } else if added {
                text_laws::law_paths_are_told_apart(sought, sought);
                assert(listed[before.len() as int] == sought);
            } else {
                let k = choose|k: int|
                    0 <= k < before.len() && is_same_place(#[trigger] before[k], sought);
                assert(is_same_place(listed[k], sought));
            }
        }
        if added {
            let found = path->0;
            let places = others.push(n);
            assert(listed == before.push(found));
            assert(is_new_at(files, needed, side, found, n)) by {
                assert forall|i: int, earlier: Seq<char>|
                    0 <= i < n && #[trigger] is_sought(
                        files[i],
                        needed[i],
                        side,
                        earlier,
                    ) implies !is_same_place(earlier, found) by {
                    assert(is_sought(rest[i], needed[i], side, earlier));
                    let k = choose|k: int|
                        0 <= k < before.len() && is_same_place(#[trigger] before[k], earlier);
                    text_laws::law_paths_are_told_apart(before[k], earlier);
                    text_laws::law_paths_are_told_apart(earlier, found);
                    text_laws::law_paths_are_told_apart(before[k], found);
                }
            }
            assert forall|k: int| 0 <= k < listed.len() implies 0 <= #[trigger] places[k]
                < files.len() && is_sought(
                files[places[k]],
                needed[places[k]],
                side,
                listed[k],
            ) && is_new_at(files, needed, side, listed[k], places[k]) by {
                if k < n && k < others.len() {
                    assert(places[k] == others[k]);
                }
            }
            assert forall|k: int, l: int| 0 <= k < l < places.len() implies #[trigger] places[k]
                < #[trigger] places[l] by {
                assert(places[k] == others[k]);
                if l < others.len() {
                    assert(places[l] == others[l]);
                }
            }
            places
        } else {
            assert(listed == before);
            others
        }
    }
}

proof fn lemma_named(listed: Seq<Seq<char>>, path: Seq<char>)
    ensures
        vcs::names_path(listed, path) <==> exists|k: int|
            0 <= k < listed.len() && is_same_place(#[trigger] listed[k], path),
{
    assert forall|k: int| 0 <= k < listed.len() implies (crate::paths::path_parts(
        #[trigger] listed[k],
    ) == crate::paths::path_parts(path)) == is_same_place(listed[k], path) by {
        text_laws::law_paths_are_told_apart(listed[k], path);
    }
    if vcs::names_path(listed, path) {
        let k = choose|k: int|
            0 <= k < listed.len() && crate::paths::path_parts(#[trigger] listed[k])
                == crate::paths::path_parts(path);
        assert(is_same_place(listed[k], path));
    }
}

/// Batches are fetched for the old revision and then, where there is one, for the new revision,
/// each for the paths of its side. Nothing is fetched where no path is sought; a failed batch is
/// the last, its error is the outcome, and the files stay as they are.
pub proof fn law_batches_are_fetched_side_by_side<
    G: Fn(&str, &Vec<String>) -> Option<HighlightedLines>,
    N: Fn(&str) -> bool,
    R: Fn(&str) -> Option<String>,
>(
    highlighter: SyntaxHighlighter<G>,
    needs: N,
    read_workdir: R,
    old_rev: Seq<char>,
    new_rev: Option<Seq<char>>,
    old_paths: Seq<Seq<char>>,
    new_paths: Seq<Seq<char>>,
    calls: Seq<BatchCall>,
    before: Seq<DiffFile>,
    after: Seq<DiffFile>,
    res: Result<(), TuicrError>,
)
    requires
        vcs::is_container_outcome(
            highlighter,
            needs,
            read_workdir,
            old_rev,
            new_rev,
            old_paths,
            new_paths,
            calls,
            before,
            after,
            res,
        ),
    ensures
        calls.len() == 0 <==> old_paths.len() == 0 && new_paths.len() == 0,
        calls.len() <= 2,
        calls.len() == 2 <==> calls.len() > 0 && new_rev is Some && calls[0].result is Ok,
        calls.len() > 0 ==> calls[0].rev == old_rev && calls[0].paths == old_paths,
        calls.len() == 2 ==> new_rev == Some(calls[1].rev) && calls[1].paths == new_paths,
        calls.len() == 0 ==> res is Ok,
        calls.len() > 0 ==> match calls.last().result {
            Ok(_) => res is Ok,
            Err(error) => res == Err::<(), TuicrError>(error),
        },
        res is Err || calls.len() == 0 ==> after == before,
{
}

/// Whether a reader of files always gives the text at a path.
pub open spec fn reads<R: Fn(&str) -> Option<String>>(
    read: R,
    text_of: spec_fn(Seq<char>) -> Option<Seq<char>>,
) -> bool {
    forall|name: &str, out: Option<String>| #[trigger]
        read.ensures((name,), out) ==> text_of(name@) == (match out {
            Some(content) => Some(content@),
            None => None,
        })
}

/// Whether a text stands at a path in a batch; without a path there is none.
pub open spec fn stands_in(
    files: FileBatch,
    path: Option<Seq<char>>,
    content: Option<Seq<char>>,
) -> bool {
    match path {
        Some(path) => is_latest(files.entries@, path, content),
        None => content is None,
    }
}

/// Whether a file is coloured from the texts of its two sides.
pub open spec fn is_colored_from(
    spans_of: spec_fn(Seq<char>, Seq<Seq<char>>) -> Option<Seq<Option<Seq<SpanView>>>>,
    before: FileView,
    after: FileView,
    old_content: Option<Seq<char>>,
    new_content: Option<Seq<char>>,
    backgrounds: crate::syntax::DiffBackgrounds,
) -> bool {
    exists|old: SideSpans, new: SideSpans|
        #![trigger is_known(spans_of, coloring_path(before), old_content, old), is_known(spans_of, coloring_path(before), new_content, new)]
        is_known(spans_of, coloring_path(before), old_content, old) && is_known(
            spans_of,
            coloring_path(before),
            new_content,
            new,
        ) && is_file_worn(before, after, old, new, backgrounds)
}

/// Once the batches are there, a file whose grammar needs the whole of it is coloured from the text
/// that the batch of the old revision holds at its old path and the text that stands at its new
/// path: in the batch of the new revision where there is one, and otherwise in the working tree.
#[verifier::rlimit(40)]
pub proof fn law_batches_color_their_files<
    G: Fn(&str, &Vec<String>) -> Option<HighlightedLines>,
    N: Fn(&str) -> bool,
    R: Fn(&str) -> Option<String>,
>(
    highlighter: SyntaxHighlighter<G>,
    spans_of: spec_fn(Seq<char>, Seq<Seq<char>>) -> Option<Seq<Option<Seq<SpanView>>>>,
    needs: N,
    read_workdir: R,
    workdir: spec_fn(Seq<char>) -> Option<Seq<char>>,
    old_rev: Seq<char>,
    new_rev: Option<Seq<char>>,
    old_paths: Seq<Seq<char>>,
    new_paths: Seq<Seq<char>>,
    calls: Seq<BatchCall>,
    before: Seq<DiffFile>,
    after: Seq<DiffFile>,
    i: int,
)
    requires
        vcs::is_container_outcome(
            highlighter,
            needs,
            read_workdir,
            old_rev,
            new_rev,
            old_paths,
            new_paths,
            calls,
            before,
            after,
            Ok(()),
        ),
        calls.len() > 0,
        syntax_laws::grammar_tells(highlighter.grammar, spans_of),
        reads(read_workdir, workdir),
        0 <= i < before.len(),
        can_be_colored(before[i]@),
        need_is(needs, coloring_path(before[i]@), true),
    ensures
        after.len() == before.len(),
        exists|old_content: Option<Seq<char>>, new_content: Option<Seq<char>>|
            {
                &&& #[trigger] is_colored_from(
                    spans_of,
                    before[i]@,
                    after[i]@,
                    old_content,
                    new_content,
                    highlighter.backgrounds,
                )
                &&& stands_in(calls[0].result->Ok_0, before[i]@.old_path, old_content)
                &&& if new_rev is Some {
                    stands_in(calls[1].result->Ok_0, before[i]@.new_path, new_content)
                } else {
                    new_content == text_at(workdir, before[i]@.new_path)
                }
            },
{
    let old_files = calls[0].result->Ok_0;
    let new_files = if new_rev is Some {
        Some(calls[1].result->Ok_0)
    } else {
        None
    };
    let gives = batch::batches_give(old_files, new_files, read_workdir);
    let old_text = |path: Seq<char>| batch::batch_holds(old_files, path);
    let new_text = |path: Seq<char>|
        match new_files {
            Some(files) => batch::batch_holds(files, path),
            None => workdir(path),
        };
    assert(vcs::is_batch_pass(
        highlighter,
        needs,
        read_workdir,
        old_files,
        new_files,
        before,
        after,
    ));
    let fetches = choose|fetches: Seq<Fetch>| #[trigger]
        full_file::is_pass(
            highlighter,
            needs,
            gives,
            text::views(before),
            text::views(after),
            fetches,
        );
    assert forall|fetch: Fetch| #[trigger] gives(fetch) implies fetch.content == (match fetch.side {
        LineSide::Old => old_text(fetch.path),
        LineSide::New => new_text(fetch.path),
    }) by {
        if fetch.side == LineSide::New && new_files is None {
            batch_laws::law_sides_have_their_own_contents(
                old_files,
                new_files,
                read_workdir,
                fetch,
            );
        }
    }
    assert(text::views(before)[i] == before[i]@);
    full_file_laws::law_pass_colors_by_line_number(
        highlighter,
        spans_of,
        needs,
        gives,
        old_text,
        new_text,
        text::views(before),
        text::views(after),
        fetches,
        i,
    );
    assert(text::views(after)[i] == after[i]@);
    let old_content = text_at(old_text, before[i]@.old_path);
    let new_content = text_at(new_text, before[i]@.new_path);
    if let Some(path) = before[i]@.old_path {
        batch_laws::law_batches_hold_what_was_added_last(old_files, path);
    }
    if let Some(path) = before[i]@.new_path {
        if let Some(files) = new_files {
            batch_laws::law_batches_hold_what_was_added_last(files, path);
        }
    }
    assert(is_colored_from(
        spans_of,
        before[i]@,
        after[i]@,
        old_content,
        new_content,
        highlighter.backgrounds,
    ));
}

/// What a detected repository has gone through: Jujutsu comes before git and git before Mercurial,
/// each only where those before it were not found, and where none is found there is no repository.
#[verifier::rlimit(40)]
pub proof fn law_systems_are_tried_in_turn<
    J,
    G,
    M,
    P: Fn(&DiffWhitespaceMode) -> Result<J, TuicrError>,
    Q: Fn(GitBackendPreference, &DiffWhitespaceMode) -> Result<G, TuicrError>,
    R: Fn(&DiffWhitespaceMode) -> Result<M, TuicrError>,
>(
    discover_jj: P,
    discover_git: Q,
    discover_hg: R,
    preference: GitBackendPreference,
    mode: &DiffWhitespaceMode,
    res: Result<DetectedBackend<J, G, M>, TuicrError>,
)
    requires
        vcs::is_detected(discover_jj, discover_git, discover_hg, preference, mode, res),
    ensures
        ({
            let no_jj = exists|error: TuicrError| #[trigger]
                discover_jj.ensures((mode,), Err(error));
            let no_git = exists|error: TuicrError| #[trigger]
                discover_git.ensures((preference, mode), Err(error));
            let no_hg = exists|error: TuicrError| #[trigger]
                discover_hg.ensures((mode,), Err(error));
            match res {
                Ok(DetectedBackend::Jujutsu(backend)) => discover_jj.ensures(
                    (mode,),
                    Ok(backend),
                ),
                Ok(DetectedBackend::Git(backend)) => discover_git.ensures(
                    (preference, mode),
                    Ok(backend),
                ) && no_jj,
                Ok(DetectedBackend::Mercurial(backend)) => discover_hg.ensures(
                    (mode,),
                    Ok(backend),
                ) && no_jj && no_git,
                Err(error) => error is NotARepository && no_jj && no_git && no_hg,
            }
        }),
{
    let jj = choose|jj: Result<J, TuicrError>| #[trigger]
        discover_jj.ensures((mode,), jj) && match jj {
            Ok(backend) => res == Ok::<DetectedBackend<J, G, M>, TuicrError>(
                DetectedBackend::Jujutsu(backend),
            ),
            Err(_) => exists|git: Result<G, TuicrError>| #[trigger]
                discover_git.ensures((preference, mode), git) && match git {
                    Ok(backend) => res == Ok::<DetectedBackend<J, G, M>, TuicrError>(
                        DetectedBackend::Git(backend),
                    ),
                    Err(_) => exists|hg: Result<M, TuicrError>| #[trigger]
                        discover_hg.ensures((mode,), hg) && match hg {
                            Ok(backend) => res == Ok::<DetectedBackend<J, G, M>, TuicrError>(
                                DetectedBackend::Mercurial(backend),
                            ),
                            Err(_) => res == Err::<DetectedBackend<J, G, M>, TuicrError>(
                                TuicrError::NotARepository,
                            ),
                        },
                },
        };
    if let Err(jj_error) = jj {
        assert(discover_jj.ensures((mode,), Err(jj_error)));
        let git = choose|git: Result<G, TuicrError>| #[trigger]
            discover_git.ensures((preference, mode), git) && match git {
                Ok(backend) => res == Ok::<DetectedBackend<J, G, M>, TuicrError>(
                    DetectedBackend::Git(backend),
                ),
                Err(_) => exists|hg: Result<M, TuicrError>| #[trigger]
                    discover_hg.ensures((mode,), hg) && match hg {
                        Ok(backend) => res == Ok::<DetectedBackend<J, G, M>, TuicrError>(
                            DetectedBackend::Mercurial(backend),
                        ),
                        Err(_) => res == Err::<DetectedBackend<J, G, M>, TuicrError>(
                            TuicrError::NotARepository,
                        ),
                    },
            };
        if let Err(git_error) = git {
            assert(discover_git.ensures((preference, mode), Err(git_error)));
            let hg = choose|hg: Result<M, TuicrError>| #[trigger]
                discover_hg.ensures((mode,), hg) && match hg {
                    Ok(backend) => res == Ok::<DetectedBackend<J, G, M>, TuicrError>(
                        DetectedBackend::Mercurial(backend),
                    ),
                    Err(_) => res == Err::<DetectedBackend<J, G, M>, TuicrError>(
                        TuicrError::NotARepository,
                    ),
                };
            if let Err(hg_error) = hg {
                assert(discover_hg.ensures((mode,), Err(hg_error)));
            }
        }
    }
}

} // verus!
