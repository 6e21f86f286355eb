//! What a pass over whole files does: what it fetches, and what the lines wear afterwards.

use vstd::prelude::*;
use crate::contents::Fetch;
use crate::full_file;
use crate::full_file::{HighlightJob, HighlightResult, SideView};
use crate::model::{FileView, LineOrigin, LineSide, LineView, SpanView};
use crate::syntax;
use crate::syntax::{DiffBackgrounds, HighlightedLines, SyntaxHighlighter};
use crate::syntax_laws;
use crate::text;
use crate::text_laws;

verus! {

/// What is known of a side of a file: nothing where it cannot be had or is too long, no spans where
/// it is no text or no grammar knows it, or the spans of its lines.
pub type SideSpans = Option<Option<Seq<Option<Seq<SpanView>>>>>;

/// The same, as highlighting names it.
pub open spec fn spans_known(side: SideView) -> SideSpans {
    match side {
        SideView::Unavailable => None,
        SideView::Nothing => Some(None),
        SideView::Lines(lines) => Some(Some(lines)),
    }
}

/// Where the line with a number stands, counted from nothing; a line without a number stands
/// nowhere.
pub open spec fn place_of(number: Option<u32>) -> int {
    match number {
        Some(n) => if n == 0 {
            0
        } else {
            n - 1
        },
        None => -1,
    }
}

/// Whether a line is coloured from the two sides of its file: a deletion by its old number from the
/// old side, every other line by its new number from the new side. Without that side, or without
/// any spans at all, it keeps its colouring.
pub open spec fn is_worn(
    before: LineView,
    after: LineView,
    old: SideSpans,
    new: SideSpans,
    backgrounds: DiffBackgrounds,
) -> bool {
    let gone = before.origin == LineOrigin::Deletion;
    let own = if gone {
        old
    } else {
        new
    };
    let number = if gone {
        before.old_lineno
    } else {
        before.new_lineno
    };
    let has_spans = (old matches Some(Some(_))) || (new matches Some(Some(_)));
    &&& syntax_laws::is_same_line(before, after)
    &&& match own {
        Some(spans) => if has_spans {
            syntax_laws::wears(
                after.coloring,
                syntax_laws::found_at(spans, place_of(number)),
                before.origin,
                backgrounds,
            )
        } else {
            after.coloring == before.coloring
        },
        None => after.coloring == before.coloring,
    }
}

/// Whether a file keeps all that it is but the colouring of its lines, and every line is coloured
/// from the two sides of the file.
pub open spec fn is_file_worn(
    before: FileView,
    after: FileView,
    old: SideSpans,
    new: SideSpans,
    backgrounds: DiffBackgrounds,
) -> bool {
    &&& after == (FileView { hunks: after.hunks, ..before })
    &&& after.hunks.len() == before.hunks.len()
    &&& forall|h: int|
        0 <= h < before.hunks.len() ==> syntax_laws::is_same_frame(
            before.hunks[h],
            #[trigger] after.hunks[h],
        )
    &&& forall|h: int, k: int|
        #![trigger after.hunks[h].lines[k]]
        0 <= h < before.hunks.len() && 0 <= k < before.hunks[h].lines.len() ==> is_worn(
            before.hunks[h].lines[k],
            after.hunks[h].lines[k],
            old,
            new,
            backgrounds,
        )
}

/// The result of highlighting a file puts on each line the spans of its own number on its own
/// side.
pub proof fn law_lines_wear_the_spans_of_their_number(
    file: FileView,
    old: SideView,
    new: SideView,
    backgrounds: DiffBackgrounds,
)
    ensures
        is_file_worn(
            file,
            full_file::enhanced_file(file, old, new, backgrounds),
            spans_known(old),
            spans_known(new),
            backgrounds,
        ),
        old is Lines || new is Lines ==> full_file::whole_file_colored(file, old, new, backgrounds)
            == full_file::enhanced_file(file, old, new, backgrounds),
{
    let after = full_file::enhanced_file(file, old, new, backgrounds);
    assert forall|h: int, k: int|
        #![trigger after.hunks[h].lines[k]]
        0 <= h < file.hunks.len() && 0 <= k < file.hunks[h].lines.len() implies is_worn(
        file.hunks[h].lines[k],
        after.hunks[h].lines[k],
        spans_known(old),
        spans_known(new),
        backgrounds,
    ) by {
        let line = file.hunks[h].lines[k];
        if old is Lines || new is Lines {
            assert(after.hunks[h] == full_file::whole_file_hunk(
                file.hunks[h],
                old,
                new,
                backgrounds,
            ));
        }
    }
}

/// Putting the spans of two sides on a file marks a line plain where its side is there and gives it
/// nothing, even where neither side has spans.
pub proof fn law_applied_spans_settle_lines(
    file: FileView,
    old: SideView,
    new: SideView,
    backgrounds: DiffBackgrounds,
    h: int,
    k: int,
)
    requires
        0 <= h < file.hunks.len(),
        0 <= k < file.hunks[h].lines.len(),
    ensures
        ({
            let after = full_file::whole_file_colored(file, old, new, backgrounds);
            let line = file.hunks[h].lines[k];
            let gone = line.origin == LineOrigin::Deletion;
            let own = spans_known(if gone {
                old
            } else {
                new
            });
            let seen = after.hunks[h].lines[k];
            &&& after == (FileView { hunks: after.hunks, ..file })
            &&& after.hunks.len() == file.hunks.len()
            &&& syntax_laws::is_same_frame(file.hunks[h], after.hunks[h])
            &&& syntax_laws::is_same_line(line, seen)
            &&& match own {
                Some(spans) => syntax_laws::wears(
                    seen.coloring,
                    syntax_laws::found_at(
                        spans,
                        place_of(if gone {
                            line.old_lineno
                        } else {
                            line.new_lineno
                        }),
                    ),
                    line.origin,
                    backgrounds,
                ),
                None => seen.coloring == line.coloring,
            }
        }),
{
    let after = full_file::whole_file_colored(file, old, new, backgrounds);
    assert(after.hunks[h] == full_file::whole_file_hunk(file.hunks[h], old, new, backgrounds));
}

/// Whether `shown` are the lines of a text as they are shown: four spaces stand for each tab.
pub open spec fn are_shown_lines(content: Seq<char>, shown: Seq<Seq<char>>) -> bool {
    exists|lines: Seq<Seq<char>>| #[trigger]
        text_laws::is_lines_of(lines, content) && shown.len() == lines.len() && forall|j: int|
            0 <= j < lines.len() ==> text_laws::shows_tabs_as_spaces(lines[j], #[trigger] shown[j])
}

/// Whether this is what is known of a side with the given contents. Contents of more than a
/// mebibyte are too long, and a NUL is no text.
pub open spec fn is_known(
    spans_of: spec_fn(Seq<char>, Seq<Seq<char>>) -> Option<Seq<Option<Seq<SpanView>>>>,
    path: Seq<char>,
    content: Option<Seq<char>>,
    known: SideSpans,
) -> bool {
    match content {
        None => known is None,
        Some(content) => if vstd::utf8::encode_utf8(content).len() > 1048576 {
            known is None
        } else if content.contains('\0') {
            known == Some(None::<Seq<Option<Seq<SpanView>>>>)
        } else {
            exists|shown: Seq<Seq<char>>| #[trigger]
                are_shown_lines(content, shown) && known == Some(spans_of(path, shown))
        },
    }
}

/// Highlighting the contents of a side asks the grammar for the lines of the contents as they are
/// shown, unless there are none, they are too long, or they are no text.
pub proof fn law_contents_are_highlighted_line_by_line<
    G: Fn(&str, &Vec<String>) -> Option<HighlightedLines>,
>(
    grammar: G,
    spans_of: spec_fn(Seq<char>, Seq<Seq<char>>) -> Option<Seq<Option<Seq<SpanView>>>>,
    path: Seq<char>,
    content: Option<Seq<char>>,
    side: SideView,
)
    requires
        syntax_laws::grammar_tells(grammar, spans_of),
        full_file::content_gives(grammar, path, content, side),
    ensures
        is_known(spans_of, path, content, spans_known(side)),
{
    if let Some(content) = content {
        if !full_file::is_oversized(content) && !full_file::holds_nul(content) {
            let shown = full_file::content_lines(content);
            let out = choose|out: Option<HighlightedLines>|
                #[trigger] syntax::grammar_gives(grammar, path, shown, out) && side == (match out {
                    Some(lines) => SideView::Lines(syntax::highlight_view(lines)),
                    None => SideView::Nothing,
                });
            syntax_laws::lemma_grammar_tells(grammar, spans_of, path, shown, out);
            let lines = text::lines(content);
            text_laws::law_every_text_has_lines(content);
            assert forall|j: int| 0 <= j < lines.len() implies text_laws::shows_tabs_as_spaces(
                lines[j],
                #[trigger] shown[j],
            ) by {
                text_laws::law_tabs_become_four_spaces(lines[j]);
            }
            assert(are_shown_lines(content, shown));
        }
    }
}

/// Whether a file has text to colour and a path to colour it under.
pub open spec fn can_be_colored(file: FileView) -> bool {
    &&& !file.is_binary
    &&& !file.is_too_large
    &&& file.hunks.len() > 0
    &&& file.new_path is Some || file.old_path is Some
}

/// The path that a file is coloured under.
pub open spec fn coloring_path(file: FileView) -> Seq<char> {
    match file.new_path {
        Some(path) => path,
        None => file.old_path->0,
    }
}

/// Whether `needs` always gives this answer for a path.
pub open spec fn need_is<N: Fn(&str) -> bool>(needs: N, path: Seq<char>, answer: bool) -> bool {
    forall|name: &str, out: bool|
        name@ == path && #[trigger] needs.ensures((name,), out) ==> out == answer
}

/// Whether what is fetched is always the text that stands at a path on a side.
pub open spec fn texts_are(
    gives: spec_fn(Fetch) -> bool,
    old_text: spec_fn(Seq<char>) -> Option<Seq<char>>,
    new_text: spec_fn(Seq<char>) -> Option<Seq<char>>,
) -> bool {
    forall|fetch: Fetch| #[trigger]
        gives(fetch) ==> fetch.content == (match fetch.side {
            LineSide::Old => old_text(fetch.path),
            LineSide::New => new_text(fetch.path),
        })
}

/// The text at a path, where there is a path.
pub open spec fn text_at(
    text_of: spec_fn(Seq<char>) -> Option<Seq<char>>,
    path: Option<Seq<char>>,
) -> Option<Seq<char>> {
    match path {
        Some(path) => text_of(path),
        None => None,
    }
}

proof fn lemma_requests_at(files: Seq<FileView>, needed: Seq<bool>, i: int)
    requires
        0 <= i < files.len(),
        full_file::is_wanted(files[i], needed[i]),
    ensures
        ({
            let all = full_file::all_requests(files, needed);
            let own = full_file::file_requests(files[i]);
            let at = full_file::fetches_begin(files, needed, i);
            &&& 0 <= at
            &&& at + own.len() <= all.len()
            &&& forall|j: int| 0 <= j < own.len() ==> all[at + j] == #[trigger] own[j]
        }),
    decreases files.len(),
{
    let rest = files.drop_last();
    let all = full_file::all_requests(files, needed);
    let own = full_file::file_requests(files[i]);
    let at = full_file::fetches_begin(files, needed, i);
    if i < files.len() - 1 {
        assert(rest.take(i) =~= files.take(i));
        assert(rest[i] == files[i]);
        lemma_requests_at(rest, needed, i);
        let before = full_file::all_requests(rest, needed);
        assert forall|j: int| 0 <= j < own.len() implies all[at + j] == #[trigger] own[j] by {
            assert(before[at + j] == own[j]);
        }
    } else {
        assert(files.take(i) =~= rest);
    }
}

proof fn lemma_contents_fetched(
    gives: spec_fn(Fetch) -> bool,
    old_text: spec_fn(Seq<char>) -> Option<Seq<char>>,
    new_text: spec_fn(Seq<char>) -> Option<Seq<char>>,
    files: Seq<FileView>,
    needed: Seq<bool>,
    fetches: Seq<Fetch>,
    i: int,
)
    requires
        texts_are(gives, old_text, new_text),
        full_file::are_fetches_of(gives, files, needed, fetches),
        0 <= i < files.len(),
        full_file::is_wanted(files[i], needed[i]),
    ensures
        ({
            let at = full_file::fetches_begin(files, needed, i);
            &&& full_file::old_content_at(files[i], fetches, at) == text_at(
                old_text,
                files[i].old_path,
            )
            &&& full_file::new_content_at(files[i], fetches, at) == text_at(
                new_text,
                files[i].new_path,
            )
        }),
{
    let at = full_file::fetches_begin(files, needed, i);
    let own = full_file::file_requests(files[i]);
    let asked = full_file::requests_of(fetches);
    lemma_requests_at(files, needed, i);
    assert(asked.len() == fetches.len());
    if files[i].old_path is Some {
        assert(own[0] == (LineSide::Old, files[i].old_path->0));
        assert(asked[at + 0] == own[0]);
        assert(asked[at] == (fetches[at].side, fetches[at].path));
        assert(gives(fetches[at]));
    }
    if files[i].new_path is Some {
        let j: int = if files[i].old_path is Some {
            1
        } else {
            0
        };
        assert(own[j] == (LineSide::New, files[i].new_path->0));
        assert(asked[at + j] == own[j]);
        assert(asked[at + j] == (fetches[at + j].side, fetches[at + j].path));
        assert(gives(fetches[at + j]));
    }
}

/// After a pass, every line of a file whose grammar needs the whole file wears the spans of its own
/// number: a deletion those of its old number in the old text, an addition and a context line those
/// of its new number in the new text. A line whose side cannot be had, or is too long, is left as it
/// was, and so is a file for which there are no spans at all.
pub proof fn law_pass_colors_by_line_number<
    G: Fn(&str, &Vec<String>) -> Option<HighlightedLines>,
    N: Fn(&str) -> bool,
>(
    highlighter: SyntaxHighlighter<G>,
    spans_of: spec_fn(Seq<char>, Seq<Seq<char>>) -> Option<Seq<Option<Seq<SpanView>>>>,
    needs: N,
    gives: spec_fn(Fetch) -> bool,
    old_text: spec_fn(Seq<char>) -> Option<Seq<char>>,
    new_text: spec_fn(Seq<char>) -> Option<Seq<char>>,
    before: Seq<FileView>,
    after: Seq<FileView>,
    fetches: Seq<Fetch>,
    i: int,
)
    requires
        full_file::is_pass(highlighter, needs, gives, before, after, fetches),
        syntax_laws::grammar_tells(highlighter.grammar, spans_of),
        texts_are(gives, old_text, new_text),
        0 <= i < before.len(),
        can_be_colored(before[i]),
        need_is(needs, coloring_path(before[i]), true),
    ensures
        after.len() == before.len(),
        exists|old: SideSpans, new: SideSpans|
            #![trigger is_known(spans_of, coloring_path(before[i]), text_at(old_text, before[i].old_path), old), is_known(spans_of, coloring_path(before[i]), text_at(new_text, before[i].new_path), new)]
            is_known(
                spans_of,
                coloring_path(before[i]),
                text_at(old_text, before[i].old_path),
                old,
            ) && is_known(
                spans_of,
                coloring_path(before[i]),
                text_at(new_text, before[i].new_path),
                new,
            ) && is_file_worn(before[i], after[i], old, new, highlighter.backgrounds),
{
    let file = before[i];
    let path = coloring_path(file);
    let needed = choose|needed: Seq<bool>| #[trigger]
        full_file::needs_told(needs, before, needed) && full_file::are_fetches_of(
            gives,
            before,
            needed,
            fetches,
        ) && forall|i: int|
            0 <= i < before.len() ==> full_file::is_enhanced(
                highlighter,
                before[i],
                needed[i],
                full_file::old_content_at(
                    before[i],
                    fetches,
                    full_file::fetches_begin(before, needed, i),
                ),
                full_file::new_content_at(
                    before[i],
                    fetches,
                    full_file::fetches_begin(before, needed, i),
                ),
                #[trigger] after[i],
            );
    let reached = after[i];
    assert(full_file::candidate_path(file) == Some(path));
    assert(full_file::need_told(needs, path, needed[i]));
    assert(needed[i]);
    lemma_contents_fetched(gives, old_text, new_text, before, needed, fetches, i);
    let old_content = text_at(old_text, file.old_path);
    let new_content = text_at(new_text, file.new_path);
    let (old, new) = choose|old: SideView, new: SideView|
        #![trigger full_file::content_gives(highlighter.grammar, path, old_content, old), full_file::content_gives(highlighter.grammar, path, new_content, new)]
        full_file::content_gives(highlighter.grammar, path, old_content, old)
            && full_file::content_gives(highlighter.grammar, path, new_content, new) && reached
            == full_file::enhanced_file(file, old, new, highlighter.backgrounds);
    law_contents_are_highlighted_line_by_line(
        highlighter.grammar,
        spans_of,
        path,
        old_content,
        old,
    );
    law_contents_are_highlighted_line_by_line(
        highlighter.grammar,
        spans_of,
        path,
        new_content,
        new,
    );
    law_lines_wear_the_spans_of_their_number(file, old, new, highlighter.backgrounds);
    assert(is_known(spans_of, path, old_content, spans_known(old)));
    assert(is_known(spans_of, path, new_content, spans_known(new)));
}

/// A pass leaves a file alone that has no text to colour or no path, and one whose grammar does not
/// need the whole file.
pub proof fn law_pass_leaves_other_files_alone<
    G: Fn(&str, &Vec<String>) -> Option<HighlightedLines>,
    N: Fn(&str) -> bool,
>(
    highlighter: SyntaxHighlighter<G>,
    needs: N,
    gives: spec_fn(Fetch) -> bool,
    before: Seq<FileView>,
    after: Seq<FileView>,
    fetches: Seq<Fetch>,
    i: int,
)
    requires
        full_file::is_pass(highlighter, needs, gives, before, after, fetches),
        0 <= i < before.len(),
        !can_be_colored(before[i]) || need_is(needs, coloring_path(before[i]), false),
    ensures
        after.len() == before.len(),
        after[i] == before[i],
{
    if can_be_colored(before[i]) {
        let path = coloring_path(before[i]);
        assert(full_file::candidate_path(before[i]) == Some(path));
        assert(!full_file::need_told(needs, path, true));
    }
    full_file::law_other_files_are_left_alone(
        highlighter,
        needs,
        gives,
        before,
        after,
        fetches,
        i,
    );
}

/// Whether a fetch asks for a path on a side.
pub open spec fn asks_for(fetch: Fetch, side: LineSide, path: Seq<char>) -> bool {
    fetch.side == side && fetch.path == path
}

/// Whether these are the fetches for one file: the old side and then the new side, each where it
/// has a path.
pub open spec fn are_fetches_for(file: FileView, fetches: Seq<Fetch>) -> bool {
    match (file.old_path, file.new_path) {
        (Some(old), Some(new)) => fetches.len() == 2 && asks_for(fetches[0], LineSide::Old, old)
            && asks_for(fetches[1], LineSide::New, new),
        (Some(old), None) => fetches.len() == 1 && asks_for(fetches[0], LineSide::Old, old),
        (None, Some(new)) => fetches.len() == 1 && asks_for(fetches[0], LineSide::New, new),
        (None, None) => fetches.len() == 0,
    }
}

/// A pass fetches file by file: for the last file, after those before it, its two sides where it is
/// to be coloured, and nothing where it is not. Without files nothing is fetched.
pub proof fn law_fetches_go_file_by_file(
    gives: spec_fn(Fetch) -> bool,
    files: Seq<FileView>,
    needed: Seq<bool>,
    fetches: Seq<Fetch>,
)
    requires
        full_file::are_fetches_of(gives, files, needed, fetches),
    ensures
        files.len() == 0 ==> fetches.len() == 0,
        files.len() > 0 ==> exists|n: int|
            0 <= n <= fetches.len() && #[trigger] full_file::are_fetches_of(
                gives,
                files.drop_last(),
                needed,
                fetches.take(n),
            ) && if can_be_colored(files.last()) && needed[files.len() - 1] {
                are_fetches_for(files.last(), fetches.skip(n))
            } else {
                fetches.skip(n).len() == 0
            },
        forall|k: int| 0 <= k < fetches.len() ==> gives(#[trigger] fetches[k]),
{
    let asked = full_file::requests_of(fetches);
    assert(asked.len() == fetches.len());
    if files.len() > 0 {
        let rest = files.drop_last();
        let file = files.last();
        let earlier = full_file::all_requests(rest, needed);
        let own = full_file::file_requests(file);
        let n = earlier.len() as int;
        let first = fetches.take(n);
        let later = fetches.skip(n);
        assert(full_file::requests_of(first) =~= asked.take(n));
        assert(asked.take(n) =~= earlier);
        assert forall|k: int| 0 <= k < later.len() implies (#[trigger] later[k]).side == asked[n
            + k].0 && later[k].path == asked[n + k].1 by {
            assert(later[k] == fetches[n + k]);
            assert(asked[n + k] == (fetches[n + k].side, fetches[n + k].path));
        }
        assert forall|k: int| 0 <= k < first.len() implies gives(#[trigger] first[k]) by {
            assert(first[k] == fetches[k]);
        }
        assert(full_file::are_fetches_of(gives, rest, needed, first));
        assert(full_file::is_wanted(file, needed[files.len() - 1]) == (can_be_colored(file)
            && needed[files.len() - 1]));
        if can_be_colored(file) && needed[files.len() - 1] {
            assert(asked == earlier + own);
            assert forall|k: int| 0 <= k < own.len() implies asked[n + k] == #[trigger] own[k] by {}
            if own.len() > 0 {
                assert(asked[n + 0] == own[0]);
            }
            if own.len() > 1 {
                assert(asked[n + 1] == own[1]);
            }
            assert(are_fetches_for(file, later));
        }
    }
}

/// A job belongs to a file that is to be coloured: it names the file's place and path and holds the
/// texts of its two sides. A file that is to be coloured has a job where one of its texts can be
/// had, and jobs stand in the order of the files.
pub proof fn law_jobs_belong_to_their_files(
    gives: spec_fn(Fetch) -> bool,
    old_text: spec_fn(Seq<char>) -> Option<Seq<char>>,
    new_text: spec_fn(Seq<char>) -> Option<Seq<char>>,
    files: Seq<FileView>,
    needed: Seq<bool>,
    fetches: Seq<Fetch>,
    jobs: Seq<HighlightJob>,
)
    requires
        texts_are(gives, old_text, new_text),
        full_file::are_fetches_of(gives, files, needed, fetches),
        full_file::are_jobs_of(files, needed, fetches, files.len() as int, jobs),
    ensures
        forall|j: int|
            0 <= j < jobs.len() ==> {
                let job = #[trigger] jobs[j];
                let i = job.file_idx as int;
                &&& i < files.len()
                &&& can_be_colored(files[i]) && needed[i]
                &&& job.syntax_path@ == coloring_path(files[i])
                &&& text::opt_view(job.old_content) == text_at(old_text, files[i].old_path)
                &&& text::opt_view(job.new_content) == text_at(new_text, files[i].new_path)
                &&& job.old_content is Some || job.new_content is Some
            },
        forall|i: int|
            0 <= i < files.len() && can_be_colored(#[trigger] files[i]) && needed[i] && (text_at(
                old_text,
                files[i].old_path,
            ) is Some || text_at(new_text, files[i].new_path) is Some) ==> exists|j: int|
                0 <= j < jobs.len() && (#[trigger] jobs[j]).file_idx == i,
        forall|j: int, k: int|
            0 <= j < k < jobs.len() ==> (#[trigger] jobs[j]).file_idx < (#[trigger] jobs[k]).file_idx,
{
    assert forall|j: int| 0 <= j < jobs.len() implies {
        let job = #[trigger] jobs[j];
        let i = job.file_idx as int;
        &&& i < files.len()
        &&& can_be_colored(files[i]) && needed[i]
        &&& job.syntax_path@ == coloring_path(files[i])
        &&& text::opt_view(job.old_content) == text_at(old_text, files[i].old_path)
        &&& text::opt_view(job.new_content) == text_at(new_text, files[i].new_path)
        &&& job.old_content is Some || job.new_content is Some
    } by {
        let i = jobs[j].file_idx as int;
        assert(full_file::is_job_for(files, needed, fetches, i, jobs[j]));
        lemma_contents_fetched(gives, old_text, new_text, files, needed, fetches, i);
    }
    assert forall|i: int|
        0 <= i < files.len() && can_be_colored(#[trigger] files[i]) && needed[i] && (text_at(
            old_text,
            files[i].old_path,
        ) is Some || text_at(new_text, files[i].new_path) is Some) implies exists|j: int|
        0 <= j < jobs.len() && (#[trigger] jobs[j]).file_idx == i by {
        lemma_contents_fetched(gives, old_text, new_text, files, needed, fetches, i);
        assert(full_file::has_job(jobs, i) || full_file::needs_no_job(files, needed, fetches, i));
    }
}

/// There are never more workers than the machine offers or than there are jobs, and as many as that
/// allows.
pub proof fn law_workers_are_used_up(available: int, jobs: int)
    ensures
        full_file::workers(available, jobs) <= available,
        full_file::workers(available, jobs) <= jobs,
        full_file::workers(available, jobs) == available || full_file::workers(available, jobs)
            == jobs,
{
}

/// What a job gives is what is known of the two sides of its file, each from its own contents.
pub proof fn law_results_belong_to_their_jobs<
    G: Fn(&str, &Vec<String>) -> Option<HighlightedLines>,
>(
    grammar: G,
    spans_of: spec_fn(Seq<char>, Seq<Seq<char>>) -> Option<Seq<Option<Seq<SpanView>>>>,
    job: HighlightJob,
    result: HighlightResult,
)
    requires
        syntax_laws::grammar_tells(grammar, spans_of),
        full_file::job_gives(grammar, job, result),
    ensures
        result.file_idx == job.file_idx,
        is_known(
            spans_of,
            job.syntax_path@,
            match job.old_content {
                Some(content) => Some(content@),
                None => None,
            },
            spans_known(result.old@),
        ),
        is_known(
            spans_of,
            job.syntax_path@,
            match job.new_content {
                Some(content) => Some(content@),
                None => None,
            },
            spans_known(result.new@),
        ),
{
    law_contents_are_highlighted_line_by_line(
        grammar,
        spans_of,
        job.syntax_path@,
        text::opt_view(job.old_content),
        result.old@,
    );
    law_contents_are_highlighted_line_by_line(
        grammar,
        spans_of,
        job.syntax_path@,
        text::opt_view(job.new_content),
        result.new@,
    );
}

/// Results for different files are each put on their own file, and every other file is left alone.
pub proof fn law_results_are_put_on_their_files(
    files: Seq<FileView>,
    results: Seq<HighlightResult>,
    backgrounds: DiffBackgrounds,
    i: int,
)
    requires
        forall|j: int| 0 <= j < results.len() ==> (#[trigger] results[j]).file_idx < files.len(),
        forall|j: int, k: int|
            0 <= j < k < results.len() ==> (#[trigger] results[j]).file_idx != (
            #[trigger] results[k]).file_idx,
        0 <= i < files.len(),
    ensures
        ({
            let after = full_file::with_results(files, results, backgrounds);
            &&& after.len() == files.len()
            &&& (forall|k: int| 0 <= k < results.len() ==> (#[trigger] results[k]).file_idx != i)
                ==> after[i] == files[i]
            &&& forall|k: int|
                0 <= k < results.len() && (#[trigger] results[k]).file_idx == i ==> is_file_worn(
                    files[i],
                    after[i],
                    spans_known(results[k].old@),
                    spans_known(results[k].new@),
                    backgrounds,
                )
        }),
    decreases results.len(),
{
    if results.len() > 0 {
        let rest = results.drop_last();
        let n = results.len() - 1;
        let last = results[n];
        assert(forall|k: int| 0 <= k < n ==> #[trigger] rest[k] == results[k]);
        assert(forall|k: int| 0 <= k < n ==> #[trigger] results[k] == rest[k]);
        law_results_are_put_on_their_files(files, rest, backgrounds, i);
        law_results_are_put_on_their_files(files, rest, backgrounds, last.file_idx as int);
        law_lines_wear_the_spans_of_their_number(
            files[last.file_idx as int],
            last.old@,
            last.new@,
            backgrounds,
        );
    }
}

} // verus!
