//! What holds of the window around the viewport and of the hunks that are visited in it.

use vstd::prelude::*;
use crate::coloring;
use crate::coloring::{AnnotatedLine, App};
use crate::model;
use crate::model::{FileView, HunkView};
use crate::syntax;
use crate::syntax::{HighlightedLines, SyntaxHighlighter};
use crate::text;

verus! {

proof fn lemma_row_hunks_of_row(rows: Seq<AnnotatedLine>, i: int)
    requires
        0 <= i < rows.len(),
        rows[i].hunk_key() is Some,
    ensures
        coloring::row_hunks(rows).contains(rows[i].hunk_key()->0),
    decreases rows.len(),
{
    let keys = coloring::row_hunks(rows);
    let before = coloring::row_hunks(rows.drop_last());
    let key = rows[i].hunk_key()->0;
    if i == rows.len() - 1 {
        assert(keys[before.len() as int] == key);
    } else {
        lemma_row_hunks_of_row(rows.drop_last(), i);
        let j = choose|j: int| 0 <= j < before.len() && before[j] == key;
        assert(keys[j] == key);
    }
}

proof fn lemma_row_of_hunk(rows: Seq<AnnotatedLine>, key: (usize, usize))
    requires
        coloring::row_hunks(rows).contains(key),
    ensures
        exists|i: int| 0 <= i < rows.len() && (#[trigger] rows[i]).hunk_key() == Some(key),
    decreases rows.len(),
{
    let keys = coloring::row_hunks(rows);
    let rest = rows.drop_last();
    let before = coloring::row_hunks(rest);
    if rows.last().hunk_key() == Some(key) {
        assert(rows[rows.len() - 1].hunk_key() == Some(key));
    } else {
        let j = choose|j: int| 0 <= j < keys.len() && keys[j] == key;
        assert(before[j] == key);
        lemma_row_of_hunk(rest, key);
        let i = choose|i: int| 0 <= i < rest.len() && (#[trigger] rest[i]).hunk_key() == Some(key);
        assert(rows[i].hunk_key() == Some(key));
    }
}

proof fn lemma_without_repeats(keys: Seq<(usize, usize)>)
    ensures
        keys.len() > 0 ==> coloring::without_repeats(keys).len() > 0
            && coloring::without_repeats(keys).last() == keys.last(),
        forall|key: (usize, usize)|
            coloring::without_repeats(keys).contains(key) <==> keys.contains(key),
    decreases keys.len(),
{
    if keys.len() > 0 {
        let rest = keys.drop_last();
        let before = coloring::without_repeats(rest);
        let after = coloring::without_repeats(keys);
        lemma_without_repeats(rest);
        assert forall|key: (usize, usize)| after.contains(key) <==> keys.contains(key) by {
            if keys.contains(key) {
                let i = choose|i: int| 0 <= i < keys.len() && keys[i] == key;
                if i < rest.len() {
                    assert(rest[i] == key);
                    assert(rest.contains(key));
                    assert(before.contains(key));
                    let j = choose|j: int| 0 <= j < before.len() && before[j] == key;
                    assert(after[j] == key);
                } else {
                    assert(after[after.len() - 1] == key);
                }
            }
            if after.contains(key) {
                let j = choose|j: int| 0 <= j < after.len() && after[j] == key;
                if j < before.len() {
                    assert(before[j] == key);
                    assert(rest.contains(key));
                    let i = choose|i: int| 0 <= i < rest.len() && rest[i] == key;
                    assert(keys[i] == key);
                } else {
                    assert(keys[keys.len() - 1] == key);
                }
            }
        }
    }
}

/// The window holds every hunk with a row on the screen, and with a row that scrolling by one
/// screen in either direction brings there.
pub proof fn law_window_reaches_one_screen(
    rows: Seq<AnnotatedLine>,
    scroll_offset: int,
    max_rows: int,
    i: int,
)
    requires
        0 <= scroll_offset,
        0 <= i < rows.len(),
        rows[i].hunk_key() is Some,
        ({
            let first = coloring::first_row(rows.len() as int, scroll_offset);
            let height = coloring::viewport_height(max_rows);
            first - height <= i < first + 2 * height
        }),
    ensures
        coloring::visible_hunks(rows, scroll_offset, max_rows).contains(rows[i].hunk_key()->0),
{
    let start = coloring::window_start(rows.len() as int, scroll_offset, max_rows);
    let end = coloring::window_end(rows.len() as int, scroll_offset, max_rows);
    let shown = rows.subrange(start, end);
    assert(shown[i - start] == rows[i]);
    lemma_row_hunks_of_row(shown, i - start);
    lemma_without_repeats(coloring::row_hunks(shown));
}

/// The window holds no hunk without a row in it.
pub proof fn law_window_holds_nearby_hunks_only(
    rows: Seq<AnnotatedLine>,
    scroll_offset: int,
    max_rows: int,
    key: (usize, usize),
)
    requires
        0 <= scroll_offset,
        coloring::visible_hunks(rows, scroll_offset, max_rows).contains(key),
    ensures
        exists|i: int|
            coloring::window_start(rows.len() as int, scroll_offset, max_rows) <= i
                < coloring::window_end(rows.len() as int, scroll_offset, max_rows)
                && (#[trigger] rows[i]).hunk_key() == Some(key),
{
    let start = coloring::window_start(rows.len() as int, scroll_offset, max_rows);
    let end = coloring::window_end(rows.len() as int, scroll_offset, max_rows);
    let shown = rows.subrange(start, end);
    lemma_without_repeats(coloring::row_hunks(shown));
    lemma_row_of_hunk(shown, key);
    let i = choose|i: int| 0 <= i < shown.len() && (#[trigger] shown[i]).hunk_key() == Some(key);
    assert(rows[start + i].hunk_key() == Some(key));
}

/// Whether equal elements stand next to each other.
pub open spec fn in_runs(keys: Seq<(usize, usize)>) -> bool {
    forall|i: int, j: int, k: int|
        0 <= i <= j <= k < keys.len() && #[trigger] keys[i] == #[trigger] keys[k]
            ==> #[trigger] keys[j] == keys[i]
}

proof fn lemma_runs_without_repeats(keys: Seq<(usize, usize)>)
    requires
        in_runs(keys),
    ensures
        coloring::without_repeats(keys).no_duplicates(),
    decreases keys.len(),
{
    if keys.len() > 0 {
        let rest = keys.drop_last();
        let before = coloring::without_repeats(rest);
        assert(in_runs(rest)) by {
            assert forall|i: int, j: int, k: int|
                0 <= i <= j <= k < rest.len() && #[trigger] rest[i] == #[trigger] rest[k] implies #[trigger] rest[j]
                == rest[i] by {
                assert(keys[i] == keys[k]);
                assert(keys[j] == keys[i]);
            }
        }
        lemma_runs_without_repeats(rest);
        lemma_without_repeats(rest);
        if before.contains(keys.last()) {
            assert(rest.contains(keys.last()));
            let i = choose|i: int| 0 <= i < rest.len() && rest[i] == keys.last();
            assert(keys[i] == keys[keys.len() - 1]);
            assert(keys[keys.len() - 2] == keys[i]);
            assert(rest.last() == keys.last());
        }
    }
}

proof fn lemma_row_hunks_concat(rows: Seq<AnnotatedLine>, more: Seq<AnnotatedLine>)
    ensures
        coloring::row_hunks(rows + more) == coloring::row_hunks(rows) + coloring::row_hunks(more),
    decreases more.len(),
{
    let all = rows + more;
    if more.len() == 0 {
        assert(all == rows);
        assert(coloring::row_hunks(rows) + coloring::row_hunks(more) == coloring::row_hunks(rows));
    } else {
        assert(all.drop_last() == rows + more.drop_last());
        lemma_row_hunks_concat(rows, more.drop_last());
        assert(all.last() == more.last());
        if let Some(key) = more.last().hunk_key() {
            assert((coloring::row_hunks(rows) + coloring::row_hunks(more.drop_last())).push(key)
                == coloring::row_hunks(rows) + coloring::row_hunks(more.drop_last()).push(key));
        }
    }
}

/// The window lists no hunk twice, as long as the rows of a hunk form one run once the rows
/// outside hunks are left out.
pub proof fn law_window_lists_hunks_once(
    rows: Seq<AnnotatedLine>,
    scroll_offset: int,
    max_rows: int,
)
    requires
        0 <= scroll_offset,
        in_runs(coloring::row_hunks(rows)),
    ensures
        coloring::visible_hunks(rows, scroll_offset, max_rows).no_duplicates(),
{
    let total = rows.len() as int;
    let start = coloring::window_start(total, scroll_offset, max_rows);
    let end = coloring::window_end(total, scroll_offset, max_rows);
    let above = rows.take(start);
    let shown = rows.subrange(start, end);
    let below = rows.skip(end);
    lemma_row_hunks_concat(above, shown);
    lemma_row_hunks_concat(above + shown, below);
    assert(rows == (above + shown) + below);
    let keys = coloring::row_hunks(rows);
    let part = coloring::row_hunks(shown);
    let n = coloring::row_hunks(above).len() as int;
    assert(in_runs(part)) by {
        assert forall|i: int, j: int, k: int|
            0 <= i <= j <= k < part.len() && #[trigger] part[i] == #[trigger] part[k] implies #[trigger] part[j]
            == part[i] by {
            assert(keys[n + i] == part[i]);
            assert(keys[n + j] == part[j]);
            assert(keys[n + k] == part[k]);
        }
    }
    lemma_runs_without_repeats(part);
}

/// Once the hunks of a window have been visited, a second pass over it visits none.
pub proof fn law_second_pass_visits_nothing(
    files: Seq<FileView>,
    seen: Set<(usize, usize)>,
    keys: Seq<(usize, usize)>,
)
    ensures
        coloring::fresh_hunks(seen.union(keys.to_set()), keys) == Seq::<(usize, usize)>::empty(),
        coloring::visits(files, coloring::fresh_hunks(seen.union(keys.to_set()), keys)) == 0,
{
    assert forall|i: int| 0 <= i < keys.len() implies seen.union(keys.to_set()).contains(
        #[trigger] keys[i],
    ) by {
        assert(keys.contains(keys[i]));
    }
    lemma_nothing_fresh(seen.union(keys.to_set()), keys);
}

proof fn lemma_nothing_fresh(seen: Set<(usize, usize)>, keys: Seq<(usize, usize)>)
    requires
        forall|i: int| 0 <= i < keys.len() ==> seen.contains(#[trigger] keys[i]),
    ensures
        coloring::fresh_hunks(seen, keys) == Seq::<(usize, usize)>::empty(),
    decreases keys.len(),
{
    if keys.len() > 0 {
        let rest = keys.drop_last();
        assert forall|i: int| 0 <= i < rest.len() implies seen.contains(#[trigger] rest[i]) by {
            assert(rest[i] == keys[i]);
        }
        lemma_nothing_fresh(seen, rest);
        assert(seen.contains(keys[keys.len() - 1]));
    }
}

/// A hunk of a file with a path has no pending line once it was visited, and every line that was
/// coloured before is left as it was.
pub proof fn law_visited_hunk_is_settled<
    G: Fn(&str, &Vec<String>) -> Option<HighlightedLines>,
>(
    highlighter: SyntaxHighlighter<G>,
    file: FileView,
    before: HunkView,
    after: HunkView,
)
    requires
        model::shown_path(file.old_path, file.new_path) is Some,
        coloring::is_visited(highlighter, file, before, after),
    ensures
        coloring::is_settled(after),
        after.lines.len() == before.lines.len(),
        forall|k: int|
            0 <= k < before.lines.len() && !((#[trigger] before.lines[k]).coloring is Pending)
                ==> after.lines[k] == before.lines[k],
{
    if !coloring::is_settled(before) {
        let path = model::shown_path(file.old_path, file.new_path)->0;
        let (old, new) = choose|old: Option<HighlightedLines>, new: Option<HighlightedLines>|
            #[trigger] syntax::sides_given(highlighter.grammar, path, before.lines, old, new)
                && after == syntax::completed_hunk(
                before,
                syntax::optional_highlight(old),
                syntax::optional_highlight(new),
                highlighter.backgrounds,
            );
        syntax::law_completed_hunk_is_settled(
            before,
            syntax::optional_highlight(old),
            syntax::optional_highlight(new),
            highlighter.backgrounds,
        );
    }
}

/// Whether every file has a path to be coloured under.
pub open spec fn all_have_paths(files: Seq<FileView>) -> bool {
    forall|f: int|
        0 <= f < files.len() ==> model::shown_path(
            (#[trigger] files[f]).old_path,
            files[f].new_path,
        ) is Some
}

/// Whether no line of the hunk at a place waits to be coloured; where there is no hunk, none does.
pub open spec fn settled_at(files: Seq<FileView>, key: (usize, usize)) -> bool {
    key.0 < files.len() && key.1 < files[key.0 as int].hunks.len() ==> coloring::is_settled(
        files[key.0 as int].hunks[key.1 as int],
    )
}

/// Whether every hunk that counts as visited is settled: what holds between two frames.
pub open spec fn visited_are_settled(files: Seq<FileView>, seen: Set<(usize, usize)>) -> bool {
    forall|key: (usize, usize)| #[trigger] seen.contains(key) ==> settled_at(files, key)
}

/// From frame to frame: where every hunk that counts as visited is settled, a pass over the
/// window settles every hunk with a row in it, and again every hunk that counts as visited is
/// settled. So no frame shows a pending line, the first one included. Files have a path; a hunk
/// of a file without one stays as it is.
pub proof fn law_frames_show_settled_hunks<
    G: Fn(&str, &Vec<String>) -> Option<HighlightedLines>,
>(
    highlighter: SyntaxHighlighter<G>,
    rows: Seq<AnnotatedLine>,
    scroll_offset: int,
    max_rows: int,
    seen: Set<(usize, usize)>,
    before: Seq<FileView>,
    after: Seq<FileView>,
)
    requires
        0 <= scroll_offset,
        all_have_paths(before),
        visited_are_settled(before, seen),
        coloring::all_visited(
            highlighter,
            coloring::fresh_hunks(seen, coloring::visible_hunks(rows, scroll_offset, max_rows)),
            before,
            after,
        ),
    ensures
        ({
            let visible = coloring::visible_hunks(rows, scroll_offset, max_rows);
            &&& visited_are_settled(after, seen.union(visible.to_set()))
            &&& all_have_paths(after)
        }),
        forall|i: int|
            coloring::window_start(rows.len() as int, scroll_offset, max_rows) <= i
                < coloring::window_end(rows.len() as int, scroll_offset, max_rows) && (
            #[trigger] rows[i]).hunk_key() is Some ==> settled_at(after, rows[i].hunk_key()->0),
{
    let visible = coloring::visible_hunks(rows, scroll_offset, max_rows);
    let fresh = coloring::fresh_hunks(seen, visible);
    coloring::lemma_fresh_hunks(seen, visible);
    assert(all_have_paths(after)) by {
        assert forall|f: int| 0 <= f < after.len() implies model::shown_path(
            (#[trigger] after[f]).old_path,
            after[f].new_path,
        ) is Some by {
            assert(coloring::same_but_hunks(before[f], after[f]));
            assert(model::shown_path(before[f].old_path, before[f].new_path) is Some);
        }
    }
    assert forall|key: (usize, usize)| #[trigger]
        seen.union(visible.to_set()).contains(key) implies settled_at(after, key) by {
        let f = key.0 as int;
        let h = key.1 as int;
        if f < after.len() && h < after[f].hunks.len() {
            assert(coloring::same_but_hunks(before[f], after[f]));
            assert(model::shown_path(before[f].old_path, before[f].new_path) is Some);
            let reached = after[f].hunks[h];
            if fresh.contains(key) {
                let m = choose|m: int| 0 <= m < fresh.len() && fresh[m] == key;
                assert(fresh[m].0 == f && fresh[m].1 == h);
                assert(coloring::names_hunk(fresh, f, h));
                law_visited_hunk_is_settled(highlighter, before[f], before[f].hunks[h], reached);
            } else {
                assert(seen.contains(key)) by {
                    if visible.to_set().contains(key) {
                        assert(visible.contains(key));
                    }
                }
                assert(settled_at(before, key));
                assert(!coloring::names_hunk(fresh, f, h)) by {
                    if coloring::names_hunk(fresh, f, h) {
                        let m = choose|m: int|
                            0 <= m < fresh.len() && (#[trigger] fresh[m]).0 == f && fresh[m].1 == h;
                        assert(fresh[m] == key);
                        assert(fresh.contains(key));
                    }
                }
            }
        }
    }
    assert forall|i: int|
        coloring::window_start(rows.len() as int, scroll_offset, max_rows) <= i
            < coloring::window_end(rows.len() as int, scroll_offset, max_rows) && (
        #[trigger] rows[i]).hunk_key() is Some implies settled_at(after, rows[i].hunk_key()->0) by {
        law_window_reaches_one_screen(rows, scroll_offset, max_rows, i);
        let key = rows[i].hunk_key()->0;
        assert(visible.to_set().contains(key));
        assert(seen.union(visible.to_set()).contains(key));
    }
}

/// Where drawing moves the viewport, colouring the scrolled view leaves no pending line in or
/// around the place that it was moved to; where it stays, the pass before drawing has done so.
pub proof fn law_scrolled_view_is_settled<
    G: Fn(&str, &Vec<String>) -> Option<HighlightedLines>,
>(
    highlighter: SyntaxHighlighter<G>,
    max_rows: usize,
    start: App,
    drawn: App,
    moved: App,
    end: App,
)
    requires
        all_have_paths(text::views(start.diff_files@)),
        visited_are_settled(text::views(start.diff_files@), start.colored_hunks@),
        coloring::is_window_colored(highlighter, max_rows, start, drawn),
        moved == (App { diff_state: moved.diff_state, ..drawn }),
        if moved.diff_state.scroll_offset != drawn.diff_state.scroll_offset {
            coloring::is_window_colored(highlighter, max_rows, moved, end)
        } else {
            end == moved
        },
    ensures
        ({
            let rows = end.line_annotations@;
            let offset = end.diff_state.scroll_offset as int;
            &&& end.diff_state.scroll_offset == moved.diff_state.scroll_offset
            &&& visited_are_settled(text::views(end.diff_files@), end.colored_hunks@)
            &&& forall|i: int|
                coloring::window_start(rows.len() as int, offset, max_rows as int) <= i
                    < coloring::window_end(rows.len() as int, offset, max_rows as int) && (
                #[trigger] rows[i]).hunk_key() is Some ==> settled_at(
                    text::views(end.diff_files@),
                    rows[i].hunk_key()->0,
                )
        }),
{
    law_frames_show_settled_hunks(
        highlighter,
        start.line_annotations@,
        start.diff_state.scroll_offset as int,
        max_rows as int,
        start.colored_hunks@,
        text::views(start.diff_files@),
        text::views(drawn.diff_files@),
    );
    if moved.diff_state.scroll_offset != drawn.diff_state.scroll_offset {
        law_frames_show_settled_hunks(
            highlighter,
            moved.line_annotations@,
            moved.diff_state.scroll_offset as int,
            max_rows as int,
            moved.colored_hunks@,
            text::views(moved.diff_files@),
            text::views(end.diff_files@),
        );
    }
}

} // verus!
