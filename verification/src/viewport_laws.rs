//! What is coloured before a frame is drawn: the hunks with a row on the screen or one screen above
//! or below it.

use vstd::prelude::*;
use crate::coloring;
use crate::coloring::{AnnotatedLine, App};
use crate::coloring_laws;
use crate::model;
use crate::model::{FileView, SpanView};
use crate::syntax::{HighlightedLines, SyntaxHighlighter};
use crate::syntax_laws;
use crate::text;

verus! {

/// Whether a row shows hunk `h` of file `f`: its header or one of its lines, in one column or side
/// by side.
pub open spec fn is_row_of(row: AnnotatedLine, f: usize, h: usize) -> bool {
    ||| row == AnnotatedLine::DiffLine { file_idx: f, hunk_idx: h }
    ||| row == AnnotatedLine::SideBySideLine { file_idx: f, hunk_idx: h }
    ||| row == AnnotatedLine::HunkHeader { file_idx: f, hunk_idx: h }
}

/// Whether row `i` of `total` is on a screen of `max_rows` rows that begins at `scroll_offset`, or
/// one screen above or below it. A screen has one row at least, and begins no later than after the
/// last row.
pub open spec fn is_near_screen(total: int, scroll_offset: int, max_rows: int, i: int) -> bool {
    let height = if max_rows >= 1 {
        max_rows
    } else {
        1
    };
    let first = if scroll_offset <= total {
        scroll_offset
    } else {
        total
    };
    0 <= i < total && first - height <= i < first + height + height
}

/// Whether hunk `h` of file `f` has a row on the screen or near it.
pub open spec fn has_row_near(
    rows: Seq<AnnotatedLine>,
    scroll_offset: int,
    max_rows: int,
    f: usize,
    h: usize,
) -> bool {
    exists|i: int|
        is_near_screen(rows.len() as int, scroll_offset, max_rows, i) && is_row_of(
            #[trigger] rows[i],
            f,
            h,
        )
}

/// A row belongs to a hunk exactly where it shows its header or one of its lines.
pub proof fn law_rows_belong_to_the_hunks_they_show(row: AnnotatedLine, f: usize, h: usize)
    ensures
        (row.hunk_key() == Some((f, h))) == is_row_of(row, f, h),
{
}

/// The window lists a hunk exactly where the hunk has a row on the screen, or one screen above or
/// below it.
pub proof fn law_window_lists_the_hunks_near_the_screen(
    rows: Seq<AnnotatedLine>,
    scroll_offset: int,
    max_rows: int,
    f: usize,
    h: usize,
)
    requires
        0 <= scroll_offset,
    ensures
        coloring::visible_hunks(rows, scroll_offset, max_rows).contains((f, h)) == has_row_near(
            rows,
            scroll_offset,
            max_rows,
            f,
            h,
        ),
{
    let total = rows.len() as int;
    if has_row_near(rows, scroll_offset, max_rows, f, h) {
        let i = choose|i: int|
            is_near_screen(total, scroll_offset, max_rows, i) && is_row_of(
                #[trigger] rows[i],
                f,
                h,
            );
        law_rows_belong_to_the_hunks_they_show(rows[i], f, h);
        coloring_laws::law_window_reaches_one_screen(rows, scroll_offset, max_rows, i);
    }
    if coloring::visible_hunks(rows, scroll_offset, max_rows).contains((f, h)) {
        coloring_laws::law_window_holds_nearby_hunks_only(rows, scroll_offset, max_rows, (f, h));
        let i = choose|i: int|
            coloring::window_start(total, scroll_offset, max_rows) <= i < coloring::window_end(
                total,
                scroll_offset,
                max_rows,
            ) && (#[trigger] rows[i]).hunk_key() == Some((f, h));
        law_rows_belong_to_the_hunks_they_show(rows[i], f, h);
        assert(is_near_screen(total, scroll_offset, max_rows, i));
    }
}

/// Whether `places` are rows near the screen, from the top down, and `keys` are the hunks that they
/// show.
pub open spec fn are_shown_from_the_top(
    rows: Seq<AnnotatedLine>,
    scroll_offset: int,
    max_rows: int,
    keys: Seq<(usize, usize)>,
    places: Seq<int>,
) -> bool {
    &&& places.len() == keys.len()
    &&& forall|j: int|
        0 <= j < keys.len() ==> is_near_screen(
            rows.len() as int,
            scroll_offset,
            max_rows,
            #[trigger] places[j],
        ) && is_row_of(rows[places[j]], keys[j].0, keys[j].1)
    &&& forall|j: int, k: int| 0 <= j < k < keys.len() ==> #[trigger] places[j] < #[trigger] places[k]
}

proof fn lemma_places(rows: Seq<AnnotatedLine>) -> (places: Seq<int>)
    ensures
        ({
            let keys = coloring::without_repeats(coloring::row_hunks(rows));
            &&& places.len() == keys.len()
            &&& forall|j: int|
                0 <= j < keys.len() ==> 0 <= #[trigger] places[j] < rows.len()
                    && rows[places[j]].hunk_key() == Some(keys[j])
            &&& forall|j: int, k: int|
                0 <= j < k < keys.len() ==> #[trigger] places[j] < #[trigger] places[k]
            &&& forall|j: int| 0 < j < keys.len() ==> keys[j - 1] != #[trigger] keys[j]
        }),
    decreases rows.len(),
{
    if rows.len() == 0 {
        Seq::empty()
    } else {
        let rest = rows.drop_last();
        let before = lemma_places(rest);
        let old_keys = coloring::without_repeats(coloring::row_hunks(rest));
        let keys = coloring::without_repeats(coloring::row_hunks(rows));
        match rows.last().hunk_key() {
            Some(key) => {
                let all = coloring::row_hunks(rest).push(key);
                assert(coloring::row_hunks(rows) == all);
                assert(all.drop_last() =~= coloring::row_hunks(rest));
                if old_keys.len() > 0 && old_keys.last() == key {
                    assert(keys == old_keys);
                    before
                } else {
                    let places = before.push(rows.len() - 1);
                    assert(keys == old_keys.push(key));
                    assert forall|j: int| 0 <= j < keys.len() implies 0 <= #[trigger] places[j]
                        < rows.len() && rows[places[j]].hunk_key() == Some(keys[j]) by {
                        if j < old_keys.len() {
                            assert(places[j] == before[j]);
                            assert(rows[before[j]] == rest[before[j]]);
                        }
                    }
                    assert forall|j: int, k: int| 0 <= j < k < keys.len() implies #[trigger] places[j]
                        < #[trigger] places[k] by {
                        assert(places[j] == before[j]);
                        if k < old_keys.len() {
                            assert(places[k] == before[k]);
                        }
                    }
                    assert forall|j: int| 0 < j < keys.len() implies keys[j - 1]
                        != #[trigger] keys[j] by {
                        if j < old_keys.len() {
                            assert(keys[j] == old_keys[j]);
                            assert(keys[j - 1] == old_keys[j - 1]);
                        } else {
                            assert(keys[j - 1] == old_keys.last());
                        }
                    }
                    places
                }
            },
            None => before,
        }
    }
}

/// The window lists hunks in the order of their rows, and none right after itself.
pub proof fn law_window_keeps_the_order_of_rows(
    rows: Seq<AnnotatedLine>,
    scroll_offset: int,
    max_rows: int,
)
    requires
        0 <= scroll_offset,
    ensures
        ({
            let keys = coloring::visible_hunks(rows, scroll_offset, max_rows);
            &&& exists|places: Seq<int>| #[trigger]
                are_shown_from_the_top(rows, scroll_offset, max_rows, keys, places)
            &&& forall|j: int| 0 < j < keys.len() ==> keys[j - 1] != #[trigger] keys[j]
        }),
{
    let total = rows.len() as int;
    let start = coloring::window_start(total, scroll_offset, max_rows);
    let end = coloring::window_end(total, scroll_offset, max_rows);
    let shown = rows.subrange(start, end);
    let keys = coloring::visible_hunks(rows, scroll_offset, max_rows);
    let inner = lemma_places(shown);
    let places = Seq::new(inner.len(), |j: int| start + inner[j]);
    assert forall|j: int| 0 <= j < keys.len() implies is_near_screen(
        total,
        scroll_offset,
        max_rows,
        #[trigger] places[j],
    ) && is_row_of(rows[places[j]], keys[j].0, keys[j].1) by {
        assert(0 <= inner[j] < shown.len());
        assert(rows[places[j]] == shown[inner[j]]);
        law_rows_belong_to_the_hunks_they_show(rows[places[j]], keys[j].0, keys[j].1);
    }
    assert forall|j: int, k: int| 0 <= j < k < keys.len() implies #[trigger] places[j]
        < #[trigger] places[k] by {
        assert(inner[j] < inner[k]);
    }
    assert(are_shown_from_the_top(rows, scroll_offset, max_rows, keys, places));
}

/// Whether hunk `h` of file `f` is there and has a path to be coloured under.
pub open spec fn is_there(files: Seq<FileView>, f: usize, h: usize) -> bool {
    &&& f < files.len()
    &&& h < files[f as int].hunks.len()
    &&& files[f as int].new_path is Some || files[f as int].old_path is Some
}

/// Whether hunk `h` of file `f` is due before a frame is drawn: it has a row near the screen, it was
/// not visited since the rows were built, and it is there.
pub open spec fn is_due(before: App, max_rows: usize, f: usize, h: usize) -> bool {
    &&& has_row_near(
        before.line_annotations@,
        before.diff_state.scroll_offset as int,
        max_rows as int,
        f,
        h,
    )
    &&& !before.colored_hunks.keys@.contains((f, h))
    &&& is_there(text::views(before.diff_files@), f, h)
}

/// The path that a file is coloured under.
pub open spec fn coloring_path(file: FileView) -> Seq<char> {
    match file.new_path {
        Some(path) => path,
        None => file.old_path->0,
    }
}

/// A pass before a frame finishes the hunks that are due and touches no other: every line of them
/// that nothing had coloured wears its spans. It remembers the hunks near the screen, with those it
/// remembered before, and leaves the rows and the view where they are.
pub proof fn law_pass_finishes_the_hunks_that_are_due<
    G: Fn(&str, &Vec<String>) -> Option<HighlightedLines>,
>(
    highlighter: SyntaxHighlighter<G>,
    spans_of: spec_fn(Seq<char>, Seq<Seq<char>>) -> Option<Seq<Option<Seq<SpanView>>>>,
    max_rows: usize,
    before: App,
    after: App,
    f: usize,
    h: usize,
)
    requires
        syntax_laws::grammar_tells(highlighter.grammar, spans_of),
        coloring::is_window_colored(highlighter, max_rows, before, after),
    ensures
        after.line_annotations == before.line_annotations,
        after.diff_state == before.diff_state,
        after.diff_files@.len() == before.diff_files@.len(),
        after.colored_hunks.keys@.contains((f, h)) == (before.colored_hunks.keys@.contains((f, h))
            || has_row_near(
            before.line_annotations@,
            before.diff_state.scroll_offset as int,
            max_rows as int,
            f,
            h,
        )),
        f < before.diff_files@.len() ==> {
            let old = before.diff_files@[f as int]@;
            let new = after.diff_files@[f as int]@;
            &&& new == (FileView { hunks: new.hunks, ..old })
            &&& new.hunks.len() == old.hunks.len()
            &&& h < old.hunks.len() ==> if is_due(before, max_rows, f, h) {
                syntax_laws::is_finished(
                    spans_of,
                    highlighter.backgrounds,
                    coloring_path(old),
                    old.hunks[h as int],
                    new.hunks[h as int],
                )
            } else {
                new.hunks[h as int] == old.hunks[h as int]
            }
        },
{
    let rows = before.line_annotations@;
    let offset = before.diff_state.scroll_offset as int;
    let key = (f, h);
    let window = before.window(max_rows);
    let seen = before.colored_hunks@;
    let fresh = coloring::fresh_hunks(seen, window);
    let old_files = text::views(before.diff_files@);
    let new_files = text::views(after.diff_files@);
    law_window_lists_the_hunks_near_the_screen(rows, offset, max_rows as int, f, h);
    coloring::lemma_fresh_hunks(seen, window);
    assert(seen.contains(key) == before.colored_hunks.keys@.contains(key));
    assert(after.colored_hunks@.contains(key) == after.colored_hunks.keys@.contains(key));
    assert(window.to_set().contains(key) == window.contains(key));
    assert(after.colored_hunks@.contains(key) == (seen.contains(key) || window.contains(key)));
    if f < before.diff_files@.len() {
        let old = old_files[f as int];
        let new = new_files[f as int];
        assert(old == before.diff_files@[f as int]@);
        assert(new == after.diff_files@[f as int]@);
        assert(coloring::same_but_hunks(old, new));
        if h < old.hunks.len() {
            let reached = new.hunks[h as int];
            assert(coloring::names_hunk(fresh, f as int, h as int) == fresh.contains(key)) by {
                if fresh.contains(key) {
                    let m = choose|m: int| 0 <= m < fresh.len() && fresh[m] == key;
                    assert(fresh[m].0 == f && fresh[m].1 == h);
                }
                if coloring::names_hunk(fresh, f as int, h as int) {
                    let m = choose|m: int|
                        0 <= m < fresh.len() && (#[trigger] fresh[m]).0 == f as int && fresh[m].1
                            == h as int;
                    assert(fresh[m] == key);
                }
            }
            if fresh.contains(key) {
                assert(coloring::is_visited(highlighter, old, old.hunks[h as int], reached));
                if is_due(before, max_rows, f, h) {
                    let path = coloring_path(old);
                    assert(model::shown_path(old.old_path, old.new_path) == Some(path));
                    if !coloring::is_settled(old.hunks[h as int]) {
                        syntax_laws::law_completed_hunks_are_finished(
                            highlighter,
                            spans_of,
                            path,
                            old.hunks[h as int],
                            reached,
                        );
                    } else {
                        assert(reached == old.hunks[h as int]);
                        let lines = old.hunks[h as int].lines;
                        assert forall|k: int| 0 <= k < lines.len() implies !(
                        #[trigger] reached.lines[k].coloring is Pending) by {
                            assert(!(lines[k].coloring is Pending));
                        }
                    }
                }
            }
        }
    }
}

/// Whether `keys` are the hunks that are due, each once.
pub open spec fn are_due(before: App, max_rows: usize, keys: Seq<(usize, usize)>) -> bool {
    &&& keys.no_duplicates()
    &&& forall|f: usize, h: usize| #[trigger]
        keys.contains((f, h)) <==> is_due(before, max_rows, f, h)
}

proof fn lemma_counted(files: Seq<FileView>, keys: Seq<(usize, usize)>) -> (counted: Seq<
    (usize, usize),
>)
    requires
        keys.no_duplicates(),
    ensures
        counted.no_duplicates(),
        counted.len() == coloring::visits(files, keys),
        forall|key: (usize, usize)| #[trigger]
            counted.contains(key) <==> keys.contains(key) && coloring::can_visit(files, key),
    decreases keys.len(),
{
    if keys.len() == 0 {
        Seq::empty()
    } else {
        let rest = keys.drop_last();
        let last = keys.last();
        let before = lemma_counted(files, rest);
        assert(!rest.contains(last)) by {
            if rest.contains(last) {
                let i = choose|i: int| 0 <= i < rest.len() && rest[i] == last;
                assert(keys[i] == keys[keys.len() - 1]);
            }
        }
        let counted = if coloring::can_visit(files, last) {
            before.push(last)
        } else {
            before
        };
        assert forall|key: (usize, usize)| #[trigger] counted.contains(key) <==> keys.contains(key)
            && coloring::can_visit(files, key) by {
            assert(keys.contains(key) <==> rest.contains(key) || key == last) by {
                if keys.contains(key) && key != last {
                    let i = choose|i: int| 0 <= i < keys.len() && keys[i] == key;
                    assert(rest[i] == key);
                }
                if rest.contains(key) {
                    let i = choose|i: int| 0 <= i < rest.len() && rest[i] == key;
                    assert(keys[i] == key);
                }
                assert(keys[keys.len() - 1] == last);
            }
            if coloring::can_visit(files, last) {
                assert(counted[before.len() as int] == last);
                if before.contains(key) {
                    let i = choose|i: int| 0 <= i < before.len() && before[i] == key;
                    assert(counted[i] == key);
                }
                if counted.contains(key) && key != last {
                    let i = choose|i: int| 0 <= i < counted.len() && counted[i] == key;
                    assert(before[i] == key);
                }
            }
        }
        assert(!before.contains(last));
        counted
    }
}

/// A pass reports how many hunks were due.
pub proof fn law_pass_counts_the_hunks_that_are_due(before: App, max_rows: usize)
    ensures
        exists|keys: Seq<(usize, usize)>| #[trigger]
            are_due(before, max_rows, keys) && keys.len() == coloring::visits(
                text::views(before.diff_files@),
                coloring::fresh_hunks(before.colored_hunks@, before.window(max_rows)),
            ),
{
    let files = text::views(before.diff_files@);
    let window = before.window(max_rows);
    let seen = before.colored_hunks@;
    let fresh = coloring::fresh_hunks(seen, window);
    coloring::lemma_fresh_hunks(seen, window);
    let keys = lemma_counted(files, fresh);
    assert forall|f: usize, h: usize| #[trigger] keys.contains((f, h)) <==> is_due(
        before,
        max_rows,
        f,
        h,
    ) by {
        law_window_lists_the_hunks_near_the_screen(
            before.line_annotations@,
            before.diff_state.scroll_offset as int,
            max_rows as int,
            f,
            h,
        );
        assert(seen.contains((f, h)) == before.colored_hunks.keys@.contains((f, h)));
        assert(fresh.contains((f, h)) == (window.contains((f, h)) && !seen.contains((f, h))));
        assert(coloring::can_visit(files, (f, h)) == is_there(files, f, h));
    }
    assert(are_due(before, max_rows, keys));
}

} // verus!
