//! What a line wears once it is coloured: the spans of its own place on its own side.

use vstd::prelude::*;
use crate::model;
use crate::model::{
    ColoringView,
    DiffFile,
    DiffHunk,
    DiffLine,
    FileView,
    HunkView,
    LineColoring,
    LineOrigin,
    LineSide,
    LineView,
    Span,
    SpanView,
};
use crate::syntax;
use crate::syntax::{DiffBackgrounds, HighlightedLines, SyntaxHighlighter};
use crate::text;

verus! {

/// Views show every field of a line, a hunk and a file.
pub proof fn law_views_show_every_field(span: Span, line: DiffLine, hunk: DiffHunk, file: DiffFile)
    ensures
        span@.style == span.style && span@.text == span.text@,
        line@.origin == line.origin && line@.content == line.content@ && line@.old_lineno
            == line.old_lineno && line@.new_lineno == line.new_lineno,
        match line.coloring {
            LineColoring::Pending => line@.coloring is Pending,
            LineColoring::Plain => line@.coloring is Plain,
            LineColoring::Spans(spans) => line@.coloring matches ColoringView::Spans(shown)
                && shown.len() == spans@.len() && forall|i: int|
                0 <= i < shown.len() ==> #[trigger] shown[i] == spans@[i]@,
        },
        hunk@.header == hunk.header@ && hunk@.old_start == hunk.old_start && hunk@.old_count
            == hunk.old_count && hunk@.new_start == hunk.new_start && hunk@.new_count
            == hunk.new_count && hunk@.lines.len() == hunk.lines@.len(),
        forall|k: int| 0 <= k < hunk.lines@.len() ==> #[trigger] hunk@.lines[k] == hunk.lines@[k]@,
        (match file.old_path {
            Some(path) => file@.old_path == Some(path@),
            None => file@.old_path is None,
        }) && (match file.new_path {
            Some(path) => file@.new_path == Some(path@),
            None => file@.new_path is None,
        }),
        file@.status == file.status && file@.is_binary == file.is_binary && file@.is_too_large
            == file.is_too_large && file@.is_commit_message == file.is_commit_message
            && file@.content_hash == file.content_hash && file@.hunks.len() == file.hunks@.len(),
        forall|h: int| 0 <= h < file.hunks@.len() ==> #[trigger] file@.hunks[h] == file.hunks@[h]@,
{
}

/// A change is shown under its new path, and under its old one where there is no new one.
pub proof fn law_new_paths_come_first(old_path: Option<Seq<char>>, path: Seq<char>)
    ensures
        model::shown_path(old_path, Some(path)) == Some(path),
        model::shown_path(old_path, None) == old_path,
{
}

/// What a grammar gave, as sequences.
pub open spec fn spans_shown(out: Option<HighlightedLines>) -> Option<Seq<Option<Seq<SpanView>>>> {
    match out {
        Some(lines) => Some(
            Seq::new(
                lines@.len(),
                |j: int|
                    match lines@[j] {
                        Some(spans) => Some(
                            Seq::new(
                                spans@.len(),
                                |i: int|
                                    SpanView { style: spans@[i].style, text: spans@[i].text@ },
                            ),
                        ),
                        None => None,
                    },
            ),
        ),
        None => None,
    }
}

/// Whether a grammar gives the spans that `spans_of` names, for every path and all lines.
pub open spec fn grammar_tells<G: Fn(&str, &Vec<String>) -> Option<HighlightedLines>>(
    grammar: G,
    spans_of: spec_fn(Seq<char>, Seq<Seq<char>>) -> Option<Seq<Option<Seq<SpanView>>>>,
) -> bool {
    forall|name: &str, given: &Vec<String>, out: Option<HighlightedLines>| #[trigger]
        grammar.ensures((name, given), out) ==> spans_shown(out) == spans_of(
            name@,
            Seq::new(given@.len(), |i: int| given@[i]@),
        )
}

pub proof fn lemma_spans_shown(out: Option<HighlightedLines>)
    ensures
        spans_shown(out) == syntax::optional_highlight(out),
{
    if let Some(lines) = out {
        let seen = spans_shown(out)->0;
        let view = syntax::highlight_view(lines);
        assert forall|j: int| 0 <= j < lines@.len() implies #[trigger] seen[j] == view[j] by {
            if let Some(spans) = lines@[j] {
                assert(seen[j]->0 =~= text::views(spans@));
            }
        }
        assert(seen =~= view);
    }
}

pub proof fn lemma_grammar_tells<G: Fn(&str, &Vec<String>) -> Option<HighlightedLines>>(
    grammar: G,
    spans_of: spec_fn(Seq<char>, Seq<Seq<char>>) -> Option<Seq<Option<Seq<SpanView>>>>,
    path: Seq<char>,
    lines: Seq<Seq<char>>,
    out: Option<HighlightedLines>,
)
    requires
        grammar_tells(grammar, spans_of),
        syntax::grammar_gives(grammar, path, lines, out),
    ensures
        syntax::optional_highlight(out) == spans_of(path, lines),
{
    let (name, given) = choose|name: &str, given: &Vec<String>|
        name@ == path && text::views(given@) == lines && #[trigger] grammar.ensures(
            (name, given),
            out,
        );
    assert(Seq::new(given@.len(), |i: int| given@[i]@) =~= text::views(given@));
    lemma_spans_shown(out);
}

/// Whether spans are shown with their text and their colour, on the background that marks a
/// deletion or an addition, and on their own where nothing changed.
pub open spec fn is_painted(
    given: Seq<SpanView>,
    shown: Seq<SpanView>,
    origin: LineOrigin,
    backgrounds: DiffBackgrounds,
) -> bool {
    &&& shown.len() == given.len()
    &&& forall|i: int|
        0 <= i < given.len() ==> (#[trigger] shown[i]).text == given[i].text && shown[i].style.fg
            == given[i].style.fg && shown[i].style.bg == (match origin {
            LineOrigin::Deletion => Some(backgrounds.deletion),
            LineOrigin::Addition => Some(backgrounds.addition),
            LineOrigin::Context => given[i].style.bg,
        })
}

/// Whether a line wears the spans that were found for it, or is plain where there are none.
pub open spec fn wears(
    coloring: ColoringView,
    found: Option<Seq<SpanView>>,
    origin: LineOrigin,
    backgrounds: DiffBackgrounds,
) -> bool {
    match found {
        Some(given) => coloring matches ColoringView::Spans(shown) && is_painted(
            given,
            shown,
            origin,
            backgrounds,
        ),
        None => coloring is Plain,
    }
}

/// Whether two lines differ in their colouring at most.
pub open spec fn is_same_line(before: LineView, after: LineView) -> bool {
    &&& after.origin == before.origin
    &&& after.content == before.content
    &&& after.old_lineno == before.old_lineno
    &&& after.new_lineno == before.new_lineno
}

/// Whether two hunks have the same header and ranges, and as many lines.
pub open spec fn is_same_frame(before: HunkView, after: HunkView) -> bool {
    &&& after.header == before.header
    &&& after.old_start == before.old_start
    &&& after.old_count == before.old_count
    &&& after.new_start == before.new_start
    &&& after.new_count == before.new_count
    &&& after.lines.len() == before.lines.len()
}

/// The texts of the lines that are not of the given origin, in order.
pub open spec fn texts_without(lines: Seq<LineView>, left_out: LineOrigin) -> Seq<Seq<char>>
    decreases lines.len(),
{
    if lines.len() == 0 {
        Seq::empty()
    } else {
        (if lines[0].origin == left_out {
            Seq::empty()
        } else {
            seq![lines[0].content]
        }) + texts_without(lines.drop_first(), left_out)
    }
}

proof fn lemma_texts_push(lines: Seq<LineView>, line: LineView, left_out: LineOrigin)
    ensures
        texts_without(lines.push(line), left_out) == texts_without(lines, left_out) + (if line.origin
            == left_out {
            Seq::empty()
        } else {
            seq![line.content]
        }),
    decreases lines.len(),
{
    let all = lines.push(line);
    if lines.len() == 0 {
        assert(all.drop_first() =~= Seq::<LineView>::empty());
        assert(texts_without(all.drop_first(), left_out).len() == 0);
        assert(all[0] == line);
        assert(texts_without(all, left_out) =~= texts_without(lines, left_out) + (if line.origin
            == left_out {
            Seq::empty()
        } else {
            seq![line.content]
        }));
    } else {
        assert(all.drop_first() =~= lines.drop_first().push(line));
        lemma_texts_push(lines.drop_first(), line, left_out);
        assert(all[0] == lines[0]);
        assert(texts_without(all, left_out) =~= texts_without(lines, left_out) + (if line.origin
            == left_out {
            Seq::empty()
        } else {
            seq![line.content]
        }));
    }
}

pub proof fn lemma_sides(lines: Seq<LineView>)
    ensures
        syntax::side_lines(lines, LineSide::Old) == texts_without(lines, LineOrigin::Addition),
        syntax::side_lines(lines, LineSide::New) == texts_without(lines, LineOrigin::Deletion),
    decreases lines.len(),
{
    if lines.len() > 0 {
        let rest = lines.drop_last();
        lemma_sides(rest);
        assert(lines =~= rest.push(lines.last()));
        lemma_texts_push(rest, lines.last(), LineOrigin::Addition);
        lemma_texts_push(rest, lines.last(), LineOrigin::Deletion);
        assert(syntax::side_lines(lines, LineSide::Old) =~= texts_without(
            lines,
            LineOrigin::Addition,
        ));
        assert(syntax::side_lines(lines, LineSide::New) =~= texts_without(
            lines,
            LineOrigin::Deletion,
        ));
    } else {
        assert(syntax::side_lines(lines, LineSide::Old) =~= texts_without(
            lines,
            LineOrigin::Addition,
        ));
        assert(syntax::side_lines(lines, LineSide::New) =~= texts_without(
            lines,
            LineOrigin::Deletion,
        ));
    }
}

/// The spans at a place, where there are any.
pub open spec fn found_at(
    spans: Option<Seq<Option<Seq<SpanView>>>>,
    place: int,
) -> Option<Seq<SpanView>> {
    match spans {
        Some(lines) => if 0 <= place < lines.len() {
            lines[place]
        } else {
            None
        },
        None => None,
    }
}

/// The spans that line `k` of a hunk should wear: a deletion those of its place among the lines
/// that were there before, every other line those of its place among the lines that are there now.
pub open spec fn spans_for(
    spans_of: spec_fn(Seq<char>, Seq<Seq<char>>) -> Option<Seq<Option<Seq<SpanView>>>>,
    path: Seq<char>,
    lines: Seq<LineView>,
    k: int,
) -> Option<Seq<SpanView>> {
    let left_out = if lines[k].origin == LineOrigin::Deletion {
        LineOrigin::Addition
    } else {
        LineOrigin::Deletion
    };
    found_at(
        spans_of(path, texts_without(lines, left_out)),
        texts_without(lines.take(k), left_out).len() as int,
    )
}

proof fn lemma_colored_line<G: Fn(&str, &Vec<String>) -> Option<HighlightedLines>>(
    highlighter: SyntaxHighlighter<G>,
    spans_of: spec_fn(Seq<char>, Seq<Seq<char>>) -> Option<Seq<Option<Seq<SpanView>>>>,
    path: Seq<char>,
    lines: Seq<LineView>,
    old: Option<HighlightedLines>,
    new: Option<HighlightedLines>,
    k: int,
)
    requires
        grammar_tells(highlighter.grammar, spans_of),
        syntax::sides_given(highlighter.grammar, path, lines, old, new),
        0 <= k < lines.len(),
    ensures
        ({
            let line = syntax::colored_lines(
                lines,
                syntax::optional_highlight(old),
                syntax::optional_highlight(new),
                highlighter.backgrounds,
            )[k];
            is_same_line(lines[k], line) && wears(
                line.coloring,
                spans_for(spans_of, path, lines, k),
                lines[k].origin,
                highlighter.backgrounds,
            )
        }),
{
    lemma_sides(lines);
    lemma_sides(lines.take(k));
    lemma_grammar_tells(
        highlighter.grammar,
        spans_of,
        path,
        syntax::side_lines(lines, LineSide::New),
        new,
    );
    if lines[k].origin == LineOrigin::Deletion {
        assert(syntax::has_deletion(lines));
        lemma_grammar_tells(
            highlighter.grammar,
            spans_of,
            path,
            syntax::side_lines(lines, LineSide::Old),
            old,
        );
    }
}

/// A hunk that is coloured on its own keeps its texts, and each of its lines wears the spans that
/// the grammar gives for its place on its side of the hunk.
pub proof fn law_colored_lines_wear_their_spans<
    G: Fn(&str, &Vec<String>) -> Option<HighlightedLines>,
>(
    highlighter: SyntaxHighlighter<G>,
    spans_of: spec_fn(Seq<char>, Seq<Seq<char>>) -> Option<Seq<Option<Seq<SpanView>>>>,
    path: Seq<char>,
    before: HunkView,
    after: HunkView,
)
    requires
        grammar_tells(highlighter.grammar, spans_of),
        syntax::is_colored(highlighter, path, before, after),
    ensures
        is_same_frame(before, after),
        forall|k: int|
            0 <= k < before.lines.len() ==> is_same_line(before.lines[k], #[trigger] after.lines[k])
                && wears(
                after.lines[k].coloring,
                spans_for(spans_of, path, before.lines, k),
                before.lines[k].origin,
                highlighter.backgrounds,
            ),
{
    let (old, new) = choose|old: Option<HighlightedLines>, new: Option<HighlightedLines>|
        #[trigger] syntax::sides_given(highlighter.grammar, path, before.lines, old, new) && after
            == syntax::colored_hunk(
            before,
            syntax::optional_highlight(old),
            syntax::optional_highlight(new),
            highlighter.backgrounds,
        );
    assert forall|k: int| 0 <= k < before.lines.len() implies is_same_line(
        before.lines[k],
        #[trigger] after.lines[k],
    ) && wears(
        after.lines[k].coloring,
        spans_for(spans_of, path, before.lines, k),
        before.lines[k].origin,
        highlighter.backgrounds,
    ) by {
        lemma_colored_line(highlighter, spans_of, path, before.lines, old, new, k);
    }
}

/// Whether a hunk was completed: every line that nothing had coloured wears the spans that the
/// grammar gives for its place on its side of the hunk, and every other line is as it was.
pub open spec fn is_finished(
    spans_of: spec_fn(Seq<char>, Seq<Seq<char>>) -> Option<Seq<Option<Seq<SpanView>>>>,
    backgrounds: DiffBackgrounds,
    path: Seq<char>,
    before: HunkView,
    after: HunkView,
) -> bool {
    &&& is_same_frame(before, after)
    &&& forall|k: int|
        0 <= k < before.lines.len() ==> if before.lines[k].coloring is Pending {
            is_same_line(before.lines[k], #[trigger] after.lines[k]) && wears(
                after.lines[k].coloring,
                spans_for(spans_of, path, before.lines, k),
                before.lines[k].origin,
                backgrounds,
            )
        } else {
            after.lines[k] == before.lines[k]
        }
}

/// Completing a hunk colours the lines that nothing had coloured, each with the spans of its place
/// on its side, and leaves the others alone.
pub proof fn law_completed_hunks_are_finished<
    G: Fn(&str, &Vec<String>) -> Option<HighlightedLines>,
>(
    highlighter: SyntaxHighlighter<G>,
    spans_of: spec_fn(Seq<char>, Seq<Seq<char>>) -> Option<Seq<Option<Seq<SpanView>>>>,
    path: Seq<char>,
    before: HunkView,
    after: HunkView,
)
    requires
        grammar_tells(highlighter.grammar, spans_of),
        syntax::is_completed(highlighter, path, before, after),
    ensures
        is_finished(spans_of, highlighter.backgrounds, path, before, after),
{
    let (old, new) = choose|old: Option<HighlightedLines>, new: Option<HighlightedLines>|
        #[trigger] syntax::sides_given(highlighter.grammar, path, before.lines, old, new) && after
            == syntax::completed_hunk(
            before,
            syntax::optional_highlight(old),
            syntax::optional_highlight(new),
            highlighter.backgrounds,
        );
    assert forall|k: int| 0 <= k < before.lines.len() implies if before.lines[k].coloring is Pending {
        is_same_line(before.lines[k], #[trigger] after.lines[k]) && wears(
            after.lines[k].coloring,
            spans_for(spans_of, path, before.lines, k),
            before.lines[k].origin,
            highlighter.backgrounds,
        )
    } else {
        after.lines[k] == before.lines[k]
    } by {
        lemma_colored_line(highlighter, spans_of, path, before.lines, old, new, k);
    }
}

/// Colouring a file colours every hunk of it under the path that it is shown under, and keeps all
/// else of the file.
pub proof fn law_files_are_colored_hunk_by_hunk<
    G: Fn(&str, &Vec<String>) -> Option<HighlightedLines>,
>(
    highlighter: SyntaxHighlighter<G>,
    spans_of: spec_fn(Seq<char>, Seq<Seq<char>>) -> Option<Seq<Option<Seq<SpanView>>>>,
    before: FileView,
    after: FileView,
)
    requires
        grammar_tells(highlighter.grammar, spans_of),
        syntax::is_colored_file(highlighter, before, after),
    ensures
        after == (FileView { hunks: after.hunks, ..before }),
        after.hunks.len() == before.hunks.len(),
        before.old_path is None && before.new_path is None ==> after.hunks == before.hunks,
        before.old_path is Some || before.new_path is Some ==> forall|h: int, k: int|
            #![trigger after.hunks[h].lines[k]]
            0 <= h < before.hunks.len() && 0 <= k < before.hunks[h].lines.len() ==> is_same_frame(
                before.hunks[h],
                after.hunks[h],
            ) && is_same_line(before.hunks[h].lines[k], after.hunks[h].lines[k]) && wears(
                after.hunks[h].lines[k].coloring,
                spans_for(
                    spans_of,
                    if before.new_path is Some {
                        before.new_path->0
                    } else {
                        before.old_path->0
                    },
                    before.hunks[h].lines,
                    k,
                ),
                before.hunks[h].lines[k].origin,
                highlighter.backgrounds,
            ),
{
    if before.old_path is Some || before.new_path is Some {
        let path = if before.new_path is Some {
            before.new_path->0
        } else {
            before.old_path->0
        };
        assert forall|h: int, k: int|
            #![trigger after.hunks[h].lines[k]]
            0 <= h < before.hunks.len() && 0 <= k < before.hunks[h].lines.len() implies is_same_frame(
            before.hunks[h],
            after.hunks[h],
        ) && is_same_line(before.hunks[h].lines[k], after.hunks[h].lines[k]) && wears(
            after.hunks[h].lines[k].coloring,
            spans_for(spans_of, path, before.hunks[h].lines, k),
            before.hunks[h].lines[k].origin,
            highlighter.backgrounds,
        ) by {
            assert(syntax::is_colored(highlighter, path, before.hunks[h], after.hunks[h]));
            law_colored_lines_wear_their_spans(
                highlighter,
                spans_of,
                path,
                before.hunks[h],
                after.hunks[h],
            );
        }
    }
}

} // verus!
