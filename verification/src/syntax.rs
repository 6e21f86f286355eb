//! Syntax colouring of diff lines.
//!
//! A grammar turns the lines of a file into spans. How it does so is the caller's business: it
//! is handed over as a function from a path and the lines of one side to the spans of each line.

use vstd::prelude::*;
use crate::model;
use crate::model::{
    ColoringView,
    DiffFile,
    DiffHunk,
    DiffLine,
    FileView,
    HunkView,
    LineColoring,
    LineOrigin,
    LineSide,
    LineView,
    Rgb,
    Span,
    SpanStyle,
    SpanView,
};
use crate::text;

verus! {

/// The spans of each line of a file; a line without spans is shown plain.
pub type HighlightedLines = Vec<Option<Vec<Span>>>;

/// The view of the spans of one line.
pub open spec fn spans_view(spans: Option<Vec<Span>>) -> Option<Seq<SpanView>> {
    match spans {
        Some(spans) => Some(text::views(spans@)),
        None => None,
    }
}

/// The view of the spans of each line.
pub open spec fn highlight_view(lines: HighlightedLines) -> Seq<Option<Seq<SpanView>>> {
    lines@.map_values(|spans: Option<Vec<Span>>| spans_view(spans))
}

/// The view of highlighted lines that may be missing.
pub open spec fn optional_highlight(lines: Option<HighlightedLines>) -> Option<
    Seq<Option<Seq<SpanView>>>,
> {
    match lines {
        Some(lines) => Some(highlight_view(lines)),
        None => None,
    }
}

/// The view of borrowed highlighted lines that may be missing.
pub open spec fn borrowed_highlight(lines: Option<&HighlightedLines>) -> Option<
    Seq<Option<Seq<SpanView>>>,
> {
    match lines {
        Some(lines) => Some(highlight_view(*lines)),
        None => None,
    }
}

/// The backgrounds that mark changed lines.
#[derive(Debug, Clone, Copy, PartialEq, Eq, Structural)]
pub struct DiffBackgrounds {
    pub deletion: Rgb,
    pub addition: Rgb,
}

/// A span on the given background, or on its own where none is given.
pub open spec fn painted_span(span: SpanView, background: Option<Rgb>) -> SpanView {
    SpanView {
        style: SpanStyle {
            fg: span.style.fg,
            bg: match background {
                Some(color) => Some(color),
                None => span.style.bg,
            },
        },
        text: span.text,
    }
}

/// Spans on the given background.
pub open spec fn painted(spans: Seq<SpanView>, background: Option<Rgb>) -> Seq<SpanView> {
    spans.map_values(|span: SpanView| painted_span(span, background))
}

/// The spans on the given background.
pub fn paint_spans(spans: &Vec<Span>, background: Option<Rgb>) -> (res: Vec<Span>)
    ensures
        text::views(res@) == painted(text::views(spans@), background),
{
    let mut res: Vec<Span> = Vec::new();
    let mut i: usize = 0;
    while i < spans.len()
        invariant
            i <= spans@.len(),
            res@.len() == i,
            forall|j: int|
                0 <= j < i ==> (#[trigger] res@[j])@ == painted_span(spans@[j]@, background),
        decreases spans@.len() - i,
    {
        let span = &spans[i];
        let bg = match background {
            Some(color) => Some(color),
            None => span.style.bg,
        };
        res.push(Span { style: SpanStyle { fg: span.style.fg, bg }, text: span.text.clone() });
        i = i + 1;
    }
    assert(text::views(res@) =~= painted(text::views(spans@), background));
    res
}

/// The spans of a line of one side, where there are any.
pub open spec fn spans_at(
    lines: Option<Seq<Option<Seq<SpanView>>>>,
    index: Option<int>,
) -> Option<Seq<SpanView>> {
    match (lines, index) {
        (Some(spans), Some(i)) => if 0 <= i < spans.len() {
            spans[i]
        } else {
            None
        },
        _ => None,
    }
}

pub open spec fn as_position(index: Option<usize>) -> Option<int> {
    match index {
        Some(i) => Some(i as int),
        None => None,
    }
}

impl DiffBackgrounds {
    /// The background of a line: only changed lines have one.
    pub open spec fn for_line(self, origin: LineOrigin) -> Option<Rgb> {
        match origin {
            LineOrigin::Deletion => Some(self.deletion),
            LineOrigin::Addition => Some(self.addition),
            LineOrigin::Context => None,
        }
    }

    /// The spans that a diff line shows: a deletion takes those of the old side, every other
    /// line those of the new side.
    pub open spec fn line_spans(
        self,
        old: Option<Seq<Option<Seq<SpanView>>>>,
        new: Option<Seq<Option<Seq<SpanView>>>>,
        old_index: Option<int>,
        new_index: Option<int>,
        origin: LineOrigin,
    ) -> Option<Seq<SpanView>> {
        let found = if origin == LineOrigin::Deletion {
            spans_at(old, old_index)
        } else {
            spans_at(new, new_index)
        };
        match found {
            Some(spans) => Some(painted(spans, self.for_line(origin))),
            None => None,
        }
    }

    /// The background of a line.
    pub fn background_of(&self, origin: LineOrigin) -> (res: Option<Rgb>)
        ensures
            res == self.for_line(origin),
    {
        match origin {
            LineOrigin::Deletion => Some(self.deletion),
            LineOrigin::Addition => Some(self.addition),
            LineOrigin::Context => None,
        }
    }

    /// The spans that a diff line shows, with the background that marks the change.
    pub fn highlighted_line_for_diff_with_background(
        &self,
        old: Option<&HighlightedLines>,
        new: Option<&HighlightedLines>,
        old_index: Option<usize>,
        new_index: Option<usize>,
        origin: LineOrigin,
    ) -> (res: Option<Vec<Span>>)
        ensures
            spans_view(res) == self.line_spans(
                borrowed_highlight(old),
                borrowed_highlight(new),
                as_position(old_index),
                as_position(new_index),
                origin,
            ),
    {
        let (side, index) = match origin {
            LineOrigin::Deletion => (old, old_index),
            _ => (new, new_index),
        };
        match (side, index) {
            (Some(lines), Some(i)) => {
                if i < lines.len() {
                    proof {
                        assert(highlight_view(*lines)[i as int] == spans_view(lines@[i as int]));
                    }
                    match &lines[i] {
                        Some(spans) => Some(paint_spans(spans, self.background_of(origin))),
                        None => None,
                    }
                } else {
                    None
                }
            },
            _ => None,
        }
    }
}

/// Whether lines of this origin stand on a side: context stands on both.
pub open spec fn stands_on(origin: LineOrigin, side: LineSide) -> bool {
    match origin {
        LineOrigin::Context => true,
        LineOrigin::Deletion => side == LineSide::Old,
        LineOrigin::Addition => side == LineSide::New,
    }
}

/// The lines of one side of a hunk, in order.
pub open spec fn side_lines(lines: Seq<LineView>, side: LineSide) -> Seq<Seq<char>>
    decreases lines.len(),
{
    if lines.len() == 0 {
        Seq::empty()
    } else if stands_on(lines.last().origin, side) {
        side_lines(lines.drop_last(), side).push(lines.last().content)
    } else {
        side_lines(lines.drop_last(), side)
    }
}

/// Where a line of a hunk stands among the lines of one side.
pub open spec fn side_index(lines: Seq<LineView>, side: LineSide, k: int) -> Option<int> {
    if stands_on(lines[k].origin, side) {
        Some(side_lines(lines.take(k), side).len() as int)
    } else {
        None
    }
}

/// The two sides of a hunk, each as a text of its own, and where its lines stand in them.
pub struct DiffSequences {
    pub old_lines: Vec<String>,
    pub new_lines: Vec<String>,
    pub old_line_indices: Vec<Option<usize>>,
    pub new_line_indices: Vec<Option<usize>>,
}

/// Parts the lines of a hunk into its two sides.
pub fn split_diff_lines_for_highlighting(lines: &Vec<DiffLine>) -> (res: DiffSequences)
    ensures
        text::views(res.old_lines@) == side_lines(text::views(lines@), LineSide::Old),
        text::views(res.new_lines@) == side_lines(text::views(lines@), LineSide::New),
        res.old_line_indices@.len() == lines@.len(),
        res.new_line_indices@.len() == lines@.len(),
        forall|k: int|
            0 <= k < lines@.len() ==> as_position(#[trigger] res.old_line_indices@[k])
                == side_index(text::views(lines@), LineSide::Old, k),
        forall|k: int|
            0 <= k < lines@.len() ==> as_position(#[trigger] res.new_line_indices@[k])
                == side_index(text::views(lines@), LineSide::New, k),
{
    let ghost all = text::views(lines@);
    let mut old_lines: Vec<String> = Vec::new();
    let mut new_lines: Vec<String> = Vec::new();
    let mut old_line_indices: Vec<Option<usize>> = Vec::new();
    let mut new_line_indices: Vec<Option<usize>> = Vec::new();
    let mut i: usize = 0;
    proof {
        assert(all.take(0) == Seq::<LineView>::empty());
        text::lemma_views_empty::<String>();
    }
    while i < lines.len()
        invariant
            i <= lines@.len(),
            all == text::views(lines@),
            text::views(old_lines@) == side_lines(all.take(i as int), LineSide::Old),
            text::views(new_lines@) == side_lines(all.take(i as int), LineSide::New),
            old_line_indices@.len() == i,
            new_line_indices@.len() == i,
            forall|k: int|
                0 <= k < i ==> as_position(#[trigger] old_line_indices@[k]) == side_index(
                    all,
                    LineSide::Old,
                    k,
                ),
            forall|k: int|
                0 <= k < i ==> as_position(#[trigger] new_line_indices@[k]) == side_index(
                    all,
                    LineSide::New,
                    k,
                ),
        decreases lines@.len() - i,
    {
        let line = &lines[i];
        let ghost before_old = old_lines@;
        let ghost before_new = new_lines@;
        proof {
            assert(all.take(i + 1).drop_last() == all.take(i as int));
            assert(all[i as int] == line@);
        }
        let on_old = match line.origin {
            LineOrigin::Addition => false,
            _ => true,
        };
        let on_new = match line.origin {
            LineOrigin::Deletion => false,
            _ => true,
        };
        if on_old {
            old_line_indices.push(Some(old_lines.len()));
            old_lines.push(line.content.clone());
            proof {
                text::lemma_views_push(before_old, old_lines@.last());
                assert(old_lines@ == before_old.push(old_lines@.last()));
            }
        } else {
            old_line_indices.push(None);
        }
        if on_new {
            new_line_indices.push(Some(new_lines.len()));
            new_lines.push(line.content.clone());
            proof {
                text::lemma_views_push(before_new, new_lines@.last());
                assert(new_lines@ == before_new.push(new_lines@.last()));
            }
        } else {
            new_line_indices.push(None);
        }
        i = i + 1;
    }
    assert(all.take(all.len() as int) == all);
    DiffSequences { old_lines, new_lines, old_line_indices, new_line_indices }
}

/// The colouring of a line that was looked at: plain where there is nothing to show.
pub open spec fn settled(spans: Option<Seq<SpanView>>) -> ColoringView {
    match spans {
        Some(spans) => ColoringView::Spans(spans),
        None => ColoringView::Plain,
    }
}

/// The colouring of a line that was looked at.
pub fn settle(spans: Option<Vec<Span>>) -> (res: LineColoring)
    ensures
        res@ == settled(spans_view(spans)),
{
    match spans {
        Some(spans) => LineColoring::Spans(spans),
        None => LineColoring::Plain,
    }
}

/// A line with another colouring.
pub open spec fn recolored(line: LineView, coloring: ColoringView) -> LineView {
    LineView { coloring, ..line }
}

/// The lines of a hunk, coloured from the spans of its two sides.
pub open spec fn colored_lines(
    lines: Seq<LineView>,
    old: Option<Seq<Option<Seq<SpanView>>>>,
    new: Option<Seq<Option<Seq<SpanView>>>>,
    backgrounds: DiffBackgrounds,
) -> Seq<LineView> {
    Seq::new(
        lines.len(),
        |k: int|
            recolored(
                lines[k],
                settled(
                    backgrounds.line_spans(
                        old,
                        new,
                        side_index(lines, LineSide::Old, k),
                        side_index(lines, LineSide::New, k),
                        lines[k].origin,
                    ),
                ),
            ),
    )
}

/// A hunk, coloured from the spans of its two sides.
pub open spec fn colored_hunk(
    hunk: HunkView,
    old: Option<Seq<Option<Seq<SpanView>>>>,
    new: Option<Seq<Option<Seq<SpanView>>>>,
    backgrounds: DiffBackgrounds,
) -> HunkView {
    HunkView { lines: colored_lines(hunk.lines, old, new, backgrounds), ..hunk }
}

/// A hunk whose pending lines are coloured from the spans of its two sides. A line that was
/// coloured before keeps its colouring.
pub open spec fn completed_hunk(
    hunk: HunkView,
    old: Option<Seq<Option<Seq<SpanView>>>>,
    new: Option<Seq<Option<Seq<SpanView>>>>,
    backgrounds: DiffBackgrounds,
) -> HunkView {
    HunkView {
        lines: Seq::new(
            hunk.lines.len(),
            |k: int|
                if hunk.lines[k].coloring is Pending {
                    colored_lines(hunk.lines, old, new, backgrounds)[k]
                } else {
                    hunk.lines[k]
                },
        ),
        ..hunk
    }
}

/// Colours the lines of a hunk from the spans of its two sides: all of them, or only those that
/// nothing has coloured yet.
pub fn paint_hunk(
    hunk: &mut DiffHunk,
    old_side: &Option<HighlightedLines>,
    new_side: &Option<HighlightedLines>,
    backgrounds: &DiffBackgrounds,
    pending_only: bool,
)
    ensures
        final(hunk)@ == (if pending_only {
            completed_hunk(
                old(hunk)@,
                optional_highlight(*old_side),
                optional_highlight(*new_side),
                *backgrounds,
            )
        } else {
            colored_hunk(
                old(hunk)@,
                optional_highlight(*old_side),
                optional_highlight(*new_side),
                *backgrounds,
            )
        }),
{
    let sides = split_diff_lines_for_highlighting(&hunk.lines);
    let ghost before = hunk@;
    let ghost target = if pending_only {
        completed_hunk(
            before,
            optional_highlight(*old_side),
            optional_highlight(*new_side),
            *backgrounds,
        )
    } else {
        colored_hunk(
            before,
            optional_highlight(*old_side),
            optional_highlight(*new_side),
            *backgrounds,
        )
    };
    let total: usize = hunk.lines.len();
    let mut i: usize = 0;
    while i < total
        invariant
            i <= total,
            total == before.lines.len(),
            hunk@.lines.len() == total,
            target == (if pending_only {
                completed_hunk(
                    before,
                    optional_highlight(*old_side),
                    optional_highlight(*new_side),
                    *backgrounds,
                )
            } else {
                colored_hunk(
                    before,
                    optional_highlight(*old_side),
                    optional_highlight(*new_side),
                    *backgrounds,
                )
            }),
            hunk@ == (HunkView { lines: hunk@.lines, ..before }),
            forall|k: int| 0 <= k < i ==> hunk@.lines[k] == target.lines[k],
            forall|k: int| i <= k < total ==> hunk@.lines[k] == before.lines[k],
            sides.old_line_indices@.len() == total,
            sides.new_line_indices@.len() == total,
            forall|k: int|
                0 <= k < total ==> as_position(#[trigger] sides.old_line_indices@[k])
                    == side_index(before.lines, LineSide::Old, k),
            forall|k: int|
                0 <= k < total ==> as_position(#[trigger] sides.new_line_indices@[k])
                    == side_index(before.lines, LineSide::New, k),
        decreases total - i,
    {
        let ghost current = hunk.lines@;
        proof {
            assert(hunk@.lines[i as int] == hunk.lines@[i as int]@);
        }
        if !pending_only || hunk.lines[i].coloring.is_pending() {
            let spans = backgrounds.highlighted_line_for_diff_with_background(
                old_side.as_ref(),
                new_side.as_ref(),
                sides.old_line_indices[i],
                sides.new_line_indices[i],
                hunk.lines[i].origin,
            );
            hunk.lines[i].coloring = settle(spans);
        }
        proof {
            assert forall|k: int| 0 <= k < total implies hunk@.lines[k] == (if k == i {
                target.lines[k]
            } else {
                current[k]@
            }) by {
                assert(hunk@.lines[k] == hunk.lines@[k]@);
            }
            assert forall|k: int| 0 <= k < total && k != i implies hunk@.lines[k]
                == text::views(current)[k] by {}
        }
        i = i + 1;
    }
    assert(hunk@.lines =~= target.lines);
}

/// A grammar, and the backgrounds that mark changed lines.
pub struct SyntaxHighlighter<G> {
    pub grammar: G,
    pub backgrounds: DiffBackgrounds,
}

/// Whether `out` is what a grammar can give for the lines of a file.
pub open spec fn grammar_gives<G: Fn(&str, &Vec<String>) -> Option<HighlightedLines>>(
    grammar: G,
    path: Seq<char>,
    lines: Seq<Seq<char>>,
    out: Option<HighlightedLines>,
) -> bool {
    exists|name: &str, given: &Vec<String>|
        name@ == path && text::views(given@) == lines && #[trigger] grammar.ensures(
            (name, given),
            out,
        )
}

impl<G: Fn(&str, &Vec<String>) -> Option<HighlightedLines>> SyntaxHighlighter<G> {
    /// Whether the grammar takes every file.
    pub open spec fn takes_any_file(self) -> bool {
        forall|path: &str, lines: &Vec<String>| #[trigger] self.grammar.requires((path, lines))
    }

    /// The spans of each line of a file, where the grammar knows the file.
    pub fn highlight_file_lines(&self, path: &str, lines: &Vec<String>) -> (res: Option<
        HighlightedLines,
    >)
        requires
            self.takes_any_file(),
        ensures
            grammar_gives(self.grammar, path@, text::views(lines@), res),
    {
        (self.grammar)(path, lines)
    }
}

/// Whether a hunk deletes a line.
pub open spec fn has_deletion(lines: Seq<LineView>) -> bool {
    exists|k: int| 0 <= k < lines.len() && (#[trigger] lines[k]).origin == LineOrigin::Deletion
}

/// Whether a hunk deletes a line.
pub fn deletes_a_line(hunk: &DiffHunk) -> (res: bool)
    ensures
        res == has_deletion(hunk@.lines),
{
    let mut i: usize = 0;
    while i < hunk.lines.len()
        invariant
            i <= hunk.lines@.len(),
            forall|k: int| 0 <= k < i ==> hunk.lines@[k].origin != LineOrigin::Deletion,
        decreases hunk.lines@.len() - i,
    {
        if let LineOrigin::Deletion = hunk.lines[i].origin {
            assert(hunk@.lines[i as int] == hunk.lines@[i as int]@);
            return true;
        }
        i = i + 1;
    }
    assert forall|k: int| 0 <= k < hunk@.lines.len() implies (#[trigger] hunk@.lines[k]).origin
        != LineOrigin::Deletion by {
        assert(hunk@.lines[k] == hunk.lines@[k]@);
    }
    false
}

/// Whether these are spans that a grammar can give for the two sides of a hunk. Only a deletion
/// reads the old side, so the grammar is not asked for it where nothing is deleted.
pub open spec fn sides_given<G: Fn(&str, &Vec<String>) -> Option<HighlightedLines>>(
    grammar: G,
    path: Seq<char>,
    lines: Seq<LineView>,
    old: Option<HighlightedLines>,
    new: Option<HighlightedLines>,
) -> bool {
    &&& if has_deletion(lines) {
        grammar_gives(grammar, path, side_lines(lines, LineSide::Old), old)
    } else {
        old is None
    }
    &&& grammar_gives(grammar, path, side_lines(lines, LineSide::New), new)
}

/// Whether `after` is a hunk coloured on its own: from the spans that the grammar gives for its
/// two sides.
pub open spec fn is_colored<G: Fn(&str, &Vec<String>) -> Option<HighlightedLines>>(
    highlighter: SyntaxHighlighter<G>,
    path: Seq<char>,
    before: HunkView,
    after: HunkView,
) -> bool {
    exists|old: Option<HighlightedLines>, new: Option<HighlightedLines>|
        #[trigger] sides_given(highlighter.grammar, path, before.lines, old, new) && after
            == colored_hunk(
            before,
            optional_highlight(old),
            optional_highlight(new),
            highlighter.backgrounds,
        )
}

/// Whether `after` is a hunk whose pending lines were coloured on their own: from the spans that
/// the grammar gives for the two sides of the whole hunk.
pub open spec fn is_completed<G: Fn(&str, &Vec<String>) -> Option<HighlightedLines>>(
    highlighter: SyntaxHighlighter<G>,
    path: Seq<char>,
    before: HunkView,
    after: HunkView,
) -> bool {
    exists|old: Option<HighlightedLines>, new: Option<HighlightedLines>|
        #[trigger] sides_given(highlighter.grammar, path, before.lines, old, new) && after
            == completed_hunk(
            before,
            optional_highlight(old),
            optional_highlight(new),
            highlighter.backgrounds,
        )
}

fn highlight_hunk<G: Fn(&str, &Vec<String>) -> Option<HighlightedLines>>(
    hunk: &mut DiffHunk,
    syntax_path: &str,
    highlighter: &SyntaxHighlighter<G>,
    pending_only: bool,
)
    requires
        highlighter.takes_any_file(),
    ensures
        if pending_only {
            is_completed(*highlighter, syntax_path@, old(hunk)@, final(hunk)@)
        } else {
            is_colored(*highlighter, syntax_path@, old(hunk)@, final(hunk)@)
        },
{
    let sides = split_diff_lines_for_highlighting(&hunk.lines);
    let old_side = if deletes_a_line(hunk) {
        highlighter.highlight_file_lines(syntax_path, &sides.old_lines)
    } else {
        None
    };
    let new_side = highlighter.highlight_file_lines(syntax_path, &sides.new_lines);
    proof {
        assert(sides_given(highlighter.grammar, syntax_path@, hunk@.lines, old_side, new_side));
    }
    paint_hunk(hunk, &old_side, &new_side, &highlighter.backgrounds, pending_only);
}

/// Colours one hunk on its own. Every line is marked done, even where the grammar gives nothing,
/// so that a plain file is not tried again on every frame.
pub fn color_hunk<G: Fn(&str, &Vec<String>) -> Option<HighlightedLines>>(
    hunk: &mut DiffHunk,
    syntax_path: &str,
    highlighter: &SyntaxHighlighter<G>,
)
    requires
        highlighter.takes_any_file(),
    ensures
        is_colored(*highlighter, syntax_path@, old(hunk)@, final(hunk)@),
{
    highlight_hunk(hunk, syntax_path, highlighter, false);
}

/// Colours the lines of a hunk that nothing has coloured yet, and leaves the others as they are.
pub fn complete_hunk<G: Fn(&str, &Vec<String>) -> Option<HighlightedLines>>(
    hunk: &mut DiffHunk,
    syntax_path: &str,
    highlighter: &SyntaxHighlighter<G>,
)
    requires
        highlighter.takes_any_file(),
    ensures
        is_completed(*highlighter, syntax_path@, old(hunk)@, final(hunk)@),
{
    highlight_hunk(hunk, syntax_path, highlighter, true);
}

/// Whether `after` is a file with every hunk coloured on its own; a file without a path keeps
/// its hunks.
pub open spec fn is_colored_file<G: Fn(&str, &Vec<String>) -> Option<HighlightedLines>>(
    highlighter: SyntaxHighlighter<G>,
    before: FileView,
    after: FileView,
) -> bool {
    match model::shown_path(before.old_path, before.new_path) {
        Some(path) => {
            &&& after == (FileView { hunks: after.hunks, ..before })
            &&& after.hunks.len() == before.hunks.len()
            &&& forall|h: int|
                0 <= h < before.hunks.len() ==> is_colored(
                    highlighter,
                    path,
                    before.hunks[h],
                    #[trigger] after.hunks[h],
                )
        },
        None => after == before,
    }
}

fn color_file<G: Fn(&str, &Vec<String>) -> Option<HighlightedLines>>(
    file: &mut DiffFile,
    highlighter: &SyntaxHighlighter<G>,
)
    requires
        highlighter.takes_any_file(),
    ensures
        is_colored_file(*highlighter, old(file)@, final(file)@),
{
    let path = match file.display_path() {
        Some(path) => path.clone(),
        None => {
            return ;
        },
    };
    let ghost before = file@;
    let total: usize = file.hunks.len();
    let mut h: usize = 0;
    while h < total
        invariant
            h <= total,
            total == before.hunks.len(),
            file@.hunks.len() == total,
            file@ == (FileView { hunks: file@.hunks, ..before }),
            highlighter.takes_any_file(),
            forall|k: int|
                0 <= k < h ==> is_colored(
                    *highlighter,
                    path@,
                    before.hunks[k],
                    #[trigger] file@.hunks[k],
                ),
            forall|k: int| h <= k < total ==> #[trigger] file@.hunks[k] == before.hunks[k],
        decreases total - h,
    {
        let ghost current = file@.hunks;
        proof {
            assert(current[h as int] == file.hunks@[h as int]@);
        }
        color_hunk(&mut file.hunks[h], path.as_str(), highlighter);
        proof {
            assert forall|k: int| 0 <= k < total && k != h implies #[trigger] file@.hunks[k]
                == current[k] by {}
            assert(file@.hunks[h as int] == file.hunks@[h as int]@);
        }
        h = h + 1;
    }
}

/// Colours every hunk of every file on its own.
pub fn color_all_hunks<G: Fn(&str, &Vec<String>) -> Option<HighlightedLines>>(
    files: &mut Vec<DiffFile>,
    highlighter: &SyntaxHighlighter<G>,
)
    requires
        highlighter.takes_any_file(),
    ensures
        final(files)@.len() == old(files)@.len(),
        forall|i: int|
            0 <= i < old(files)@.len() ==> is_colored_file(
                *highlighter,
                old(files)@[i]@,
                (#[trigger] final(files)@[i])@,
            ),
{
    let ghost before = files@;
    let total: usize = files.len();
    let mut i: usize = 0;
    while i < total
        invariant
            i <= total,
            total == before.len(),
            files@.len() == total,
            highlighter.takes_any_file(),
            forall|k: int|
                0 <= k < i ==> is_colored_file(*highlighter, before[k]@, (#[trigger] files@[k])@),
            forall|k: int| i <= k < total ==> #[trigger] files@[k] == before[k],
        decreases total - i,
    {
        color_file(&mut files[i], highlighter);
        i = i + 1;
    }
}

/// Colouring a hunk leaves no line of it pending, and changes nothing but the colouring.
pub proof fn law_colored_hunk_is_settled(
    hunk: HunkView,
    old: Option<Seq<Option<Seq<SpanView>>>>,
    new: Option<Seq<Option<Seq<SpanView>>>>,
    backgrounds: DiffBackgrounds,
)
    ensures
        colored_hunk(hunk, old, new, backgrounds).lines.len() == hunk.lines.len(),
        forall|k: int|
            0 <= k < hunk.lines.len() ==> {
                let line = #[trigger] colored_hunk(hunk, old, new, backgrounds).lines[k];
                !(line.coloring is Pending) && line == recolored(hunk.lines[k], line.coloring)
            },
{
}

/// Completing a hunk leaves no line of it pending, and keeps every line that was coloured before.
pub proof fn law_completed_hunk_is_settled(
    hunk: HunkView,
    old: Option<Seq<Option<Seq<SpanView>>>>,
    new: Option<Seq<Option<Seq<SpanView>>>>,
    backgrounds: DiffBackgrounds,
)
    ensures
        completed_hunk(hunk, old, new, backgrounds).lines.len() == hunk.lines.len(),
        forall|k: int|
            0 <= k < hunk.lines.len() ==> {
                let line = #[trigger] completed_hunk(hunk, old, new, backgrounds).lines[k];
                &&& !(line.coloring is Pending)
                &&& line == recolored(hunk.lines[k], line.coloring)
                &&& !(hunk.lines[k].coloring is Pending) ==> line == hunk.lines[k]
            },
{
}

/// A hunk that nothing has coloured yet is completed as it is coloured.
pub proof fn law_completing_an_uncolored_hunk(
    hunk: HunkView,
    old: Option<Seq<Option<Seq<SpanView>>>>,
    new: Option<Seq<Option<Seq<SpanView>>>>,
    backgrounds: DiffBackgrounds,
)
    requires
        forall|k: int| 0 <= k < hunk.lines.len() ==> (#[trigger] hunk.lines[k]).coloring is Pending,
    ensures
        completed_hunk(hunk, old, new, backgrounds) == colored_hunk(hunk, old, new, backgrounds),
{
    assert(completed_hunk(hunk, old, new, backgrounds).lines =~= colored_hunk(
        hunk,
        old,
        new,
        backgrounds,
    ).lines);
}

proof fn lemma_side_lines_recolored(lines: Seq<LineView>, other: Seq<LineView>, side: LineSide)
    requires
        lines.len() == other.len(),
        forall|k: int|
            0 <= k < lines.len() ==> (#[trigger] lines[k]).origin == other[k].origin
                && lines[k].content == other[k].content,
    ensures
        side_lines(lines, side) == side_lines(other, side),
    decreases lines.len(),
{
    if lines.len() > 0 {
        assert(lines.last() == lines[lines.len() - 1]);
        assert forall|k: int| 0 <= k < lines.drop_last().len() implies (#[trigger] lines.drop_last()[k]).origin
            == other.drop_last()[k].origin && lines.drop_last()[k].content
            == other.drop_last()[k].content by {
            assert(lines[k].origin == other[k].origin);
        }
        lemma_side_lines_recolored(lines.drop_last(), other.drop_last(), side);
    }
}

/// Whether two hunks differ in the colouring of their lines at most.
pub open spec fn same_but_coloring(hunk: HunkView, other: HunkView) -> bool {
    &&& other == (HunkView { lines: other.lines, ..hunk })
    &&& other.lines.len() == hunk.lines.len()
    &&& forall|k: int|
        0 <= k < hunk.lines.len() ==> #[trigger] other.lines[k] == recolored(
            hunk.lines[k],
            other.lines[k].coloring,
        )
}

/// Two hunks that differ only in their colouring give the grammar the same two sides, and with
/// the same spans for them they are coloured alike.
pub proof fn law_coloring_forgets_colors(
    hunk: HunkView,
    other: HunkView,
    old: Option<Seq<Option<Seq<SpanView>>>>,
    new: Option<Seq<Option<Seq<SpanView>>>>,
    backgrounds: DiffBackgrounds,
)
    requires
        same_but_coloring(hunk, other),
    ensures
        side_lines(other.lines, LineSide::Old) == side_lines(hunk.lines, LineSide::Old),
        side_lines(other.lines, LineSide::New) == side_lines(hunk.lines, LineSide::New),
        has_deletion(other.lines) == has_deletion(hunk.lines),
        colored_hunk(other, old, new, backgrounds) == colored_hunk(hunk, old, new, backgrounds),
{
    let lines = hunk.lines;
    let recolored_lines = other.lines;
    assert forall|k: int| 0 <= k < lines.len() implies (#[trigger] recolored_lines[k]).origin
        == lines[k].origin && recolored_lines[k].content == lines[k].content by {}
    lemma_side_lines_recolored(recolored_lines, lines, LineSide::Old);
    lemma_side_lines_recolored(recolored_lines, lines, LineSide::New);
    if has_deletion(lines) {
        let k = choose|k: int|
            0 <= k < lines.len() && (#[trigger] lines[k]).origin == LineOrigin::Deletion;
        assert(recolored_lines[k].origin == LineOrigin::Deletion);
    }
    let colored = colored_hunk(hunk, old, new, backgrounds);
    let again = colored_hunk(other, old, new, backgrounds);
    assert forall|k: int| 0 <= k < lines.len() implies #[trigger] again.lines[k]
        == colored.lines[k] by {
        assert(recolored_lines[k].origin == lines[k].origin);
        assert forall|j: int| 0 <= j < k implies (#[trigger] recolored_lines.take(k)[j]).origin
            == lines.take(k)[j].origin && recolored_lines.take(k)[j].content
            == lines.take(k)[j].content by {
            assert(recolored_lines[j].origin == lines[j].origin);
        }
        lemma_side_lines_recolored(recolored_lines.take(k), lines.take(k), LineSide::Old);
        lemma_side_lines_recolored(recolored_lines.take(k), lines.take(k), LineSide::New);
    }
    assert(again.lines =~= colored.lines);
}

/// Colouring a hunk a second time gives the grammar the same two sides, and with the same spans
/// for them it changes nothing.
pub proof fn law_coloring_is_idempotent(
    hunk: HunkView,
    old: Option<Seq<Option<Seq<SpanView>>>>,
    new: Option<Seq<Option<Seq<SpanView>>>>,
    backgrounds: DiffBackgrounds,
)
    ensures
        ({
            let once = colored_hunk(hunk, old, new, backgrounds);
            &&& side_lines(once.lines, LineSide::Old) == side_lines(hunk.lines, LineSide::Old)
            &&& side_lines(once.lines, LineSide::New) == side_lines(hunk.lines, LineSide::New)
            &&& has_deletion(once.lines) == has_deletion(hunk.lines)
            &&& colored_hunk(once, old, new, backgrounds) == once
        }),
{
    law_coloring_forgets_colors(
        hunk,
        colored_hunk(hunk, old, new, backgrounds),
        old,
        new,
        backgrounds,
    );
}

/// Whether a grammar always gives the spans that `spans_of` names for a path and the lines of a
/// side.
pub open spec fn grammar_is<G: Fn(&str, &Vec<String>) -> Option<HighlightedLines>>(
    grammar: G,
    spans_of: spec_fn(Seq<char>, Seq<Seq<char>>) -> Option<Seq<Option<Seq<SpanView>>>>,
) -> bool {
    forall|path: Seq<char>, lines: Seq<Seq<char>>, out: Option<HighlightedLines>|
        #[trigger] grammar_gives(grammar, path, lines, out) ==> optional_highlight(out) == spans_of(
            path,
            lines,
        )
}

/// With a grammar that is a function of path and lines, the outcome of colouring a hunk does not
/// depend on the colouring that its lines had before.
pub proof fn law_coloring_ignores_earlier_coloring<
    G: Fn(&str, &Vec<String>) -> Option<HighlightedLines>,
>(
    highlighter: SyntaxHighlighter<G>,
    spans_of: spec_fn(Seq<char>, Seq<Seq<char>>) -> Option<Seq<Option<Seq<SpanView>>>>,
    path: Seq<char>,
    hunk: HunkView,
    other: HunkView,
    hunk_after: HunkView,
    other_after: HunkView,
)
    requires
        grammar_is(highlighter.grammar, spans_of),
        same_but_coloring(hunk, other),
        is_colored(highlighter, path, hunk, hunk_after),
        is_colored(highlighter, path, other, other_after),
    ensures
        other_after == hunk_after,
{
    let (old, new) = choose|old: Option<HighlightedLines>, new: Option<HighlightedLines>|
        #[trigger] sides_given(highlighter.grammar, path, hunk.lines, old, new) && hunk_after
            == colored_hunk(
            hunk,
            optional_highlight(old),
            optional_highlight(new),
            highlighter.backgrounds,
        );
    let (old2, new2) = choose|old: Option<HighlightedLines>, new: Option<HighlightedLines>|
        #[trigger] sides_given(highlighter.grammar, path, other.lines, old, new) && other_after
            == colored_hunk(
            other,
            optional_highlight(old),
            optional_highlight(new),
            highlighter.backgrounds,
        );
    law_coloring_forgets_colors(
        hunk,
        other,
        optional_highlight(old),
        optional_highlight(new),
        highlighter.backgrounds,
    );
    assert(optional_highlight(new2) == optional_highlight(new));
    assert(optional_highlight(old2) == optional_highlight(old));
}

/// With a grammar that is a function of path and lines, colouring a hunk once more changes
/// nothing.
pub proof fn law_coloring_again_changes_nothing<
    G: Fn(&str, &Vec<String>) -> Option<HighlightedLines>,
>(
    highlighter: SyntaxHighlighter<G>,
    spans_of: spec_fn(Seq<char>, Seq<Seq<char>>) -> Option<Seq<Option<Seq<SpanView>>>>,
    path: Seq<char>,
    before: HunkView,
    once: HunkView,
    twice: HunkView,
)
    requires
        grammar_is(highlighter.grammar, spans_of),
        is_colored(highlighter, path, before, once),
        is_colored(highlighter, path, once, twice),
    ensures
        twice == once,
{
    assert(same_but_coloring(before, once));
    law_coloring_ignores_earlier_coloring(
        highlighter,
        spans_of,
        path,
        before,
        once,
        once,
        twice,
    );
}

/// A hunk that was coloured on its own can stay as it is when it is coloured once more.
pub proof fn law_colored_hunk_stays<G: Fn(&str, &Vec<String>) -> Option<HighlightedLines>>(
    highlighter: SyntaxHighlighter<G>,
    path: Seq<char>,
    before: HunkView,
    after: HunkView,
)
    requires
        is_colored(highlighter, path, before, after),
    ensures
        is_colored(highlighter, path, after, after),
{
    let (old, new) = choose|old: Option<HighlightedLines>, new: Option<HighlightedLines>|
        #[trigger] sides_given(highlighter.grammar, path, before.lines, old, new) && after
            == colored_hunk(
            before,
            optional_highlight(old),
            optional_highlight(new),
            highlighter.backgrounds,
        );
    law_coloring_is_idempotent(
        before,
        optional_highlight(old),
        optional_highlight(new),
        highlighter.backgrounds,
    );
    assert(sides_given(highlighter.grammar, path, after.lines, old, new));
}

} // verus!
