//! Colouring of the hunks in and around the viewport.
//!
//! Drawing colours hunks as they come near the screen. Every hunk is visited once, so that a hunk
//! that no grammar can colour is not tried again on every frame.

use vstd::prelude::*;
use crate::model;
use crate::model::{DiffFile, DiffHunk, FileView, HunkView};
use crate::syntax;
use crate::syntax::{complete_hunk, HighlightedLines, SyntaxHighlighter};
use crate::text;

verus! {

/// A row of the diff view.
#[derive(Debug, Clone, Copy, PartialEq, Eq, Structural)]
pub enum AnnotatedLine {
    DiffLine { file_idx: usize, hunk_idx: usize },
    SideBySideLine { file_idx: usize, hunk_idx: usize },
    HunkHeader { file_idx: usize, hunk_idx: usize },
    PrInfoLine,
    IssueCommentsHeader,
    IssueComment,
    ReviewCommentsHeader,
    ReviewComment,
    RemoteReviewSummaryLine,
    FileHeader,
    ReviewedBanner,
    FileComment,
    Expander,
    HiddenLines,
    ExpandedContext,
    LineComment,
    RemoteThreadLine,
    BinaryOrEmpty,
    Spacing,
}

impl AnnotatedLine {
    /// The file and hunk that the row belongs to; a row outside any hunk has none.
    pub open spec fn hunk_key(self) -> Option<(usize, usize)> {
        match self {
            AnnotatedLine::DiffLine { file_idx, hunk_idx } => Some((file_idx, hunk_idx)),
            AnnotatedLine::SideBySideLine { file_idx, hunk_idx } => Some((file_idx, hunk_idx)),
            AnnotatedLine::HunkHeader { file_idx, hunk_idx } => Some((file_idx, hunk_idx)),
            _ => None,
        }
    }

    /// The file and hunk that the row belongs to.
    pub fn hunk_ref(&self) -> (res: Option<(usize, usize)>)
        ensures
            res == self.hunk_key(),
    {
        match *self {
            AnnotatedLine::DiffLine { file_idx, hunk_idx }
            | AnnotatedLine::SideBySideLine { file_idx, hunk_idx }
            | AnnotatedLine::HunkHeader { file_idx, hunk_idx } => Some((file_idx, hunk_idx)),
            // Listed by name, so that a new kind of row has to be placed here.
            AnnotatedLine::PrInfoLine
            | AnnotatedLine::IssueCommentsHeader
            | AnnotatedLine::IssueComment
            | AnnotatedLine::ReviewCommentsHeader
            | AnnotatedLine::ReviewComment
            | AnnotatedLine::RemoteReviewSummaryLine
            | AnnotatedLine::FileHeader
            | AnnotatedLine::ReviewedBanner
            | AnnotatedLine::FileComment
            | AnnotatedLine::Expander
            | AnnotatedLine::HiddenLines
            | AnnotatedLine::ExpandedContext
            | AnnotatedLine::LineComment
            | AnnotatedLine::RemoteThreadLine
            | AnnotatedLine::BinaryOrEmpty
            | AnnotatedLine::Spacing => None,
        }
    }
}

/// The hunks that rows belong to, row by row.
pub open spec fn row_hunks(rows: Seq<AnnotatedLine>) -> Seq<(usize, usize)>
    decreases rows.len(),
{
    if rows.len() == 0 {
        Seq::empty()
    } else {
        match rows.last().hunk_key() {
            Some(key) => row_hunks(rows.drop_last()).push(key),
            None => row_hunks(rows.drop_last()),
        }
    }
}

/// A sequence without the elements that repeat the one before them.
pub open spec fn without_repeats(keys: Seq<(usize, usize)>) -> Seq<(usize, usize)>
    decreases keys.len(),
{
    if keys.len() == 0 {
        Seq::empty()
    } else {
        let before = without_repeats(keys.drop_last());
        if before.len() > 0 && before.last() == keys.last() {
            before
        } else {
            before.push(keys.last())
        }
    }
}

/// The height of the viewport: one row at least.
pub open spec fn viewport_height(max_rows: int) -> int {
    if max_rows < 1 {
        1
    } else {
        max_rows
    }
}

/// The row that the viewport begins at, where there are `total` rows.
pub open spec fn first_row(total: int, scroll_offset: int) -> int {
    if scroll_offset < total {
        scroll_offset
    } else {
        total
    }
}

/// Where the window around the viewport begins: one screen above it.
pub open spec fn window_start(total: int, scroll_offset: int, max_rows: int) -> int {
    let start = first_row(total, scroll_offset) - viewport_height(max_rows);
    if start < 0 {
        0
    } else {
        start
    }
}

/// Where the window around the viewport ends: one screen below it.
pub open spec fn window_end(total: int, scroll_offset: int, max_rows: int) -> int {
    let end = first_row(total, scroll_offset) + 2 * viewport_height(max_rows);
    if end < total {
        end
    } else {
        total
    }
}

/// The hunks of the rows in and around the viewport, in the order of the rows.
pub open spec fn visible_hunks(
    rows: Seq<AnnotatedLine>,
    scroll_offset: int,
    max_rows: int,
) -> Seq<(usize, usize)> {
    let total = rows.len() as int;
    without_repeats(
        row_hunks(
            rows.subrange(
                window_start(total, scroll_offset, max_rows),
                window_end(total, scroll_offset, max_rows),
            ),
        ),
    )
}

/// A set of hunks.
#[derive(Debug, Clone)]
pub struct HunkSet {
    pub keys: Vec<(usize, usize)>,
}

impl View for HunkSet {
    type V = Set<(usize, usize)>;

    open spec fn view(&self) -> Set<(usize, usize)> {
        self.keys@.to_set()
    }
}

impl HunkSet {
    /// The empty set.
    pub fn new() -> (res: Self)
        ensures
            res@ == Set::<(usize, usize)>::empty(),
    {
        let res = HunkSet { keys: Vec::new() };
        assert(res@ =~= Set::<(usize, usize)>::empty());
        res
    }

    /// Whether the set holds a hunk.
    pub fn contains(&self, key: (usize, usize)) -> (res: bool)
        ensures
            res == self@.contains(key),
    {
        let mut i: usize = 0;
        while i < self.keys.len()
            invariant
                i <= self.keys@.len(),
                forall|j: int| 0 <= j < i ==> self.keys@[j] != key,
            decreases self.keys@.len() - i,
        {
            if self.keys[i].0 == key.0 && self.keys[i].1 == key.1 {
                assert(self.keys@[i as int] == key);
                return true;
            }
            i = i + 1;
        }
        false
    }

    /// Adds a hunk. Returns whether it is new.
    pub fn insert(&mut self, key: (usize, usize)) -> (res: bool)
        ensures
            final(self)@ == old(self)@.insert(key),
            res == !old(self)@.contains(key),
    {
        if self.contains(key) {
            assert(self@ =~= self@.insert(key));
            return false;
        }
        let ghost before = self.keys@;
        self.keys.push(key);
        proof {
            assert forall|k: (usize, usize)| #[trigger] self@.contains(k) == before.to_set().insert(
                key,
            ).contains(k) by {
                if k == key {
                    assert(self.keys@[before.len() as int] == key);
                } else if before.contains(k) {
                    let i = choose|i: int| 0 <= i < before.len() && before[i] == k;
                    assert(self.keys@[i] == k);
                }
            }
            assert(self@ =~= before.to_set().insert(key));
        }
        true
    }
}

/// The hunks of a list that a set does not hold, each at its first place.
pub open spec fn fresh_hunks(seen: Set<(usize, usize)>, keys: Seq<(usize, usize)>) -> Seq<
    (usize, usize),
>
    decreases keys.len(),
{
    if keys.len() == 0 {
        Seq::empty()
    } else {
        let before = fresh_hunks(seen, keys.drop_last());
        if seen.contains(keys.last()) || before.contains(keys.last()) {
            before
        } else {
            before.push(keys.last())
        }
    }
}

/// Where the diff view stands.
#[derive(Debug, Clone, Copy)]
pub struct DiffState {
    pub scroll_offset: usize,
}

/// The part of the application that colouring works on: the files under review, the rows that
/// show them, and the hunks that were visited since the rows were built.
#[derive(Debug, Clone)]
pub struct App {
    pub diff_files: Vec<DiffFile>,
    pub line_annotations: Vec<AnnotatedLine>,
    pub diff_state: DiffState,
    pub colored_hunks: HunkSet,
}

/// Whether no line of a hunk waits to be coloured.
pub open spec fn is_settled(hunk: HunkView) -> bool {
    forall|k: int| 0 <= k < hunk.lines.len() ==> !((#[trigger] hunk.lines[k]).coloring is Pending)
}

fn has_pending_line(hunk: &DiffHunk) -> (res: bool)
    ensures
        res == !is_settled(hunk@),
{
    let mut i: usize = 0;
    while i < hunk.lines.len()
        invariant
            i <= hunk.lines@.len(),
            forall|k: int| 0 <= k < i ==> !((#[trigger] hunk@.lines[k]).coloring is Pending),
        decreases hunk.lines@.len() - i,
    {
        assert(hunk@.lines[i as int] == hunk.lines@[i as int]@);
        if hunk.lines[i].coloring.is_pending() {
            return true;
        }
        i = i + 1;
    }
    false
}

/// Whether a file has a hunk that can be coloured: it has a path, and as many hunks.
pub open spec fn has_hunk(file: FileView, hunk_idx: int) -> bool {
    model::shown_path(file.old_path, file.new_path) is Some && 0 <= hunk_idx < file.hunks.len()
}

/// Whether `after` is what a visit can make of a hunk. Every pending line is coloured. Colours that
/// are there came from a pass over whole files, and those of the hunk on its own would be worse.
pub open spec fn is_visited<G: Fn(&str, &Vec<String>) -> Option<HighlightedLines>>(
    highlighter: SyntaxHighlighter<G>,
    file: FileView,
    before: HunkView,
    after: HunkView,
) -> bool {
    match model::shown_path(file.old_path, file.new_path) {
        Some(path) => if is_settled(before) {
            after == before
        } else {
            syntax::is_completed(highlighter, path, before, after)
        },
        None => after == before,
    }
}

/// Whether two files differ in their hunks at most, and have as many.
pub open spec fn same_but_hunks(before: FileView, after: FileView) -> bool {
    after == (FileView { hunks: after.hunks, ..before }) && after.hunks.len()
        == before.hunks.len()
}

fn visit_hunk<G: Fn(&str, &Vec<String>) -> Option<HighlightedLines>>(
    file: &mut DiffFile,
    hunk_idx: usize,
    highlighter: &SyntaxHighlighter<G>,
) -> (res: bool)
    requires
        highlighter.takes_any_file(),
    ensures
        res == has_hunk(old(file)@, hunk_idx as int),
        same_but_hunks(old(file)@, final(file)@),
        forall|k: int|
            0 <= k < old(file)@.hunks.len() ==> if k == hunk_idx {
                is_visited(
                    *highlighter,
                    old(file)@,
                    old(file)@.hunks[k],
                    #[trigger] final(file)@.hunks[k],
                )
            } else {
                final(file)@.hunks[k] == old(file)@.hunks[k]
            },
{
    let path = match file.display_path() {
        Some(path) => path.clone(),
        None => {
            return false;
        },
    };
    if hunk_idx >= file.hunks.len() {
        return false;
    }
    let ghost before = file@;
    assert(before.hunks[hunk_idx as int] == file.hunks@[hunk_idx as int]@);
    if has_pending_line(&file.hunks[hunk_idx]) {
        complete_hunk(&mut file.hunks[hunk_idx], path.as_str(), highlighter);
        proof {
            assert(file@.hunks[hunk_idx as int] == file.hunks@[hunk_idx as int]@);
            assert forall|k: int| 0 <= k < before.hunks.len() && k != hunk_idx implies #[trigger] file@.hunks[k]
                == before.hunks[k] by {}
        }
    }
    true
}

/// Whether a hunk stands at a place and can be visited there.
pub open spec fn can_visit(files: Seq<FileView>, key: (usize, usize)) -> bool {
    key.0 < files.len() && has_hunk(files[key.0 as int], key.1 as int)
}

/// Whether a list names hunk `h` of file `f`.
pub open spec fn names_hunk(keys: Seq<(usize, usize)>, f: int, h: int) -> bool {
    exists|i: int| 0 <= i < keys.len() && (#[trigger] keys[i]).0 == f && keys[i].1 == h
}

/// How many of the places have a hunk to visit.
pub open spec fn visits(files: Seq<FileView>, keys: Seq<(usize, usize)>) -> nat
    decreases keys.len(),
{
    if keys.len() == 0 {
        0
    } else {
        visits(files, keys.drop_last()) + (if can_visit(files, keys.last()) {
            1nat
        } else {
            0nat
        })
    }
}

/// Whether `after` are the files once the hunks at the given places have been visited, and no
/// others.
pub open spec fn all_visited<G: Fn(&str, &Vec<String>) -> Option<HighlightedLines>>(
    highlighter: SyntaxHighlighter<G>,
    keys: Seq<(usize, usize)>,
    before: Seq<FileView>,
    after: Seq<FileView>,
) -> bool {
    after.len() == before.len() && forall|f: int|
        0 <= f < before.len() ==> {
            &&& same_but_hunks(before[f], #[trigger] after[f])
            &&& forall|h: int|
                0 <= h < before[f].hunks.len() ==> if names_hunk(keys, f, h) {
                    is_visited(
                        highlighter,
                        before[f],
                        before[f].hunks[h],
                        #[trigger] after[f].hunks[h],
                    )
                } else {
                    after[f].hunks[h] == before[f].hunks[h]
                }
        }
}

/// The fresh hunks of a list are those that the set does not hold, each once.
pub proof fn lemma_fresh_hunks(seen: Set<(usize, usize)>, keys: Seq<(usize, usize)>)
    ensures
        fresh_hunks(seen, keys).no_duplicates(),
        forall|key: (usize, usize)|
            fresh_hunks(seen, keys).contains(key) <==> keys.contains(key) && !seen.contains(key),
    decreases keys.len(),
{
    let fresh = fresh_hunks(seen, keys);
    if keys.len() > 0 {
        let rest = keys.drop_last();
        let before = fresh_hunks(seen, rest);
        lemma_fresh_hunks(seen, rest);
        assert forall|key: (usize, usize)|
            fresh.contains(key) <==> keys.contains(key) && !seen.contains(key) by {
            assert(keys.contains(key) <==> rest.contains(key) || key == keys.last()) by {
                if keys.contains(key) && key != keys.last() {
                    let i = choose|i: int| 0 <= i < keys.len() && keys[i] == key;
                    assert(rest[i] == key);
                }
                if rest.contains(key) {
                    let i = choose|i: int| 0 <= i < rest.len() && rest[i] == key;
                    assert(keys[i] == key);
                }
                assert(keys[keys.len() - 1] == keys.last());
            }
            if fresh != before {
                assert(fresh[before.len() as int] == keys.last());
                if before.contains(key) {
                    let i = choose|i: int| 0 <= i < before.len() && before[i] == key;
                    assert(fresh[i] == key);
                }
                if fresh.contains(key) && key != keys.last() {
                    let i = choose|i: int| 0 <= i < fresh.len() && fresh[i] == key;
                    assert(before[i] == key);
                }
            }
        }
    }
}

/// Whether `after` is the application once the hunks of the window that were not visited before
/// have been visited.
pub open spec fn is_window_colored<G: Fn(&str, &Vec<String>) -> Option<HighlightedLines>>(
    highlighter: SyntaxHighlighter<G>,
    max_rows: usize,
    before: App,
    after: App,
) -> bool {
    let fresh = fresh_hunks(before.colored_hunks@, before.window(max_rows));
    &&& all_visited(
        highlighter,
        fresh,
        text::views(before.diff_files@),
        text::views(after.diff_files@),
    )
    &&& after.colored_hunks@ == before.colored_hunks@.union(before.window(max_rows).to_set())
    &&& after.line_annotations == before.line_annotations
    &&& after.diff_state == before.diff_state
}

impl App {
    /// The hunks of the rows in and around the viewport.
    pub open spec fn window(self, max_rows: usize) -> Seq<(usize, usize)> {
        visible_hunks(
            self.line_annotations@,
            self.diff_state.scroll_offset as int,
            max_rows as int,
        )
    }

    /// The hunks of the window around the viewport, as pairs of a file and a hunk, in the order
    /// of the rows. The window reaches one screen past the viewport on either side, so that
    /// scrolling by a page never lands on a hunk outside it.
    pub fn visible_hunk_indices(&self, max_rows: usize) -> (res: Vec<(usize, usize)>)
        requires
            2 * viewport_height(max_rows as int) <= usize::MAX,
        ensures
            res@ == self.window(max_rows),
    {
        let height: usize = if max_rows < 1 {
            1
        } else {
            max_rows
        };
        let len: usize = self.line_annotations.len();
        let offset: usize = if self.diff_state.scroll_offset < len {
            self.diff_state.scroll_offset
        } else {
            len
        };
        let start: usize = if offset < height {
            0
        } else {
            offset - height
        };
        let margin: usize = height * 2;
        let end: usize = if len - offset <= margin {
            len
        } else {
            offset + margin
        };
        let ghost rows = self.line_annotations@.subrange(start as int, end as int);
        let mut hunks: Vec<(usize, usize)> = Vec::new();
        let mut i: usize = start;
        proof {
            assert(rows.take(0) == Seq::<AnnotatedLine>::empty());
        }
        while i < end
            invariant
                start <= i <= end <= self.line_annotations@.len(),
                rows == self.line_annotations@.subrange(start as int, end as int),
                hunks@ == without_repeats(row_hunks(rows.take(i - start))),
            decreases end - i,
        {
            proof {
                assert(rows.take(i + 1 - start).drop_last() == rows.take(i - start));
                assert(rows.take(i + 1 - start).last() == self.line_annotations@[i as int]);
            }
            if let Some(key) = self.line_annotations[i].hunk_ref() {
                proof {
                    let keys = row_hunks(rows.take(i - start)).push(key);
                    assert(keys.drop_last() == row_hunks(rows.take(i - start)));
                }
                let repeated = hunks.len() > 0 && hunks[hunks.len() - 1].0 == key.0
                    && hunks[hunks.len() - 1].1 == key.1;
                if !repeated {
                    hunks.push(key);
                }
            }
            i = i + 1;
        }
        assert(rows.take(end - start) == rows);
        hunks
    }

    /// Colours the hunks in and around the viewport that were not visited since the rows were
    /// built. Returns how many hunks it visited. Drawing calls this before it builds any line, so
    /// that a frame shows no pending line.
    pub fn color_visible_hunks<G: Fn(&str, &Vec<String>) -> Option<HighlightedLines>>(
        &mut self,
        max_rows: usize,
        highlighter: &SyntaxHighlighter<G>,
    ) -> (res: usize)
        requires
            2 * viewport_height(max_rows as int) <= usize::MAX,
            highlighter.takes_any_file(),
        ensures
            is_window_colored(*highlighter, max_rows, *old(self), *final(self)),
            res == visits(
                text::views(old(self).diff_files@),
                fresh_hunks(old(self).colored_hunks@, old(self).window(max_rows)),
            ),
    {
        let visible = self.visible_hunk_indices(max_rows);
        let ghost seen = self.colored_hunks@;
        let ghost before = text::views(self.diff_files@);
        let mut unvisited: Vec<(usize, usize)> = Vec::new();
        let mut i: usize = 0;
        proof {
            assert(visible@.take(0) == Seq::<(usize, usize)>::empty());
            assert(seen.union(visible@.take(0).to_set()) =~= seen);
        }
        while i < visible.len()
            invariant
                i <= visible@.len(),
                visible@ == old(self).window(max_rows),
                seen == old(self).colored_hunks@,
                before == text::views(old(self).diff_files@),
                unvisited@ == fresh_hunks(seen, visible@.take(i as int)),
                self.colored_hunks@ == seen.union(visible@.take(i as int).to_set()),
                self.diff_files == old(self).diff_files,
                self.line_annotations == old(self).line_annotations,
                self.diff_state == old(self).diff_state,
            decreases visible@.len() - i,
        {
            let key = visible[i];
            let ghost done = visible@.take(i as int);
            proof {
                let next = visible@.take(i + 1);
                assert(next.drop_last() == done);
                lemma_fresh_hunks(seen, done);
                assert forall|k: (usize, usize)| #[trigger] next.to_set().contains(k)
                    == done.to_set().insert(key).contains(k) by {
                    if next.contains(k) && k != key {
                        let j = choose|j: int| 0 <= j < next.len() && next[j] == k;
                        assert(done[j] == k);
                    }
                    if done.contains(k) {
                        let j = choose|j: int| 0 <= j < done.len() && done[j] == k;
                        assert(next[j] == k);
                    }
                    assert(next[i as int] == key);
                }
                assert(next.to_set() =~= done.to_set().insert(key));
                assert(seen.union(done.to_set()).insert(key) =~= seen.union(next.to_set()));
            }
            if self.colored_hunks.insert(key) {
                unvisited.push(key);
            }
            i = i + 1;
        }
        assert(visible@.take(visible@.len() as int) == visible@);
        proof {
            lemma_fresh_hunks(seen, visible@);
        }
        let mut count: usize = 0;
        let mut j: usize = 0;
        proof {
            assert(unvisited@.take(0) == Seq::<(usize, usize)>::empty());
        }
        while j < unvisited.len()
            invariant
                j <= unvisited@.len(),
                count <= j,
                highlighter.takes_any_file(),
                unvisited@.no_duplicates(),
                count == visits(before, unvisited@.take(j as int)),
                all_visited(
                    *highlighter,
                    unvisited@.take(j as int),
                    before,
                    text::views(self.diff_files@),
                ),
                self.line_annotations == old(self).line_annotations,
                self.diff_state == old(self).diff_state,
                self.colored_hunks@ == seen.union(visible@.to_set()),
            decreases unvisited@.len() - j,
        {
            let (file_idx, hunk_idx) = unvisited[j];
            let ghost done = unvisited@.take(j as int);
            let ghost next = unvisited@.take(j + 1);
            let ghost current = text::views(self.diff_files@);
            proof {
                assert(next.drop_last() == done);
                assert(next.last() == (file_idx, hunk_idx));
                assert(!done.contains((file_idx, hunk_idx))) by {
                    if done.contains((file_idx, hunk_idx)) {
                        let m = choose|m: int|
                            0 <= m < done.len() && done[m] == (file_idx, hunk_idx);
                        assert(unvisited@[m] == unvisited@[j as int]);
                    }
                }
                assert forall|f: int, h: int| #[trigger] names_hunk(next, f, h) <==> names_hunk(
                    done,
                    f,
                    h,
                ) || (f == file_idx && h == hunk_idx) by {
                    if names_hunk(next, f, h) && !(f == file_idx && h == hunk_idx) {
                        let m = choose|m: int|
                            0 <= m < next.len() && (#[trigger] next[m]).0 == f && next[m].1 == h;
                        assert(done[m] == next[m]);
                    }
                    if names_hunk(done, f, h) {
                        let m = choose|m: int|
                            0 <= m < done.len() && (#[trigger] done[m]).0 == f && done[m].1 == h;
                        assert(next[m] == done[m]);
                    }
                    assert(next[j as int] == (file_idx, hunk_idx));
                }
                assert(!names_hunk(done, file_idx as int, hunk_idx as int));
            }
            if file_idx < self.diff_files.len() {
                proof {
                    assert(current[file_idx as int] == self.diff_files@[file_idx as int]@);
                    assert(same_but_hunks(before[file_idx as int], current[file_idx as int]));
                }
                let visited = visit_hunk(&mut self.diff_files[file_idx], hunk_idx, highlighter);
                if visited {
                    count = count + 1;
                }
                proof {
                    let after = text::views(self.diff_files@);
                    assert(after[file_idx as int] == self.diff_files@[file_idx as int]@);
                    assert forall|f: int| 0 <= f < before.len() implies {
                        &&& same_but_hunks(before[f], #[trigger] after[f])
                        &&& forall|h: int|
                            0 <= h < before[f].hunks.len() ==> if names_hunk(next, f, h) {
                                is_visited(
                                    *highlighter,
                                    before[f],
                                    before[f].hunks[h],
                                    #[trigger] after[f].hunks[h],
                                )
                            } else {
                                after[f].hunks[h] == before[f].hunks[h]
                            }
                    } by {
                        assert(same_but_hunks(before[f], current[f]));
                        if f != file_idx {
                            assert(after[f] == current[f]);
                        }
                        assert forall|h: int| 0 <= h < before[f].hunks.len() implies if names_hunk(next, f, h) {
                            is_visited(
                                *highlighter,
                                before[f],
                                before[f].hunks[h],
                                #[trigger] after[f].hunks[h],
                            )
                        } else {
                            after[f].hunks[h] == before[f].hunks[h]
                        } by {
                            let settled = current[f].hunks[h];
                            assert(0 <= h < current[f].hunks.len());
                        }
                    }
                }
            } else {
                proof {
                    assert forall|f: int| 0 <= f < before.len() implies {
                        &&& same_but_hunks(before[f], #[trigger] current[f])
                        &&& forall|h: int|
                            0 <= h < before[f].hunks.len() ==> if names_hunk(next, f, h) {
                                is_visited(
                                    *highlighter,
                                    before[f],
                                    before[f].hunks[h],
                                    #[trigger] current[f].hunks[h],
                                )
                            } else {
                                current[f].hunks[h] == before[f].hunks[h]
                            }
                    } by {
                        assert(f != file_idx);
                    }
                }
            }
            j = j + 1;
        }
        assert(unvisited@.take(unvisited@.len() as int) == unvisited@);
        count
    }

    /// Colours the hunks around the viewport once more, where drawing the diff has moved it from
    /// the row that it began at: keeping a comment box on screen can do that. Returns whether it
    /// was moved, so that the diff has to be drawn again.
    pub fn color_scrolled_view<G: Fn(&str, &Vec<String>) -> Option<HighlightedLines>>(
        &mut self,
        drawn_offset: usize,
        max_rows: usize,
        highlighter: &SyntaxHighlighter<G>,
    ) -> (res: bool)
        requires
            2 * viewport_height(max_rows as int) <= usize::MAX,
            highlighter.takes_any_file(),
        ensures
            res == (old(self).diff_state.scroll_offset != drawn_offset),
            if res {
                is_window_colored(*highlighter, max_rows, *old(self), *final(self))
            } else {
                *final(self) == *old(self)
            },
    {
        if self.diff_state.scroll_offset == drawn_offset {
            return false;
        }
        self.color_visible_hunks(max_rows, highlighter);
        true
    }

    /// Puts new rows in place. The hunks that were visited before may be others now, so none
    /// counts as visited.
    pub fn rebuild_annotations(&mut self, annotations: Vec<AnnotatedLine>)
        ensures
            final(self).line_annotations == annotations,
            final(self).colored_hunks@ == Set::<(usize, usize)>::empty(),
            final(self).diff_files == old(self).diff_files,
            final(self).diff_state == old(self).diff_state,
    {
        self.line_annotations = annotations;
        self.colored_hunks = HunkSet::new();
    }
}

} // verus!
