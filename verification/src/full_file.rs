//! Colouring from whole files, for grammars that a hunk on its own cannot feed.
//!
//! A pass runs in three phases. It fetches the contents of both sides of every file that needs
//! it, highlights them, and puts the spans on the lines of the diff. A line whose side could not
//! be fetched, or is too long to be highlighted, is left as it is for the pass over single hunks.

use vstd::prelude::*;
use crate::contents;
use crate::contents::{ContentSource, Fetch};
use crate::model;
use crate::model::{
    ColoringView,
    DiffFile,
    DiffHunk,
    FileView,
    HunkView,
    LineOrigin,
    LineSide,
    LineView,
    SpanView,
};
use crate::record;
use crate::syntax;
use crate::syntax::{settle, DiffBackgrounds, HighlightedLines, SyntaxHighlighter};
use crate::text;

verus! {

/// Contents of more bytes than this are not highlighted as a whole.
pub const MAX_HIGHLIGHT_FILE_BYTES: usize = 1024 * 1024;

/// What highlighting gave for one side of a file.
pub enum SideHighlight {
    /// There was nothing to highlight, or too much.
    Unavailable,
    /// The side was there, but there is nothing to show for it.
    Nothing,
    /// The spans of each line.
    Lines(HighlightedLines),
}

/// The view of what highlighting gave for one side of a file.
pub enum SideView {
    Unavailable,
    Nothing,
    Lines(Seq<Option<Seq<SpanView>>>),
}

impl View for SideHighlight {
    type V = SideView;

    open spec fn view(&self) -> SideView {
        match self {
            SideHighlight::Unavailable => SideView::Unavailable,
            SideHighlight::Nothing => SideView::Nothing,
            SideHighlight::Lines(lines) => SideView::Lines(syntax::highlight_view(*lines)),
        }
    }
}

impl SideView {
    /// The spans of each line, where there are any.
    pub open spec fn lines(self) -> Option<Seq<Option<Seq<SpanView>>>> {
        match self {
            SideView::Lines(lines) => Some(lines),
            _ => None,
        }
    }
}

/// Where a line number, which counts from one, stands among the lines of its side.
pub open spec fn line_index(lineno: Option<u32>) -> Option<int> {
    match lineno {
        Some(n) => Some(if n == 0 {
            0
        } else {
            n - 1
        }),
        None => None,
    }
}

fn index_of_line(lineno: Option<u32>) -> (res: Option<usize>)
    ensures
        syntax::as_position(res) == line_index(lineno),
{
    match lineno {
        Some(n) => Some(
            if n == 0 {
                0
            } else {
                (n - 1) as usize
            },
        ),
        None => None,
    }
}

/// The colouring of a line from whole files. A line whose side is not available keeps its own.
pub open spec fn whole_file_coloring(
    line: LineView,
    old: SideView,
    new: SideView,
    backgrounds: DiffBackgrounds,
) -> ColoringView {
    let side = if line.origin == LineOrigin::Deletion {
        old
    } else {
        new
    };
    if side is Unavailable {
        line.coloring
    } else {
        syntax::settled(
            backgrounds.line_spans(
                old.lines(),
                new.lines(),
                line_index(line.old_lineno),
                line_index(line.new_lineno),
                line.origin,
            ),
        )
    }
}

/// A hunk, coloured from whole files.
pub open spec fn whole_file_hunk(
    hunk: HunkView,
    old: SideView,
    new: SideView,
    backgrounds: DiffBackgrounds,
) -> HunkView {
    HunkView {
        lines: hunk.lines.map_values(
            |line: LineView|
                syntax::recolored(line, whole_file_coloring(line, old, new, backgrounds)),
        ),
        ..hunk
    }
}

/// A file, coloured from its two sides as a whole.
pub open spec fn whole_file_colored(
    file: FileView,
    old: SideView,
    new: SideView,
    backgrounds: DiffBackgrounds,
) -> FileView {
    FileView {
        hunks: file.hunks.map_values(
            |hunk: HunkView| whole_file_hunk(hunk, old, new, backgrounds),
        ),
        ..file
    }
}

impl SideHighlight {
    /// The spans of each line, where there are any.
    fn lines(&self) -> (res: Option<&HighlightedLines>)
        ensures
            syntax::borrowed_highlight(res) == self@.lines(),
    {
        match self {
            SideHighlight::Lines(lines) => Some(lines),
            _ => None,
        }
    }

    fn is_available(&self) -> (res: bool)
        ensures
            res == !(self@ is Unavailable),
    {
        match self {
            SideHighlight::Unavailable => false,
            _ => true,
        }
    }
}

fn apply_to_hunk(
    hunk: &mut DiffHunk,
    backgrounds: &DiffBackgrounds,
    old_side: &SideHighlight,
    new_side: &SideHighlight,
)
    ensures
        final(hunk)@ == whole_file_hunk(old(hunk)@, old_side@, new_side@, *backgrounds),
{
    let ghost before = hunk@;
    let ghost target = whole_file_hunk(before, old_side@, new_side@, *backgrounds);
    let total: usize = hunk.lines.len();
    let mut i: usize = 0;
    while i < total
        invariant
            i <= total,
            total == before.lines.len(),
            hunk@.lines.len() == total,
            target == whole_file_hunk(before, old_side@, new_side@, *backgrounds),
            hunk@ == (HunkView { lines: hunk@.lines, ..before }),
            forall|k: int| 0 <= k < i ==> hunk@.lines[k] == target.lines[k],
            forall|k: int| i <= k < total ==> hunk@.lines[k] == before.lines[k],
        decreases total - i,
    {
        let ghost current = hunk@.lines;
        proof {
            assert(current[i as int] == hunk.lines@[i as int]@);
        }
        let origin = hunk.lines[i].origin;
        let side = match origin {
            LineOrigin::Deletion => old_side,
            _ => new_side,
        };
        if side.is_available() {
            let spans = backgrounds.highlighted_line_for_diff_with_background(
                old_side.lines(),
                new_side.lines(),
                index_of_line(hunk.lines[i].old_lineno),
                index_of_line(hunk.lines[i].new_lineno),
                origin,
            );
            hunk.lines[i].coloring = settle(spans);
        }
        proof {
            assert(hunk@.lines[i as int] == hunk.lines@[i as int]@);
            assert forall|k: int| 0 <= k < total && k != i implies hunk@.lines[k]
                == current[k] by {}
        }
        i = i + 1;
    }
    assert(hunk@.lines =~= target.lines);
}

/// Puts the spans of whole files on the lines of a file. A line that they give nothing for is
/// marked plain: a later pass over single hunks would only guess.
pub fn apply_full_file_spans(
    file: &mut DiffFile,
    backgrounds: &DiffBackgrounds,
    old_side: &SideHighlight,
    new_side: &SideHighlight,
)
    ensures
        final(file)@ == whole_file_colored(old(file)@, old_side@, new_side@, *backgrounds),
{
    let ghost before = file@;
    let ghost target = whole_file_colored(before, old_side@, new_side@, *backgrounds);
    let total: usize = file.hunks.len();
    let mut h: usize = 0;
    while h < total
        invariant
            h <= total,
            total == before.hunks.len(),
            file@.hunks.len() == total,
            target == whole_file_colored(before, old_side@, new_side@, *backgrounds),
            file@ == (FileView { hunks: file@.hunks, ..before }),
            forall|k: int| 0 <= k < h ==> file@.hunks[k] == target.hunks[k],
            forall|k: int| h <= k < total ==> file@.hunks[k] == before.hunks[k],
        decreases total - h,
    {
        let ghost current = file@.hunks;
        proof {
            assert(current[h as int] == file.hunks@[h as int]@);
        }
        apply_to_hunk(&mut file.hunks[h], backgrounds, old_side, new_side);
        proof {
            assert(file@.hunks[h as int] == file.hunks@[h as int]@);
            assert forall|k: int| 0 <= k < total && k != h implies file@.hunks[k]
                == current[k] by {}
        }
        h = h + 1;
    }
    assert(file@.hunks =~= target.hunks);
}

/// A file after the pass: untouched where neither side gave spans.
pub open spec fn enhanced_file(
    file: FileView,
    old: SideView,
    new: SideView,
    backgrounds: DiffBackgrounds,
) -> FileView {
    if old is Lines || new is Lines {
        whole_file_colored(file, old, new, backgrounds)
    } else {
        file
    }
}

/// The lines of a file, as they are highlighted.
pub open spec fn content_lines(content: Seq<char>) -> Seq<Seq<char>> {
    text::lines(content).map_values(|line: Seq<char>| text::tabified(line))
}

/// The lines of a file, as they are highlighted.
fn tabified_lines(content: &str) -> (res: Vec<String>)
    ensures
        text::views(res@) == content_lines(content@),
{
    let chars = text::chars_of(content);
    let lines = text::split_lines(chars.as_slice());
    let mut res: Vec<String> = Vec::new();
    let mut i: usize = 0;
    while i < lines.len()
        invariant
            i <= lines@.len(),
            text::views(lines@) == text::lines(content@),
            res@.len() == i,
            forall|k: int| 0 <= k < i ==> (#[trigger] res@[k])@ == text::tabified(lines@[k]@),
        decreases lines@.len() - i,
    {
        res.push(text::expand_tabs(lines[i].as_slice()));
        i = i + 1;
    }
    proof {
        assert forall|k: int| 0 <= k < res@.len() implies text::views(res@)[k] == content_lines(
            content@,
        )[k] by {
            assert(text::views(lines@)[k] == lines@[k]@);
        }
        assert(text::views(res@) =~= content_lines(content@));
    }
    res
}

/// Whether contents are too long to be highlighted as a whole.
pub open spec fn is_oversized(content: Seq<char>) -> bool {
    vstd::utf8::encode_utf8(content).len() > MAX_HIGHLIGHT_FILE_BYTES
}

/// Whether contents hold a NUL, as binary files do.
pub open spec fn holds_nul(content: Seq<char>) -> bool {
    content.contains('\0')
}

fn has_nul(content: &str) -> (res: bool)
    ensures
        res == holds_nul(content@),
{
    let chars = text::chars_of(content);
    let mut i: usize = 0;
    while i < chars.len()
        invariant
            i <= chars@.len(),
            chars@ == content@,
            forall|k: int| 0 <= k < i ==> chars@[k] != '\0',
        decreases chars@.len() - i,
    {
        if chars[i] == '\0' {
            assert(content@[i as int] == '\0');
            return true;
        }
        i = i + 1;
    }
    false
}

/// Whether `side` is what highlighting can give for the contents of one side of a file.
pub open spec fn content_gives<G: Fn(&str, &Vec<String>) -> Option<HighlightedLines>>(
    grammar: G,
    path: Seq<char>,
    content: Option<Seq<char>>,
    side: SideView,
) -> bool {
    match content {
        None => side is Unavailable,
        Some(content) => if is_oversized(content) {
            side is Unavailable
        } else if holds_nul(content) {
            side is Nothing
        } else {
            exists|out: Option<HighlightedLines>|
                #[trigger] syntax::grammar_gives(grammar, path, content_lines(content), out)
                    && side == (match out {
                    Some(lines) => SideView::Lines(syntax::highlight_view(lines)),
                    None => SideView::Nothing,
                })
        },
    }
}

/// Highlights the contents of one side of a file.
pub fn highlight_content<G: Fn(&str, &Vec<String>) -> Option<HighlightedLines>>(
    highlighter: &SyntaxHighlighter<G>,
    path: &str,
    content: &Option<String>,
) -> (res: SideHighlight)
    requires
        highlighter.takes_any_file(),
    ensures
        content_gives(highlighter.grammar, path@, text::opt_view(*content), res@),
{
    let content: &str = match content {
        Some(content) => content.as_str(),
        None => {
            return SideHighlight::Unavailable;
        },
    };
    if content.as_bytes().len() > MAX_HIGHLIGHT_FILE_BYTES {
        return SideHighlight::Unavailable;
    }
    if has_nul(content) {
        return SideHighlight::Nothing;
    }
    let lines = tabified_lines(content);
    let out = highlighter.highlight_file_lines(path, &lines);
    proof {
        assert(syntax::grammar_gives(highlighter.grammar, path@, content_lines(content@), out));
    }
    match out {
        Some(lines) => SideHighlight::Lines(lines),
        None => SideHighlight::Nothing,
    }
}

/// A file to highlight: where it stands among the files, and the contents of its two sides.
#[derive(Debug, Clone)]
pub struct HighlightJob {
    pub file_idx: usize,
    pub syntax_path: String,
    pub old_content: Option<String>,
    pub new_content: Option<String>,
}

/// What highlighting gave for the two sides of a file.
pub struct HighlightResult {
    pub file_idx: usize,
    pub old: SideHighlight,
    pub new: SideHighlight,
}

/// Whether a result is one that a job can give.
pub open spec fn job_gives<G: Fn(&str, &Vec<String>) -> Option<HighlightedLines>>(
    grammar: G,
    job: HighlightJob,
    result: HighlightResult,
) -> bool {
    &&& result.file_idx == job.file_idx
    &&& content_gives(
        grammar,
        job.syntax_path@,
        text::opt_view(job.old_content),
        result.old@,
    )
    &&& content_gives(
        grammar,
        job.syntax_path@,
        text::opt_view(job.new_content),
        result.new@,
    )
}

/// Highlights both sides of one file.
pub fn highlight_single_job<G: Fn(&str, &Vec<String>) -> Option<HighlightedLines>>(
    job: &HighlightJob,
    highlighter: &SyntaxHighlighter<G>,
) -> (res: HighlightResult)
    requires
        highlighter.takes_any_file(),
    ensures
        job_gives(highlighter.grammar, *job, res),
{
    let path = job.syntax_path.as_str();
    let old_side = highlight_content(highlighter, path, &job.old_content);
    let new_side = highlight_content(highlighter, path, &job.new_content);
    HighlightResult { file_idx: job.file_idx, old: old_side, new: new_side }
}

/// Highlights the files one after the other.
pub fn highlight_jobs<G: Fn(&str, &Vec<String>) -> Option<HighlightedLines>>(
    jobs: &Vec<HighlightJob>,
    highlighter: &SyntaxHighlighter<G>,
) -> (res: Vec<HighlightResult>)
    requires
        highlighter.takes_any_file(),
    ensures
        res@.len() == jobs@.len(),
        forall|j: int|
            0 <= j < jobs@.len() ==> job_gives(
                highlighter.grammar,
                jobs@[j],
                #[trigger] res@[j],
            ),
{
    let mut res: Vec<HighlightResult> = Vec::new();
    let mut i: usize = 0;
    while i < jobs.len()
        invariant
            i <= jobs@.len(),
            res@.len() == i,
            highlighter.takes_any_file(),
            forall|j: int|
                0 <= j < i ==> job_gives(highlighter.grammar, jobs@[j], #[trigger] res@[j]),
        decreases jobs@.len() - i,
    {
        res.push(highlight_single_job(&jobs[i], highlighter));
        i = i + 1;
    }
    res
}

/// How many workers share the jobs.
pub open spec fn workers(available: int, jobs: int) -> int {
    if available < jobs {
        available
    } else {
        jobs
    }
}

/// The length of the run of jobs that each worker takes, or nothing where one worker does them
/// all: the shortest for which no more workers are needed than there are.
pub fn chunk_size(available: usize, jobs: usize) -> (res: Option<usize>)
    ensures
        match res {
            Some(size) => workers(available as int, jobs as int) > 1 && (size - 1) * workers(
                available as int,
                jobs as int,
            ) < jobs <= size * workers(available as int, jobs as int),
            None => workers(available as int, jobs as int) <= 1,
        },
{
    let parallelism: usize = if available < jobs {
        available
    } else {
        jobs
    };
    if parallelism <= 1 {
        return None;
    }
    let whole: usize = jobs / parallelism;
    let rest: usize = jobs % parallelism;
    proof {
        let p = parallelism as int;
        vstd::arithmetic::div_mod::lemma_fundamental_div_mod(jobs as int, p);
        assert(p * whole == whole * p) by (nonlinear_arith);
        assert((whole + 1) * p == whole * p + p) by (nonlinear_arith);
        assert((whole - 1) * p == whole * p - p) by (nonlinear_arith);
        assert(rest < parallelism);
        assert(whole < jobs) by (nonlinear_arith)
            requires
                jobs == p * whole + rest,
                p > 1,
                jobs > 0,
                rest >= 0,
                whole >= 0,
        ;
    }
    if rest == 0 {
        Some(whole)
    } else {
        Some(whole + 1)
    }
}

/// The path under which a file may be highlighted as a whole: a file without text to colour has
/// none.
pub open spec fn candidate_path(file: FileView) -> Option<Seq<char>> {
    if file.is_binary || file.is_too_large || file.hunks.len() == 0 {
        None
    } else {
        model::shown_path(file.old_path, file.new_path)
    }
}

/// The path under which a file may be highlighted as a whole.
pub fn highlight_candidate(file: &DiffFile) -> (res: Option<&String>)
    ensures
        match res {
            Some(path) => candidate_path(file@) == Some(path@) && model::shown_path(
                file.old_path,
                file.new_path,
            ) == Some(*path),
            None => candidate_path(file@) is None,
        },
{
    if file.is_binary || file.is_too_large || file.hunks.len() == 0 {
        return None;
    }
    file.display_path()
}

/// Whether `needed` is what `needs` can say of a path.
pub open spec fn need_told<N: Fn(&str) -> bool>(needs: N, path: Seq<char>, needed: bool) -> bool {
    exists|name: &str| name@ == path && #[trigger] needs.ensures((name,), needed)
}

/// Whether `needed` is what `needs` can say of the files.
pub open spec fn needs_told<N: Fn(&str) -> bool>(
    needs: N,
    files: Seq<FileView>,
    needed: Seq<bool>,
) -> bool {
    needed.len() == files.len() && forall|i: int|
        0 <= i < files.len() ==> (candidate_path(#[trigger] files[i]) matches Some(path)
            ==> need_told(needs, path, needed[i]))
}

/// Asks whether a file needs to be highlighted as a whole. A file that cannot be is not asked for.
pub fn ask_need<N: Fn(&str) -> bool>(needs: &N, file: &DiffFile) -> (res: bool)
    requires
        contents::takes_any_path(*needs),
    ensures
        match candidate_path(file@) {
            Some(path) => need_told(*needs, path, res),
            None => !res,
        },
{
    match highlight_candidate(file) {
        Some(path) => {
            let name = path.as_str();
            let needed = needs(name);
            assert(needs.ensures((name,), needed));
            needed
        },
        None => false,
    }
}

/// Whether a file is highlighted as a whole, where `needed` says whether its grammar needs that.
pub open spec fn is_wanted(file: FileView, needed: bool) -> bool {
    candidate_path(file) is Some && needed
}

/// The fetches that a file asks for: the side and the path of each. A side without a path is not
/// fetched.
pub open spec fn file_requests(file: FileView) -> Seq<(LineSide, Seq<char>)> {
    let old = match file.old_path {
        Some(path) => seq![(LineSide::Old, path)],
        None => Seq::empty(),
    };
    let new = match file.new_path {
        Some(path) => seq![(LineSide::New, path)],
        None => Seq::empty(),
    };
    old + new
}

/// The fetches that files ask for, in order: none for a file that is passed over.
pub open spec fn all_requests(files: Seq<FileView>, needed: Seq<bool>) -> Seq<
    (LineSide, Seq<char>),
>
    decreases files.len(),
{
    if files.len() == 0 {
        Seq::empty()
    } else {
        let before = all_requests(files.drop_last(), needed);
        if is_wanted(files.last(), needed[files.len() - 1]) {
            before + file_requests(files.last())
        } else {
            before
        }
    }
}

/// What was asked for in the given fetches.
pub open spec fn requests_of(fetches: Seq<Fetch>) -> Seq<(LineSide, Seq<char>)> {
    fetches.map_values(|fetch: Fetch| (fetch.side, fetch.path))
}

/// The old contents of a file whose fetches begin at `at`.
pub open spec fn old_content_at(file: FileView, fetches: Seq<Fetch>, at: int) -> Option<Seq<char>> {
    if file.old_path is Some {
        fetches[at].content
    } else {
        None
    }
}

/// The new contents of a file whose fetches begin at `at`: they come after those of the old side.
pub open spec fn new_content_at(file: FileView, fetches: Seq<Fetch>, at: int) -> Option<Seq<char>> {
    if file.new_path is Some {
        fetches[if file.old_path is Some {
            at + 1
        } else {
            at
        }].content
    } else {
        None
    }
}

/// Where the fetches of file `i` begin.
pub open spec fn fetches_begin(files: Seq<FileView>, needed: Seq<bool>, i: int) -> int {
    all_requests(files.take(i), needed).len() as int
}

/// Whether a job is the one for file `i`.
pub open spec fn is_job_for(
    files: Seq<FileView>,
    needed: Seq<bool>,
    fetches: Seq<Fetch>,
    i: int,
    job: HighlightJob,
) -> bool {
    let at = fetches_begin(files, needed, i);
    &&& is_wanted(files[i], needed[i])
    &&& candidate_path(files[i]) == Some(job.syntax_path@)
    &&& text::opt_view(job.old_content) == old_content_at(files[i], fetches, at)
    &&& text::opt_view(job.new_content) == new_content_at(files[i], fetches, at)
}

/// Whether file `i` needs no job: it is passed over, or neither side could be fetched.
pub open spec fn needs_no_job(
    files: Seq<FileView>,
    needed: Seq<bool>,
    fetches: Seq<Fetch>,
    i: int,
) -> bool {
    let at = fetches_begin(files, needed, i);
    is_wanted(files[i], needed[i]) ==> old_content_at(files[i], fetches, at) is None
        && new_content_at(files[i], fetches, at) is None
}

/// Whether file `i` has a job.
pub open spec fn has_job(jobs: Seq<HighlightJob>, i: int) -> bool {
    exists|j: int| 0 <= j < jobs.len() && (#[trigger] jobs[j]).file_idx == i
}

/// Whether jobs stand in the order of their files, one for a file at most.
pub open spec fn in_file_order(jobs: Seq<HighlightJob>) -> bool {
    forall|j: int, k: int|
        0 <= j < k < jobs.len() ==> (#[trigger] jobs[j]).file_idx < (#[trigger] jobs[k]).file_idx
}

/// Whether these are the jobs of the first `n` files.
pub open spec fn are_jobs_of(
    files: Seq<FileView>,
    needed: Seq<bool>,
    fetches: Seq<Fetch>,
    n: int,
    jobs: Seq<HighlightJob>,
) -> bool {
    &&& in_file_order(jobs)
    &&& forall|j: int|
        0 <= j < jobs.len() ==> (#[trigger] jobs[j]).file_idx < n && is_job_for(
            files,
            needed,
            fetches,
            jobs[j].file_idx as int,
            jobs[j],
        ) && (jobs[j].old_content is Some || jobs[j].new_content is Some)
    &&& forall|i: int|
        0 <= i < n ==> #[trigger] has_job(jobs, i) || needs_no_job(files, needed, fetches, i)
}

/// Whether the given fetches are those that the files ask for and that a source can give.
pub open spec fn are_fetches_of(
    gives: spec_fn(Fetch) -> bool,
    files: Seq<FileView>,
    needed: Seq<bool>,
    fetches: Seq<Fetch>,
) -> bool {
    &&& requests_of(fetches) == all_requests(files, needed)
    &&& forall|k: int| 0 <= k < fetches.len() ==> gives(#[trigger] fetches[k])
}

/// What a source can give.
pub open spec fn gives_of<S: ContentSource>(source: S) -> spec_fn(Fetch) -> bool {
    |fetch: Fetch| source.can_give(fetch)
}

proof fn lemma_requests_prefix(files: Seq<FileView>, needed: Seq<bool>, longer: Seq<bool>)
    requires
        needed.len() >= files.len(),
        longer.len() >= files.len(),
        forall|i: int| 0 <= i < files.len() ==> needed[i] == longer[i],
    ensures
        all_requests(files, needed) == all_requests(files, longer),
    decreases files.len(),
{
    if files.len() > 0 {
        lemma_requests_prefix(files.drop_last(), needed, longer);
    }
}

proof fn lemma_requests_grow(files: Seq<FileView>, needed: Seq<bool>, i: int)
    requires
        0 <= i < files.len(),
    ensures
        is_wanted(files[i], needed[i]) ==> fetches_begin(files, needed, i) + file_requests(
            files[i],
        ).len() <= all_requests(files, needed).len(),
        fetches_begin(files, needed, i) <= all_requests(files, needed).len(),
    decreases files.len(),
{
    let rest = files.drop_last();
    if i < files.len() - 1 {
        assert(rest.take(i) == files.take(i));
        lemma_requests_grow(rest, needed, i);
    } else {
        assert(files.take(i) == rest);
    }
}

/// The jobs of the first files stay what they are when more is fetched.
proof fn lemma_jobs_kept(
    all: Seq<FileView>,
    n: int,
    needed: Seq<bool>,
    longer: Seq<bool>,
    fetches: Seq<Fetch>,
    more: Seq<Fetch>,
    jobs: Seq<HighlightJob>,
)
    requires
        0 <= n < all.len(),
        needed.len() == n,
        longer.len() == n + 1,
        forall|i: int| 0 <= i < n ==> needed[i] == longer[i],
        requests_of(fetches) == all_requests(all.take(n), needed),
        are_jobs_of(all, needed, fetches, n, jobs),
    ensures
        are_jobs_of(all, longer, fetches + more, n, jobs),
{
    assert(requests_of(fetches).len() == fetches.len());
    let grown = fetches + more;
    assert forall|i: int| 0 <= i < n implies fetches_begin(all, needed, i) == fetches_begin(
        all,
        longer,
        i,
    ) && (is_wanted(all[i], needed[i]) ==> old_content_at(
        all[i],
        fetches,
        fetches_begin(all, needed, i),
    ) == old_content_at(all[i], grown, fetches_begin(all, needed, i)) && new_content_at(
        all[i],
        fetches,
        fetches_begin(all, needed, i),
    ) == new_content_at(all[i], grown, fetches_begin(all, needed, i))) by {
        lemma_requests_prefix(all.take(i), needed, longer);
        assert(all.take(n).take(i) == all.take(i));
        assert(all.take(n)[i] == all[i]);
        lemma_requests_grow(all.take(n), needed, i);
    }
    assert forall|j: int| 0 <= j < jobs.len() implies (#[trigger] jobs[j]).file_idx < n
        && is_job_for(all, longer, grown, jobs[j].file_idx as int, jobs[j]) && (
    jobs[j].old_content is Some || jobs[j].new_content is Some) by {
        let i = jobs[j].file_idx as int;
        assert(is_job_for(all, needed, fetches, i, jobs[j]));
        assert(fetches_begin(all, needed, i) == fetches_begin(all, longer, i));
    }
    assert forall|i: int| 0 <= i < n implies #[trigger] has_job(jobs, i) || needs_no_job(
        all,
        longer,
        grown,
        i,
    ) by {
        assert(has_job(jobs, i) || needs_no_job(all, needed, fetches, i));
        assert(fetches_begin(all, needed, i) == fetches_begin(all, longer, i));
    }
}

/// Fetches the contents of the files that are to be highlighted as a whole: for every such file
/// the old and then the new side, once each, and for other files nothing.
pub fn collect_highlight_jobs<N: Fn(&str) -> bool, S: ContentSource>(
    files: &Vec<DiffFile>,
    needs: &N,
    source: &mut S,
) -> (res: Vec<HighlightJob>)
    requires
        contents::takes_any_path(*needs),
        old(source).takes_any_path(),
    ensures
        record::extends(old(source).fetches(), final(source).fetches()),
        ({
            let fetches = record::since(old(source).fetches(), final(source).fetches());
            exists|needed: Seq<bool>| #[trigger]
                needs_told(*needs, text::views(files@), needed) && are_fetches_of(
                    gives_of(*old(source)),
                    text::views(files@),
                    needed,
                    fetches,
                ) && are_jobs_of(
                    text::views(files@),
                    needed,
                    fetches,
                    files@.len() as int,
                    res@,
                )
        }),
{
    let ghost all = text::views(files@);
    let ghost gives = gives_of(*source);
    let ghost before = source.fetches();
    let ghost mut needed: Seq<bool> = Seq::empty();
    let ghost mut fetches: Seq<Fetch> = Seq::empty();
    let mut jobs: Vec<HighlightJob> = Vec::new();
    let mut i: usize = 0;
    proof {
        assert(all.take(0) == Seq::<FileView>::empty());
        assert(requests_of(fetches) =~= all_requests(all.take(0), needed));
        assert(source.fetches() =~= before + fetches);
    }
    while i < files.len()
        invariant
            i <= files@.len(),
            all == text::views(files@),
            contents::takes_any_path(*needs),
            source.takes_any_path(),
            gives == gives_of(*old(source)),
            forall|fetch: Fetch| #[trigger] source.can_give(fetch) == gives(fetch),
            source.fetches() == before + fetches,
            needs_told(*needs, all.take(i as int), needed),
            are_fetches_of(gives, all.take(i as int), needed, fetches),
            are_jobs_of(all, needed, fetches, i as int, jobs@),
        decreases files@.len() - i,
    {
        let file = &files[i];
        let ghost n = i as int;
        let ghost told = needed;
        let ghost earlier = fetches;
        proof {
            assert(all[n] == file@);
            assert(all.take(n + 1).drop_last() == all.take(n));
            assert(requests_of(earlier).len() == earlier.len());
        }
        let wanted = ask_need(needs, file);
        proof {
            needed = needed.push(wanted);
            lemma_requests_prefix(all.take(n), told, needed);
            assert forall|k: int| 0 <= k < all.take(n + 1).len() implies (candidate_path(
                #[trigger] all.take(n + 1)[k],
            ) matches Some(path) ==> need_told(*needs, path, needed[k])) by {
                if k < n {
                    assert(all.take(n + 1)[k] == all.take(n)[k]);
                }
            }
        }
        if wanted {
            let mut old_content: Option<String> = None;
            let mut new_content: Option<String> = None;
            if let Some(path) = &file.old_path {
                old_content = source.content_of(LineSide::Old, path.as_str());
                proof {
                    fetches = fetches.push(
                        Fetch {
                            side: LineSide::Old,
                            path: path@,
                            content: text::opt_view(old_content),
                        },
                    );
                    assert(source.fetches() =~= before + fetches);
                }
            }
            if let Some(path) = &file.new_path {
                new_content = source.content_of(LineSide::New, path.as_str());
                proof {
                    fetches = fetches.push(
                        Fetch {
                            side: LineSide::New,
                            path: path@,
                            content: text::opt_view(new_content),
                        },
                    );
                    assert(source.fetches() =~= before + fetches);
                }
            }
            proof {
                let more = record::since(earlier, fetches);
                assert(fetches =~= earlier + more);
                lemma_jobs_kept(all, n, told, needed, earlier, more, jobs@);
                assert(requests_of(fetches) =~= requests_of(earlier) + file_requests(file@));
                assert(all.take(n + 1).last() == file@);
            }
            if old_content.is_some() || new_content.is_some() {
                let syntax_path = match file.display_path() {
                    Some(path) => path.clone(),
                    None => String::new(),
                };
                let ghost kept = jobs@;
                jobs.push(HighlightJob { file_idx: i, syntax_path, old_content, new_content });
                proof {
                    assert(jobs@[kept.len() as int].file_idx == i);
                    assert forall|k: int| 0 <= k < n + 1 implies #[trigger] has_job(jobs@, k)
                        || needs_no_job(all, needed, fetches, k) by {
                        if k == n {
                            assert(jobs@[kept.len() as int].file_idx == k);
                        } else if has_job(kept, k) {
                            let j = choose|j: int|
                                0 <= j < kept.len() && (#[trigger] kept[j]).file_idx == k;
                            assert(jobs@[j].file_idx == k);
                        }
                    }
                }
            } else {
                assert(needs_no_job(all, needed, fetches, n));
            }
        } else {
            proof {
                lemma_jobs_kept(all, n, told, needed, earlier, Seq::empty(), jobs@);
                assert(earlier + Seq::<Fetch>::empty() == earlier);
                assert(all.take(n + 1).last() == file@);
                assert(needs_no_job(all, needed, fetches, n));
            }
        }
        i = i + 1;
    }
    proof {
        assert(all.take(all.len() as int) == all);
        record::lemma_extends(before, source.fetches(), fetches);
    }
    jobs
}

/// The files after the results have been put on them, one after the other.
pub open spec fn with_results(
    files: Seq<FileView>,
    results: Seq<HighlightResult>,
    backgrounds: DiffBackgrounds,
) -> Seq<FileView>
    decreases results.len(),
{
    if results.len() == 0 {
        files
    } else {
        let done = with_results(files, results.drop_last(), backgrounds);
        let last = results.last();
        done.update(
            last.file_idx as int,
            enhanced_file(done[last.file_idx as int], last.old@, last.new@, backgrounds),
        )
    }
}

/// Puts the results of highlighting on the files.
pub fn apply_highlight_results(
    files: &mut Vec<DiffFile>,
    results: &Vec<HighlightResult>,
    backgrounds: &DiffBackgrounds,
)
    requires
        forall|j: int|
            0 <= j < results@.len() ==> (#[trigger] results@[j]).file_idx < old(files)@.len(),
    ensures
        text::views(final(files)@) == with_results(
            text::views(old(files)@),
            results@,
            *backgrounds,
        ),
{
    let ghost before = text::views(files@);
    let mut j: usize = 0;
    proof {
        assert(results@.take(0) == Seq::<HighlightResult>::empty());
    }
    while j < results.len()
        invariant
            j <= results@.len(),
            files@.len() == before.len(),
            forall|k: int|
                0 <= k < results@.len() ==> (#[trigger] results@[k]).file_idx < before.len(),
            text::views(files@) == with_results(before, results@.take(j as int), *backgrounds),
        decreases results@.len() - j,
    {
        let result = &results[j];
        let idx: usize = result.file_idx;
        let ghost done = text::views(files@);
        proof {
            assert(results@.take(j + 1).drop_last() == results@.take(j as int));
            assert(done[idx as int] == files@[idx as int]@);
        }
        let given = match (&result.old, &result.new) {
            (SideHighlight::Lines(_), _) => true,
            (_, SideHighlight::Lines(_)) => true,
            _ => false,
        };
        if given {
            apply_full_file_spans(&mut files[idx], backgrounds, &result.old, &result.new);
        }
        proof {
            assert(text::views(files@) =~= done.update(
                idx as int,
                enhanced_file(done[idx as int], result.old@, result.new@, *backgrounds),
            ));
        }
        j = j + 1;
    }
    assert(results@.take(results@.len() as int) == results@);
}

/// Whether `after` is what the pass can make of a file with these contents.
pub open spec fn is_enhanced<G: Fn(&str, &Vec<String>) -> Option<HighlightedLines>>(
    highlighter: SyntaxHighlighter<G>,
    before: FileView,
    needed: bool,
    old_content: Option<Seq<char>>,
    new_content: Option<Seq<char>>,
    after: FileView,
) -> bool {
    if is_wanted(before, needed) {
        exists|old: SideView, new: SideView|
            #![trigger content_gives(highlighter.grammar, candidate_path(before)->0, old_content, old), content_gives(highlighter.grammar, candidate_path(before)->0, new_content, new)]
            content_gives(highlighter.grammar, candidate_path(before)->0, old_content, old)
                && content_gives(
                highlighter.grammar,
                candidate_path(before)->0,
                new_content,
                new,
            ) && after == enhanced_file(before, old, new, highlighter.backgrounds)
    } else {
        after == before
    }
}

/// Whether `after` are the files that a pass makes of `before` with the given fetches, and these
/// are the fetches that it makes.
pub open spec fn is_pass<
    G: Fn(&str, &Vec<String>) -> Option<HighlightedLines>,
    N: Fn(&str) -> bool,
>(
    highlighter: SyntaxHighlighter<G>,
    needs: N,
    gives: spec_fn(Fetch) -> bool,
    before: Seq<FileView>,
    after: Seq<FileView>,
    fetches: Seq<Fetch>,
) -> bool {
    after.len() == before.len() && exists|needed: Seq<bool>| #[trigger]
        needs_told(needs, before, needed) && are_fetches_of(gives, before, needed, fetches)
            && forall|i: int|
            0 <= i < before.len() ==> is_enhanced(
                highlighter,
                before[i],
                needed[i],
                old_content_at(before[i], fetches, fetches_begin(before, needed, i)),
                new_content_at(before[i], fetches, fetches_begin(before, needed, i)),
                #[trigger] after[i],
            )
}

/// The result for a file lands on that file and on no other, whatever the order of the files.
pub proof fn law_results_stay_with_their_file(
    files: Seq<FileView>,
    results: Seq<HighlightResult>,
    backgrounds: DiffBackgrounds,
    i: int,
)
    requires
        0 <= i < files.len(),
        forall|j: int|
            0 <= j < results.len() ==> (#[trigger] results[j]).file_idx < files.len(),
        forall|j: int, k: int|
            0 <= j < k < results.len() ==> (#[trigger] results[j]).file_idx
                < (#[trigger] results[k]).file_idx,
    ensures
        with_results(files, results, backgrounds).len() == files.len(),
        (forall|j: int| 0 <= j < results.len() ==> (#[trigger] results[j]).file_idx != i)
            ==> with_results(files, results, backgrounds)[i] == files[i],
        forall|j: int|
            0 <= j < results.len() && (#[trigger] results[j]).file_idx == i ==> with_results(
                files,
                results,
                backgrounds,
            )[i] == enhanced_file(files[i], results[j].old@, results[j].new@, backgrounds),
    decreases results.len(),
{
    if results.len() > 0 {
        let rest = results.drop_last();
        let last = results.last();
        assert(last == results[results.len() - 1]);
        assert forall|j: int| 0 <= j < rest.len() implies (#[trigger] rest[j]).file_idx
            < files.len() by {
            assert(rest[j] == results[j]);
        }
        assert forall|j: int, k: int| 0 <= j < k < rest.len() implies (#[trigger] rest[j]).file_idx
            < (#[trigger] rest[k]).file_idx by {
            assert(rest[j] == results[j]);
            assert(rest[k] == results[k]);
        }
        law_results_stay_with_their_file(files, rest, backgrounds, i);
        assert forall|j: int| 0 <= j < rest.len() implies (#[trigger] rest[j]).file_idx
            < last.file_idx by {
            assert(rest[j] == results[j]);
        }
        assert forall|j: int|
            0 <= j < results.len() && (#[trigger] results[j]).file_idx == i implies with_results(
            files,
            results,
            backgrounds,
        )[i] == enhanced_file(files[i], results[j].old@, results[j].new@, backgrounds) by {
            if j < rest.len() {
                assert(rest[j] == results[j]);
            }
        }
        if forall|j: int| 0 <= j < results.len() ==> (#[trigger] results[j]).file_idx != i {
            assert forall|j: int| 0 <= j < rest.len() implies (#[trigger] rest[j]).file_idx
                != i by {
                assert(rest[j] == results[j]);
            }
        }
    }
}

/// Colours the lines of files whose grammar needs the whole file. Other files are left alone.
///
/// The source gives the contents of the two sides of a file. For every file that needs it the old
/// and then the new side is fetched, once each, in the order of the files; for others nothing is.
/// Where a side is there, every line on it takes the spans at its line number.
pub fn enhance_with_full_file_highlight<
    G: Fn(&str, &Vec<String>) -> Option<HighlightedLines>,
    N: Fn(&str) -> bool,
    S: ContentSource,
>(files: &mut Vec<DiffFile>, highlighter: &SyntaxHighlighter<G>, needs: &N, source: &mut S)
    requires
        highlighter.takes_any_file(),
        contents::takes_any_path(*needs),
        old(source).takes_any_path(),
    ensures
        record::extends(old(source).fetches(), final(source).fetches()),
        is_pass(
            *highlighter,
            *needs,
            gives_of(*old(source)),
            text::views(old(files)@),
            text::views(final(files)@),
            record::since(old(source).fetches(), final(source).fetches()),
        ),
{
    let ghost before = text::views(files@);
    let ghost gives = gives_of(*source);
    let jobs = collect_highlight_jobs(files, needs, source);
    let ghost fetches = record::since(old(source).fetches(), source.fetches());
    let ghost needed = choose|needed: Seq<bool>| #[trigger]
        needs_told(*needs, before, needed) && are_fetches_of(gives, before, needed, fetches)
            && are_jobs_of(before, needed, fetches, before.len() as int, jobs@);
    let results = highlight_jobs(&jobs, highlighter);
    proof {
        assert forall|j: int| 0 <= j < results@.len() implies (#[trigger] results@[j]).file_idx
            < before.len() by {
            assert(jobs@[j].file_idx < before.len());
        }
        assert forall|j: int, k: int|
            0 <= j < k < results@.len() implies (#[trigger] results@[j]).file_idx
            < (#[trigger] results@[k]).file_idx by {
            assert(jobs@[j].file_idx < jobs@[k].file_idx);
        }
    }
    apply_highlight_results(files, &results, &highlighter.backgrounds);
    proof {
        let after = text::views(files@);
        if before.len() > 0 {
            law_results_stay_with_their_file(before, results@, highlighter.backgrounds, 0);
        } else if jobs@.len() > 0 {
            assert(jobs@[0].file_idx < before.len());
        }
        assert forall|i: int| 0 <= i < before.len() implies is_enhanced(
            *highlighter,
            before[i],
            needed[i],
            old_content_at(before[i], fetches, fetches_begin(before, needed, i)),
            new_content_at(before[i], fetches, fetches_begin(before, needed, i)),
            #[trigger] after[i],
        ) by {
            law_results_stay_with_their_file(before, results@, highlighter.backgrounds, i);
            let at = fetches_begin(before, needed, i);
            let old_content = old_content_at(before[i], fetches, at);
            let new_content = new_content_at(before[i], fetches, at);
            if has_job(jobs@, i) {
                let j = choose|j: int|
                    0 <= j < jobs@.len() && (#[trigger] jobs@[j]).file_idx == i;
                let result = results@[j];
                assert(result.file_idx == i);
                assert(job_gives(highlighter.grammar, jobs@[j], result));
                assert(is_job_for(before, needed, fetches, i, jobs@[j]));
                let path = candidate_path(before[i])->0;
                assert(content_gives(highlighter.grammar, path, old_content, result.old@));
                assert(content_gives(highlighter.grammar, path, new_content, result.new@));
            } else {
                assert forall|j: int| 0 <= j < results@.len() implies (#[trigger] results@[j]).file_idx
                    != i by {
                    assert(jobs@[j].file_idx == results@[j].file_idx);
                }
                assert(needs_no_job(before, needed, fetches, i));
                if is_wanted(before[i], needed[i]) {
                    let path = candidate_path(before[i])->0;
                    assert(content_gives(
                        highlighter.grammar,
                        path,
                        old_content,
                        SideView::Unavailable,
                    ));
                    assert(content_gives(
                        highlighter.grammar,
                        path,
                        new_content,
                        SideView::Unavailable,
                    ));
                }
            }
        }
    }
}

/// Colouring from whole files settles every line whose side is there, and leaves every other line
/// as it was.
pub proof fn law_whole_file_coloring_settles(
    line: LineView,
    old: SideView,
    new: SideView,
    backgrounds: DiffBackgrounds,
)
    ensures
        ({
            let side = if line.origin == LineOrigin::Deletion {
                old
            } else {
                new
            };
            let coloring = whole_file_coloring(line, old, new, backgrounds);
            if side is Unavailable {
                coloring == line.coloring
            } else {
                !(coloring is Pending)
            }
        }),
{
}

/// A pass changes nothing of a file but the colouring of its lines.
pub proof fn law_whole_file_pass_keeps_text(
    file: FileView,
    old: SideView,
    new: SideView,
    backgrounds: DiffBackgrounds,
    h: int,
    k: int,
)
    requires
        0 <= h < file.hunks.len(),
        0 <= k < file.hunks[h].lines.len(),
    ensures
        ({
            let after = enhanced_file(file, old, new, backgrounds);
            &&& after == (FileView { hunks: after.hunks, ..file })
            &&& after.hunks.len() == file.hunks.len()
            &&& after.hunks[h] == (HunkView { lines: after.hunks[h].lines, ..file.hunks[h] })
            &&& after.hunks[h].lines.len() == file.hunks[h].lines.len()
            &&& after.hunks[h].lines[k] == syntax::recolored(
                file.hunks[h].lines[k],
                after.hunks[h].lines[k].coloring,
            )
        }),
{
}

/// A file whose grammar does not need the whole file stays as it is.
pub proof fn law_other_files_are_left_alone<
    G: Fn(&str, &Vec<String>) -> Option<HighlightedLines>,
    N: Fn(&str) -> bool,
>(
    highlighter: SyntaxHighlighter<G>,
    needs: N,
    gives: spec_fn(Fetch) -> bool,
    before: Seq<FileView>,
    after: Seq<FileView>,
    fetches: Seq<Fetch>,
    i: int,
)
    requires
        is_pass(highlighter, needs, gives, before, after, fetches),
        0 <= i < before.len(),
        candidate_path(before[i]) matches Some(path) ==> !need_told(needs, path, true),
    ensures
        after[i] == before[i],
{
    let needed = choose|needed: Seq<bool>| #[trigger]
        needs_told(needs, before, needed) && are_fetches_of(gives, before, needed, fetches)
            && forall|i: int|
            0 <= i < before.len() ==> is_enhanced(
                highlighter,
                before[i],
                needed[i],
                old_content_at(before[i], fetches, fetches_begin(before, needed, i)),
                new_content_at(before[i], fetches, fetches_begin(before, needed, i)),
                #[trigger] after[i],
            );
    let reached = after[i];
    assert(candidate_path(before[i]) matches Some(path) ==> need_told(needs, path, needed[i]));
}

/// Where no file needs to be highlighted as a whole, nothing is fetched.
pub proof fn law_nothing_is_fetched_for_other_files(files: Seq<FileView>, needed: Seq<bool>)
    requires
        forall|i: int| 0 <= i < files.len() ==> !is_wanted(#[trigger] files[i], needed[i]),
    ensures
        all_requests(files, needed) == Seq::<(LineSide, Seq<char>)>::empty(),
    decreases files.len(),
{
    if files.len() > 0 {
        let rest = files.drop_last();
        assert(!is_wanted(files[files.len() - 1], needed[files.len() - 1]));
        assert forall|i: int| 0 <= i < rest.len() implies !is_wanted(
            #[trigger] rest[i],
            needed[i],
        ) by {
            assert(rest[i] == files[i]);
        }
        law_nothing_is_fetched_for_other_files(rest, needed);
    }
}

} // verus!
