//! Turns structured file patches into the diff model.
//!
//! File identity is deliberately outside this module. Each backend obtains paths and status from
//! a machine-readable source and supplies them in [`FilePatch`]. This module only parses
//! unified-diff hunks, where the line counts of the `@@` header make the grammar unambiguous.

use vstd::prelude::*;
use vstd::slice::slice_subrange;
use crate::decimal;
use crate::error::{ErrorView, TuicrError};
use crate::model;
use crate::model::{
    ColoringView,
    DiffFile,
    DiffHunk,
    DiffLine,
    FilePatch,
    HunkView,
    LineColoring,
    LineOrigin,
    LineView,
};
use crate::text;
use crate::words;

verus! {

/// The line ranges that a hunk header declares.
#[derive(Debug, Clone, Copy, PartialEq, Eq, Structural)]
pub struct HunkRanges {
    pub old_start: u32,
    pub old_count: u32,
    pub new_start: u32,
    pub new_count: u32,
}

/// A range, `start,count` or a bare `start` that counts one line.
pub open spec fn range_of(s: Seq<char>) -> Option<(u32, u32)> {
    match text::split_once(s, ","@) {
        Some((start, count)) => match (decimal::u32_of(start), decimal::u32_of(count)) {
            (Some(first), Some(n)) => Some((first, n)),
            _ => None,
        },
        None => match decimal::u32_of(s) {
            Some(first) => Some((first, 1u32)),
            None => None,
        },
    }
}

/// Reads a range.
pub fn parse_range(range: &[char]) -> (res: Option<(u32, u32)>)
    ensures
        res == range_of(range@),
{
    match text::divide_once(range, ",") {
        Some((start, count)) => match (decimal::parse_u32(start), decimal::parse_u32(count)) {
            (Some(first), Some(n)) => Some((first, n)),
            _ => None,
        },
        None => match decimal::parse_u32(range) {
            Some(first) => Some((first, 1u32)),
            None => None,
        },
    }
}

/// Whether the last line number of a range is a 32-bit number.
pub open spec fn range_fits(start: u32, count: u32) -> bool {
    count == 0 || start + count - 1 <= u32::MAX
}

/// Whether the last line number of a range is a 32-bit number.
pub fn range_fits_u32(start: u32, count: u32) -> (res: bool)
    ensures
        res == range_fits(start, count),
{
    count == 0 || start.checked_add(count - 1).is_some()
}

/// The ranges of a header line `@@ -OLD +NEW @@`, whatever follows the second `@@`.
pub open spec fn header_ranges(line: Seq<char>) -> Option<HunkRanges> {
    if text::starts_with(line, "@@ "@) {
        match text::split_once(line.skip("@@ "@.len() as int), " @@"@) {
            Some((ranges, _)) => {
                let parts = words::words(ranges);
                if parts.len() == 2 && parts[0].len() > 0 && parts[0][0] == '-' && parts[1].len()
                    > 0 && parts[1][0] == '+' {
                    match (range_of(parts[0].skip(1)), range_of(parts[1].skip(1))) {
                        (Some((old_start, old_count)), Some((new_start, new_count))) => Some(
                            HunkRanges { old_start, old_count, new_start, new_count },
                        ),
                        _ => None,
                    }
                } else {
                    None
                }
            },
            None => None,
        }
    } else {
        None
    }
}

/// Reads the ranges of a header line.
pub fn parse_hunk_header(line: &[char]) -> (res: Option<HunkRanges>)
    ensures
        res == header_ranges(line@),
{
    let marker = text::chars_of("@@ ");
    if !text::matches_at(line, marker.as_slice(), 0) {
        return None;
    }
    let tail = slice_subrange(line, marker.len(), line.len());
    proof {
        assert(tail@ == line@.skip("@@ "@.len() as int));
    }
    match text::divide_once(tail, " @@") {
        Some((ranges, _)) => {
            let parts = words::split_words(ranges);
            proof {
                assert(text::views(parts@).len() == parts@.len());
                assert(forall|i: int|
                    0 <= i < parts@.len() ==> #[trigger] text::views(parts@)[i] == parts@[i]@);
            }
            if parts.len() != 2 {
                return None;
            }
            let old = &parts[0];
            let new = &parts[1];
            if old.len() == 0 || old[0] != '-' || new.len() == 0 || new[0] != '+' {
                return None;
            }
            let old_range = slice_subrange(old.as_slice(), 1, old.len());
            let new_range = slice_subrange(new.as_slice(), 1, new.len());
            proof {
                assert(old_range@ == text::views(parts@)[0].skip(1));
                assert(new_range@ == text::views(parts@)[1].skip(1));
            }
            match (parse_range(old_range), parse_range(new_range)) {
                (Some((old_start, old_count)), Some((new_start, new_count))) => Some(
                    HunkRanges { old_start, old_count, new_start, new_count },
                ),
                _ => None,
            }
        },
        None => None,
    }
}

/// What a line of a hunk's body is, by its first character.
pub enum BodyLine {
    /// A remark such as `\ No newline at end of file`.
    Remark,
    Addition(Seq<char>),
    Deletion(Seq<char>),
    Context(Seq<char>),
    Unprefixed,
}

/// Tells what a line of a hunk's body is. What follows the first character is content, whatever
/// it looks like.
pub open spec fn body_line(line: Seq<char>) -> BodyLine {
    if line.len() == 0 {
        BodyLine::Unprefixed
    } else if line[0] == '\\' {
        BodyLine::Remark
    } else if line[0] == '+' {
        BodyLine::Addition(line.skip(1))
    } else if line[0] == '-' {
        BodyLine::Deletion(line.skip(1))
    } else if line[0] == ' ' {
        BodyLine::Context(line.skip(1))
    } else {
        BodyLine::Unprefixed
    }
}

pub open spec fn malformed_header(header: Seq<char>) -> Seq<char> {
    "malformed hunk header `"@ + header + "`"@
}

pub open spec fn overflowing_range(header: Seq<char>) -> Seq<char> {
    "hunk range overflows a 32-bit line number in `"@ + header + "`"@
}

pub open spec fn ended_early(header: Seq<char>, old_left: nat, new_left: nat) -> Seq<char> {
    "hunk `"@ + header + "` ended early (missing "@ + decimal::numeral(old_left) + " old and "@
        + decimal::numeral(new_left) + " new lines)"@
}

pub open spec fn too_many_new(header: Seq<char>) -> Seq<char> {
    "hunk `"@ + header + "` contains too many new-side lines"@
}

pub open spec fn too_many_old(header: Seq<char>) -> Seq<char> {
    "hunk `"@ + header + "` contains too many old-side lines"@
}

pub open spec fn too_much_context(header: Seq<char>) -> Seq<char> {
    "hunk `"@ + header + "` contains too many context lines"@
}

pub open spec fn unprefixed_line(header: Seq<char>, line: Seq<char>) -> Seq<char> {
    "hunk `"@ + header + "` contains an unprefixed body line `"@ + line + "`"@
}

/// The lines of a hunk, and how many lines of the patch they took.
pub struct HunkBody {
    pub lines: Seq<LineView>,
    pub used: nat,
}

/// A body that goes on with `first`, which took one line of the patch.
pub open spec fn after_line(
    first: Seq<LineView>,
    rest: Result<HunkBody, Seq<char>>,
) -> Result<HunkBody, Seq<char>> {
    match rest {
        Ok(body) => Ok(HunkBody { lines: first + body.lines, used: body.used + 1 }),
        Err(detail) => Err(detail),
    }
}

/// An uncoloured line.
pub open spec fn pending_line(
    origin: LineOrigin,
    content: Seq<char>,
    old_lineno: Option<u32>,
    new_lineno: Option<u32>,
) -> LineView {
    LineView {
        origin,
        content: text::tabified(content),
        old_lineno,
        new_lineno,
        coloring: ColoringView::Pending,
    }
}

/// Reads the body of a hunk off `lines`, after `old_done` lines of the old side and `new_done` of
/// the new one. The declared counts are the grammar: lines are taken until both sides are
/// complete, and each line must fit in what is left. An error is the reason in words.
pub open spec fn hunk_body(
    header: Seq<char>,
    ranges: HunkRanges,
    lines: Seq<Seq<char>>,
    old_done: nat,
    new_done: nat,
) -> Result<HunkBody, Seq<char>>
    decreases lines.len(),
{
    let old_left = ranges.old_count - old_done;
    let new_left = ranges.new_count - new_done;
    let old_lineno = (ranges.old_start + old_done) as u32;
    let new_lineno = (ranges.new_start + new_done) as u32;
    if old_left <= 0 && new_left <= 0 {
        Ok(HunkBody { lines: Seq::empty(), used: 0 })
    } else if lines.len() == 0 {
        Err(ended_early(header, old_left as nat, new_left as nat))
    } else {
        let rest = lines.drop_first();
        match body_line(lines[0]) {
            BodyLine::Remark => after_line(
                Seq::empty(),
                hunk_body(header, ranges, rest, old_done, new_done),
            ),
            BodyLine::Addition(content) => if new_left <= 0 {
                Err(too_many_new(header))
            } else {
                after_line(
                    seq![pending_line(LineOrigin::Addition, content, None, Some(new_lineno))],
                    hunk_body(header, ranges, rest, old_done, new_done + 1),
                )
            },
            BodyLine::Deletion(content) => if old_left <= 0 {
                Err(too_many_old(header))
            } else {
                after_line(
                    seq![pending_line(LineOrigin::Deletion, content, Some(old_lineno), None)],
                    hunk_body(header, ranges, rest, old_done + 1, new_done),
                )
            },
            BodyLine::Context(content) => if old_left <= 0 || new_left <= 0 {
                Err(too_much_context(header))
            } else {
                after_line(
                    seq![
                        pending_line(
                            LineOrigin::Context,
                            content,
                            Some(old_lineno),
                            Some(new_lineno),
                        ),
                    ],
                    hunk_body(header, ranges, rest, old_done + 1, new_done + 1),
                )
            },
            BodyLine::Unprefixed => Err(unprefixed_line(header, lines[0])),
        }
    }
}

/// A hunk, and how many lines after its header it took.
pub struct ParsedHunk {
    pub hunk: HunkView,
    pub used: nat,
}

/// Reads the hunk with the given header off the lines that follow it.
pub open spec fn hunk_at(header: Seq<char>, lines: Seq<Seq<char>>) -> Result<
    ParsedHunk,
    Seq<char>,
> {
    match header_ranges(header) {
        None => Err(malformed_header(header)),
        Some(ranges) => if !range_fits(ranges.old_start, ranges.old_count) || !range_fits(
            ranges.new_start,
            ranges.new_count,
        ) {
            Err(overflowing_range(header))
        } else {
            match hunk_body(header, ranges, lines, 0, 0) {
                Err(detail) => Err(detail),
                Ok(body) => Ok(
                    ParsedHunk {
                        hunk: HunkView {
                            header,
                            lines: body.lines,
                            old_start: ranges.old_start,
                            old_count: ranges.old_count,
                            new_start: ranges.new_start,
                            new_count: ranges.new_count,
                        },
                        used: body.used,
                    },
                ),
            }
        },
    }
}

/// The error for a patch that cannot be read.
pub open spec fn invalid_patch_error(path: Seq<char>, detail: Seq<char>) -> ErrorView {
    ErrorView::VcsCommand("invalid unified diff for "@ + path + ": "@ + detail)
}

/// The error for a patch that cannot be read.
pub fn invalid_patch(path: &str, detail: String) -> (res: TuicrError)
    ensures
        res@ == invalid_patch_error(path@, detail@),
{
    let mut message = "invalid unified diff for ".to_owned();
    message.append(path);
    message.append(": ");
    message.append(detail.as_str());
    TuicrError::VcsCommand(message)
}

/// A result found while the body of a hunk is read, after `done` lines and `used` lines of the
/// patch.
spec fn continued(
    done: Seq<LineView>,
    used: nat,
    rest: Result<HunkBody, Seq<char>>,
) -> Result<HunkBody, Seq<char>> {
    match rest {
        Ok(body) => Ok(HunkBody { lines: done + body.lines, used: used + body.used }),
        Err(detail) => Err(detail),
    }
}

proof fn lemma_continued(
    done: Seq<LineView>,
    used: nat,
    first: Seq<LineView>,
    rest: Result<HunkBody, Seq<char>>,
)
    ensures
        continued(done, used, after_line(first, rest)) == continued(done + first, used + 1, rest),
{
    match rest {
        Ok(body) => {
            assert(done + (first + body.lines) == (done + first) + body.lines);
        },
        Err(_) => {},
    }
}

/// Reads the hunk whose header is `lines[at]`, leaving every line uncoloured. Returns the hunk and
/// the index of the first line after it.
pub fn parse_hunk(lines: &Vec<Vec<char>>, at: usize, file_path: &str) -> (res: Result<
    (DiffHunk, usize),
    TuicrError,
>)
    requires
        at < lines@.len(),
    ensures
        match (res, hunk_at(lines@[at as int]@, text::views(lines@).skip(at + 1))) {
            (Ok((hunk, next)), Ok(parsed)) => hunk@ == parsed.hunk && next == at + 1 + parsed.used
                && next <= lines@.len(),
            (Err(error), Err(detail)) => error@ == invalid_patch_error(file_path@, detail),
            _ => false,
        },
{
    let total: usize = lines.len();
    let header = &lines[at];
    let ghost following = text::views(lines@).skip(at + 1);
    let ranges = match parse_hunk_header(header.as_slice()) {
        Some(ranges) => ranges,
        None => {
            let detail = text::enclose("malformed hunk header `", header.as_slice(), "`");
            return Err(invalid_patch(file_path, detail));
        },
    };
    if !range_fits_u32(ranges.old_start, ranges.old_count) || !range_fits_u32(
        ranges.new_start,
        ranges.new_count,
    ) {
        let detail = text::enclose(
            "hunk range overflows a 32-bit line number in `",
            header.as_slice(),
            "`",
        );
        return Err(invalid_patch(file_path, detail));
    }
    let mut body: Vec<DiffLine> = Vec::new();
    let mut old_done: u32 = 0;
    let mut new_done: u32 = 0;
    let mut next: usize = at + 1;
    proof {
        text::lemma_views_empty::<DiffLine>();
        let rest = hunk_body(header@, ranges, following, 0, 0);
        match rest {
            Ok(b) => {
                assert(Seq::<LineView>::empty() + b.lines == b.lines);
            },
            Err(_) => {},
        }
        assert(following.skip(0) == following);
    }
    while old_done < ranges.old_count || new_done < ranges.new_count
        invariant
            at < next <= lines@.len(),
            total == lines@.len(),
            header@ == lines@[at as int]@,
            following == text::views(lines@).skip(at + 1),
            Some(ranges) == header_ranges(header@),
            range_fits(ranges.old_start, ranges.old_count),
            range_fits(ranges.new_start, ranges.new_count),
            old_done <= ranges.old_count,
            new_done <= ranges.new_count,
            hunk_body(header@, ranges, following, 0, 0) == continued(
                text::views(body@),
                (next - at - 1) as nat,
                hunk_body(
                    header@,
                    ranges,
                    following.skip(next - at - 1),
                    old_done as nat,
                    new_done as nat,
                ),
            ),
        decreases lines@.len() - next,
    {
        let ghost rest = following.skip(next - at - 1);
        let ghost done = text::views(body@);
        let ghost used = (next - at - 1) as nat;
        if next == total {
            let mut detail = text::enclose("hunk `", header.as_slice(), "` ended early (missing ");
            decimal::push_numeral(&mut detail, ranges.old_count - old_done);
            detail.append(" old and ");
            decimal::push_numeral(&mut detail, ranges.new_count - new_done);
            detail.append(" new lines)");
            assert(rest.len() == 0);
            return Err(invalid_patch(file_path, detail));
        }
        let line = &lines[next];
        proof {
            assert(rest.len() > 0);
            assert(rest[0] == line@);
            assert(rest.drop_first() == following.skip(next - at));
        }
        next = next + 1;
        if line.len() == 0 {
            let detail = unprefixed_detail(header.as_slice(), line.as_slice());
            return Err(invalid_patch(file_path, detail));
        }
        let first = line[0];
        if first == '\\' {
            proof {
                lemma_continued(
                    done,
                    used,
                    Seq::empty(),
                    hunk_body(
                        header@,
                        ranges,
                        rest.drop_first(),
                        old_done as nat,
                        new_done as nat,
                    ),
                );
                assert(done + Seq::<LineView>::empty() == done);
            }
            continue ;
        }
        let content = slice_subrange(line.as_slice(), 1, line.len());
        proof {
            assert(content@ == line@.skip(1));
        }
        let ghost old_before = old_done as nat;
        let ghost new_before = new_done as nat;
        let diff_line = if first == '+' {
            if new_done == ranges.new_count {
                let detail = text::enclose(
                    "hunk `",
                    header.as_slice(),
                    "` contains too many new-side lines",
                );
                return Err(invalid_patch(file_path, detail));
            }
            let line_number: u32 = ranges.new_start + new_done;
            new_done = new_done + 1;
            DiffLine {
                origin: LineOrigin::Addition,
                content: text::expand_tabs(content),
                old_lineno: None,
                new_lineno: Some(line_number),
                coloring: LineColoring::Pending,
            }
        } else if first == '-' {
            if old_done == ranges.old_count {
                let detail = text::enclose(
                    "hunk `",
                    header.as_slice(),
                    "` contains too many old-side lines",
                );
                return Err(invalid_patch(file_path, detail));
            }
            let line_number: u32 = ranges.old_start + old_done;
            old_done = old_done + 1;
            DiffLine {
                origin: LineOrigin::Deletion,
                content: text::expand_tabs(content),
                old_lineno: Some(line_number),
                new_lineno: None,
                coloring: LineColoring::Pending,
            }
        } else if first == ' ' {
            if old_done == ranges.old_count || new_done == ranges.new_count {
                let detail = text::enclose(
                    "hunk `",
                    header.as_slice(),
                    "` contains too many context lines",
                );
                return Err(invalid_patch(file_path, detail));
            }
            let old_line_number: u32 = ranges.old_start + old_done;
            let new_line_number: u32 = ranges.new_start + new_done;
            old_done = old_done + 1;
            new_done = new_done + 1;
            DiffLine {
                origin: LineOrigin::Context,
                content: text::expand_tabs(content),
                old_lineno: Some(old_line_number),
                new_lineno: Some(new_line_number),
                coloring: LineColoring::Pending,
            }
        } else {
            let detail = unprefixed_detail(header.as_slice(), line.as_slice());
            return Err(invalid_patch(file_path, detail));
        };
        proof {
            text::lemma_views_push(body@, diff_line);
            assert(done + seq![diff_line@] == done.push(diff_line@));
            lemma_continued(
                done,
                used,
                seq![diff_line@],
                hunk_body(header@, ranges, rest.drop_first(), old_done as nat, new_done as nat),
            );
        }
        body.push(diff_line);
    }
    proof {
        assert(text::views(body@) + Seq::<LineView>::empty() == text::views(body@));
    }
    Ok(
        (
            DiffHunk {
                header: text::text_of(header.as_slice()),
                lines: body,
                old_start: ranges.old_start,
                old_count: ranges.old_count,
                new_start: ranges.new_start,
                new_count: ranges.new_count,
            },
            next,
        ),
    )
}

fn unprefixed_detail(header: &[char], line: &[char]) -> (res: String)
    ensures
        res@ == unprefixed_line(header@, line@),
{
    let mut detail = text::enclose("hunk `", header, "` contains an unprefixed body line `");
    text::push_chars(&mut detail, line);
    detail.append("`");
    detail
}

pub open spec fn unsupported_header(line: Seq<char>) -> Seq<char> {
    "unsupported or malformed hunk header `"@ + line + "`"@
}

pub open spec fn stray_body_line(line: Seq<char>) -> Seq<char> {
    "body line appears outside its declared hunk range: `"@ + line + "`"@
}

/// Whether a line begins as a line of a hunk's body does.
pub open spec fn looks_like_body(line: Seq<char>) -> bool {
    line.len() > 0 && (line[0] == ' ' || line[0] == '+' || line[0] == '-')
}

/// A result for the hunks that follow `first`.
pub open spec fn after_hunk(
    first: HunkView,
    rest: Result<Seq<HunkView>, Seq<char>>,
) -> Result<Seq<HunkView>, Seq<char>> {
    match rest {
        Ok(hunks) => Ok(seq![first] + hunks),
        Err(detail) => Err(detail),
    }
}

/// The hunks of the given lines. Lines before the first hunk are metadata and do not count; after
/// it (`seen`), a line that looks like body text is an error.
pub open spec fn hunks_in(lines: Seq<Seq<char>>, seen: bool) -> Result<Seq<HunkView>, Seq<char>>
    decreases lines.len(),
{
    if lines.len() == 0 {
        Ok(Seq::empty())
    } else {
        let line = lines[0];
        let rest = lines.drop_first();
        if text::starts_with(line, "@@ "@) {
            match hunk_at(line, rest) {
                Err(detail) => Err(detail),
                Ok(parsed) => {
                    proof {
                        lemma_hunk_used(line, rest);
                    }
                    after_hunk(parsed.hunk, hunks_in(rest.skip(parsed.used as int), true))
                },
            }
        } else if text::starts_with(line, "@@"@) {
            Err(unsupported_header(line))
        } else if seen && looks_like_body(line) {
            Err(stray_body_line(line))
        } else {
            hunks_in(rest, seen)
        }
    }
}

/// A hunk takes no more lines than there are.
pub proof fn lemma_hunk_used(header: Seq<char>, lines: Seq<Seq<char>>)
    ensures
        hunk_at(header, lines) matches Ok(parsed) ==> parsed.used <= lines.len(),
{
    match header_ranges(header) {
        Some(ranges) => lemma_body_used(header, ranges, lines, 0, 0),
        None => {},
    }
}

proof fn lemma_body_used(
    header: Seq<char>,
    ranges: HunkRanges,
    lines: Seq<Seq<char>>,
    old_done: nat,
    new_done: nat,
)
    ensures
        hunk_body(header, ranges, lines, old_done, new_done) matches Ok(body) ==> body.used
            <= lines.len(),
    decreases lines.len(),
{
    if lines.len() > 0 {
        let rest = lines.drop_first();
        lemma_body_used(header, ranges, rest, old_done, new_done);
        lemma_body_used(header, ranges, rest, old_done + 1, new_done);
        lemma_body_used(header, ranges, rest, old_done, new_done + 1);
        lemma_body_used(header, ranges, rest, old_done + 1, new_done + 1);
    }
}

/// The hunks of a patch.
pub open spec fn patch_hunks(patch: Seq<char>) -> Result<Seq<HunkView>, Seq<char>> {
    hunks_in(text::lines(patch), false)
}

spec fn hunks_continued(
    done: Seq<HunkView>,
    rest: Result<Seq<HunkView>, Seq<char>>,
) -> Result<Seq<HunkView>, Seq<char>> {
    match rest {
        Ok(hunks) => Ok(done + hunks),
        Err(detail) => Err(detail),
    }
}

/// Reads the hunks of a patch.
pub fn parse_hunks(patch: &str, file_path: &str) -> (res: Result<Vec<DiffHunk>, TuicrError>)
    ensures
        match (res, patch_hunks(patch@)) {
            (Ok(hunks), Ok(expected)) => text::views(hunks@) == expected,
            (Err(error), Err(detail)) => error@ == invalid_patch_error(file_path@, detail),
            _ => false,
        },
{
    let chars = text::chars_of(patch);
    let lines = text::split_lines(chars.as_slice());
    let ghost all = text::lines(patch@);
    let mut hunks: Vec<DiffHunk> = Vec::new();
    let mut at: usize = 0;
    let mut parsed_hunk = false;
    proof {
        text::lemma_views_empty::<DiffHunk>();
        assert(all.skip(0) == all);
        match hunks_in(all, false) {
            Ok(expected) => {
                assert(Seq::<HunkView>::empty() + expected == expected);
            },
            Err(_) => {},
        }
    }
    while at < lines.len()
        invariant
            at <= lines@.len(),
            all == text::views(lines@),
            all == text::lines(patch@),
            hunks_in(all, false) == hunks_continued(
                text::views(hunks@),
                hunks_in(all.skip(at as int), parsed_hunk),
            ),
        decreases lines@.len() - at,
    {
        let line = &lines[at];
        let ghost rest = all.skip(at as int);
        proof {
            assert(rest[0] == line@);
            assert(rest.drop_first() == all.skip(at + 1));
        }
        if text::begins_with(line.as_slice(), "@@ ") {
            let (hunk, next) = match parse_hunk(&lines, at, file_path) {
                Ok(parsed) => parsed,
                Err(error) => {
                    return Err(error);
                },
            };
            proof {
                let done = text::views(hunks@);
                text::lemma_views_push(hunks@, hunk);
                assert(all.skip(at + 1).skip(next - at - 1) == all.skip(next as int));
                match hunks_in(all.skip(next as int), true) {
                    Ok(expected) => {
                        assert(done + (seq![hunk@] + expected) == done.push(hunk@) + expected);
                    },
                    Err(_) => {},
                }
            }
            hunks.push(hunk);
            parsed_hunk = true;
            at = next;
        } else if text::begins_with(line.as_slice(), "@@") {
            let detail = text::enclose(
                "unsupported or malformed hunk header `",
                line.as_slice(),
                "`",
            );
            return Err(invalid_patch(file_path, detail));
        } else if parsed_hunk && line.len() > 0 && (line[0] == ' ' || line[0] == '+' || line[0]
            == '-') {
            let detail = text::enclose(
                "body line appears outside its declared hunk range: `",
                line.as_slice(),
                "`",
            );
            return Err(invalid_patch(file_path, detail));
        } else {
            at = at + 1;
        }
    }
    proof {
        assert(all.skip(at as int).len() == 0);
        assert(text::views(hunks@) + Seq::<HunkView>::empty() == text::views(hunks@));
    }
    Ok(hunks)
}

pub open spec fn missing_path_error() -> ErrorView {
    ErrorView::VcsCommand("structured diff entry has neither an old nor a new path"@)
}

/// The hunks of a file patch, or the error it gives. A binary or too large file has no hunks,
/// whatever its patch says.
pub open spec fn patch_result(patch: FilePatch) -> Result<Seq<HunkView>, ErrorView> {
    match model::shown_path(patch.old_path, patch.new_path) {
        None => Err(missing_path_error()),
        Some(path) => if patch.is_binary || patch.is_too_large {
            Ok(Seq::empty())
        } else {
            match patch_hunks(patch.patch@) {
                Ok(hunks) => Ok(hunks),
                Err(detail) => Err(invalid_patch_error(path@, detail)),
            }
        },
    }
}

/// Whether `file` is what a file patch becomes: the identity of the patch, its hunks, and the
/// hash that `content_hash` gives of them.
pub open spec fn is_materialized<H: Fn(&Vec<DiffHunk>) -> u64>(
    patch: FilePatch,
    content_hash: H,
    file: DiffFile,
) -> bool {
    &&& patch_result(patch) == Ok::<Seq<HunkView>, ErrorView>(text::views(file.hunks@))
    &&& file.old_path == patch.old_path
    &&& file.new_path == patch.new_path
    &&& file.status == patch.status
    &&& file.is_binary == patch.is_binary
    &&& file.is_too_large == patch.is_too_large
    &&& !file.is_commit_message
    &&& call_ensures(content_hash, (&file.hunks,), file.content_hash)
}

/// Turns one file patch into a diff file.
pub fn materialize_file_patch<H: Fn(&Vec<DiffHunk>) -> u64>(
    patch: FilePatch,
    content_hash: &H,
) -> (res: Result<DiffFile, TuicrError>)
    requires
        forall|hunks: &Vec<DiffHunk>| call_requires(*content_hash, (hunks,)),
    ensures
        match res {
            Ok(file) => is_materialized(patch, *content_hash, file),
            Err(error) => patch_result(patch) == Err::<Seq<HunkView>, ErrorView>(error@),
        },
{
    let hunks: Vec<DiffHunk> = match patch.display_path() {
        None => {
            return Err(
                TuicrError::VcsCommand(
                    "structured diff entry has neither an old nor a new path".to_owned(),
                ),
            );
        },
        Some(file_path) => {
            if patch.is_binary || patch.is_too_large {
                Vec::new()
            } else {
                match parse_hunks(patch.patch.as_str(), file_path.as_str()) {
                    Ok(hunks) => hunks,
                    Err(error) => {
                        return Err(error);
                    },
                }
            }
        },
    };
    proof {
        text::lemma_views_empty::<DiffHunk>();
    }
    let hash: u64 = content_hash(&hunks);
    Ok(
        DiffFile {
            old_path: patch.old_path,
            new_path: patch.new_path,
            status: patch.status,
            hunks,
            is_binary: patch.is_binary,
            is_too_large: patch.is_too_large,
            is_commit_message: false,
            content_hash: hash,
        },
    )
}

/// Whether the patch at `i` is the first that cannot be read, with the given error.
pub open spec fn first_failure(patches: Seq<FilePatch>, i: int, error: ErrorView) -> bool {
    &&& 0 <= i < patches.len()
    &&& patch_result(patches[i]) == Err::<Seq<HunkView>, ErrorView>(error)
    &&& forall|j: int| 0 <= j < i ==> patch_result(#[trigger] patches[j]) is Ok
}

/// Whether `res` is what parsing file patches gives: a file for each of them, in order, or the
/// error of the first that cannot be read. Without a patch there are no changes.
pub open spec fn is_parsed<H: Fn(&Vec<DiffHunk>) -> u64>(
    patches: Seq<FilePatch>,
    content_hash: H,
    res: Result<Vec<DiffFile>, TuicrError>,
) -> bool {
    match res {
        Ok(files) => patches.len() > 0 && files@.len() == patches.len() && (forall|i: int|
            0 <= i < files@.len() ==> is_materialized(
                patches[i],
                content_hash,
                #[trigger] files@[i],
            )),
        Err(error) => if patches.len() == 0 {
            error == TuicrError::NoChanges
        } else {
            exists|i: int| first_failure(patches, i, error@)
        },
    }
}

/// Converts backend-structured file patches into diff files, in order, leaving every line
/// uncoloured. `content_hash` fingerprints the hunks of a file.
pub fn parse_file_patches<H: Fn(&Vec<DiffHunk>) -> u64>(
    patches: Vec<FilePatch>,
    content_hash: &H,
) -> (res: Result<Vec<DiffFile>, TuicrError>)
    requires
        forall|hunks: &Vec<DiffHunk>| call_requires(*content_hash, (hunks,)),
    ensures
        is_parsed(patches@, *content_hash, res),
{
    if patches.len() == 0 {
        return Err(TuicrError::NoChanges);
    }
    let ghost all = patches@;
    let mut files: Vec<DiffFile> = Vec::new();
    for patch in it: patches
        invariant
            it.seq() == all,
            all == patches@,
            all.len() > 0,
            forall|hunks: &Vec<DiffHunk>| call_requires(*content_hash, (hunks,)),
            files@.len() == it.index(),
            forall|i: int|
                0 <= i < files@.len() ==> is_materialized(
                    all[i],
                    *content_hash,
                    #[trigger] files@[i],
                ),
    {
        match materialize_file_patch(patch, content_hash) {
            Ok(file) => {
                files.push(file);
            },
            Err(error) => {
                proof {
                    assert forall|j: int| 0 <= j < files@.len() implies patch_result(
                        #[trigger] all[j],
                    ) is Ok by {
                        assert(is_materialized(all[j], *content_hash, files@[j]));
                    }
                    assert(first_failure(all, files@.len() as int, error@));
                }
                return Err(error);
            },
        }
    }
    Ok(files)
}

} // verus!
