//! What holds of every parsed patch, and of every patch that is written out and read back.

use vstd::prelude::*;
use crate::decimal;
use crate::diff_parser;
use crate::diff_parser::{HunkBody, HunkRanges, ParsedHunk};
use crate::error::{ErrorView, TuicrError};
use crate::model::{DiffFile, DiffHunk, FilePatch, FileView, HunkView, LineOrigin, LineView};
use crate::text;
use crate::words;

verus! {

/// How many of the lines stand on the old side.
pub open spec fn old_lines(lines: Seq<LineView>) -> nat
    decreases lines.len(),
{
    if lines.len() == 0 {
        0
    } else {
        (if lines[0].origin == LineOrigin::Addition {
            0nat
        } else {
            1nat
        }) + old_lines(lines.drop_first())
    }
}

/// How many of the lines stand on the new side.
pub open spec fn new_lines(lines: Seq<LineView>) -> nat
    decreases lines.len(),
{
    if lines.len() == 0 {
        0
    } else {
        (if lines[0].origin == LineOrigin::Deletion {
            0nat
        } else {
            1nat
        }) + new_lines(lines.drop_first())
    }
}

/// Whether a line is numbered on the sides where it stands, and only there.
pub open spec fn is_numbered(line: LineView, old_lineno: int, new_lineno: int) -> bool {
    &&& match line.old_lineno {
        Some(n) => line.origin != LineOrigin::Addition && n == old_lineno,
        None => line.origin == LineOrigin::Addition,
    }
    &&& match line.new_lineno {
        Some(n) => line.origin != LineOrigin::Deletion && n == new_lineno,
        None => line.origin == LineOrigin::Deletion,
    }
}

/// Whether a hunk holds as many lines of each side as its header declares, numbered from the
/// declared starts without a gap.
pub open spec fn is_consistent(hunk: HunkView) -> bool {
    &&& old_lines(hunk.lines) == hunk.old_count
    &&& new_lines(hunk.lines) == hunk.new_count
    &&& forall|k: int|
        0 <= k < hunk.lines.len() ==> is_numbered(
            #[trigger] hunk.lines[k],
            hunk.old_start + old_lines(hunk.lines.take(k)),
            hunk.new_start + new_lines(hunk.lines.take(k)),
        )
}

/// Whether nothing has coloured any line of the hunk.
pub open spec fn is_uncolored(hunk: HunkView) -> bool {
    forall|k: int| 0 <= k < hunk.lines.len() ==> (#[trigger] hunk.lines[k]).coloring is Pending
}

/// Whether no line of the hunk holds a tab.
pub open spec fn is_tabless(hunk: HunkView) -> bool {
    forall|k: int|
        0 <= k < hunk.lines.len() ==> !(#[trigger] hunk.lines[k]).content.contains('\t')
}

proof fn lemma_counts_cons(first: LineView, rest: Seq<LineView>, k: int)
    requires
        0 <= k <= rest.len(),
    ensures
        ({
            let all = seq![first] + rest;
            &&& old_lines(all.take(k + 1)) == (if first.origin == LineOrigin::Addition {
                0nat
            } else {
                1nat
            }) + old_lines(rest.take(k))
            &&& new_lines(all.take(k + 1)) == (if first.origin == LineOrigin::Deletion {
                0nat
            } else {
                1nat
            }) + new_lines(rest.take(k))
        }),
{
    let all = seq![first] + rest;
    assert(all.take(k + 1).drop_first() =~= rest.take(k));
    assert(all.take(k + 1)[0] == first);
}

/// Expanding tabs leaves none.
pub proof fn law_tabified_has_no_tab(s: Seq<char>)
    ensures
        !text::tabified(s).contains('\t'),
    decreases s.len(),
{
    if s.len() > 0 {
        law_tabified_has_no_tab(s.drop_last());
        let before = text::tabified(s.drop_last());
        let after = text::tabified(s);
        assert forall|i: int| 0 <= i < after.len() implies after[i] != '\t' by {
            if i < before.len() {
                assert(after[i] == before[i]);
                assert(before.contains(before[i]));
            }
        }
    }
}

proof fn lemma_body_consistent(
    header: Seq<char>,
    ranges: HunkRanges,
    lines: Seq<Seq<char>>,
    old_done: nat,
    new_done: nat,
)
    requires
        diff_parser::range_fits(ranges.old_start, ranges.old_count),
        diff_parser::range_fits(ranges.new_start, ranges.new_count),
        old_done <= ranges.old_count,
        new_done <= ranges.new_count,
    ensures
        diff_parser::hunk_body(header, ranges, lines, old_done, new_done) matches Ok(body) ==> {
            &&& old_lines(body.lines) == ranges.old_count - old_done
            &&& new_lines(body.lines) == ranges.new_count - new_done
            &&& forall|k: int|
                0 <= k < body.lines.len() ==> {
                    &&& is_numbered(
                        #[trigger] body.lines[k],
                        ranges.old_start + old_done + old_lines(body.lines.take(k)),
                        ranges.new_start + new_done + new_lines(body.lines.take(k)),
                    )
                    &&& body.lines[k].coloring is Pending
                    &&& !body.lines[k].content.contains('\t')
                }
        },
    decreases lines.len(),
{
    let result = diff_parser::hunk_body(header, ranges, lines, old_done, new_done);
    if lines.len() > 0 && result is Ok && (old_done < ranges.old_count || new_done
        < ranges.new_count) {
        let rest = lines.drop_first();
        let body = result->Ok_0;
        let (first, inner, old_next, new_next): (Seq<LineView>, HunkBody, nat, nat) =
            match diff_parser::body_line(lines[0]) {
            diff_parser::BodyLine::Remark => (
                Seq::empty(),
                diff_parser::hunk_body(header, ranges, rest, old_done, new_done)->Ok_0,
                old_done,
                new_done,
            ),
            diff_parser::BodyLine::Addition(_) => (
                seq![body.lines[0]],
                diff_parser::hunk_body(header, ranges, rest, old_done, new_done + 1)->Ok_0,
                old_done,
                new_done + 1,
            ),
            diff_parser::BodyLine::Deletion(_) => (
                seq![body.lines[0]],
                diff_parser::hunk_body(header, ranges, rest, old_done + 1, new_done)->Ok_0,
                old_done + 1,
                new_done,
            ),
            _ => (
                seq![body.lines[0]],
                diff_parser::hunk_body(header, ranges, rest, old_done + 1, new_done + 1)->Ok_0,
                old_done + 1,
                new_done + 1,
            ),
        };
        lemma_body_consistent(header, ranges, rest, old_next, new_next);
        assert(body.lines == first + inner.lines);
        if first.len() == 0 {
            assert(body.lines =~= inner.lines);
        } else {
            let head = body.lines[0];
            lemma_counts_cons(head, inner.lines, inner.lines.len() as int);
            assert(body.lines.take(inner.lines.len() as int + 1) =~= body.lines);
            assert(inner.lines.take(inner.lines.len() as int) =~= inner.lines);
            law_tabified_has_no_tab(lines[0].skip(1));
            assert forall|k: int| 0 <= k < body.lines.len() implies {
                &&& is_numbered(
                    #[trigger] body.lines[k],
                    ranges.old_start + old_done + old_lines(body.lines.take(k)),
                    ranges.new_start + new_done + new_lines(body.lines.take(k)),
                )
                &&& body.lines[k].coloring is Pending
                &&& !body.lines[k].content.contains('\t')
            } by {
                if k == 0 {
                    assert(body.lines.take(0) =~= Seq::empty());
                } else {
                    lemma_counts_cons(head, inner.lines, k - 1);
                    assert(body.lines[k] == inner.lines[k - 1]);
                }
            }
        }
    }
}

/// A parsed hunk holds as many lines of each side as its header declares, numbered without a gap;
/// its lines are uncoloured and hold no tab.
pub proof fn law_parsed_hunk_is_consistent(header: Seq<char>, lines: Seq<Seq<char>>)
    ensures
        diff_parser::hunk_at(header, lines) matches Ok(parsed) ==> {
            &&& is_consistent(parsed.hunk)
            &&& is_uncolored(parsed.hunk)
            &&& is_tabless(parsed.hunk)
        },
{
    match diff_parser::header_ranges(header) {
        Some(ranges) if diff_parser::range_fits(ranges.old_start, ranges.old_count)
            && diff_parser::range_fits(ranges.new_start, ranges.new_count) => {
            lemma_body_consistent(header, ranges, lines, 0, 0);
        },
        _ => {},
    }
}

proof fn lemma_hunks_consistent(lines: Seq<Seq<char>>, seen: bool)
    ensures
        diff_parser::hunks_in(lines, seen) matches Ok(hunks) ==> forall|i: int|
            0 <= i < hunks.len() ==> is_consistent(#[trigger] hunks[i]) && is_uncolored(hunks[i])
                && is_tabless(hunks[i]),
    decreases lines.len(),
{
    if lines.len() > 0 {
        let line = lines[0];
        let rest = lines.drop_first();
        if text::starts_with(line, "@@ "@) {
            match diff_parser::hunk_at(line, rest) {
                Ok(parsed) => {
                    diff_parser::lemma_hunk_used(line, rest);
                    law_parsed_hunk_is_consistent(line, rest);
                    lemma_hunks_consistent(rest.skip(parsed.used as int), true);
                },
                Err(_) => {},
            }
        } else {
            lemma_hunks_consistent(rest, seen);
        }
    }
}

/// Every hunk of a parsed patch holds what its header declares, numbered without a gap; its lines
/// are uncoloured and hold no tab.
pub proof fn law_parsed_patch_is_consistent(patch: Seq<char>)
    ensures
        diff_parser::patch_hunks(patch) matches Ok(hunks) ==> forall|i: int|
            0 <= i < hunks.len() ==> is_consistent(#[trigger] hunks[i]) && is_uncolored(hunks[i])
                && is_tabless(hunks[i]),
{
    lemma_hunks_consistent(text::lines(patch), false);
}

/// A line of a hunk as a writer of patches sees it.
pub struct WrittenLine {
    pub origin: LineOrigin,
    pub content: Seq<char>,
}

/// A hunk as a writer of patches sees it.
pub struct WrittenHunk {
    pub header: Seq<char>,
    pub ranges: HunkRanges,
    pub lines: Seq<WrittenLine>,
}

pub open spec fn prefix_of(origin: LineOrigin) -> char {
    match origin {
        LineOrigin::Context => ' ',
        LineOrigin::Addition => '+',
        LineOrigin::Deletion => '-',
    }
}

/// The line of a patch that stands for a line of a hunk.
pub open spec fn written_line(line: WrittenLine) -> Seq<char> {
    seq![prefix_of(line.origin)] + line.content
}

/// The lines of a patch that stand for the lines of a hunk.
pub open spec fn written_body(lines: Seq<WrittenLine>) -> Seq<Seq<char>> {
    lines.map_values(|line: WrittenLine| written_line(line))
}

/// The lines that a reader finds, after `old_done` and `new_done` lines of the two sides.
pub open spec fn read_lines(
    lines: Seq<WrittenLine>,
    ranges: HunkRanges,
    old_done: nat,
    new_done: nat,
) -> Seq<LineView>
    decreases lines.len(),
{
    if lines.len() == 0 {
        Seq::empty()
    } else {
        let line = lines[0];
        let on_old = line.origin != LineOrigin::Addition;
        let on_new = line.origin != LineOrigin::Deletion;
        seq![
            diff_parser::pending_line(
                line.origin,
                line.content,
                if on_old {
                    Some((ranges.old_start + old_done) as u32)
                } else {
                    None
                },
                if on_new {
                    Some((ranges.new_start + new_done) as u32)
                } else {
                    None
                },
            ),
        ] + read_lines(
            lines.drop_first(),
            ranges,
            if on_old {
                old_done + 1
            } else {
                old_done
            },
            if on_new {
                new_done + 1
            } else {
                new_done
            },
        )
    }
}

/// How many of the lines stand on the old side.
pub open spec fn written_old(lines: Seq<WrittenLine>) -> nat
    decreases lines.len(),
{
    if lines.len() == 0 {
        0
    } else {
        (if lines[0].origin == LineOrigin::Addition {
            0nat
        } else {
            1nat
        }) + written_old(lines.drop_first())
    }
}

/// How many of the lines stand on the new side.
pub open spec fn written_new(lines: Seq<WrittenLine>) -> nat
    decreases lines.len(),
{
    if lines.len() == 0 {
        0
    } else {
        (if lines[0].origin == LineOrigin::Deletion {
            0nat
        } else {
            1nat
        }) + written_new(lines.drop_first())
    }
}

/// A range as a hunk header writes it.
pub open spec fn written_range(start: u32, count: u32) -> Seq<char> {
    decimal::numeral(start as nat) + ","@ + decimal::numeral(count as nat)
}

/// A hunk header that declares the given ranges, with a text after it.
pub open spec fn written_header(ranges: HunkRanges, tail: Seq<char>) -> Seq<char> {
    "@@ "@ + ((seq!['-'] + written_range(ranges.old_start, ranges.old_count) + seq![' '] + seq!['+']
        + written_range(ranges.new_start, ranges.new_count)) + (" @@"@ + tail))
}

proof fn lemma_written_range(start: u32, count: u32)
    ensures
        diff_parser::range_of(written_range(start, count)) == Some((start, count)),
        written_range(start, count).len() > 0,
        forall|i: int|
            0 <= i < written_range(start, count).len() ==> {
                let c = #[trigger] written_range(start, count)[i];
                c == ',' || decimal::is_digit(c)
            },
{
    reveal_strlit(",");
    let s = written_range(start, count);
    let first = decimal::numeral(start as nat);
    let second = decimal::numeral(count as nat);
    let n = first.len() as int;
    decimal::lemma_numeral_value(start as nat);
    decimal::lemma_numeral_value(count as nat);
    decimal::lemma_numeral_reads_back(start);
    decimal::lemma_numeral_reads_back(count);
    assert(s.subrange(n, n + 1) == ","@);
    assert forall|j: int| 0 <= j < n implies !text::occurs_at(s, ","@, j) by {
        if text::occurs_at(s, ","@, j) {
            assert(s.subrange(j, j + 1)[0] == first[j]);
            assert(decimal::is_digit(first[j]));
        }
    }
    text::lemma_split_once_at(s, ","@, n);
    assert(s.take(n) == first);
    assert(s.skip(n + 1) == second);
    assert forall|i: int| 0 <= i < s.len() implies ({
        let c = #[trigger] s[i];
        c == ',' || decimal::is_digit(c)
    }) by {
        if i < n {
            assert(decimal::is_digit(first[i]));
        } else if i > n {
            assert(decimal::is_digit(second[i - n - 1]));
        }
    }
}

proof fn lemma_two_words(a: Seq<char>, b: Seq<char>)
    requires
        a.len() > 0,
        b.len() > 0,
        forall|i: int| 0 <= i < a.len() ==> !words::is_space(#[trigger] a[i]),
        forall|i: int| 0 <= i < b.len() ==> !words::is_space(#[trigger] b[i]),
    ensures
        words::words(a + seq![' '] + b) == seq![a, b],
{
    let s = a + seq![' '] + b;
    let n = a.len();
    text::lemma_run_len(s, words::space(), 0);
    assert(words::trim_start(s) == s);
    assert forall|j: int| 0 <= j < n implies words::not_space()(#[trigger] s[j]) by {
        assert(s[j] == a[j]);
    }
    text::lemma_run_len(s, words::not_space(), n);
    let rest = s.skip(n as int);
    assert(rest[1] == b[0]);
    text::lemma_run_len(rest, words::space(), 1);
    assert(words::trim_start(rest) == b);
    text::lemma_run_len(b, words::not_space(), b.len());
    assert(b.take(b.len() as int) == b);
    let nothing = b.skip(b.len() as int);
    assert(words::words(nothing).len() == 0);
    assert(words::words(rest) == seq![b]);
    assert(s.take(n as int) == a);
}

/// The ranges that a header was written with are read back, whatever text follows them.
pub proof fn law_written_header_reads_back(ranges: HunkRanges, tail: Seq<char>)
    ensures
        diff_parser::header_ranges(written_header(ranges, tail)) == Some(ranges),
{
    reveal_strlit("@@ ");
    reveal_strlit(" @@");
    lemma_written_range(ranges.old_start, ranges.old_count);
    lemma_written_range(ranges.new_start, ranges.new_count);
    let old_range = written_range(ranges.old_start, ranges.old_count);
    let new_range = written_range(ranges.new_start, ranges.new_count);
    let a = seq!['-'] + old_range;
    let b = seq!['+'] + new_range;
    let body = seq!['-'] + old_range + seq![' '] + seq!['+'] + new_range;
    assert(body == a + seq![' '] + b);
    let rest = body + (" @@"@ + tail);
    let line = written_header(ranges, tail);
    assert(line.subrange(0, 3) == "@@ "@);
    assert(line.skip(3) == rest);
    let n = body.len() as int;
    assert forall|i: int| 0 <= i < a.len() implies !words::is_space(#[trigger] a[i]) by {
        if i > 0 {
            assert(a[i] == old_range[i - 1]);
        }
    }
    assert forall|i: int| 0 <= i < b.len() implies !words::is_space(#[trigger] b[i]) by {
        if i > 0 {
            assert(b[i] == new_range[i - 1]);
        }
    }
    assert(rest.subrange(n, n + 3) == " @@"@);
    assert forall|j: int| 0 <= j < n implies !text::occurs_at(rest, " @@"@, j) by {
        if text::occurs_at(rest, " @@"@, j) {
            let found = rest.subrange(j, j + 3);
            assert(found[0] == ' ' && found[1] == '@');
            assert(rest[j] == ' ' && rest[j + 1] == '@');
            if j < a.len() {
                assert(rest[j] == a[j]);
            } else if j == a.len() {
                assert(rest[j + 1] == b[0]);
            } else {
                assert(rest[j] == b[j - a.len() - 1]);
            }
        }
    }
    text::lemma_split_once_at(rest, " @@"@, n);
    assert(rest.take(n) == body);
    lemma_two_words(a, b);
    assert(a.skip(1) == old_range);
    assert(b.skip(1) == new_range);
}

/// Whether the header is a hunk header that declares the hunk's lines.
pub open spec fn is_writable(hunk: WrittenHunk) -> bool {
    &&& diff_parser::header_ranges(hunk.header) == Some(hunk.ranges)
    &&& diff_parser::range_fits(hunk.ranges.old_start, hunk.ranges.old_count)
    &&& diff_parser::range_fits(hunk.ranges.new_start, hunk.ranges.new_count)
    &&& written_old(hunk.lines) == hunk.ranges.old_count
    &&& written_new(hunk.lines) == hunk.ranges.new_count
}

/// The hunk that a reader finds.
pub open spec fn read_hunk(hunk: WrittenHunk) -> HunkView {
    HunkView {
        header: hunk.header,
        lines: read_lines(hunk.lines, hunk.ranges, 0, 0),
        old_start: hunk.ranges.old_start,
        old_count: hunk.ranges.old_count,
        new_start: hunk.ranges.new_start,
        new_count: hunk.ranges.new_count,
    }
}

proof fn lemma_body_reads_back(
    header: Seq<char>,
    ranges: HunkRanges,
    lines: Seq<WrittenLine>,
    rest: Seq<Seq<char>>,
    old_done: nat,
    new_done: nat,
)
    requires
        old_done + written_old(lines) == ranges.old_count,
        new_done + written_new(lines) == ranges.new_count,
    ensures
        diff_parser::hunk_body(header, ranges, written_body(lines) + rest, old_done, new_done)
            == Ok::<HunkBody, Seq<char>>(
            HunkBody {
                lines: read_lines(lines, ranges, old_done, new_done),
                used: lines.len(),
            },
        ),
    decreases lines.len(),
{
    let all = written_body(lines) + rest;
    if lines.len() > 0 {
        let line = lines[0];
        assert(all[0] == written_line(line));
        assert(all[0].skip(1) =~= line.content);
        assert(all.drop_first() =~= written_body(lines.drop_first()) + rest);
        let old_next = if line.origin != LineOrigin::Addition {
            old_done + 1
        } else {
            old_done
        };
        let new_next = if line.origin != LineOrigin::Deletion {
            new_done + 1
        } else {
            new_done
        };
        lemma_body_reads_back(header, ranges, lines.drop_first(), rest, old_next, new_next);
    }
}

/// A hunk that is written out with the counts its header declares is read back line by line,
/// whatever its lines look like and whatever follows them.
pub proof fn law_written_hunk_reads_back(hunk: WrittenHunk, rest: Seq<Seq<char>>)
    requires
        is_writable(hunk),
    ensures
        diff_parser::hunk_at(hunk.header, written_body(hunk.lines) + rest) == Ok::<
            ParsedHunk,
            Seq<char>,
        >(ParsedHunk { hunk: read_hunk(hunk), used: hunk.lines.len() }),
{
    lemma_body_reads_back(hunk.header, hunk.ranges, hunk.lines, rest, 0, 0);
}

/// The lines of a patch that stand for several hunks.
pub open spec fn written_hunks(hunks: Seq<WrittenHunk>) -> Seq<Seq<char>>
    decreases hunks.len(),
{
    if hunks.len() == 0 {
        Seq::empty()
    } else {
        seq![hunks[0].header] + written_body(hunks[0].lines) + written_hunks(hunks.drop_first())
    }
}

/// Hunks that are written one after the other are read back one by one.
pub proof fn law_written_hunks_read_back(hunks: Seq<WrittenHunk>, seen: bool)
    requires
        forall|i: int| 0 <= i < hunks.len() ==> is_writable(#[trigger] hunks[i]),
    ensures
        diff_parser::hunks_in(written_hunks(hunks), seen) == Ok::<Seq<HunkView>, Seq<char>>(
            hunks.map_values(|hunk: WrittenHunk| read_hunk(hunk)),
        ),
    decreases hunks.len(),
{
    let views = hunks.map_values(|hunk: WrittenHunk| read_hunk(hunk));
    if hunks.len() == 0 {
        assert(views =~= Seq::empty());
    } else {
        let first = hunks[0];
        let others = hunks.drop_first();
        let all = written_hunks(hunks);
        let tail = written_hunks(others);
        assert(is_writable(first));
        assert(all[0] == first.header);
        assert(all.drop_first() =~= written_body(first.lines) + tail);
        law_written_hunk_reads_back(first, tail);
        assert(all.drop_first().skip(first.lines.len() as int) =~= tail);
        assert forall|i: int| 0 <= i < others.len() implies is_writable(#[trigger] others[i]) by {
            assert(is_writable(hunks[i + 1]));
        }
        law_written_hunks_read_back(others, true);
        let other_views = others.map_values(|hunk: WrittenHunk| read_hunk(hunk));
        assert(views =~= seq![read_hunk(first)] + other_views);
    }
}

/// A text made of lines, each followed by a line feed.
pub open spec fn joined(lines: Seq<Seq<char>>) -> Seq<char>
    decreases lines.len(),
{
    if lines.len() == 0 {
        Seq::empty()
    } else {
        lines[0].push('\n') + joined(lines.drop_first())
    }
}

/// Whether a text can stand as one line: no line feed in it, no carriage return at its end.
pub open spec fn is_line(s: Seq<char>) -> bool {
    &&& !s.contains('\n')
    &&& s.len() > 0 ==> s.last() != '\r'
}

/// Lines that are joined into a text are the lines of the text.
pub proof fn law_joined_lines_split_back(lines: Seq<Seq<char>>)
    requires
        forall|i: int| 0 <= i < lines.len() ==> is_line(#[trigger] lines[i]),
    ensures
        text::lines(joined(lines)) == lines,
    decreases lines.len(),
{
    if lines.len() == 0 {
        assert(text::lines(joined(lines)) =~= lines);
    } else {
        let first = lines[0];
        let others = lines.drop_first();
        let all = joined(lines);
        assert(is_line(first));
        assert forall|i: int| 0 <= i < others.len() implies is_line(#[trigger] others[i]) by {
            assert(is_line(lines[i + 1]));
        }
        law_joined_lines_split_back(others);
        let n = first.len();
        assert(all[n as int] == '\n');
        assert forall|j: int| 0 <= j < n implies (text::not_newline())(#[trigger] all[j]) by {
            assert(all[j] == first[j]);
            assert(first.contains(first[j]));
        }
        text::lemma_run_len(all, text::not_newline(), n);
        assert(all.take(n as int) =~= first);
        assert(all.skip(n as int + 1) =~= joined(others));
        assert(text::lines(all) =~= lines);
    }
}

/// A patch that is written out as text, hunk after hunk, is read back hunk by hunk.
pub proof fn law_written_patch_reads_back(hunks: Seq<WrittenHunk>)
    requires
        forall|i: int| 0 <= i < hunks.len() ==> is_writable(#[trigger] hunks[i]),
        forall|i: int|
            0 <= i < written_hunks(hunks).len() ==> is_line(#[trigger] written_hunks(hunks)[i]),
    ensures
        diff_parser::patch_hunks(joined(written_hunks(hunks))) == Ok::<Seq<HunkView>, Seq<char>>(
            hunks.map_values(|hunk: WrittenHunk| read_hunk(hunk)),
        ),
{
    law_joined_lines_split_back(written_hunks(hunks));
    law_written_hunks_read_back(hunks, false);
}

/// Whether a hash is always what `hash_of` names for the hunks.
pub open spec fn hash_is<H: Fn(&Vec<DiffHunk>) -> u64>(
    content_hash: H,
    hash_of: spec_fn(Seq<HunkView>) -> u64,
) -> bool {
    forall|hunks: &Vec<DiffHunk>, hash: u64|
        #[trigger] content_hash.ensures((hunks,), hash) ==> hash == hash_of(
            text::views(hunks@),
        )
}

/// A parse result, with the views of its files and of its error.
pub open spec fn parse_outcome(res: Result<Vec<DiffFile>, TuicrError>) -> Result<
    Seq<FileView>,
    ErrorView,
> {
    match res {
        Ok(files) => Ok(text::views(files@)),
        Err(error) => Err(error@),
    }
}

proof fn lemma_same_file<H: Fn(&Vec<DiffHunk>) -> u64>(
    content_hash: H,
    hash_of: spec_fn(Seq<HunkView>) -> u64,
    patch: FilePatch,
    file: DiffFile,
    other: DiffFile,
)
    requires
        hash_is(content_hash, hash_of),
        diff_parser::is_materialized(patch, content_hash, file),
        diff_parser::is_materialized(patch, content_hash, other),
    ensures
        file@ == other@,
{
    assert(content_hash.ensures((&file.hunks,), file.content_hash));
    assert(content_hash.ensures((&other.hunks,), other.content_hash));
}

/// Parsing two lists of patches one after the other gives the files of both, in order, or the
/// first error: one patch that cannot be read fails the whole list. The hash is a function of the
/// hunks.
pub proof fn law_patch_lists_are_parsed_in_order<H: Fn(&Vec<DiffHunk>) -> u64>(
    content_hash: H,
    hash_of: spec_fn(Seq<HunkView>) -> u64,
    a: Seq<FilePatch>,
    b: Seq<FilePatch>,
    of_a: Result<Vec<DiffFile>, TuicrError>,
    of_b: Result<Vec<DiffFile>, TuicrError>,
    of_both: Result<Vec<DiffFile>, TuicrError>,
)
    requires
        hash_is(content_hash, hash_of),
        a.len() > 0,
        b.len() > 0,
        diff_parser::is_parsed(a, content_hash, of_a),
        diff_parser::is_parsed(b, content_hash, of_b),
        diff_parser::is_parsed(a + b, content_hash, of_both),
    ensures
        parse_outcome(of_both) == (match (parse_outcome(of_a), parse_outcome(of_b)) {
            (Ok(x), Ok(y)) => Ok(x + y),
            (Err(error), _) => Err(error),
            (Ok(_), Err(error)) => Err(error),
        }),
{
    let both = a + b;
    match (of_a, of_b, of_both) {
        (Ok(x), Ok(y), Ok(z)) => {
            assert forall|i: int| 0 <= i < z@.len() implies text::views(z@)[i] == (text::views(x@)
                + text::views(y@))[i] by {
                assert(diff_parser::is_materialized(both[i], content_hash, z@[i]));
                if i < a.len() {
                    assert(diff_parser::is_materialized(a[i], content_hash, x@[i]));
                    lemma_same_file(content_hash, hash_of, a[i], z@[i], x@[i]);
                } else {
                    let j = i - a.len();
                    assert(diff_parser::is_materialized(b[j], content_hash, y@[j]));
                    lemma_same_file(content_hash, hash_of, b[j], z@[i], y@[j]);
                }
            }
            assert(text::views(z@) =~= text::views(x@) + text::views(y@));
        },
        (Ok(x), Ok(y), Err(error)) => {
            let i = choose|i: int| diff_parser::first_failure(both, i, error@);
            if i < a.len() {
                assert(diff_parser::is_materialized(a[i], content_hash, x@[i]));
            } else {
                assert(diff_parser::is_materialized(
                    b[i - a.len()],
                    content_hash,
                    y@[i - a.len()],
                ));
            }
        },
        (Err(error), _, Ok(z)) => {
            let i = choose|i: int| diff_parser::first_failure(a, i, error@);
            assert(both[i] == a[i]);
            assert(diff_parser::is_materialized(both[i], content_hash, z@[i]));
        },
        (Err(error), _, Err(other)) => {
            let i = choose|i: int| diff_parser::first_failure(a, i, error@);
            let j = choose|j: int| diff_parser::first_failure(both, j, other@);
            assert(both[i] == a[i]);
            if j < i {
                assert(both[j] == a[j]);
            } else if i < j {
                assert(diff_parser::patch_result(both[i]) is Ok);
            }
        },
        (Ok(_), Err(error), Ok(z)) => {
            let i = choose|i: int| diff_parser::first_failure(b, i, error@);
            assert(both[a.len() + i] == b[i]);
            assert(diff_parser::is_materialized(both[a.len() + i], content_hash, z@[a.len() + i]));
        },
        (Ok(x), Err(error), Err(other)) => {
            let i = choose|i: int| diff_parser::first_failure(b, i, error@);
            let j = choose|j: int| diff_parser::first_failure(both, j, other@);
            let k = a.len() + i;
            assert(both[k] == b[i]);
            if j < a.len() {
                assert(both[j] == a[j]);
                assert(diff_parser::is_materialized(a[j], content_hash, x@[j]));
            } else if j < k {
                assert(both[j] == b[j - a.len()]);
            } else if k < j {
                assert(diff_parser::patch_result(both[k]) is Ok);
            }
        },
    }
}

} // verus!
