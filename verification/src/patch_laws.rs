//! What a patch means, from its text to the files that are shown.

use vstd::prelude::*;
use crate::decimal;
use crate::diff_laws;
use crate::diff_laws::WrittenLine;
use crate::diff_parser;
use crate::diff_parser::{HunkBody, HunkRanges};
use crate::error::{ErrorView, TuicrError};
use crate::header_laws;
use crate::header_laws::declares;
use crate::model::{DiffFile, DiffHunk, FilePatch, HunkView, LineOrigin, LineView};
use crate::text;
use crate::text_laws;

verus! {

/// A line of a hunk's body as a writer of patches sees it: a line of one side or of both, or a
/// remark.
pub enum BodyItem {
    Line(WrittenLine),
    Remark(Seq<char>),
}

/// An item as it is written: one character says what it is, and its text follows.
pub open spec fn item_text(item: BodyItem) -> Seq<char> {
    match item {
        BodyItem::Line(line) => seq![
            (match line.origin {
                LineOrigin::Context => ' ',
                LineOrigin::Addition => '+',
                LineOrigin::Deletion => '-',
            }),
        ] + line.content,
        BodyItem::Remark(remark) => seq!['\\'] + remark,
    }
}

/// Items as they are written, one below the other.
pub open spec fn items_text(items: Seq<BodyItem>) -> Seq<Seq<char>> {
    Seq::new(items.len(), |i: int| item_text(items[i]))
}

/// The items that are lines.
pub open spec fn item_lines(items: Seq<BodyItem>) -> Seq<WrittenLine>
    decreases items.len(),
{
    if items.len() == 0 {
        Seq::empty()
    } else {
        (match items[0] {
            BodyItem::Line(line) => seq![line],
            BodyItem::Remark(_) => Seq::empty(),
        }) + item_lines(items.drop_first())
    }
}

/// A hunk as a writer of patches sees it, and the lines that follow it before the next one.
pub struct PatchHunk {
    pub header: Seq<char>,
    pub ranges: HunkRanges,
    pub items: Seq<BodyItem>,
    pub after: Seq<Seq<char>>,
}

/// Whether a line begins as a hunk header does.
pub open spec fn begins_as_header(line: Seq<char>) -> bool {
    line.len() >= 2 && line[0] == '@' && line[1] == '@'
}

/// Whether a line can stand between hunks.
pub open spec fn is_between_hunks(line: Seq<char>) -> bool {
    line.len() > 0 ==> line[0] != ' ' && line[0] != '+' && line[0] != '-' && !begins_as_header(line)
}

/// Whether a hunk holds as many lines of each side as its ranges declare, ends with the last of
/// them, and its line numbers are 32-bit numbers.
pub open spec fn is_whole(hunk: PatchHunk) -> bool {
    let lines = item_lines(hunk.items);
    &&& diff_laws::written_old(lines) == hunk.ranges.old_count
    &&& diff_laws::written_new(lines) == hunk.ranges.new_count
    &&& hunk.ranges.old_count == 0 || hunk.ranges.old_start + hunk.ranges.old_count <= 0x1_0000_0000
    &&& hunk.ranges.new_count == 0 || hunk.ranges.new_start + hunk.ranges.new_count <= 0x1_0000_0000
    &&& hunk.items.len() > 0 ==> hunk.items.last() is Line
    &&& forall|i: int| 0 <= i < hunk.after.len() ==> is_between_hunks(#[trigger] hunk.after[i])
}

/// The lines of hunks, each with its header above it.
pub open spec fn hunk_texts(hunks: Seq<PatchHunk>) -> Seq<Seq<char>>
    decreases hunks.len(),
{
    if hunks.len() == 0 {
        Seq::empty()
    } else {
        seq![hunks[0].header] + items_text(hunks[0].items) + hunks[0].after + hunk_texts(
            hunks.drop_first(),
        )
    }
}

/// Whether these lines can stand above the first hunk.
pub open spec fn is_preamble(lines: Seq<Seq<char>>) -> bool {
    forall|i: int| 0 <= i < lines.len() ==> !begins_as_header(#[trigger] lines[i])
}

/// Whether `read` is line `k` of a hunk as a reader should find it: its origin, the text after the
/// first character with four spaces in place of each tab, and its number on each side where it
/// stands, counted from the start that the header declares.
pub open spec fn is_line_read(
    lines: Seq<WrittenLine>,
    ranges: HunkRanges,
    k: int,
    read: LineView,
) -> bool {
    let line = lines[k];
    &&& read.origin == line.origin
    &&& text_laws::shows_tabs_as_spaces(line.content, read.content)
    &&& read.coloring is Pending
    &&& match read.old_lineno {
        Some(n) => line.origin != LineOrigin::Addition && n == ranges.old_start
            + diff_laws::written_old(lines.take(k)),
        None => line.origin == LineOrigin::Addition,
    }
    &&& match read.new_lineno {
        Some(n) => line.origin != LineOrigin::Deletion && n == ranges.new_start
            + diff_laws::written_new(lines.take(k)),
        None => line.origin == LineOrigin::Deletion,
    }
}

/// Whether `read` is a hunk as a reader should find it.
pub open spec fn is_hunk_read(hunk: PatchHunk, read: HunkView) -> bool {
    let lines = item_lines(hunk.items);
    &&& read.header == hunk.header
    &&& read.old_start == hunk.ranges.old_start
    &&& read.old_count == hunk.ranges.old_count
    &&& read.new_start == hunk.ranges.new_start
    &&& read.new_count == hunk.ranges.new_count
    &&& read.lines.len() == lines.len()
    &&& forall|k: int|
        0 <= k < lines.len() ==> is_line_read(lines, hunk.ranges, k, #[trigger] read.lines[k])
}

/// Whether `read` are hunks as a reader should find them, one by one.
pub open spec fn are_hunks_read(hunks: Seq<PatchHunk>, read: Seq<HunkView>) -> bool {
    &&& read.len() == hunks.len()
    &&& forall|i: int| 0 <= i < hunks.len() ==> is_hunk_read(hunks[i], #[trigger] read[i])
}

pub proof fn lemma_items_cons(items: Seq<BodyItem>)
    requires
        items.len() > 0,
    ensures
        items_text(items) == seq![item_text(items[0])] + items_text(items.drop_first()),
{
    assert(items_text(items) =~= seq![item_text(items[0])] + items_text(items.drop_first()));
}

#[verifier::rlimit(40)]
pub proof fn lemma_items_read(
    header: Seq<char>,
    ranges: HunkRanges,
    items: Seq<BodyItem>,
    rest: Seq<Seq<char>>,
    old_done: nat,
    new_done: nat,
)
    requires
        old_done + diff_laws::written_old(item_lines(items)) == ranges.old_count,
        new_done + diff_laws::written_new(item_lines(items)) == ranges.new_count,
        items.len() > 0 ==> items.last() is Line,
    ensures
        diff_parser::hunk_body(header, ranges, items_text(items) + rest, old_done, new_done) == Ok::<
            HunkBody,
            Seq<char>,
        >(
            HunkBody {
                lines: diff_laws::read_lines(item_lines(items), ranges, old_done, new_done),
                used: items.len(),
            },
        ),
    decreases items.len(),
{
    let all = items_text(items) + rest;
    if items.len() > 0 {
        let item = items[0];
        let others = items.drop_first();
        let lines = item_lines(items);
        lemma_items_cons(items);
        assert(all[0] == item_text(item));
        assert(all.drop_first() =~= items_text(others) + rest);
        if others.len() > 0 {
            assert(others.last() == items.last());
        }
        match item {
            BodyItem::Line(line) => {
                assert(lines =~= seq![line] + item_lines(others));
                assert(lines[0] == line);
                assert(lines.drop_first() =~= item_lines(others));
                assert(all[0].skip(1) =~= line.content);
                let old_next = if line.origin != LineOrigin::Addition {
                    old_done + 1
                } else {
                    old_done
                };
                let new_next = if line.origin != LineOrigin::Deletion {
                    new_done + 1
                } else {
                    new_done
                };
                lemma_items_read(header, ranges, others, rest, old_next, new_next);
            },
            BodyItem::Remark(_) => {
                assert(others.len() > 0);
                assert(lines =~= item_lines(others));
                lemma_some_line(others);
                lemma_items_read(header, ranges, others, rest, old_done, new_done);
                let read = diff_laws::read_lines(lines, ranges, old_done, new_done);
                assert(Seq::<LineView>::empty() + read =~= read);
            },
        }
    }
}

proof fn lemma_some_line(items: Seq<BodyItem>)
    requires
        items.len() > 0,
        items.last() is Line,
    ensures
        diff_laws::written_old(item_lines(items)) + diff_laws::written_new(item_lines(items)) > 0,
    decreases items.len(),
{
    let others = items.drop_first();
    if let BodyItem::Line(line) = items[0] {
        assert(item_lines(items) =~= seq![line] + item_lines(others));
        assert(item_lines(items)[0] == line);
    } else {
        assert(others.last() == items.last());
        lemma_some_line(others);
        assert(item_lines(items) =~= item_lines(others));
    }
}

proof fn lemma_read_lines(
    lines: Seq<WrittenLine>,
    ranges: HunkRanges,
    old_done: nat,
    new_done: nat,
    k: int,
)
    requires
        0 <= k < lines.len(),
        ranges.old_count == 0 || ranges.old_start + ranges.old_count <= 0x1_0000_0000,
        ranges.new_count == 0 || ranges.new_start + ranges.new_count <= 0x1_0000_0000,
        old_done + diff_laws::written_old(lines) == ranges.old_count,
        new_done + diff_laws::written_new(lines) == ranges.new_count,
    ensures
        ({
            let read = diff_laws::read_lines(lines, ranges, old_done, new_done);
            let line = lines[k];
            &&& read.len() == lines.len()
            &&& read[k].origin == line.origin
            &&& text_laws::shows_tabs_as_spaces(line.content, read[k].content)
            &&& read[k].coloring is Pending
            &&& match read[k].old_lineno {
                Some(n) => line.origin != LineOrigin::Addition && n == ranges.old_start + old_done
                    + diff_laws::written_old(lines.take(k)),
                None => line.origin == LineOrigin::Addition,
            }
            &&& match read[k].new_lineno {
                Some(n) => line.origin != LineOrigin::Deletion && n == ranges.new_start + new_done
                    + diff_laws::written_new(lines.take(k)),
                None => line.origin == LineOrigin::Deletion,
            }
        }),
    decreases lines.len(),
{
    let line = lines[0];
    let others = lines.drop_first();
    let on_old = line.origin != LineOrigin::Addition;
    let on_new = line.origin != LineOrigin::Deletion;
    let old_next = if on_old {
        old_done + 1
    } else {
        old_done
    };
    let new_next = if on_new {
        new_done + 1
    } else {
        new_done
    };
    lemma_read_len(others, ranges, old_next, new_next);
    if k == 0 {
        text_laws::law_tabs_become_four_spaces(line.content);
        assert(lines.take(0) =~= Seq::empty());
    } else {
        lemma_read_lines(others, ranges, old_next, new_next, k - 1);
        assert(others[k - 1] == lines[k]);
        assert(lines.take(k).drop_first() =~= others.take(k - 1));
        assert(lines.take(k)[0] == line);
    }
}

proof fn lemma_read_len(
    lines: Seq<WrittenLine>,
    ranges: HunkRanges,
    old_done: nat,
    new_done: nat,
)
    ensures
        diff_laws::read_lines(lines, ranges, old_done, new_done).len() == lines.len(),
    decreases lines.len(),
{
    if lines.len() > 0 {
        let others = lines.drop_first();
        lemma_read_len(others, ranges, old_done + 1, new_done + 1);
        lemma_read_len(others, ranges, old_done + 1, new_done);
        lemma_read_len(others, ranges, old_done, new_done + 1);
        lemma_read_len(others, ranges, old_done, new_done);
    }
}

proof fn lemma_hunk_is_read(hunk: PatchHunk, read: HunkView)
    requires
        is_whole(hunk),
        read == (HunkView {
            header: hunk.header,
            lines: diff_laws::read_lines(item_lines(hunk.items), hunk.ranges, 0, 0),
            old_start: hunk.ranges.old_start,
            old_count: hunk.ranges.old_count,
            new_start: hunk.ranges.new_start,
            new_count: hunk.ranges.new_count,
        }),
    ensures
        is_hunk_read(hunk, read),
{
    let lines = item_lines(hunk.items);
    lemma_read_len(lines, hunk.ranges, 0, 0);
    assert forall|k: int| 0 <= k < lines.len() implies is_line_read(
        lines,
        hunk.ranges,
        k,
        #[trigger] read.lines[k],
    ) by {
        lemma_read_lines(lines, hunk.ranges, 0, 0, k);
    }
}

pub proof fn lemma_not_header(line: Seq<char>)
    ensures
        text::starts_with(line, "@@"@) == begins_as_header(line),
        text::starts_with(line, "@@ "@) ==> begins_as_header(line),
{
    reveal_strlit("@@");
    reveal_strlit("@@ ");
    if line.len() >= 2 {
        let found = line.subrange(0, 2);
        assert(found[0] == line[0] && found[1] == line[1]);
        if begins_as_header(line) {
            assert(found =~= "@@"@);
        }
    }
    if text::starts_with(line, "@@ "@) {
        let found = line.subrange(0, 3);
        assert(found[0] == line[0] && found[1] == line[1]);
    }
}

pub proof fn lemma_skipped(lines: Seq<Seq<char>>, rest: Seq<Seq<char>>, seen: bool)
    requires
        is_preamble(lines),
        seen ==> forall|i: int| 0 <= i < lines.len() ==> is_between_hunks(#[trigger] lines[i]),
    ensures
        diff_parser::hunks_in(lines + rest, seen) == diff_parser::hunks_in(rest, seen),
    decreases lines.len(),
{
    let all = lines + rest;
    if lines.len() == 0 {
        assert(all =~= rest);
    } else {
        let others = lines.drop_first();
        assert(!begins_as_header(lines[0]));
        lemma_not_header(lines[0]);
        assert(all[0] == lines[0]);
        if seen {
            assert(is_between_hunks(lines[0]));
        }
        assert forall|i: int| 0 <= i < others.len() implies !begins_as_header(#[trigger] others[i]) by {
            assert(others[i] == lines[i + 1]);
        }
        if seen {
            assert forall|i: int| 0 <= i < others.len() implies is_between_hunks(
                #[trigger] others[i],
            ) by {
                assert(others[i] == lines[i + 1]);
            }
        }
        assert(all.drop_first() =~= others + rest);
        lemma_skipped(others, rest, seen);
    }
}

#[verifier::rlimit(40)]
proof fn lemma_hunk_texts_read(hunks: Seq<PatchHunk>, seen: bool)
    requires
        forall|i: int| 0 <= i < hunks.len() ==> is_whole(#[trigger] hunks[i]),
        forall|i: int|
            0 <= i < hunks.len() ==> diff_parser::header_ranges((#[trigger] hunks[i]).header) == Some(
                hunks[i].ranges,
            ),
    ensures
        diff_parser::hunks_in(hunk_texts(hunks), seen) matches Ok(read) && are_hunks_read(hunks, read),
    decreases hunks.len(),
{
    if hunks.len() > 0 {
        let hunk = hunks[0];
        let others = hunks.drop_first();
        let all = hunk_texts(hunks);
        let tail = hunk_texts(others);
        let following = hunk.after + tail;
        assert(is_whole(hunks[0]));
        assert(diff_parser::header_ranges(hunks[0].header) == Some(hunk.ranges));
        assert forall|i: int| 0 <= i < others.len() implies is_whole(#[trigger] others[i])
            && diff_parser::header_ranges(others[i].header) == Some(others[i].ranges) by {
            assert(others[i] == hunks[i + 1]);
            assert(is_whole(hunks[i + 1]));
        }
        lemma_hunk_texts_read(others, true);
        lemma_items_read(hunk.header, hunk.ranges, hunk.items, following, 0, 0);
        assert(all[0] == hunk.header);
        assert(all.drop_first() =~= items_text(hunk.items) + following);
        let parsed = diff_parser::hunk_at(hunk.header, all.drop_first())->Ok_0;
        lemma_hunk_is_read(hunk, parsed.hunk);
        assert(all.drop_first().skip(hunk.items.len() as int) =~= following);
        assert forall|i: int| 0 <= i < hunk.after.len() implies !begins_as_header(
            #[trigger] hunk.after[i],
        ) by {
            assert(is_between_hunks(hunk.after[i]));
        }
        lemma_skipped(hunk.after, tail, true);
        let rest = diff_parser::hunks_in(tail, true)->Ok_0;
        let read = diff_parser::hunks_in(all, seen)->Ok_0;
        assert(read == seq![parsed.hunk] + rest);
        assert forall|i: int| 0 <= i < hunks.len() implies is_hunk_read(hunks[i], #[trigger] read[i]) by {
            if i > 0 {
                assert(read[i] == rest[i - 1]);
                assert(hunks[i] == others[i - 1]);
            }
        }
    }
}

/// A range as a header writes it: the first line and how many there are; a single line needs no
/// count.
pub open spec fn is_range(s: Seq<char>, start: u32, count: u32) -> bool {
    ||| s == decimal::numeral(start as nat) + seq![','] + decimal::numeral(count as nat)
    ||| count == 1 && s == decimal::numeral(start as nat)
}

/// Whether a line is a hunk header that declares these ranges, with any text after it.
pub open spec fn is_header(line: Seq<char>, ranges: HunkRanges) -> bool {
    exists|old_range: Seq<char>, new_range: Seq<char>, tail: Seq<char>|
        #![trigger is_range(old_range, ranges.old_start, ranges.old_count), is_range(new_range, ranges.new_start, ranges.new_count), header_line(old_range, new_range, tail)]
        is_range(old_range, ranges.old_start, ranges.old_count) && is_range(
            new_range,
            ranges.new_start,
            ranges.new_count,
        ) && line == header_line(old_range, new_range, tail)
}

/// A hunk header with two ranges and a text after it.
pub open spec fn header_line(old_range: Seq<char>, new_range: Seq<char>, tail: Seq<char>) -> Seq<
    char,
> {
    seq!['@', '@', ' ', '-'] + old_range + seq![' ', '+'] + new_range + seq![' ', '@', '@'] + tail
}

proof fn lemma_range(s: Seq<char>, start: u32, count: u32)
    requires
        is_range(s, start, count),
    ensures
        header_laws::is_range_text(s, start, count),
{
    let first = decimal::numeral(start as nat);
    let second = decimal::numeral(count as nat);
    decimal::lemma_numeral_reads_back(start);
    decimal::lemma_numeral_reads_back(count);
    header_laws::law_numbers_are_read(first, start);
    header_laws::law_numbers_are_read(second, count);
    assert(header_laws::is_number(first, start) && header_laws::is_number(second, count));
}

/// A header declares the ranges it was written with, whatever text follows them; a range of one
/// line may leave its count out.
#[verifier::rlimit(40)]
pub proof fn law_headers_declare_their_ranges(line: Seq<char>, ranges: HunkRanges)
    requires
        is_header(line, ranges),
    ensures
        declares(line, ranges),
        diff_parser::header_ranges(line) == Some(ranges),
{
    let (old_range, new_range, tail) = choose|
        old_range: Seq<char>,
        new_range: Seq<char>,
        tail: Seq<char>,
    |
        #![trigger is_range(old_range, ranges.old_start, ranges.old_count), is_range(new_range, ranges.new_start, ranges.new_count), header_line(old_range, new_range, tail)]
        is_range(old_range, ranges.old_start, ranges.old_count) && is_range(
            new_range,
            ranges.new_start,
            ranges.new_count,
        ) && line == header_line(old_range, new_range, tail);
    let nothing = Seq::<char>::empty();
    let space = seq![' '];
    reveal_strlit("@@ ");
    reveal_strlit(" @@");
    lemma_range(old_range, ranges.old_start, ranges.old_count);
    lemma_range(new_range, ranges.new_start, ranges.new_count);
    assert(text_laws::is_blank(nothing) && text_laws::is_blank(space));
    assert("@@ "@ =~= seq!['@', '@', ' ']);
    assert(" @@"@ =~= seq![' ', '@', '@']);
    assert(line =~= header_laws::header_text(nothing, old_range, space, new_range, nothing, tail));
    header_laws::law_headers_are_read(line, ranges);
}

/// A patch that is written out is read back: every hunk with its header and its ranges, and every
/// line of it with its origin, its numbers, and the text after its first character, in which four
/// spaces stand for a tab. Lines above the first hunk, remarks, and lines between hunks that are no
/// body lines do not count.
pub proof fn law_written_text_is_read(
    content: Seq<char>,
    preamble: Seq<Seq<char>>,
    hunks: Seq<PatchHunk>,
)
    requires
        text_laws::is_lines_of(preamble + hunk_texts(hunks), content),
        is_preamble(preamble),
        forall|i: int|
            0 <= i < hunks.len() ==> is_whole(#[trigger] hunks[i]) && declares(
                hunks[i].header,
                hunks[i].ranges,
            ),
    ensures
        diff_parser::patch_hunks(content) matches Ok(read) && are_hunks_read(hunks, read),
{
    text_laws::lemma_lines_once(preamble + hunk_texts(hunks), content);
    assert forall|i: int| 0 <= i < hunks.len() implies diff_parser::header_ranges(
        (#[trigger] hunks[i]).header,
    ) == Some(hunks[i].ranges) by {
        header_laws::law_headers_are_read(hunks[i].header, hunks[i].ranges);
    }
    lemma_hunk_texts_read(hunks, false);
    lemma_skipped(preamble, hunk_texts(hunks), false);
}

#[verifier::rlimit(40)]
proof fn lemma_body_has_items(
    header: Seq<char>,
    ranges: HunkRanges,
    lines: Seq<Seq<char>>,
    old_done: nat,
    new_done: nat,
) -> (items: Seq<BodyItem>)
    requires
        old_done <= ranges.old_count,
        new_done <= ranges.new_count,
        diff_parser::hunk_body(header, ranges, lines, old_done, new_done) is Ok,
    ensures
        ({
            let body = diff_parser::hunk_body(header, ranges, lines, old_done, new_done)->Ok_0;
            &&& items.len() == body.used
            &&& body.used <= lines.len()
            &&& lines.take(body.used as int) == items_text(items)
            &&& body.lines == diff_laws::read_lines(item_lines(items), ranges, old_done, new_done)
            &&& old_done + diff_laws::written_old(item_lines(items)) == ranges.old_count
            &&& new_done + diff_laws::written_new(item_lines(items)) == ranges.new_count
            &&& items.len() > 0 ==> items.last() is Line
        }),
    decreases lines.len(),
{
    let result = diff_parser::hunk_body(header, ranges, lines, old_done, new_done);
    if old_done >= ranges.old_count && new_done >= ranges.new_count {
        let items = Seq::<BodyItem>::empty();
        assert(lines.take(0) =~= items_text(items));
        items
    } else {
        let line = lines[0];
        let rest = lines.drop_first();
        let item = if line[0] == '\\' {
            BodyItem::Remark(line.skip(1))
        } else if line[0] == '+' {
            BodyItem::Line(WrittenLine { origin: LineOrigin::Addition, content: line.skip(1) })
        } else if line[0] == '-' {
            BodyItem::Line(WrittenLine { origin: LineOrigin::Deletion, content: line.skip(1) })
        } else {
            BodyItem::Line(WrittenLine { origin: LineOrigin::Context, content: line.skip(1) })
        };
        let old_next = if line[0] == '-' || line[0] == ' ' {
            old_done + 1
        } else {
            old_done
        };
        let new_next = if line[0] == '+' || line[0] == ' ' {
            new_done + 1
        } else {
            new_done
        };
        let others = lemma_body_has_items(header, ranges, rest, old_next, new_next);
        let items = seq![item] + others;
        assert(item_text(item) =~= line);
        assert(items.drop_first() =~= others);
        lemma_items_cons(items);
        assert(lines.take(items.len() as int) =~= items_text(items)) by {
            assert(lines.take(items.len() as int) =~= seq![line] + rest.take(others.len() as int));
        }
        match item {
            BodyItem::Line(written) => {
                assert(item_lines(items) =~= seq![written] + item_lines(others));
                assert(item_lines(items)[0] == written);
                assert(item_lines(items).drop_first() =~= item_lines(others));
            },
            BodyItem::Remark(_) => {
                assert(item_lines(items) =~= item_lines(others));
                let body = result->Ok_0;
                let inner = diff_parser::hunk_body(header, ranges, rest, old_done, new_done)->Ok_0;
                assert(body.lines =~= inner.lines);
                if others.len() == 0 {
                    assert(item_lines(others).len() == 0);
                }
            },
        }
        if others.len() > 0 {
            assert(items.last() == others.last());
        }
        items
    }
}

/// Lines above a hunk, and hunks, whose lines stand one below the other.
pub struct PatchParts {
    pub preamble: Seq<Seq<char>>,
    pub hunks: Seq<PatchHunk>,
}

/// Whether parts are those of the given lines: every hunk is whole and its header declares its
/// ranges.
pub open spec fn are_parts(parts: PatchParts, lines: Seq<Seq<char>>) -> bool {
    &&& lines == parts.preamble + hunk_texts(parts.hunks)
    &&& is_preamble(parts.preamble)
    &&& forall|i: int|
        0 <= i < parts.hunks.len() ==> is_whole(#[trigger] parts.hunks[i])
            && declares(parts.hunks[i].header, parts.hunks[i].ranges)
}

#[verifier::rlimit(40)]
proof fn lemma_lines_have_parts(lines: Seq<Seq<char>>, seen: bool) -> (parts: PatchParts)
    requires
        diff_parser::hunks_in(lines, seen) is Ok,
    ensures
        are_parts(parts, lines),
        are_hunks_read(parts.hunks, diff_parser::hunks_in(lines, seen)->Ok_0),
        seen ==> forall|i: int|
            0 <= i < parts.preamble.len() ==> is_between_hunks(#[trigger] parts.preamble[i]),
    decreases lines.len(),
{
    let result = diff_parser::hunks_in(lines, seen)->Ok_0;
    if lines.len() == 0 {
        let parts = PatchParts { preamble: Seq::empty(), hunks: Seq::empty() };
        assert(lines =~= parts.preamble + hunk_texts(parts.hunks));
        parts
    } else {
        let line = lines[0];
        let rest = lines.drop_first();
        lemma_not_header(line);
        if text::starts_with(line, "@@ "@) {
            let parsed = diff_parser::hunk_at(line, rest)->Ok_0;
            diff_parser::lemma_hunk_used(line, rest);
            let ranges = diff_parser::header_ranges(line)->0;
            let items = lemma_body_has_items(line, ranges, rest, 0, 0);
            let following = rest.skip(parsed.used as int);
            let others = lemma_lines_have_parts(following, true);
            let hunk = PatchHunk { header: line, ranges, items, after: others.preamble };
            let hunks = seq![hunk] + others.hunks;
            let parts = PatchParts { preamble: Seq::empty(), hunks };
            assert(is_whole(hunk));
            lemma_hunk_is_read(hunk, parsed.hunk);
            assert(hunks.drop_first() =~= others.hunks);
            assert(rest =~= rest.take(parsed.used as int) + following);
            assert(lines =~= seq![line] + rest);
            assert(lines =~= parts.preamble + hunk_texts(hunks));
            header_laws::law_headers_are_read(line, ranges);
            assert forall|i: int| 0 <= i < hunks.len() implies is_whole(#[trigger] hunks[i])
                && declares(hunks[i].header, hunks[i].ranges) by {
                if i > 0 {
                    assert(hunks[i] == others.hunks[i - 1]);
                }
            }
            let read = diff_parser::hunks_in(following, true)->Ok_0;
            assert(result == seq![parsed.hunk] + read);
            assert forall|i: int| 0 <= i < hunks.len() implies is_hunk_read(
                hunks[i],
                #[trigger] result[i],
            ) by {
                if i > 0 {
                    assert(hunks[i] == others.hunks[i - 1]);
                    assert(result[i] == read[i - 1]);
                }
            }
            parts
        } else {
            let others = lemma_lines_have_parts(rest, seen);
            let parts = PatchParts { preamble: seq![line] + others.preamble, hunks: others.hunks };
            assert(lines =~= seq![line] + rest);
            assert(lines =~= parts.preamble + hunk_texts(parts.hunks));
            assert forall|i: int| 0 <= i < parts.preamble.len() implies !begins_as_header(
                #[trigger] parts.preamble[i],
            ) by {
                if i > 0 {
                    assert(parts.preamble[i] == others.preamble[i - 1]);
                }
            }
            if seen {
                assert forall|i: int| 0 <= i < parts.preamble.len() implies is_between_hunks(
                    #[trigger] parts.preamble[i],
                ) by {
                    if i > 0 {
                        assert(parts.preamble[i] == others.preamble[i - 1]);
                    }
                }
            }
            parts
        }
    }
}

/// A patch is accepted only where it is a patch: its lines are those above the first hunk and then
/// hunk after hunk, each with a header, as many lines of each side as the header declares, and
/// nothing after them that looks like a body line or a header. And then its hunks are read as they
/// are written.
pub proof fn law_accepted_text_is_a_patch(content: Seq<char>, lines: Seq<Seq<char>>)
    requires
        text_laws::is_lines_of(lines, content),
        diff_parser::patch_hunks(content) is Ok,
    ensures
        exists|parts: PatchParts| #[trigger]
            are_parts(parts, lines) && are_hunks_read(
                parts.hunks,
                diff_parser::patch_hunks(content)->Ok_0,
            ),
{
    text_laws::lemma_lines_once(lines, content);
    let parts = lemma_lines_have_parts(lines, false);
    assert(are_parts(parts, lines));
}

/// Whether a patch has a file to belong to, and its text can be read or need not be.
pub open spec fn is_readable(patch: FilePatch) -> bool {
    (patch.old_path is Some || patch.new_path is Some) && (patch.is_binary || patch.is_too_large
        || diff_parser::patch_hunks(patch.patch@) is Ok)
}

/// Parsing patches gives a file for each of them, in order: it has the paths, the status and the
/// flags of its patch, the hash of its hunks, and the hunks of its text, or none where the patch is
/// of a binary or too large file.
pub proof fn law_parsed_files_belong_to_their_patches<H: Fn(&Vec<DiffHunk>) -> u64>(
    patches: Seq<FilePatch>,
    content_hash: H,
    files: Vec<DiffFile>,
    i: int,
)
    requires
        diff_parser::is_parsed(patches, content_hash, Ok(files)),
        0 <= i < patches.len(),
    ensures
        ({
            let file = files@[i];
            let patch = patches[i];
            &&& files@.len() == patches.len()
            &&& is_readable(patch)
            &&& file.old_path == patch.old_path
            &&& file.new_path == patch.new_path
            &&& file.status == patch.status
            &&& file.is_binary == patch.is_binary
            &&& file.is_too_large == patch.is_too_large
            &&& !file.is_commit_message
            &&& content_hash.ensures((&file.hunks,), file.content_hash)
            &&& if patch.is_binary || patch.is_too_large {
                file.hunks@.len() == 0
            } else {
                let read = diff_parser::patch_hunks(patch.patch@)->Ok_0;
                file.hunks@.len() == read.len() && forall|h: int|
                    0 <= h < read.len() ==> (#[trigger] file.hunks@[h])@ == read[h]
            }
        }),
{
    let file = files@[i];
    assert(diff_parser::is_materialized(patches[i], content_hash, file));
    let views = text::views(file.hunks@);
    assert(views.len() == file.hunks@.len());
    assert forall|h: int| 0 <= h < views.len() implies (#[trigger] file.hunks@[h])@ == views[h] by {}
}

/// Parsing fails exactly where there is no patch, or a patch that cannot be read; the first such
/// patch gives the error, which names the file where there is one.
pub proof fn law_parsing_fails_at_the_first_bad_patch<H: Fn(&Vec<DiffHunk>) -> u64>(
    patches: Seq<FilePatch>,
    content_hash: H,
    res: Result<Vec<DiffFile>, TuicrError>,
)
    requires
        diff_parser::is_parsed(patches, content_hash, res),
    ensures
        res is Ok <==> patches.len() > 0 && forall|i: int|
            0 <= i < patches.len() ==> is_readable(#[trigger] patches[i]),
        res matches Err(error) ==> if patches.len() == 0 {
            error@ == ErrorView::NoChanges
        } else {
            exists|i: int| 0 <= i < patches.len() && #[trigger] fails_with(patches[i], error@)
                && forall|j: int| 0 <= j < i ==> is_readable(#[trigger] patches[j])
        },
{
    match res {
        Ok(files) => {
            assert forall|i: int| 0 <= i < patches.len() implies is_readable(#[trigger] patches[i]) by {
                law_parsed_files_belong_to_their_patches(patches, content_hash, files, i);
            }
        },
        Err(error) => {
            if patches.len() > 0 {
                let i = choose|i: int| diff_parser::first_failure(patches, i, error@);
                assert(fails_with(patches[i], error@));
                assert forall|j: int| 0 <= j < i implies is_readable(#[trigger] patches[j]) by {
                    assert(diff_parser::patch_result(patches[j]) is Ok);
                }
                assert(!is_readable(patches[i]));
            }
        },
    }
}

/// Whether a patch cannot be read, and gives this error.
pub open spec fn fails_with(patch: FilePatch, error: ErrorView) -> bool {
    match (patch.new_path, patch.old_path) {
        (None, None) => error == ErrorView::VcsCommand(
            "structured diff entry has neither an old nor a new path"@,
        ),
        (Some(path), _) => fails_under(patch, path@, error),
        (None, Some(path)) => fails_under(patch, path@, error),
    }
}

/// Whether a patch of the file at a path cannot be read, and gives this error.
pub open spec fn fails_under(patch: FilePatch, path: Seq<char>, error: ErrorView) -> bool {
    &&& !patch.is_binary
    &&& !patch.is_too_large
    &&& diff_parser::patch_hunks(patch.patch@) matches Err(detail)
    &&& error == ErrorView::VcsCommand("invalid unified diff for "@ + path + ": "@ + detail)
}

} // verus!
