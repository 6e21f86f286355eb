//! What is said of a text that is no patch.

use vstd::prelude::*;
use crate::decimal;
use crate::diff_laws;
use crate::diff_parser;
use crate::diff_parser::{HunkBody, HunkRanges};
use crate::header_laws;
use crate::header_laws::{declares, spells};
use crate::model::LineOrigin;
use crate::patch_laws;
use crate::patch_laws::{
    are_parts,
    begins_as_header,
    hunk_texts,
    is_between_hunks,
    is_whole,
    item_lines,
    item_text,
    items_text,
    BodyItem,
    PatchHunk,
    PatchParts,
};
use crate::text;
use crate::text_laws;

verus! {

/// Whether a line opens a hunk: two at signs and a space.
pub open spec fn opens_hunk(line: Seq<char>) -> bool {
    begins_as_header(line) && line.len() >= 3 && line[2] == ' '
}

/// Whether the last line of a range has no 32-bit number.
pub open spec fn is_too_far(start: u32, count: u32) -> bool {
    count > 0 && start + count > 0x1_0000_0000
}

/// Whether digits are the usual way to write a number, without leading zeros.
pub open spec fn is_plain_number(digits: Seq<char>, n: int) -> bool {
    spells(digits, n) && digits.len() > 0 && (digits.len() == 1 || digits[0] != '0')
}

/// Whether a text begins with a character.
pub open spec fn begins_with(line: Seq<char>, c: char) -> bool {
    line.len() > 0 && line[0] == c
}

/// Whether a hunk goes wrong with these lines, where the header declares so many more lines of the
/// old and of the new side, and what is said of it.
pub open spec fn is_body_fault(
    header: Seq<char>,
    old_left: int,
    new_left: int,
    rest: Seq<Seq<char>>,
    detail: Seq<char>,
) -> bool {
    if rest.len() == 0 {
        exists|old_digits: Seq<char>, new_digits: Seq<char>| #[trigger]
            is_plain_number(old_digits, old_left) && #[trigger] is_plain_number(
                new_digits,
                new_left,
            ) && detail == "hunk `"@ + header + "` ended early (missing "@ + old_digits
                + " old and "@ + new_digits + " new lines)"@
    } else if begins_with(rest[0], '+') {
        new_left == 0 && detail == "hunk `"@ + header + "` contains too many new-side lines"@
    } else if begins_with(rest[0], '-') {
        old_left == 0 && detail == "hunk `"@ + header + "` contains too many old-side lines"@
    } else if begins_with(rest[0], ' ') {
        (old_left == 0 || new_left == 0) && detail == "hunk `"@ + header
            + "` contains too many context lines"@
    } else {
        !begins_with(rest[0], '\\') && detail == "hunk `"@ + header
            + "` contains an unprefixed body line `"@ + rest[0] + "`"@
    }
}

/// Whether lines begin with a hunk that its header opens well, some items of its body that are
/// not all that the header declares, and then go wrong.
pub open spec fn is_broken_hunk(
    bad: Seq<Seq<char>>,
    ranges: HunkRanges,
    items: Seq<BodyItem>,
    rest: Seq<Seq<char>>,
    detail: Seq<char>,
) -> bool {
    let old_left = ranges.old_count - diff_laws::written_old(item_lines(items));
    let new_left = ranges.new_count - diff_laws::written_new(item_lines(items));
    &&& bad == seq![bad[0]] + items_text(items) + rest
    &&& declares(bad[0], ranges)
    &&& !is_too_far(ranges.old_start, ranges.old_count)
    &&& !is_too_far(ranges.new_start, ranges.new_count)
    &&& old_left >= 0 && new_left >= 0 && old_left + new_left > 0
    &&& is_body_fault(bad[0], old_left, new_left, rest, detail)
}

/// Whether the first of these lines makes a text no patch, and what is said of it. A line that
/// looks like a body line is a fault only behind a hunk.
pub open spec fn is_fault(bad: Seq<Seq<char>>, seen: bool, detail: Seq<char>) -> bool {
    let line = bad[0];
    ||| begins_as_header(line) && !opens_hunk(line) && detail
        == "unsupported or malformed hunk header `"@ + line + "`"@
    ||| opens_hunk(line) && (forall|ranges: HunkRanges| !#[trigger] declares(line, ranges))
        && detail == "malformed hunk header `"@ + line + "`"@
    ||| (exists|ranges: HunkRanges| #[trigger]
        declares(line, ranges) && (is_too_far(ranges.old_start, ranges.old_count) || is_too_far(
            ranges.new_start,
            ranges.new_count,
        ))) && detail == "hunk range overflows a 32-bit line number in `"@ + line + "`"@
    ||| (exists|ranges: HunkRanges, items: Seq<BodyItem>, rest: Seq<Seq<char>>| #[trigger]
        is_broken_hunk(bad, ranges, items, rest, detail))
    ||| seen && (begins_with(line, ' ') || begins_with(line, '+') || begins_with(line, '-'))
        && detail == "body line appears outside its declared hunk range: `"@ + line + "`"@
}

proof fn lemma_zeros(digits: Seq<char>)
    requires
        spells(digits, 0),
        digits.len() > 0,
    ensures
        digits[0] == '0',
    decreases digits.len(),
{
    reveal_strlit("0123456789");
    if digits.len() > 1 {
        lemma_zeros(digits.drop_last());
        assert(digits.drop_last()[0] == digits[0]);
    }
}

proof fn lemma_plain(digits: Seq<char>, n: nat)
    requires
        is_plain_number(digits, n as int),
    ensures
        digits == decimal::numeral(n),
    decreases digits.len(),
{
    reveal_strlit("0123456789");
    reveal_with_fuel(spells, 2);
    let rest = digits.drop_last();
    let d = n % 10;
    assert(digits.last() == decimal::digit_char(d));
    if rest.len() == 0 {
        assert(n / 10 == 0);
        assert(digits =~= seq![digits.last()]);
    } else {
        assert(rest[0] == digits[0]);
        if n / 10 == 0 {
            lemma_zeros(rest);
        }
        lemma_plain(rest, n / 10);
        assert(digits =~= rest.push(digits.last()));
    }
}

#[verifier::rlimit(40)]
proof fn lemma_broken_body(
    header: Seq<char>,
    ranges: HunkRanges,
    items: Seq<BodyItem>,
    rest: Seq<Seq<char>>,
    old_done: nat,
    new_done: nat,
    detail: Seq<char>,
)
    requires
        ({
            let old_left = ranges.old_count - old_done - diff_laws::written_old(item_lines(items));
            let new_left = ranges.new_count - new_done - diff_laws::written_new(item_lines(items));
            &&& old_left >= 0 && new_left >= 0 && old_left + new_left > 0
            &&& is_body_fault(header, old_left, new_left, rest, detail)
        }),
    ensures
        diff_parser::hunk_body(header, ranges, items_text(items) + rest, old_done, new_done) == Err::<
            HunkBody,
            Seq<char>,
        >(detail),
    decreases items.len(),
{
    let all = items_text(items) + rest;
    if items.len() == 0 {
        assert(all =~= rest);
        assert(item_lines(items).len() == 0);
        let old_left = ranges.old_count - old_done;
        let new_left = ranges.new_count - new_done;
        if rest.len() == 0 {
            let (old_digits, new_digits) = choose|old_digits: Seq<char>, new_digits: Seq<char>|
                #[trigger] is_plain_number(old_digits, old_left) && #[trigger] is_plain_number(
                    new_digits,
                    new_left,
                ) && detail == "hunk `"@ + header + "` ended early (missing "@ + old_digits
                    + " old and "@ + new_digits + " new lines)"@;
            lemma_plain(old_digits, old_left as nat);
            lemma_plain(new_digits, new_left as nat);
        }
    } else {
        let item = items[0];
        let others = items.drop_first();
        let lines = item_lines(items);
        patch_laws::lemma_items_cons(items);
        assert(all[0] == item_text(item));
        assert(all.drop_first() =~= items_text(others) + rest);
        match item {
            BodyItem::Line(line) => {
                assert(lines =~= seq![line] + item_lines(others));
                assert(lines[0] == line);
                assert(lines.drop_first() =~= item_lines(others));
                let old_next = if line.origin != LineOrigin::Addition {
                    old_done + 1
                } else {
                    old_done
                };
                let new_next = if line.origin != LineOrigin::Deletion {
                    new_done + 1
                } else {
                    new_done
                };
                lemma_broken_body(header, ranges, others, rest, old_next, new_next, detail);
            },
            BodyItem::Remark(_) => {
                assert(lines =~= item_lines(others));
                lemma_broken_body(header, ranges, others, rest, old_done, new_done, detail);
            },
        }
    }
}

proof fn lemma_opens(line: Seq<char>)
    ensures
        text::starts_with(line, "@@ "@) == opens_hunk(line),
{
    reveal_strlit("@@ ");
    if opens_hunk(line) {
        assert(line.subrange(0, 3) =~= "@@ "@);
    }
    if text::starts_with(line, "@@ "@) {
        let found = line.subrange(0, 3);
        assert(found[0] == line[0] && found[1] == line[1] && found[2] == line[2]);
    }
}

proof fn lemma_declares_opens(line: Seq<char>, ranges: HunkRanges)
    requires
        declares(line, ranges),
    ensures
        opens_hunk(line),
        diff_parser::header_ranges(line) == Some(ranges),
{
    header_laws::law_headers_are_read(line, ranges);
    lemma_opens(line);
}

#[verifier::rlimit(40)]
proof fn lemma_fault(bad: Seq<Seq<char>>, seen: bool, detail: Seq<char>)
    requires
        bad.len() > 0,
        is_fault(bad, seen, detail),
    ensures
        diff_parser::hunks_in(bad, seen) is Err,
        diff_parser::hunks_in(bad, seen)->Err_0 == detail,
{
    let line = bad[0];
    let following = bad.drop_first();
    lemma_opens(line);
    patch_laws::lemma_not_header(line);
    if opens_hunk(line) {
        match diff_parser::header_ranges(line) {
            None => {
                assert forall|ranges: HunkRanges| !#[trigger] declares(line, ranges) by {
                    header_laws::law_headers_are_read(line, ranges);
                }
            },
            Some(ranges) => {
                header_laws::law_headers_are_read(line, ranges);
                assert(declares(line, ranges));
                assert forall|other: HunkRanges| #[trigger] declares(line, other) implies other
                    == ranges by {
                    header_laws::law_headers_are_read(line, other);
                }
                if exists|other: HunkRanges, items: Seq<BodyItem>, rest: Seq<Seq<char>>| #[trigger]
                    is_broken_hunk(bad, other, items, rest, detail) {
                    let (other, items, rest) = choose|
                        other: HunkRanges,
                        items: Seq<BodyItem>,
                        rest: Seq<Seq<char>>,
                    | #[trigger] is_broken_hunk(bad, other, items, rest, detail);
                    assert(following =~= items_text(items) + rest);
                    lemma_broken_body(line, ranges, items, rest, 0, 0, detail);
                }
            },
        }
    } else {
        assert forall|ranges: HunkRanges| !#[trigger] declares(line, ranges) by {
            if declares(line, ranges) {
                lemma_declares_opens(line, ranges);
            }
        }
    }
}

#[verifier::rlimit(40)]
proof fn lemma_fault_behind(
    hunks: Seq<PatchHunk>,
    bad: Seq<Seq<char>>,
    seen: bool,
    detail: Seq<char>,
)
    requires
        forall|i: int|
            0 <= i < hunks.len() ==> is_whole(#[trigger] hunks[i]) && declares(
                hunks[i].header,
                hunks[i].ranges,
            ),
        diff_parser::hunks_in(bad, seen || hunks.len() > 0) is Err,
        diff_parser::hunks_in(bad, seen || hunks.len() > 0)->Err_0 == detail,
    ensures
        diff_parser::hunks_in(hunk_texts(hunks) + bad, seen) is Err,
        diff_parser::hunks_in(hunk_texts(hunks) + bad, seen)->Err_0 == detail,
    decreases hunks.len(),
{
    if hunks.len() == 0 {
        assert(hunk_texts(hunks) + bad =~= bad);
    } else {
        let hunk = hunks[0];
        let others = hunks.drop_first();
        let all = hunk_texts(hunks) + bad;
        let tail = hunk_texts(others) + bad;
        let following = hunk.after + tail;
        assert(is_whole(hunks[0]) && declares(hunks[0].header, hunks[0].ranges));
        lemma_declares_opens(hunk.header, hunk.ranges);
        lemma_opens(hunk.header);
        assert forall|i: int| 0 <= i < others.len() implies is_whole(#[trigger] others[i])
            && declares(others[i].header, others[i].ranges) by {
            assert(others[i] == hunks[i + 1]);
        }
        lemma_fault_behind(others, bad, true, detail);
        patch_laws::lemma_items_read(hunk.header, hunk.ranges, hunk.items, following, 0, 0);
        assert(all[0] == hunk.header);
        assert(all.drop_first() =~= items_text(hunk.items) + following);
        assert(all.drop_first().skip(hunk.items.len() as int) =~= following);
        assert forall|i: int| 0 <= i < hunk.after.len() implies !begins_as_header(
            #[trigger] hunk.after[i],
        ) by {
            assert(is_between_hunks(hunk.after[i]));
        }
        patch_laws::lemma_skipped(hunk.after, tail, true);
    }
}

/// A text that is a patch up to some line and goes wrong there is refused with what is said of that
/// line: of a header that is none, of a range that goes too far, of a hunk that ends early or holds
/// too much or a line that is no body line, and of a body line behind a hunk.
pub proof fn law_faults_are_told(
    content: Seq<char>,
    good: Seq<Seq<char>>,
    parts: PatchParts,
    bad: Seq<Seq<char>>,
    detail: Seq<char>,
)
    requires
        text_laws::is_lines_of(good + bad, content),
        are_parts(parts, good),
        bad.len() > 0,
        is_fault(bad, parts.hunks.len() > 0, detail),
    ensures
        diff_parser::patch_hunks(content) is Err,
        diff_parser::patch_hunks(content)->Err_0 == detail,
{
    text_laws::lemma_lines_once(good + bad, content);
    assert(good + bad =~= parts.preamble + (hunk_texts(parts.hunks) + bad));
    lemma_fault(bad, parts.hunks.len() > 0, detail);
    lemma_fault_behind(parts.hunks, bad, false, detail);
    patch_laws::lemma_skipped(parts.preamble, hunk_texts(parts.hunks) + bad, false);
}

} // verus!
