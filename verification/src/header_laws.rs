//! The grammar of numbers, ranges and hunk headers.

use vstd::prelude::*;
use crate::decimal;
use crate::diff_parser;
use crate::diff_parser::HunkRanges;
use crate::text;
use crate::text_laws::is_blank;
use crate::words;

verus! {

/// Whether a character is the digit for `d`.
pub open spec fn is_digit_for(c: char, d: int) -> bool {
    0 <= d < 10 && c == "0123456789"@[d]
}

/// Whether digits spell a number: the last one is what is left over when it is divided by ten, and
/// the others spell how many tens there are.
pub open spec fn spells(digits: Seq<char>, n: int) -> bool
    decreases digits.len(),
{
    if digits.len() == 0 {
        n == 0
    } else {
        n >= 0 && is_digit_for(digits.last(), n % 10) && spells(digits.drop_last(), n / 10)
    }
}

/// Whether a text is a number: one digit or more, with leading zeros or without, and with a plus
/// sign before them or without.
pub open spec fn is_number(s: Seq<char>, n: u32) -> bool {
    exists|digits: Seq<char>| #[trigger]
        spells(digits, n as int) && digits.len() > 0 && (s == digits || s == seq!['+'] + digits)
}

/// Whether a text is a range: the number of its first line, a comma, and how many lines there are,
/// or the number of its only line.
pub open spec fn is_range_text(s: Seq<char>, start: u32, count: u32) -> bool {
    ||| exists|a: Seq<char>, b: Seq<char>| #[trigger]
        is_number(a, start) && #[trigger] is_number(b, count) && s == a + seq![','] + b
    ||| is_number(s, start) && count == 1
}

/// A hunk header with white space around its two ranges and a text after it.
pub open spec fn header_text(
    before: Seq<char>,
    old_range: Seq<char>,
    between: Seq<char>,
    new_range: Seq<char>,
    after: Seq<char>,
    tail: Seq<char>,
) -> Seq<char> {
    "@@ "@ + before + seq!['-'] + old_range + between + seq!['+'] + new_range + after + " @@"@ + tail
}

/// Whether a line is a hunk header that declares these ranges: the old one behind a minus sign and
/// then the new one behind a plus sign, parted by white space, between two pairs of at signs.
pub open spec fn declares(line: Seq<char>, ranges: HunkRanges) -> bool {
    exists|
        before: Seq<char>,
        old_range: Seq<char>,
        between: Seq<char>,
        new_range: Seq<char>,
        after: Seq<char>,
        tail: Seq<char>,
    |
        {
            &&& line == #[trigger] header_text(before, old_range, between, new_range, after, tail)
            &&& is_blank(before) && is_blank(between) && is_blank(after)
            &&& between.len() > 0
            &&& is_range_text(old_range, ranges.old_start, ranges.old_count)
            &&& is_range_text(new_range, ranges.new_start, ranges.new_count)
        }
}

proof fn lemma_digit(c: char)
    ensures
        decimal::is_digit(c) <==> exists|d: int| #[trigger] is_digit_for(c, d),
        forall|d: int| #[trigger] is_digit_for(c, d) ==> d == c as int - '0' as int,
{
    reveal_strlit("0123456789");
    if decimal::is_digit(c) {
        assert(is_digit_for(c, c as int - '0' as int));
    }
}

proof fn lemma_spells(digits: Seq<char>, n: int)
    ensures
        spells(digits, n) <==> decimal::all_digits(digits) && decimal::digits_value(digits) == n,
    decreases digits.len(),
{
    if digits.len() > 0 {
        let rest = digits.drop_last();
        lemma_digit(digits.last());
        lemma_spells(rest, n / 10);
        if spells(digits, n) {
            assert(is_digit_for(digits.last(), n % 10));
            assert forall|i: int| 0 <= i < digits.len() implies decimal::is_digit(
                #[trigger] digits[i],
            ) by {
                if i < rest.len() {
                    assert(rest[i] == digits[i]);
                }
            }
        }
        if decimal::all_digits(digits) && decimal::digits_value(digits) == n {
            assert forall|i: int| 0 <= i < rest.len() implies decimal::is_digit(
                #[trigger] rest[i],
            ) by {
                assert(rest[i] == digits[i]);
            }
            assert(decimal::is_digit(digits[digits.len() - 1]));
            let d = choose|d: int| #[trigger] is_digit_for(digits.last(), d);
            assert(n == 10 * decimal::digits_value(rest) + d);
            assert(n % 10 == d && n / 10 == decimal::digits_value(rest));
        }
    }
}

/// A text is read as a number exactly where it is one.
pub proof fn law_numbers_are_read(s: Seq<char>, n: u32)
    ensures
        (decimal::u32_of(s) == Some(n)) == is_number(s, n),
{
    let digits = decimal::unsigned_part(s);
    lemma_spells(digits, n as int);
    if decimal::u32_of(s) == Some(n) {
        if s.len() > 0 && s[0] == '+' {
            assert(s =~= seq!['+'] + digits);
        }
        assert(spells(digits, n as int));
    }
    if is_number(s, n) {
        let found = choose|found: Seq<char>| #[trigger]
            spells(found, n as int) && found.len() > 0 && (s == found || s == seq!['+'] + found);
        lemma_spells(found, n as int);
        if s == found {
            assert(decimal::is_digit(s[0]));
        } else {
            assert(s.skip(1) =~= found);
        }
        assert(digits == found);
    }
}

proof fn lemma_number_chars(s: Seq<char>, n: u32)
    requires
        is_number(s, n),
    ensures
        s.len() > 0,
        forall|i: int|
            0 <= i < s.len() ==> !words::is_space(#[trigger] s[i]) && s[i] != '@' && s[i] != ',',
{
    let digits = choose|digits: Seq<char>| #[trigger]
        spells(digits, n as int) && digits.len() > 0 && (s == digits || s == seq!['+'] + digits);
    lemma_spells(digits, n as int);
    assert forall|i: int| 0 <= i < s.len() implies !words::is_space(#[trigger] s[i]) && s[i] != '@'
        && s[i] != ',' by {
        if s == digits {
            assert(decimal::is_digit(digits[i]));
        } else if i > 0 {
            assert(decimal::is_digit(digits[i - 1]));
        }
    }
}

/// A text is read as a range exactly where it is one.
pub proof fn law_ranges_are_read(s: Seq<char>, start: u32, count: u32)
    ensures
        (diff_parser::range_of(s) == Some((start, count))) == is_range_text(s, start, count),
{
    let comma = ","@;
    reveal_strlit(",");
    assert(comma =~= seq![',']);
    law_numbers_are_read(s, start);
    text::lemma_find_from(s, comma, 0);
    if diff_parser::range_of(s) == Some((start, count)) {
        if let Some(k) = text::find_from(s, comma, 0) {
            let a = s.take(k);
            let b = s.skip(k + 1);
            law_numbers_are_read(a, start);
            law_numbers_are_read(b, count);
            assert(s.subrange(k, k + 1)[0] == s[k]);
            assert(s =~= a + seq![','] + b);
            assert(is_number(a, start) && is_number(b, count));
        }
    }
    if is_range_text(s, start, count) {
        if is_number(s, start) && count == 1 {
            lemma_number_chars(s, start);
            if let Some(k) = text::find_from(s, comma, 0) {
                assert(s.subrange(k, k + 1)[0] == s[k]);
            }
        } else {
            let (a, b) = choose|a: Seq<char>, b: Seq<char>| #[trigger]
                is_number(a, start) && #[trigger] is_number(b, count) && s == a + seq![','] + b;
            law_numbers_are_read(a, start);
            law_numbers_are_read(b, count);
            lemma_number_chars(a, start);
            let n = a.len() as int;
            assert(s.subrange(n, n + 1) =~= comma);
            assert forall|j: int| 0 <= j < n implies !text::occurs_at(s, comma, j) by {
                if text::occurs_at(s, comma, j) {
                    assert(s.subrange(j, j + 1)[0] == a[j]);
                }
            }
            text::lemma_split_once_at(s, comma, n);
            assert(s.take(n) =~= a);
            assert(s.skip(n + 1) =~= b);
        }
    }
}

proof fn lemma_range_chars(s: Seq<char>, start: u32, count: u32)
    requires
        is_range_text(s, start, count),
    ensures
        forall|i: int| 0 <= i < s.len() ==> !words::is_space(#[trigger] s[i]) && s[i] != '@',
{
    if is_number(s, start) && count == 1 {
        lemma_number_chars(s, start);
    } else {
        let (a, b) = choose|a: Seq<char>, b: Seq<char>| #[trigger]
            is_number(a, start) && #[trigger] is_number(b, count) && s == a + seq![','] + b;
        lemma_number_chars(a, start);
        lemma_number_chars(b, count);
        let n = a.len();
        assert forall|i: int| 0 <= i < s.len() implies !words::is_space(#[trigger] s[i]) && s[i]
            != '@' by {
            if i < n {
                assert(s[i] == a[i]);
            } else if i > n {
                assert(s[i] == b[i - n - 1]);
            }
        }
    }
}

/// Whether no character of a text is white space.
pub open spec fn is_solid(s: Seq<char>) -> bool {
    forall|i: int| 0 <= i < s.len() ==> !words::is_space(#[trigger] s[i])
}

/// White space alone holds no word.
pub proof fn law_white_space_holds_no_word(s: Seq<char>)
    ensures
        (words::words(s).len() == 0) == is_blank(s),
{
    let rest = words::trim_start(s);
    let k = text::run_len(s, words::space()) as int;
    text::lemma_run_len_bounds(s, words::space());
    text::lemma_run_len_bounds(rest, words::not_space());
    if is_blank(s) {
        assert forall|j: int| 0 <= j < s.len() implies words::space()(#[trigger] s[j]) by {}
        text::lemma_run_len(s, words::space(), s.len());
    }
    if words::words(s).len() == 0 {
        if rest.len() > 0 {
            assert(rest[0] == s[k]);
            assert(!words::space()(s[k]));
            assert(words::not_space()(rest[0]));
        }
        assert forall|j: int| 0 <= j < s.len() implies words::is_space(#[trigger] s[j]) by {
            assert(words::space()(s[j]));
        }
    }
}

/// The first word of a text is what stands between the white space at its start and the next white
/// space, and its other words are those of the rest.
pub proof fn law_words_end_at_white_space(before: Seq<char>, word: Seq<char>, rest: Seq<char>)
    requires
        is_blank(before),
        is_solid(word),
        word.len() > 0,
        rest.len() > 0 ==> words::is_space(rest[0]),
    ensures
        words::words(before + word + rest) == seq![word] + words::words(rest),
{
    let s = before + word + rest;
    let k = before.len();
    assert forall|j: int| 0 <= j < k implies words::space()(#[trigger] s[j]) by {
        assert(s[j] == before[j]);
    }
    assert(s[k as int] == word[0]);
    text::lemma_run_len(s, words::space(), k);
    let core = s.skip(k as int);
    assert(core =~= word + rest);
    let n = word.len();
    assert forall|j: int| 0 <= j < n implies words::not_space()(#[trigger] core[j]) by {
        assert(core[j] == word[j]);
    }
    if rest.len() > 0 {
        assert(core[n as int] == rest[0]);
    }
    text::lemma_run_len(core, words::not_space(), n);
    assert(core.take(n as int) =~= word);
    assert(core.skip(n as int) =~= rest);
}

proof fn lemma_first_word(s: Seq<char>) -> (parts: (Seq<char>, Seq<char>, Seq<char>))
    requires
        words::words(s).len() > 0,
    ensures
        s == parts.0 + parts.1 + parts.2,
        is_blank(parts.0),
        is_solid(parts.1),
        parts.1.len() > 0,
        parts.2.len() > 0 ==> words::is_space(parts.2[0]),
        words::words(s) == seq![parts.1] + words::words(parts.2),
{
    let k = text::run_len(s, words::space()) as int;
    text::lemma_run_len_bounds(s, words::space());
    let core = s.skip(k);
    text::lemma_run_len_bounds(core, words::not_space());
    let n = text::run_len(core, words::not_space()) as int;
    let before = s.take(k);
    let word = core.take(n);
    let rest = core.skip(n);
    assert(s =~= before + word + rest);
    assert forall|j: int| 0 <= j < before.len() implies words::is_space(#[trigger] before[j]) by {
        assert(words::space()(s[j]));
    }
    assert forall|j: int| 0 <= j < word.len() implies !words::is_space(#[trigger] word[j]) by {
        assert(words::not_space()(core[j]));
    }
    if rest.len() > 0 {
        assert(rest[0] == core[n]);
        assert(!words::not_space()(core[n]));
    }
    (before, word, rest)
}

proof fn lemma_two_words_are(s: Seq<char>) -> (parts: (Seq<char>, Seq<char>, Seq<char>))
    requires
        words::words(s).len() == 2,
    ensures
        s == parts.0 + words::words(s)[0] + parts.1 + words::words(s)[1] + parts.2,
        is_blank(parts.0) && is_blank(parts.1) && is_blank(parts.2),
        parts.1.len() > 0,
{
    let (before, a, rest) = lemma_first_word(s);
    assert(words::words(rest).len() == 1);
    let (between, b, after) = lemma_first_word(rest);
    assert(words::words(after).len() == 0);
    law_white_space_holds_no_word(after);
    assert(words::words(s)[0] == a);
    assert(words::words(rest)[0] == b);
    assert(words::words(s)[1] == b);
    assert(between.len() > 0) by {
        if between.len() == 0 {
            assert(rest[0] == b[0]);
        }
    }
    assert(s =~= before + a + between + b + after);
    (before, between, after)
}

/// A line is read as a hunk header exactly where it is one.
pub proof fn law_headers_are_read(line: Seq<char>, ranges: HunkRanges)
    ensures
        (diff_parser::header_ranges(line) == Some(ranges)) == declares(line, ranges),
{
    if diff_parser::header_ranges(line) == Some(ranges) {
        lemma_read_header(line, ranges);
    }
    if declares(line, ranges) {
        lemma_declared_header(line, ranges);
    }
}

#[verifier::rlimit(40)]
proof fn lemma_read_header(line: Seq<char>, ranges: HunkRanges)
    requires
        diff_parser::header_ranges(line) == Some(ranges),
    ensures
        declares(line, ranges),
{
    let open = "@@ "@;
    let close = " @@"@;
    reveal_strlit("@@ ");
    reveal_strlit(" @@");
    let rest = line.skip(3);
    text::lemma_find_from(rest, close, 0);
    let k = text::find_from(rest, close, 0)->0;
    let body = rest.take(k);
    let tail = rest.skip(k + 3);
    let parts = words::words(body);
    let (before, between, after) = lemma_two_words_are(body);
    let old_range = parts[0].skip(1);
    let new_range = parts[1].skip(1);
    law_ranges_are_read(old_range, ranges.old_start, ranges.old_count);
    law_ranges_are_read(new_range, ranges.new_start, ranges.new_count);
    assert(parts[0] =~= seq!['-'] + old_range);
    assert(parts[1] =~= seq!['+'] + new_range);
    assert(rest =~= body + rest.subrange(k, k + 3) + tail);
    assert(line =~= line.subrange(0, 3) + rest);
    assert(line =~= header_text(before, old_range, between, new_range, after, tail));
}

#[verifier::rlimit(40)]
proof fn lemma_declared_header(line: Seq<char>, ranges: HunkRanges)
    requires
        declares(line, ranges),
    ensures
        diff_parser::header_ranges(line) == Some(ranges),
{
    let open = "@@ "@;
    let close = " @@"@;
    reveal_strlit("@@ ");
    reveal_strlit(" @@");
    let (before, old_range, between, new_range, after, tail) = choose|
        before: Seq<char>,
        old_range: Seq<char>,
        between: Seq<char>,
        new_range: Seq<char>,
        after: Seq<char>,
        tail: Seq<char>,
    |
        {
            &&& line == #[trigger] header_text(before, old_range, between, new_range, after, tail)
            &&& is_blank(before) && is_blank(between) && is_blank(after)
            &&& between.len() > 0
            &&& is_range_text(old_range, ranges.old_start, ranges.old_count)
            &&& is_range_text(new_range, ranges.new_start, ranges.new_count)
        };
    let a = seq!['-'] + old_range;
    let b = seq!['+'] + new_range;
    let end = b + after;
    let middle = between + end;
    let body = before + a + middle;
    lemma_range_chars(old_range, ranges.old_start, ranges.old_count);
    lemma_range_chars(new_range, ranges.new_start, ranges.new_count);
    law_ranges_are_read(old_range, ranges.old_start, ranges.old_count);
    law_ranges_are_read(new_range, ranges.new_start, ranges.new_count);
    assert(line =~= open + (body + (close + tail)));
    assert(line.subrange(0, 3) =~= open);
    let rest = line.skip(3);
    assert(rest =~= body + (close + tail));
    let n = body.len() as int;
    assert(is_solid(a) && is_solid(b)) by {
        assert forall|i: int| 0 <= i < a.len() implies !words::is_space(#[trigger] a[i]) by {
            if i > 0 {
                assert(a[i] == old_range[i - 1]);
            }
        }
        assert forall|i: int| 0 <= i < b.len() implies !words::is_space(#[trigger] b[i]) by {
            if i > 0 {
                assert(b[i] == new_range[i - 1]);
            }
        }
    }
    assert forall|i: int| 0 <= i < n implies body[i] != '@' by {
        let p = before.len() as int;
        let q = p + a.len();
        let r = q + between.len();
        let t = r + b.len();
        if i < p {
            assert(words::is_space(before[i]));
        } else if i < q {
            assert(body[i] == a[i - p]);
            if i > p {
                assert(a[i - p] == old_range[i - p - 1]);
            }
        } else if i < r {
            assert(body[i] == between[i - q]);
            assert(words::is_space(between[i - q]));
        } else if i < t {
            assert(body[i] == b[i - r]);
            if i > r {
                assert(b[i - r] == new_range[i - r - 1]);
            }
        } else {
            assert(body[i] == after[i - t]);
            assert(words::is_space(after[i - t]));
        }
    }
    assert(rest.subrange(n, n + 3) =~= close);
    assert forall|j: int| 0 <= j < n implies !text::occurs_at(rest, close, j) by {
        if text::occurs_at(rest, close, j) {
            assert(rest.subrange(j, j + 3)[1] == rest[j + 1]);
            if j + 1 < n {
                assert(rest[j + 1] == body[j + 1]);
            }
        }
    }
    text::lemma_split_once_at(rest, close, n);
    assert(rest.take(n) =~= body);
    assert(middle[0] == between[0]);
    law_words_end_at_white_space(before, a, middle);
    if after.len() > 0 {
        assert(words::is_space(after[0]));
    }
    assert(middle =~= between + b + after);
    law_words_end_at_white_space(between, b, after);
    law_white_space_holds_no_word(after);
    let parts = words::words(body);
    assert(parts =~= seq![a, b]);
    assert(a.skip(1) =~= old_range);
    assert(b.skip(1) =~= new_range);
}

} // verus!
