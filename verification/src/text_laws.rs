//! What holds of texts: tabs, lines, white space, small letters, paths and extensions.

use vstd::prelude::*;
use crate::model::FileStatus;
use crate::paths;
use crate::text;
use crate::words;

verus! {

/// How many tabs stand before position `i`.
pub open spec fn tabs_before(s: Seq<char>, i: int) -> int
    decreases i,
{
    if i <= 0 {
        0
    } else {
        tabs_before(s, i - 1) + (if s[i - 1] == '\t' {
            1int
        } else {
            0int
        })
    }
}

/// Whether character `i` of `s` stands in `shown` where the tabs before it, at four spaces each,
/// have moved it; a tab stands there as four spaces.
pub open spec fn is_shown(s: Seq<char>, shown: Seq<char>, i: int) -> bool {
    let at = i + 3 * tabs_before(s, i);
    if s[i] == '\t' {
        shown.subrange(at, at + 4) == seq![' ', ' ', ' ', ' ']
    } else {
        shown[at] == s[i]
    }
}

/// Whether `shown` is `s` with four spaces in place of every tab and every other character kept in
/// its order.
pub open spec fn shows_tabs_as_spaces(s: Seq<char>, shown: Seq<char>) -> bool {
    &&& shown.len() == s.len() + 3 * tabs_before(s, s.len() as int)
    &&& forall|i: int| 0 <= i < s.len() ==> #[trigger] is_shown(s, shown, i)
}

proof fn lemma_tabs_prefix(s: Seq<char>, t: Seq<char>, i: int)
    requires
        0 <= i <= s.len(),
        i <= t.len(),
        forall|j: int| 0 <= j < i ==> s[j] == t[j],
    ensures
        tabs_before(s, i) == tabs_before(t, i),
        0 <= tabs_before(s, i) <= i,
    decreases i,
{
    if i > 0 {
        lemma_tabs_prefix(s, t, i - 1);
    }
}

proof fn lemma_tabs_grow(s: Seq<char>, i: int, j: int)
    requires
        0 <= i <= j <= s.len(),
    ensures
        tabs_before(s, i) <= tabs_before(s, j),
        i < j && s[i] == '\t' ==> tabs_before(s, i) < tabs_before(s, j),
    decreases j,
{
    if i < j {
        lemma_tabs_grow(s, i, j - 1);
    }
}

proof fn lemma_shown_prefix(s: Seq<char>, shown: Seq<char>, i: int)
    requires
        s.len() > 0,
        0 <= i < s.len() - 1,
        shown.len() >= s.len() - 1 + 3 * tabs_before(s, s.len() - 1),
    ensures
        is_shown(s, shown, i) == is_shown(
            s.drop_last(),
            shown.take(s.len() - 1 + 3 * tabs_before(s, s.len() - 1)),
            i,
        ),
{
    let rest = s.drop_last();
    let n = s.len() - 1;
    let part = shown.take(n + 3 * tabs_before(s, n));
    lemma_tabs_prefix(s, rest, i);
    lemma_tabs_prefix(s, s, n);
    lemma_tabs_grow(s, i, n);
    lemma_tabs_grow(s, i + 1, n);
    let at = i + 3 * tabs_before(s, i);
    assert(rest[i] == s[i]);
    if s[i] == '\t' {
        assert(part.subrange(at, at + 4) =~= shown.subrange(at, at + 4));
    }
}

/// Expanding tabs puts four spaces in place of each and keeps every other character in its order.
pub proof fn law_tabs_become_four_spaces(s: Seq<char>)
    ensures
        shows_tabs_as_spaces(s, text::tabified(s)),
    decreases s.len(),
{
    let shown = text::tabified(s);
    if s.len() > 0 {
        let rest = s.drop_last();
        let n = rest.len() as int;
        law_tabs_become_four_spaces(rest);
        lemma_tabs_prefix(s, rest, n);
        let m = n + 3 * tabs_before(s, n);
        assert(shown.take(m) =~= text::tabified(rest));
        assert forall|i: int| 0 <= i < s.len() implies #[trigger] is_shown(s, shown, i) by {
            if i < n {
                assert(is_shown(rest, text::tabified(rest), i));
                lemma_shown_prefix(s, shown, i);
            } else if s[i] == '\t' {
                assert(shown.subrange(m, m + 4) =~= seq![' ', ' ', ' ', ' ']);
            }
        }
    }
}

/// There is one way to show tabs as spaces.
pub proof fn lemma_shown_once(s: Seq<char>, a: Seq<char>)
    requires
        shows_tabs_as_spaces(s, a),
    ensures
        a == text::tabified(s),
    decreases s.len(),
{
    let b = text::tabified(s);
    if s.len() > 0 {
        let rest = s.drop_last();
        let n = rest.len() as int;
        let m = n + 3 * tabs_before(s, n);
        lemma_tabs_prefix(s, rest, n);
        let part = a.take(m);
        assert forall|i: int| 0 <= i < rest.len() implies #[trigger] is_shown(rest, part, i) by {
            assert(is_shown(s, a, i));
            lemma_shown_prefix(s, a, i);
        }
        lemma_shown_once(rest, part);
        assert(is_shown(s, a, n));
        if s[n] == '\t' {
            assert(a.subrange(m, m + 4) == seq![' ', ' ', ' ', ' ']);
            assert(a =~= part + a.subrange(m, m + 4));
            assert(b =~= part + seq![' ', ' ', ' ', ' ']);
        } else {
            assert(a =~= part.push(s[n]));
        }
    } else {
        assert(a =~= b);
    }
}

/// A text without tabs is shown as it is.
pub proof fn law_text_without_tabs_stays(s: Seq<char>)
    requires
        !s.contains('\t'),
    ensures
        text::tabified(s) == s,
{
    assert forall|i: int| 0 <= i < s.len() implies #[trigger] is_shown(s, s, i) by {
        lemma_no_tabs(s, i);
        assert(s.contains(s[i]));
    }
    lemma_no_tabs(s, s.len() as int);
    lemma_shown_once(s, s);
}

proof fn lemma_no_tabs(s: Seq<char>, i: int)
    requires
        !s.contains('\t'),
        0 <= i <= s.len(),
    ensures
        tabs_before(s, i) == 0,
    decreases i,
{
    if i > 0 {
        lemma_no_tabs(s, i - 1);
        assert(s.contains(s[i - 1]));
    }
}

/// A line of a text, and whether a carriage return stands before its line feed.
pub struct EndedLine {
    pub line: Seq<char>,
    pub carriage_return: bool,
}

/// The text of lines that are each ended by a line feed, and of what follows the last of them.
pub open spec fn text_of_lines(lines: Seq<EndedLine>, last: Seq<char>) -> Seq<char>
    decreases lines.len(),
{
    if lines.len() == 0 {
        last
    } else {
        lines[0].line + (if lines[0].carriage_return {
            seq!['\r', '\n']
        } else {
            seq!['\n']
        }) + text_of_lines(lines.drop_first(), last)
    }
}

/// Whether `lines` are the lines of a text: each is ended by a line feed, alone or after a
/// carriage return, but for the last one, which may end with the text.
pub open spec fn is_lines_of(lines: Seq<Seq<char>>, content: Seq<char>) -> bool {
    exists|ended: Seq<EndedLine>, last: Seq<char>| #[trigger]
        text_of_lines(ended, last) == content && are_lines(ended, last, lines)
}

/// Whether these are lines of a text, and what follows the last of them.
pub open spec fn are_lines(ended: Seq<EndedLine>, last: Seq<char>, lines: Seq<Seq<char>>) -> bool {
    &&& !last.contains('\n')
    &&& forall|i: int|
        0 <= i < ended.len() ==> !(#[trigger] ended[i]).line.contains('\n') && (
        ended[i].carriage_return || ended[i].line.len() == 0 || ended[i].line.last() != '\r')
    &&& lines.len() == ended.len() + (if last.len() > 0 {
        1int
    } else {
        0int
    })
    &&& forall|i: int| 0 <= i < ended.len() ==> lines[i] == (#[trigger] ended[i]).line
    &&& last.len() > 0 ==> lines.last() == last
}

/// The lines of a text are what stands between its line feeds, without the carriage returns right
/// before them; an empty rest is no line.
pub proof fn law_lines_end_at_line_feeds(ended: Seq<EndedLine>, last: Seq<char>, lines: Seq<Seq<char>>)
    requires
        are_lines(ended, last, lines),
    ensures
        text::lines(text_of_lines(ended, last)) == lines,
    decreases ended.len(),
{
    let all = text_of_lines(ended, last);
    if ended.len() == 0 {
        if last.len() > 0 {
            assert forall|j: int| 0 <= j < all.len() implies text::not_newline()(#[trigger] all[j]) by {
                assert(last.contains(last[j]));
            }
            text::lemma_run_len(all, text::not_newline(), all.len());
        }
        assert(text::lines(all) =~= lines);
    } else {
        let first = ended[0].line;
        let rest = ended.drop_first();
        let others = lines.drop_first();
        assert(ended[0] == ended[0]);
        assert(are_lines(rest, last, others)) by {
            assert forall|i: int| 0 <= i < rest.len() implies !(#[trigger] rest[i]).line.contains('\n')
                && (rest[i].carriage_return || rest[i].line.len() == 0 || rest[i].line.last() != '\r')
                && others[i] == rest[i].line by {
                assert(rest[i] == ended[i + 1]);
                assert(lines[i + 1] == ended[i + 1].line);
            }
        }
        law_lines_end_at_line_feeds(rest, last, others);
        let n = if ended[0].carriage_return {
            first.len() + 1
        } else {
            first.len()
        };
        assert(all[n as int] == '\n');
        assert forall|j: int| 0 <= j < n implies text::not_newline()(#[trigger] all[j]) by {
            if j < first.len() {
                assert(all[j] == first[j]);
                assert(first.contains(first[j]));
            }
        }
        text::lemma_run_len(all, text::not_newline(), n as nat);
        assert(all.skip(n as int + 1) =~= text_of_lines(rest, last));
        let taken = all.take(n as int);
        if ended[0].carriage_return {
            assert(taken =~= first.push('\r'));
            assert(taken.drop_last() =~= first);
        } else {
            assert(taken =~= first);
        }
        assert(text::strip_carriage_return(taken) == first);
        assert(lines =~= seq![first] + others);
    }
}

/// Every text has its lines.
pub proof fn law_every_text_has_lines(content: Seq<char>)
    ensures
        is_lines_of(text::lines(content), content),
    decreases content.len(),
{
    let n = text::run_len(content, text::not_newline()) as int;
    text::lemma_run_len_bounds(content, text::not_newline());
    if n == content.len() {
        let ended = Seq::<EndedLine>::empty();
        assert(!content.contains('\n')) by {
            if content.contains('\n') {
                let j = choose|j: int| 0 <= j < content.len() && content[j] == '\n';
                assert(text::not_newline()(content[j]));
            }
        }
        assert(are_lines(ended, content, text::lines(content)));
        assert(text_of_lines(ended, content) == content);
    } else {
        let taken = content.take(n);
        let rest = content.skip(n + 1);
        law_every_text_has_lines(rest);
        let (ended, last) = choose|ended: Seq<EndedLine>, last: Seq<char>| #[trigger]
            text_of_lines(ended, last) == rest && are_lines(ended, last, text::lines(rest));
        let carriage_return = taken.len() > 0 && taken.last() == '\r';
        let line = text::strip_carriage_return(taken);
        let all = seq![EndedLine { line, carriage_return }] + ended;
        assert(all.drop_first() =~= ended);
        assert(content[n] == '\n');
        assert(text_of_lines(all, last) =~= content) by {
            if carriage_return {
                assert(line + seq!['\r', '\n'] =~= taken.push('\n'));
            } else {
                assert(line + seq!['\n'] =~= taken.push('\n'));
            }
            assert(taken.push('\n') + rest =~= content);
        }
        assert(!line.contains('\n')) by {
            if line.contains('\n') {
                let j = choose|j: int| 0 <= j < line.len() && line[j] == '\n';
                assert(text::not_newline()(content[j]));
            }
        }
        let lines = text::lines(content);
        assert(lines == seq![line] + text::lines(rest));
        assert forall|i: int| 0 <= i < all.len() implies !(#[trigger] all[i]).line.contains('\n') && (
        all[i].carriage_return || all[i].line.len() == 0 || all[i].line.last() != '\r') && lines[i]
            == all[i].line by {
            if i > 0 {
                assert(all[i] == ended[i - 1]);
                assert(lines[i] == text::lines(rest)[i - 1]);
            }
        }
        assert(are_lines(all, last, lines));
    }
}

/// A text has one list of lines.
pub proof fn lemma_lines_once(lines: Seq<Seq<char>>, content: Seq<char>)
    requires
        is_lines_of(lines, content),
    ensures
        lines == text::lines(content),
{
    let (ended, last) = choose|ended: Seq<EndedLine>, last: Seq<char>| #[trigger]
        text_of_lines(ended, last) == content && are_lines(ended, last, lines);
    law_lines_end_at_line_feeds(ended, last, lines);
}

/// White space is what Unicode lists under `White_Space`.
pub proof fn law_white_space_is_unicode(c: char)
    ensures
        words::is_space(c) <==> seq![
            0x9u32,
            0xa,
            0xb,
            0xc,
            0xd,
            0x20,
            0x85,
            0xa0,
            0x1680,
            0x2000,
            0x2001,
            0x2002,
            0x2003,
            0x2004,
            0x2005,
            0x2006,
            0x2007,
            0x2008,
            0x2009,
            0x200a,
            0x2028,
            0x2029,
            0x202f,
            0x205f,
            0x3000,
        ].contains(c as u32),
{
    let all = seq![
        0x9u32,
        0xa,
        0xb,
        0xc,
        0xd,
        0x20,
        0x85,
        0xa0,
        0x1680,
        0x2000,
        0x2001,
        0x2002,
        0x2003,
        0x2004,
        0x2005,
        0x2006,
        0x2007,
        0x2008,
        0x2009,
        0x200a,
        0x2028,
        0x2029,
        0x202f,
        0x205f,
        0x3000,
    ];
    let n = c as u32;
    if words::is_space(c) {
        let i: int = if n <= 0xd {
            n - 9
        } else if n == 0x20 {
            5
        } else if n == 0x85 {
            6
        } else if n == 0xa0 {
            7
        } else if n == 0x1680 {
            8
        } else if n <= 0x200a {
            9 + (n - 0x2000)
        } else if n == 0x2028 {
            20
        } else if n == 0x2029 {
            21
        } else if n == 0x202f {
            22
        } else if n == 0x205f {
            23
        } else {
            24
        };
        assert(all[i] == n);
    }
    if all.contains(n) {
        let i = choose|i: int| 0 <= i < all.len() && all[i] == n;
        assert(words::is_space(c));
    }
}

/// Whether a text is white space throughout.
pub open spec fn is_blank(s: Seq<char>) -> bool {
    forall|i: int| 0 <= i < s.len() ==> words::is_space(#[trigger] s[i])
}

/// Whether a text neither begins nor ends with white space.
pub open spec fn has_firm_ends(s: Seq<char>) -> bool {
    s.len() > 0 ==> !words::is_space(s[0]) && !words::is_space(s.last())
}

/// Trimming takes off the white space around a text, and nothing else.
pub proof fn law_trimming_takes_white_space_off(before: Seq<char>, word: Seq<char>, after: Seq<char>)
    requires
        is_blank(before),
        is_blank(after),
        has_firm_ends(word),
    ensures
        words::trimmed(before + word + after) == word,
{
    let all = before + word + after;
    if word.len() > 0 {
        let n = before.len();
        assert forall|j: int| 0 <= j < n implies words::space()(#[trigger] all[j]) by {
            assert(all[j] == before[j]);
        }
        assert(all[n as int] == word[0]);
        text::lemma_run_len(all, words::space(), n);
        let rest = all.skip(n as int);
        assert(rest =~= word + after);
        lemma_trim_end(word, after);
    } else {
        assert forall|j: int| 0 <= j < all.len() implies words::space()(#[trigger] all[j]) by {
            if j < before.len() {
                assert(all[j] == before[j]);
            } else {
                assert(all[j] == after[j - before.len()]);
            }
        }
        text::lemma_run_len(all, words::space(), all.len());
        assert(words::trim_start(all) =~= word);
    }
}

proof fn lemma_trim_end(word: Seq<char>, after: Seq<char>)
    requires
        is_blank(after),
        word.len() > 0,
        !words::is_space(word.last()),
    ensures
        words::trim_end(word + after) == word,
    decreases after.len(),
{
    let all = word + after;
    if after.len() == 0 {
        assert(all =~= word);
    } else {
        assert(all.last() == after[after.len() - 1]);
        assert(all.drop_last() =~= word + after.drop_last());
        assert(is_blank(after.drop_last())) by {
            assert forall|i: int| 0 <= i < after.drop_last().len() implies words::is_space(
                #[trigger] after.drop_last()[i],
            ) by {
                assert(after.drop_last()[i] == after[i]);
            }
        }
        lemma_trim_end(word, after.drop_last());
    }
}

proof fn lemma_without_end(s: Seq<char>) -> (m: int)
    ensures
        0 <= m <= s.len(),
        words::trim_end(s) == s.take(m),
        m > 0 ==> !words::is_space(s[m - 1]),
        forall|i: int| m <= i < s.len() ==> words::is_space(#[trigger] s[i]),
    decreases s.len(),
{
    if s.len() > 0 && words::is_space(s.last()) {
        let m = lemma_without_end(s.drop_last());
        assert(s.drop_last().take(m) =~= s.take(m));
        assert forall|i: int| m <= i < s.len() implies words::is_space(#[trigger] s[i]) by {
            if i < s.len() - 1 {
                assert(s.drop_last()[i] == s[i]);
            }
        }
        m
    } else {
        assert(s.take(s.len() as int) =~= s);
        s.len() as int
    }
}

/// Whether a text is a word with nothing but white space around it.
pub open spec fn is_word_in(s: Seq<char>, word: Seq<char>) -> bool {
    has_firm_ends(word) && exists|before: Seq<char>, after: Seq<char>|
        is_blank(before) && is_blank(after) && s == #[trigger] (before + word + after)
}

/// Every text is what trimming leaves of it, with nothing but white space around it, and nothing
/// else is left of it.
pub proof fn law_trimming_leaves_the_word(s: Seq<char>, word: Seq<char>)
    ensures
        is_word_in(s, word) == (words::trimmed(s) == word),
{
    let n = text::run_len(s, words::space()) as int;
    text::lemma_run_len_bounds(s, words::space());
    let before = s.take(n);
    let rest = s.skip(n);
    let m = lemma_without_end(rest);
    let core = words::trimmed(s);
    let after = rest.skip(m);
    assert(core == rest.take(m));
    assert(is_blank(before)) by {
        assert forall|i: int| 0 <= i < before.len() implies words::is_space(
            #[trigger] before[i],
        ) by {
            assert(words::space()(s[i]));
        }
    }
    assert(is_blank(after)) by {
        assert forall|i: int| 0 <= i < after.len() implies words::is_space(#[trigger] after[i]) by {
            assert(after[i] == rest[m + i]);
        }
    }
    assert(s =~= before + core + after);
    assert(has_firm_ends(core)) by {
        if core.len() > 0 {
            assert(core[0] == s[n]);
            assert(!words::space()(s[n]));
            assert(core.last() == rest[m - 1]);
        }
    }
    assert(is_word_in(s, core));
    if is_word_in(s, word) {
        let (blank, other) = choose|blank: Seq<char>, other: Seq<char>|
            is_blank(blank) && is_blank(other) && s == #[trigger] (blank + word + other);
        law_trimming_takes_white_space_off(blank, word, other);
    }
}

/// Turning a text to small letters turns each ASCII capital into the small letter at its place in
/// the alphabet and keeps every other character.
pub proof fn law_capitals_become_small_letters(s: Seq<char>, k: int)
    requires
        0 <= k < s.len(),
    ensures
        text::lowered(s).len() == s.len(),
        forall|i: int|
            0 <= i < 26 && s[k] == #[trigger] "ABCDEFGHIJKLMNOPQRSTUVWXYZ"@[i] ==> text::lowered(s)[k]
                == "abcdefghijklmnopqrstuvwxyz"@[i],
        !"ABCDEFGHIJKLMNOPQRSTUVWXYZ"@.contains(s[k]) ==> text::lowered(s)[k] == s[k],
{
    reveal_strlit("ABCDEFGHIJKLMNOPQRSTUVWXYZ");
    reveal_strlit("abcdefghijklmnopqrstuvwxyz");
    let capitals = "ABCDEFGHIJKLMNOPQRSTUVWXYZ"@;
    if 'A' <= s[k] <= 'Z' {
        let i = s[k] as int - 'A' as int;
        assert(capitals[i] == s[k]);
        assert(capitals.contains(s[k]));
    }
}

/// The letter of a status is its initial.
pub proof fn law_status_letters_are_initials(status: FileStatus)
    ensures
        status.letter() == (match status {
            FileStatus::Added => "Added"@,
            FileStatus::Modified => "Modified"@,
            FileStatus::Deleted => "Deleted"@,
            FileStatus::Renamed => "Renamed"@,
            FileStatus::Copied => "Copied"@,
        })[0],
{
    reveal_strlit("Added");
    reveal_strlit("Modified");
    reveal_strlit("Deleted");
    reveal_strlit("Renamed");
    reveal_strlit("Copied");
}

/// Segments with a slash between each two.
pub open spec fn slash_joined(segments: Seq<Seq<char>>) -> Seq<char>
    decreases segments.len(),
{
    if segments.len() == 0 {
        Seq::empty()
    } else if segments.len() == 1 {
        segments[0]
    } else {
        segments[0] + seq!['/'] + slash_joined(segments.drop_first())
    }
}

/// Whether these are the segments of a path: what stands between its slashes.
pub open spec fn is_parting(path: Seq<char>, segments: Seq<Seq<char>>) -> bool {
    &&& segments.len() > 0
    &&& forall|i: int| 0 <= i < segments.len() ==> !(#[trigger] segments[i]).contains('/')
    &&& slash_joined(segments) == path
}

/// A path is parted at its slashes, in one way.
pub proof fn law_paths_are_parted_at_slashes(segments: Seq<Seq<char>>)
    requires
        segments.len() > 0,
        forall|i: int| 0 <= i < segments.len() ==> !(#[trigger] segments[i]).contains('/'),
    ensures
        paths::segments(slash_joined(segments)) == segments,
    decreases segments.len(),
{
    let path = slash_joined(segments);
    let first = segments[0];
    assert(!segments[0].contains('/'));
    assert forall|j: int| 0 <= j < first.len() implies paths::not_slash()(#[trigger] path[j]) by {
        assert(path[j] == first[j]);
        assert(first.contains(first[j]));
    }
    text::lemma_run_len(path, paths::not_slash(), first.len());
    if segments.len() == 1 {
        assert(paths::segments(path) =~= segments);
    } else {
        let rest = segments.drop_first();
        assert forall|i: int| 0 <= i < rest.len() implies !(#[trigger] rest[i]).contains('/') by {
            assert(rest[i] == segments[i + 1]);
        }
        law_paths_are_parted_at_slashes(rest);
        assert(path[first.len() as int] == '/');
        assert(path.take(first.len() as int) =~= first);
        assert(path.skip(first.len() as int + 1) =~= slash_joined(rest));
        assert(segments =~= seq![first] + rest);
    }
}

/// Every path has its segments.
pub proof fn lemma_parted(path: Seq<char>)
    ensures
        is_parting(path, paths::segments(path)),
    decreases path.len(),
{
    let n = text::run_len(path, paths::not_slash()) as int;
    let all = paths::segments(path);
    text::lemma_run_len_bounds(path, paths::not_slash());
    let first = path.take(n);
    assert(!first.contains('/')) by {
        if first.contains('/') {
            let j = choose|j: int| 0 <= j < first.len() && first[j] == '/';
            assert(paths::not_slash()(path[j]));
        }
    }
    if n < path.len() {
        let rest = path.skip(n + 1);
        lemma_parted(rest);
        assert(all.drop_first() =~= paths::segments(rest));
        assert(path[n] == '/');
        assert(slash_joined(all) =~= path);
        assert forall|i: int| 0 <= i < all.len() implies !(#[trigger] all[i]).contains('/') by {
            if i > 0 {
                assert(all[i] == paths::segments(rest)[i - 1]);
            }
        }
    } else {
        assert(first =~= path);
        assert(all =~= seq![path]);
    }
}

/// Whether a segment says where to go: an empty one and a single dot say nothing.
pub open spec fn is_step(segment: Seq<char>) -> bool {
    segment.len() > 0 && !(segment.len() == 1 && segment[0] == '.')
}

/// The segments that say where to go, in order.
pub open spec fn steps_of(segments: Seq<Seq<char>>) -> Seq<Seq<char>>
    decreases segments.len(),
{
    if segments.len() == 0 {
        Seq::empty()
    } else {
        (if is_step(segments[0]) {
            seq![segments[0]]
        } else {
            Seq::empty()
        }) + steps_of(segments.drop_first())
    }
}

proof fn lemma_steps(segments: Seq<Seq<char>>)
    ensures
        steps_of(segments) == segments.filter(paths::is_component()),
    decreases segments.len(),
{
    reveal(Seq::filter);
    if segments.len() > 0 {
        let first = segments[0];
        let rest = segments.drop_first();
        lemma_steps(rest);
        assert(first.len() == 1 && first[0] == '.' ==> first =~= seq!['.']);
        assert(seq![first] + rest =~= segments);
        Seq::filter_distributes_over_add(seq![first], rest, paths::is_component());
        assert(seq![first].drop_last() =~= Seq::<Seq<char>>::empty());
        let none = seq![first].drop_last();
        assert(none.filter(paths::is_component()) =~= Seq::<Seq<char>>::empty());
        assert(seq![first].last() == first);
        assert(paths::is_component()(first) == is_step(first));
        assert(seq![first].filter(paths::is_component()) =~= (if is_step(first) {
            seq![first]
        } else {
            Seq::empty()
        }));
    } else {
        assert(segments.filter(paths::is_component()) =~= Seq::empty());
    }
}

/// Whether two spellings name one path: both begin at the root or neither does, both begin with a
/// single dot or neither does, and they go the same way.
pub open spec fn is_same_place(a: Seq<char>, b: Seq<char>) -> bool {
    exists|of_a: Seq<Seq<char>>, of_b: Seq<Seq<char>>| #[trigger]
        is_parting(a, of_a) && #[trigger] is_parting(b, of_b) && steps_of(of_a) == steps_of(of_b) && (
        a.len() > 0 && a[0] == '/') == (b.len() > 0 && b[0] == '/') && (of_a[0] == seq!['.']) == (
        of_b[0] == seq!['.'])
}

/// Two paths count as one exactly where they go the same way from the same place.
pub proof fn law_paths_are_told_apart(a: Seq<char>, b: Seq<char>)
    ensures
        (paths::path_parts(a) == paths::path_parts(b)) == is_same_place(a, b),
{
    lemma_parted(a);
    lemma_parted(b);
    lemma_steps(paths::segments(a));
    lemma_steps(paths::segments(b));
    if is_same_place(a, b) {
        let (of_a, of_b) = choose|of_a: Seq<Seq<char>>, of_b: Seq<Seq<char>>| #[trigger]
            is_parting(a, of_a) && #[trigger] is_parting(b, of_b) && steps_of(of_a) == steps_of(of_b)
                && (a.len() > 0 && a[0] == '/') == (b.len() > 0 && b[0] == '/') && (of_a[0]
                == seq!['.']) == (of_b[0] == seq!['.']);
        law_paths_are_parted_at_slashes(of_a);
        law_paths_are_parted_at_slashes(of_b);
    }
}

/// Whether `ext` is the extension of a path: what follows the last dot in the last segment that
/// says where to go, unless the segment begins with that dot or leads upwards.
pub open spec fn is_extension(path: Seq<char>, ext: Seq<char>) -> bool {
    exists|segments: Seq<Seq<char>>, m: int, stem: Seq<char>|
        #![trigger is_parting(path, segments), has_name(segments, m, stem + seq!['.'] + ext)]
        is_parting(path, segments) && has_name(segments, m, stem + seq!['.'] + ext) && stem.len() > 0
            && !ext.contains('.')
}

/// Whether the last segment that says where to go is this one, and it does not lead upwards.
pub open spec fn has_name(segments: Seq<Seq<char>>, m: int, name: Seq<char>) -> bool {
    &&& 0 <= m < segments.len()
    &&& segments[m] == name
    &&& is_step(name)
    &&& name != seq!['.', '.']
    &&& forall|i: int| m < i < segments.len() ==> !is_step(#[trigger] segments[i])
}

proof fn lemma_last_step(segments: Seq<Seq<char>>, m: int)
    requires
        0 <= m < segments.len(),
        is_step(segments[m]),
        forall|i: int| m < i < segments.len() ==> !is_step(#[trigger] segments[i]),
    ensures
        steps_of(segments).len() > 0,
        steps_of(segments).last() == segments[m],
    decreases segments.len(),
{
    let rest = segments.drop_first();
    if m > 0 {
        assert(rest[m - 1] == segments[m]);
        assert forall|i: int| m - 1 < i < rest.len() implies !is_step(#[trigger] rest[i]) by {
            assert(rest[i] == segments[i + 1]);
        }
        lemma_last_step(rest, m - 1);
        assert(steps_of(segments).last() == steps_of(rest).last());
    } else {
        assert forall|i: int| 0 <= i < rest.len() implies !is_step(#[trigger] rest[i]) by {
            assert(rest[i] == segments[i + 1]);
        }
        lemma_no_steps(rest);
        assert(steps_of(segments) =~= seq![segments[0]]);
    }
}

proof fn lemma_no_steps(segments: Seq<Seq<char>>)
    requires
        forall|i: int| 0 <= i < segments.len() ==> !is_step(#[trigger] segments[i]),
    ensures
        steps_of(segments) == Seq::<Seq<char>>::empty(),
    decreases segments.len(),
{
    if segments.len() > 0 {
        let rest = segments.drop_first();
        assert forall|i: int| 0 <= i < rest.len() implies !is_step(#[trigger] rest[i]) by {
            assert(rest[i] == segments[i + 1]);
        }
        lemma_no_steps(rest);
        assert(!is_step(segments[0]));
    }
}

proof fn lemma_find_last_step(segments: Seq<Seq<char>>) -> (m: int)
    requires
        steps_of(segments).len() > 0,
    ensures
        0 <= m < segments.len(),
        is_step(segments[m]),
        forall|i: int| m < i < segments.len() ==> !is_step(#[trigger] segments[i]),
        steps_of(segments).last() == segments[m],
    decreases segments.len(),
{
    let rest = segments.drop_first();
    if steps_of(rest).len() > 0 {
        let j = lemma_find_last_step(rest);
        assert(rest[j] == segments[j + 1]);
        assert forall|i: int| j + 1 < i < segments.len() implies !is_step(#[trigger] segments[i]) by {
            assert(rest[i - 1] == segments[i]);
        }
        lemma_last_step(segments, j + 1);
        j + 1
    } else {
        assert forall|i: int| 0 < i < segments.len() implies !is_step(#[trigger] segments[i]) by {
            if is_step(segments[i]) {
                lemma_some_step(rest, i - 1);
            }
        }
        lemma_last_step(segments, 0);
        0
    }
}

proof fn lemma_some_step(segments: Seq<Seq<char>>, i: int)
    requires
        0 <= i < segments.len(),
        is_step(segments[i]),
    ensures
        steps_of(segments).len() > 0,
    decreases segments.len(),
{
    if i > 0 {
        assert(segments.drop_first()[i - 1] == segments[i]);
        lemma_some_step(segments.drop_first(), i - 1);
    }
}

proof fn lemma_last_dot(s: Seq<char>)
    ensures
        match paths::last_dot(s) {
            Some(i) => 0 <= i < s.len() && s[i] == '.' && forall|j: int|
                i < j < s.len() ==> s[j] != '.',
            None => !s.contains('.'),
        },
    decreases s.len(),
{
    if s.len() > 0 && s.last() != '.' {
        let rest = s.drop_last();
        lemma_last_dot(rest);
        assert forall|j: int| 0 <= j < s.len() && s[j] == '.' implies rest[j] == '.' by {}
        if let Some(i) = paths::last_dot(s) {
            assert(rest[i] == s[i]);
            assert forall|j: int| i < j < s.len() implies s[j] != '.' by {
                if j < rest.len() {
                    assert(rest[j] == s[j]);
                }
            }
        }
        if paths::last_dot(s) is None && s.contains('.') {
            let j = choose|j: int| 0 <= j < s.len() && s[j] == '.';
            assert(s.drop_last()[j] == '.');
        }
    }
}

/// The extension of a path is what follows the last dot of its file name, and a path without one
/// has none.
pub proof fn law_extension_follows_the_last_dot(path: Seq<char>)
    ensures
        forall|ext: Seq<char>|
            (paths::extension(path) == Some(ext)) == #[trigger] is_extension(path, ext),
{
    let all = paths::segments(path);
    lemma_parted(path);
    lemma_steps(all);
    assert forall|ext: Seq<char>| (paths::extension(path) == Some(ext)) == #[trigger] is_extension(
        path,
        ext,
    ) by {
        if paths::extension(path) == Some(ext) {
            let m = lemma_find_last_step(all);
            let name = all[m];
            lemma_last_dot(name);
            let i = paths::last_dot(name)->0;
            let stem = name.take(i);
            assert(name =~= stem + seq!['.'] + ext);
            assert(!ext.contains('.')) by {
                if ext.contains('.') {
                    let j = choose|j: int| 0 <= j < ext.len() && ext[j] == '.';
                    assert(name[i + 1 + j] == '.');
                }
            }
            assert(has_name(all, m, stem + seq!['.'] + ext));
        }
        if is_extension(path, ext) {
            let (segments, m, stem) = choose|segments: Seq<Seq<char>>, m: int, stem: Seq<char>|
                #![trigger is_parting(path, segments), has_name(segments, m, stem + seq!['.'] + ext)]
                is_parting(path, segments) && has_name(segments, m, stem + seq!['.'] + ext)
                    && stem.len() > 0 && !ext.contains('.');
            law_paths_are_parted_at_slashes(segments);
            assert(segments == all);
            let name = stem + seq!['.'] + ext;
            lemma_last_step(all, m);
            lemma_last_dot(name);
            let n = stem.len() as int;
            assert(name[n] == '.');
            let i = paths::last_dot(name)->0;
            assert(paths::last_dot(name) is Some) by {
                assert(name.contains('.'));
            }
            assert(i == n) by {
                if i > n {
                    assert(ext[i - n - 1] == '.');
                }
            }
            assert(name.skip(n + 1) =~= ext);
        }
    }
}

} // verus!
