//! Text primitives over sequences of characters.
//!
//! A `str` is viewed as the sequence of its characters. The executable functions work on
//! character slices, so that splitting a long text into lines stays linear.

use vstd::prelude::*;
use vstd::slice::slice_subrange;

verus! {

/// `String::push` appends the given character to the end of the string.
pub assume_specification[ String::push ](s: &mut String, c: char)
    ensures
        final(s)@ == old(s)@.push(c),
;

/// The characters of a string, in order.
pub fn chars_of(s: &str) -> (res: Vec<char>)
    ensures
        res@ == s@,
{
    let mut res: Vec<char> = Vec::new();
    for c in it: s.chars()
        invariant
            it.seq() == s@,
            res@ == s@.take(it.index() as int),
    {
        proof {
            assert(s@.take(it.index() + 1) == s@.take(it.index() as int).push(s@[it.index() as int]));
        }
        res.push(c);
    }
    assert(s@.take(s@.len() as int) == s@);
    res
}

/// The string made of the given characters.
pub fn text_of(chars: &[char]) -> (res: String)
    ensures
        res@ == chars@,
{
    let mut res = String::new();
    push_chars(&mut res, chars);
    assert(res@ == chars@);
    res
}

/// Appends characters to a string.
pub fn push_chars(out: &mut String, chars: &[char])
    ensures
        final(out)@ == old(out)@ + chars@,
{
    let ghost before = out@;
    let mut i: usize = 0;
    while i < chars.len()
        invariant
            i <= chars@.len(),
            out@ == before + chars@.take(i as int),
        decreases chars@.len() - i,
    {
        proof {
            assert(chars@.take(i + 1) == chars@.take(i as int).push(chars@[i as int]));
            assert(before + chars@.take(i + 1) == (before + chars@.take(i as int)).push(
                chars@[i as int],
            ));
        }
        out.push(chars[i]);
        i = i + 1;
    }
    assert(chars@.take(chars@.len() as int) == chars@);
}

/// A text between two others.
pub fn enclose(before: &str, chars: &[char], after: &str) -> (res: String)
    ensures
        res@ == before@ + chars@ + after@,
{
    let mut res = before.to_owned();
    push_chars(&mut res, chars);
    res.append(after);
    res
}

/// Whether two texts have the same characters.
pub fn same_chars(chars: &[char], other: &[char]) -> (res: bool)
    ensures
        res == (chars@ == other@),
{
    if chars.len() != other.len() {
        return false;
    }
    let mut i: usize = 0;
    while i < chars.len()
        invariant
            i <= chars@.len(),
            chars@.len() == other@.len(),
            forall|j: int| 0 <= j < i ==> chars@[j] == other@[j],
        decreases chars@.len() - i,
    {
        if chars[i] != other[i] {
            return false;
        }
        i = i + 1;
    }
    assert(chars@ == other@);
    true
}

/// Whether the characters are exactly those of `expected`.
pub fn is_text(chars: &[char], expected: &str) -> (res: bool)
    ensures
        res == (chars@ == expected@),
{
    let other = chars_of(expected);
    same_chars(chars, other.as_slice())
}

/// The views of the elements of a sequence.
pub open spec fn views<T: View>(s: Seq<T>) -> Seq<T::V> {
    s.map_values(|x: T| x@)
}

/// The view of what an option holds.
pub open spec fn opt_view<T: View>(o: Option<T>) -> Option<T::V> {
    match o {
        Some(x) => Some(x@),
        None => None,
    }
}

pub proof fn lemma_views_push<T: View>(s: Seq<T>, x: T)
    ensures
        views(s.push(x)) == views(s).push(x@),
{
    assert(views(s.push(x)) =~= views(s).push(x@));
}

pub proof fn lemma_views_empty<T: View>()
    ensures
        views(Seq::<T>::empty()) == Seq::<T::V>::empty(),
{
    assert(views(Seq::<T>::empty()) =~= Seq::<T::V>::empty());
}

/// The length of the longest prefix whose characters all satisfy `p`.
pub open spec fn run_len(s: Seq<char>, p: spec_fn(char) -> bool) -> nat
    decreases s.len(),
{
    if s.len() > 0 && p(s[0]) {
        1 + run_len(s.drop_first(), p)
    } else {
        0
    }
}

pub proof fn lemma_run_len(s: Seq<char>, p: spec_fn(char) -> bool, n: nat)
    requires
        n <= s.len(),
        forall|j: int| 0 <= j < n ==> p(#[trigger] s[j]),
        n == s.len() || !p(s[n as int]),
    ensures
        run_len(s, p) == n,
    decreases n,
{
    if n > 0 {
        let t = s.drop_first();
        assert(p(s[0]));
        assert forall|j: int| 0 <= j < n - 1 implies p(#[trigger] t[j]) by {
            assert(p(s[j + 1]));
        }
        lemma_run_len(t, p, (n - 1) as nat);
    }
}

pub proof fn lemma_run_len_bounds(s: Seq<char>, p: spec_fn(char) -> bool)
    ensures
        run_len(s, p) <= s.len(),
        forall|j: int| 0 <= j < run_len(s, p) ==> p(#[trigger] s[j]),
        run_len(s, p) < s.len() ==> !p(s[run_len(s, p) as int]),
    decreases s.len(),
{
    if s.len() > 0 && p(s[0]) {
        let t = s.drop_first();
        lemma_run_len_bounds(t, p);
        assert forall|j: int| 0 <= j < run_len(s, p) implies p(#[trigger] s[j]) by {
            if j > 0 {
                assert(p(t[j - 1]));
            }
        }
    }
}

/// Every character but a line feed.
pub open spec fn not_newline() -> spec_fn(char) -> bool {
    |c: char| c != '\n'
}

/// A text without its final carriage return, if it ends in one.
pub open spec fn strip_carriage_return(s: Seq<char>) -> Seq<char> {
    if s.len() > 0 && s.last() == '\r' {
        s.drop_last()
    } else {
        s
    }
}

/// The lines of a text: each ends at a line feed, which is left out together with a carriage
/// return right before it. What follows the last line feed is a line too, unless it is empty.
pub open spec fn lines(s: Seq<char>) -> Seq<Seq<char>>
    decreases s.len(),
{
    if s.len() == 0 {
        Seq::empty()
    } else {
        let n = run_len(s, not_newline()) as int;
        if n < s.len() {
            seq![strip_carriage_return(s.take(n))] + lines(s.skip(n + 1))
        } else {
            seq![s]
        }
    }
}

/// Splits a text into its lines.
pub fn split_lines(chars: &[char]) -> (res: Vec<Vec<char>>)
    ensures
        views(res@) == lines(chars@),
{
    let mut res: Vec<Vec<char>> = Vec::new();
    let mut start: usize = 0;
    proof {
        lemma_views_empty::<Vec<char>>();
        assert(chars@.skip(0) == chars@);
        assert(views(res@) + lines(chars@) == lines(chars@));
    }
    while start < chars.len()
        invariant
            start <= chars@.len(),
            views(res@) + lines(chars@.skip(start as int)) == lines(chars@),
        decreases chars@.len() - start,
    {
        let ghost rest = chars@.skip(start as int);
        let mut end: usize = start;
        while end < chars.len() && chars[end] != '\n'
            invariant
                start <= end <= chars@.len(),
                forall|j: int| start <= j < end ==> chars@[j] != '\n',
            decreases chars@.len() - end,
        {
            end = end + 1;
        }
        proof {
            lemma_run_len(rest, not_newline(), (end - start) as nat);
        }
        let ghost before = res@;
        if end == chars.len() {
            let line = vstd::slice::slice_to_vec(slice_subrange(chars, start, end));
            proof {
                assert(line@ == rest);
                lemma_views_push(before, line);
                assert(chars@.skip(end as int).len() == 0);
                assert(views(before).push(line@) + lines(chars@.skip(end as int))
                    == views(before) + seq![rest]);
            }
            res.push(line);
            start = end;
        } else {
            let stop: usize = if end > start && chars[end - 1] == '\r' {
                end - 1
            } else {
                end
            };
            let line = vstd::slice::slice_to_vec(slice_subrange(chars, start, stop));
            proof {
                let n = end - start;
                assert(rest.take(n).len() > 0 ==> rest.take(n).last() == chars@[end - 1]);
                assert(line@ == strip_carriage_return(rest.take(n)));
                assert(rest.skip(n + 1) == chars@.skip(end + 1));
                lemma_views_push(before, line);
                assert(views(before).push(line@) + lines(chars@.skip(end + 1))
                    == views(before) + (seq![line@] + lines(chars@.skip(end + 1))));
            }
            res.push(line);
            start = end + 1;
        }
    }
    proof {
        assert(chars@.skip(start as int).len() == 0);
        assert(views(res@) + Seq::<Seq<char>>::empty() == views(res@));
    }
    res
}

/// The spaces that stand for one tab.
pub open spec fn tab_stop() -> Seq<char> {
    seq![' ', ' ', ' ', ' ']
}

/// A text with every tab expanded to four spaces.
pub open spec fn tabified(s: Seq<char>) -> Seq<char>
    decreases s.len(),
{
    if s.len() == 0 {
        Seq::empty()
    } else if s.last() == '\t' {
        tabified(s.drop_last()) + tab_stop()
    } else {
        tabified(s.drop_last()).push(s.last())
    }
}

/// Expands tabs to spaces, so that highlighted spans line up with the displayed text.
pub fn expand_tabs(chars: &[char]) -> (res: String)
    ensures
        res@ == tabified(chars@),
{
    let mut res = String::new();
    let mut i: usize = 0;
    while i < chars.len()
        invariant
            i <= chars@.len(),
            res@ == tabified(chars@.take(i as int)),
        decreases chars@.len() - i,
    {
        proof {
            assert(chars@.take(i + 1).drop_last() == chars@.take(i as int));
        }
        let ghost before = res@;
        if chars[i] == '\t' {
            res.push(' ');
            res.push(' ');
            res.push(' ');
            res.push(' ');
            proof {
                assert(res@ == before + tab_stop());
            }
        } else {
            res.push(chars[i]);
        }
        i = i + 1;
    }
    assert(chars@.take(chars@.len() as int) == chars@);
    res
}

/// Whether `pat` stands in `s` at position `i`.
pub open spec fn occurs_at(s: Seq<char>, pat: Seq<char>, i: int) -> bool {
    0 <= i && i + pat.len() <= s.len() && s.subrange(i, i + pat.len()) == pat
}

/// Whether `s` begins with `pat`.
pub open spec fn starts_with(s: Seq<char>, pat: Seq<char>) -> bool {
    occurs_at(s, pat, 0)
}

/// The first position at or after `i` where `pat` stands in `s`.
pub open spec fn find_from(s: Seq<char>, pat: Seq<char>, i: int) -> Option<int>
    decreases s.len() + 1 - i,
{
    if i < 0 || i + pat.len() > s.len() {
        None
    } else if occurs_at(s, pat, i) {
        Some(i)
    } else {
        find_from(s, pat, i + 1)
    }
}

/// The parts of `s` before and after the first occurrence of `pat`.
pub open spec fn split_once(s: Seq<char>, pat: Seq<char>) -> Option<(Seq<char>, Seq<char>)> {
    match find_from(s, pat, 0) {
        Some(i) => Some((s.take(i), s.skip(i + pat.len()))),
        None => None,
    }
}

/// What `find_from` returns is the smallest position of an occurrence.
pub proof fn lemma_find_from(s: Seq<char>, pat: Seq<char>, i: int)
    requires
        0 <= i,
    ensures
        match find_from(s, pat, i) {
            Some(k) => i <= k && occurs_at(s, pat, k) && (forall|j: int|
                i <= j < k ==> !occurs_at(s, pat, j)),
            None => forall|j: int| i <= j ==> !occurs_at(s, pat, j),
        },
    decreases s.len() + 1 - i,
{
    if i + pat.len() <= s.len() && !occurs_at(s, pat, i) {
        lemma_find_from(s, pat, i + 1);
    }
}

/// A text is split at the first occurrence.
pub proof fn lemma_split_once_at(s: Seq<char>, pat: Seq<char>, k: int)
    requires
        occurs_at(s, pat, k),
        forall|j: int| 0 <= j < k ==> !occurs_at(s, pat, j),
    ensures
        split_once(s, pat) == Some((s.take(k), s.skip(k + pat.len()))),
{
    lemma_find_from(s, pat, 0);
}

/// Whether `pat` stands in the characters at position `at`.
pub fn matches_at(chars: &[char], pat: &[char], at: usize) -> (res: bool)
    ensures
        res == occurs_at(chars@, pat@, at as int),
{
    if pat.len() > chars.len() || at > chars.len() - pat.len() {
        return false;
    }
    let mut i: usize = 0;
    while i < pat.len()
        invariant
            i <= pat@.len(),
            at + pat@.len() <= chars@.len() <= usize::MAX,
            forall|j: int| 0 <= j < i ==> chars@[at + j] == pat@[j],
        decreases pat@.len() - i,
    {
        if chars[at + i] != pat[i] {
            assert(chars@.subrange(at as int, at + pat@.len())[i as int] != pat@[i as int]);
            return false;
        }
        i = i + 1;
    }
    assert(chars@.subrange(at as int, at + pat@.len()) == pat@);
    true
}

/// The first position at or after `from` where `pat` stands in the characters.
pub fn position_from(chars: &[char], pat: &[char], from: usize) -> (res: Option<usize>)
    ensures
        match res {
            Some(i) => find_from(chars@, pat@, from as int) == Some(i as int),
            None => find_from(chars@, pat@, from as int) is None,
        },
{
    if pat.len() > chars.len() {
        return None;
    }
    let mut i: usize = from;
    while i <= chars.len() - pat.len()
        invariant
            pat@.len() <= chars@.len(),
            find_from(chars@, pat@, i as int) == find_from(chars@, pat@, from as int),
        decreases chars@.len() + 1 - i,
    {
        if matches_at(chars, pat, i) {
            return Some(i);
        }
        if i == chars.len() {
            assert(find_from(chars@, pat@, i + 1) is None);
            return None;
        }
        i = i + 1;
    }
    None
}

/// Whether the characters begin with `prefix`.
pub fn begins_with(chars: &[char], prefix: &str) -> (res: bool)
    ensures
        res == starts_with(chars@, prefix@),
{
    let pat = chars_of(prefix);
    matches_at(chars, pat.as_slice(), 0)
}

/// Splits the characters around the first occurrence of `pat`.
pub fn divide_once<'a>(chars: &'a [char], pat: &str) -> (res: Option<(&'a [char], &'a [char])>)
    ensures
        match res {
            Some((left, right)) => split_once(chars@, pat@) == Some((left@, right@)),
            None => split_once(chars@, pat@) is None,
        },
{
    let needle = chars_of(pat);
    match position_from(chars, needle.as_slice(), 0) {
        Some(i) => {
            proof {
                lemma_find_from(chars@, pat@, 0);
            }
            let left = slice_subrange(chars, 0, i);
            let end = chars.len();
            let right = slice_subrange(chars, i + needle.len(), end);
            proof {
                assert(left@ == chars@.take(i as int));
                assert(right@ == chars@.skip(i + pat@.len()));
            }
            Some((left, right))
        },
        None => None,
    }
}

/// A character with an ASCII capital turned to lower case.
pub open spec fn lower_char(c: char) -> char {
    if 'A' <= c <= 'Z' {
        (c as u32 + 32) as char
    } else {
        c
    }
}

/// A text with its ASCII capitals turned to lower case.
pub open spec fn lowered(s: Seq<char>) -> Seq<char> {
    s.map_values(|c: char| lower_char(c))
}

/// Turns ASCII capitals to lower case.
pub fn lower_case(chars: &[char]) -> (res: Vec<char>)
    ensures
        res@ == lowered(chars@),
{
    let mut res: Vec<char> = Vec::new();
    let mut i: usize = 0;
    while i < chars.len()
        invariant
            i <= chars@.len(),
            res@ == lowered(chars@.take(i as int)),
        decreases chars@.len() - i,
    {
        let c = chars[i];
        let lower: char = if 'A' <= c && c <= 'Z' {
            ((c as u8) + 32u8) as char
        } else {
            c
        };
        proof {
            assert(lowered(chars@.take(i + 1)) =~= lowered(chars@.take(i as int)).push(
                lower_char(chars@[i as int]),
            ));
        }
        res.push(lower);
        i = i + 1;
    }
    assert(chars@.take(chars@.len() as int) == chars@);
    res
}

} // verus!
