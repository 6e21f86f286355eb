//! White space: trimming a text and splitting it into words.

use vstd::prelude::*;
use vstd::slice::slice_subrange;
use crate::text;

verus! {

/// The characters with the Unicode property `White_Space`.
pub open spec fn is_space(c: char) -> bool {
    ||| '\u{9}' <= c <= '\u{d}'
    ||| c == ' '
    ||| c == '\u{85}'
    ||| c == '\u{a0}'
    ||| c == '\u{1680}'
    ||| '\u{2000}' <= c <= '\u{200a}'
    ||| c == '\u{2028}'
    ||| c == '\u{2029}'
    ||| c == '\u{202f}'
    ||| c == '\u{205f}'
    ||| c == '\u{3000}'
}

pub open spec fn space() -> spec_fn(char) -> bool {
    |c: char| is_space(c)
}

pub open spec fn not_space() -> spec_fn(char) -> bool {
    |c: char| !is_space(c)
}

/// Whether the character is white space.
pub fn is_space_char(c: char) -> (res: bool)
    ensures
        res == is_space(c),
{
    ('\u{9}' <= c && c <= '\u{d}') || c == ' ' || c == '\u{85}' || c == '\u{a0}' || c == '\u{1680}'
        || ('\u{2000}' <= c && c <= '\u{200a}') || c == '\u{2028}' || c == '\u{2029}' || c
        == '\u{202f}' || c == '\u{205f}' || c == '\u{3000}'
}

/// A text without its leading white space.
pub open spec fn trim_start(s: Seq<char>) -> Seq<char> {
    s.skip(text::run_len(s, space()) as int)
}

/// A text without its trailing white space.
pub open spec fn trim_end(s: Seq<char>) -> Seq<char>
    decreases s.len(),
{
    if s.len() > 0 && is_space(s.last()) {
        trim_end(s.drop_last())
    } else {
        s
    }
}

/// A text without its leading and trailing white space.
pub open spec fn trimmed(s: Seq<char>) -> Seq<char> {
    trim_end(trim_start(s))
}

/// The number of characters before the first white space of `chars`.
pub fn word_length(chars: &[char]) -> (res: usize)
    ensures
        res <= chars@.len(),
        res == text::run_len(chars@, not_space()),
{
    let mut i: usize = 0;
    while i < chars.len() && !is_space_char(chars[i])
        invariant
            i <= chars@.len(),
            forall|j: int| 0 <= j < i ==> !is_space(chars@[j]),
        decreases chars@.len() - i,
    {
        i = i + 1;
    }
    proof {
        text::lemma_run_len(chars@, not_space(), i as nat);
    }
    i
}

/// Drops leading white space.
pub fn without_leading_space(chars: &[char]) -> (res: &[char])
    ensures
        res@ == trim_start(chars@),
{
    let mut i: usize = 0;
    while i < chars.len() && is_space_char(chars[i])
        invariant
            i <= chars@.len(),
            forall|j: int| 0 <= j < i ==> is_space(chars@[j]),
        decreases chars@.len() - i,
    {
        i = i + 1;
    }
    proof {
        text::lemma_run_len(chars@, space(), i as nat);
    }
    slice_subrange(chars, i, chars.len())
}

/// Drops leading and trailing white space.
pub fn trim(chars: &[char]) -> (res: &[char])
    ensures
        res@ == trimmed(chars@),
{
    let rest = without_leading_space(chars);
    let mut n: usize = rest.len();
    proof {
        assert(rest@.take(n as int) == rest@);
    }
    while n > 0 && is_space_char(rest[n - 1])
        invariant
            n <= rest@.len(),
            trim_end(rest@.take(n as int)) == trim_end(rest@),
        decreases n,
    {
        proof {
            assert(rest@.take(n as int).drop_last() == rest@.take(n - 1));
        }
        n = n - 1;
    }
    proof {
        assert(trim_end(rest@.take(n as int)) == rest@.take(n as int));
    }
    slice_subrange(rest, 0, n)
}

/// The maximal runs of characters that are not white space.
pub open spec fn words(s: Seq<char>) -> Seq<Seq<char>>
    decreases s.len(),
{
    let rest = trim_start(s);
    if rest.len() == 0 || rest.len() > s.len() {
        Seq::empty()
    } else {
        let n = text::run_len(rest, not_space()) as int;
        if n == 0 || n > rest.len() {
            Seq::empty()
        } else {
            seq![rest.take(n)] + words(rest.skip(n))
        }
    }
}

/// Splits a text at its white space.
pub fn split_words(chars: &[char]) -> (res: Vec<Vec<char>>)
    ensures
        text::views(res@) == words(chars@),
{
    let mut res: Vec<Vec<char>> = Vec::new();
    let mut rest: &[char] = chars;
    proof {
        text::lemma_views_empty::<Vec<char>>();
        assert(text::views(res@) + words(chars@) == words(chars@));
    }
    loop
        invariant
            text::views(res@) + words(rest@) == words(chars@),
        ensures
            text::views(res@) == words(chars@),
        decreases rest@.len(),
    {
        let ghost previous = rest@;
        let begin = without_leading_space(rest);
        proof {
            text::lemma_run_len_bounds(previous, space());
            text::lemma_run_len_bounds(begin@, not_space());
        }
        if begin.len() == 0 {
            assert(text::views(res@) + Seq::<Seq<char>>::empty() == text::views(res@));
            break;
        }
        let n: usize = word_length(begin);
        proof {
            let k = text::run_len(previous, space()) as int;
            assert(begin@[0] == previous[k]);
            assert(!is_space(begin@[0]));
            assert(not_space()(begin@[0]));
            assert(n > 0);
        }
        let word = vstd::slice::slice_to_vec(slice_subrange(begin, 0, n));
        let ghost before = res@;
        proof {
            text::lemma_views_push(before, word);
            assert(word@ == begin@.take(n as int));
        }
        res.push(word);
        rest = slice_subrange(begin, n, begin.len());
        proof {
            assert(rest@ == begin@.skip(n as int));
            assert(text::views(res@) + words(rest@) == text::views(before) + words(previous));
        }
    }
    res
}

} // verus!
