//! Repository paths, written with `/` between their components.
//!
//! Two spellings name the same path when they have the same components: repeated and trailing
//! slashes and inner `.` components do not count.

use vstd::prelude::*;
use vstd::slice::slice_subrange;
use crate::text;

verus! {

pub open spec fn not_slash() -> spec_fn(char) -> bool {
    |c: char| c != '/'
}

/// The parts of a text between its slashes.
pub open spec fn segments(s: Seq<char>) -> Seq<Seq<char>>
    decreases s.len(),
{
    let n = text::run_len(s, not_slash()) as int;
    if n < s.len() {
        seq![s.take(n)] + segments(s.skip(n + 1))
    } else {
        seq![s]
    }
}

/// Whether a segment is a component of its path wherever it stands.
pub open spec fn is_component() -> spec_fn(Seq<char>) -> bool {
    |s: Seq<char>| s.len() > 0 && s != seq!['.']
}

/// What tells one path from another.
pub struct PathParts {
    /// The path begins at the root.
    pub absolute: bool,
    /// The path begins with a `.` component.
    pub current: bool,
    /// The other components, in order.
    pub names: Seq<Seq<char>>,
}

/// The components of a path.
pub open spec fn path_parts(path: Seq<char>) -> PathParts {
    PathParts {
        absolute: path.len() > 0 && path[0] == '/',
        current: segments(path)[0] == seq!['.'],
        names: segments(path).filter(is_component()),
    }
}

/// The final component of a path, if it names an entry.
pub open spec fn file_name(path: Seq<char>) -> Option<Seq<char>> {
    let names = path_parts(path).names;
    if names.len() > 0 && names.last() != seq!['.', '.'] {
        Some(names.last())
    } else {
        None
    }
}

/// The position of the last dot of a text.
pub open spec fn last_dot(s: Seq<char>) -> Option<int>
    decreases s.len(),
{
    if s.len() == 0 {
        None
    } else if s.last() == '.' {
        Some(s.len() - 1)
    } else {
        last_dot(s.drop_last())
    }
}

/// What follows the last dot of a file name, unless the name begins with that dot.
pub open spec fn extension(path: Seq<char>) -> Option<Seq<char>> {
    match file_name(path) {
        Some(name) => match last_dot(name) {
            Some(i) if i > 0 => Some(name.skip(i + 1)),
            _ => None,
        },
        None => None,
    }
}

fn is_dot(segment: &[char]) -> (res: bool)
    ensures
        res == (segment@ == seq!['.']),
{
    let res = segment.len() == 1 && segment[0] == '.';
    assert(res ==> segment@ =~= seq!['.']);
    res
}

fn is_dot_dot(segment: &[char]) -> (res: bool)
    ensures
        res == (segment@ == seq!['.', '.']),
{
    let res = segment.len() == 2 && segment[0] == '.' && segment[1] == '.';
    assert(res ==> segment@ =~= seq!['.', '.']);
    res
}

fn split_segments(chars: &[char]) -> (res: Vec<Vec<char>>)
    ensures
        text::views(res@) == segments(chars@),
{
    let mut res: Vec<Vec<char>> = Vec::new();
    let mut start: usize = 0;
    proof {
        text::lemma_views_empty::<Vec<char>>();
        assert(chars@.skip(0) == chars@);
        assert(text::views(res@) + segments(chars@) == segments(chars@));
    }
    loop
        invariant
            start <= chars@.len(),
            text::views(res@) + segments(chars@.skip(start as int)) == segments(chars@),
        decreases chars@.len() - start,
    {
        let ghost rest = chars@.skip(start as int);
        let mut end: usize = start;
        while end < chars.len() && chars[end] != '/'
            invariant
                start <= end <= chars@.len(),
                forall|j: int| start <= j < end ==> chars@[j] != '/',
            decreases chars@.len() - end,
        {
            end = end + 1;
        }
        let segment = vstd::slice::slice_to_vec(slice_subrange(chars, start, end));
        let ghost before = res@;
        proof {
            text::lemma_run_len(rest, not_slash(), (end - start) as nat);
            text::lemma_views_push(before, segment);
            assert(segment@ == rest.take(end - start));
        }
        res.push(segment);
        if end == chars.len() {
            proof {
                assert(rest.take(end - start) == rest);
                assert(text::views(res@) == text::views(before) + segments(rest));
            }
            return res;
        }
        proof {
            assert(rest.skip(end - start + 1) == chars@.skip(end + 1));
            assert(text::views(res@) + segments(chars@.skip(end + 1)) == text::views(before) + (
            seq![segment@] + segments(chars@.skip(end + 1))));
        }
        start = end + 1;
    }
}

fn component_names(segments_of_path: &Vec<Vec<char>>) -> (res: Vec<Vec<char>>)
    ensures
        text::views(res@) == text::views(segments_of_path@).filter(is_component()),
{
    let mut res: Vec<Vec<char>> = Vec::new();
    let mut i: usize = 0;
    let ghost all = text::views(segments_of_path@);
    proof {
        text::lemma_views_empty::<Vec<char>>();
        assert(all.take(0).filter(is_component()) == Seq::<Seq<char>>::empty()) by {
            reveal(Seq::filter);
        }
    }
    while i < segments_of_path.len()
        invariant
            i <= segments_of_path@.len(),
            all == text::views(segments_of_path@),
            text::views(res@) == all.take(i as int).filter(is_component()),
        decreases segments_of_path@.len() - i,
    {
        let segment = &segments_of_path[i];
        proof {
            assert(all.take(i + 1).drop_last() == all.take(i as int));
            assert(all.take(i + 1).last() == segment@);
            reveal(Seq::filter);
        }
        if segment.len() > 0 && !is_dot(segment.as_slice()) {
            let copy = vstd::slice::slice_to_vec(segment.as_slice());
            proof {
                assert(copy@ == segment@);
                text::lemma_views_push(res@, copy);
            }
            res.push(copy);
        }
        i = i + 1;
    }
    proof {
        assert(all.take(all.len() as int) == all);
    }
    res
}

fn same_names(a: &Vec<Vec<char>>, b: &Vec<Vec<char>>) -> (res: bool)
    ensures
        res == (text::views(a@) == text::views(b@)),
{
    if a.len() != b.len() {
        assert(text::views(a@).len() != text::views(b@).len());
        return false;
    }
    let mut i: usize = 0;
    while i < a.len()
        invariant
            i <= a@.len(),
            a@.len() == b@.len(),
            forall|j: int| 0 <= j < i ==> #[trigger] a@[j]@ == b@[j]@,
        decreases a@.len() - i,
    {
        if !text::same_chars(a[i].as_slice(), b[i].as_slice()) {
            assert(text::views(a@)[i as int] != text::views(b@)[i as int]);
            return false;
        }
        i = i + 1;
    }
    assert(text::views(a@) =~= text::views(b@));
    true
}

/// Whether two spellings name the same path.
pub fn same_path(a: &str, b: &str) -> (res: bool)
    ensures
        res == (path_parts(a@) == path_parts(b@)),
{
    let left = text::chars_of(a);
    let right = text::chars_of(b);
    let left_absolute = left.len() > 0 && left[0] == '/';
    let right_absolute = right.len() > 0 && right[0] == '/';
    let left_segments = split_segments(left.as_slice());
    let right_segments = split_segments(right.as_slice());
    proof {
        lemma_segments_nonempty(a@);
        lemma_segments_nonempty(b@);
        assert(text::views(left_segments@)[0] == left_segments@[0]@);
        assert(text::views(right_segments@)[0] == right_segments@[0]@);
    }
    let left_current = is_dot(left_segments[0].as_slice());
    let right_current = is_dot(right_segments[0].as_slice());
    let left_names = component_names(&left_segments);
    let right_names = component_names(&right_segments);
    left_absolute == right_absolute && left_current == right_current && same_names(
        &left_names,
        &right_names,
    )
}

proof fn lemma_segments_nonempty(s: Seq<char>)
    ensures
        segments(s).len() > 0,
{
}

/// The extension of a path's file name.
pub fn extension_of(path: &str) -> (res: Option<Vec<char>>)
    ensures
        text::opt_view(res) == extension(path@),
{
    let chars = text::chars_of(path);
    let all = split_segments(chars.as_slice());
    let names = component_names(&all);
    if names.len() == 0 {
        return None;
    }
    let name = &names[names.len() - 1];
    proof {
        assert(text::views(names@).last() == name@);
    }
    if is_dot_dot(name.as_slice()) {
        return None;
    }
    let mut n: usize = name.len();
    proof {
        assert(name@.take(n as int) == name@);
    }
    while n > 0 && name[n - 1] != '.'
        invariant
            n <= name@.len(),
            last_dot(name@.take(n as int)) == last_dot(name@),
        decreases n,
    {
        proof {
            assert(name@.take(n as int).drop_last() == name@.take(n - 1));
        }
        n = n - 1;
    }
    if n > 1 {
        let tail = vstd::slice::slice_to_vec(slice_subrange(name.as_slice(), n, name.len()));
        proof {
            assert(last_dot(name@) == Some(n - 1));
            assert(tail@ == name@.skip(n as int));
        }
        Some(tail)
    } else {
        None
    }
}

} // verus!
