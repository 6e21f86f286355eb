//! File patches from git's extended patch format with simple paths.
//!
//! This reads compact patches that were written by hand. A backend knows the paths and the status
//! of a file itself and does not take them from a display header.

use vstd::prelude::*;
use vstd::slice::slice_subrange;
use crate::model::{FilePatch, FileStatus};
use crate::text;

verus! {

/// The paths and the status that the header lines of a patch state.
pub struct HeaderView {
    pub old_path: Option<Seq<char>>,
    pub new_path: Option<Seq<char>>,
    pub status: FileStatus,
}

/// What follows a prefix.
pub open spec fn after_prefix(line: Seq<char>, prefix: Seq<char>) -> Option<Seq<char>> {
    if text::starts_with(line, prefix) {
        Some(line.skip(prefix.len() as int))
    } else {
        None
    }
}

/// The two paths of a line that opens a file patch.
pub open spec fn opening_paths(line: Seq<char>) -> Option<(Seq<char>, Seq<char>)> {
    match after_prefix(line, "diff --git a/"@) {
        Some(rest) => text::split_once(rest, " b/"@),
        None => None,
    }
}

/// What is known after one more line of a file patch.
pub open spec fn with_header_line(header: HeaderView, line: Seq<char>) -> HeaderView {
    if text::starts_with(line, "new file mode"@) {
        HeaderView { old_path: None, status: FileStatus::Added, ..header }
    } else if text::starts_with(line, "deleted file mode"@) {
        HeaderView { new_path: None, status: FileStatus::Deleted, ..header }
    } else if after_prefix(line, "rename from "@) is Some {
        HeaderView {
            old_path: after_prefix(line, "rename from "@),
            status: FileStatus::Renamed,
            ..header
        }
    } else if after_prefix(line, "rename to "@) is Some {
        HeaderView { new_path: after_prefix(line, "rename to "@), ..header }
    } else if after_prefix(line, "copy from "@) is Some {
        HeaderView {
            old_path: after_prefix(line, "copy from "@),
            status: FileStatus::Copied,
            ..header
        }
    } else if after_prefix(line, "copy to "@) is Some {
        HeaderView { new_path: after_prefix(line, "copy to "@), ..header }
    } else {
        header
    }
}

/// What is known after the given lines of a file patch.
pub open spec fn with_header_lines(header: HeaderView, lines: Seq<Seq<char>>) -> HeaderView
    decreases lines.len(),
{
    if lines.len() == 0 {
        header
    } else {
        with_header_line(with_header_lines(header, lines.drop_last()), lines.last())
    }
}

/// Whether a file patch opens with a line that names two simple paths.
pub open spec fn opens_patch(block: Seq<char>) -> bool {
    text::lines(block).len() > 0 && opening_paths(text::lines(block)[0]) is Some
}

/// The paths and the status that a file patch states.
pub open spec fn stated_header(block: Seq<char>) -> HeaderView {
    let lines = text::lines(block);
    let (old_path, new_path) = opening_paths(lines[0])->0;
    with_header_lines(
        HeaderView {
            old_path: Some(old_path),
            new_path: Some(new_path),
            status: FileStatus::Modified,
        },
        lines,
    )
}

/// Whether a file patch is the one that a block of text states.
pub open spec fn is_stated_patch(block: Seq<char>, patch: FilePatch) -> bool {
    let header = stated_header(block);
    &&& text::opt_view(patch.old_path) == header.old_path
    &&& text::opt_view(patch.new_path) == header.new_path
    &&& patch.status == header.status
    &&& patch.patch@ == block
    &&& !patch.is_binary
    &&& !patch.is_too_large
}

fn strip_prefix<'a>(line: &'a [char], prefix: &str) -> (res: Option<&'a [char]>)
    ensures
        match res {
            Some(rest) => after_prefix(line@, prefix@) == Some(rest@),
            None => after_prefix(line@, prefix@) is None,
        },
{
    let pat = text::chars_of(prefix);
    if text::matches_at(line, pat.as_slice(), 0) {
        let total: usize = line.len();
        let rest = slice_subrange(line, pat.len(), total);
        assert(rest@ == line@.skip(prefix@.len() as int));
        Some(rest)
    } else {
        None
    }
}

/// Reads one file patch.
pub fn read_file_patch(block: &str) -> (res: FilePatch)
    requires
        opens_patch(block@),
    ensures
        is_stated_patch(block@, res),
{
    let chars = text::chars_of(block);
    let lines = text::split_lines(chars.as_slice());
    let ghost all = text::lines(block@);
    proof {
        assert(all.len() == lines@.len());
        assert(all[0] == lines@[0]@);
    }
    let mut old_path: Option<String> = None;
    let mut new_path: Option<String> = None;
    if let Some(rest) = strip_prefix(lines[0].as_slice(), "diff --git a/") {
        if let Some((left, right)) = text::divide_once(rest, " b/") {
            old_path = Some(text::text_of(left));
            new_path = Some(text::text_of(right));
        }
    }
    let mut status = FileStatus::Modified;
    let ghost opening = HeaderView {
        old_path: text::opt_view(old_path),
        new_path: text::opt_view(new_path),
        status,
    };
    proof {
        assert(stated_header(block@) == with_header_lines(opening, all));
        assert(all.take(0) == Seq::<Seq<char>>::empty());
    }
    let mut i: usize = 0;
    while i < lines.len()
        invariant
            i <= lines@.len(),
            all == text::views(lines@),
            with_header_lines(opening, all.take(i as int)) == (HeaderView {
                old_path: text::opt_view(old_path),
                new_path: text::opt_view(new_path),
                status,
            }),
        decreases lines@.len() - i,
    {
        let line = lines[i].as_slice();
        proof {
            assert(all.take(i + 1).drop_last() == all.take(i as int));
            assert(all[i as int] == line@);
        }
        if text::begins_with(line, "new file mode") {
            old_path = None;
            status = FileStatus::Added;
        } else if text::begins_with(line, "deleted file mode") {
            new_path = None;
            status = FileStatus::Deleted;
        } else if let Some(path) = strip_prefix(line, "rename from ") {
            old_path = Some(text::text_of(path));
            status = FileStatus::Renamed;
        } else if let Some(path) = strip_prefix(line, "rename to ") {
            new_path = Some(text::text_of(path));
        } else if let Some(path) = strip_prefix(line, "copy from ") {
            old_path = Some(text::text_of(path));
            status = FileStatus::Copied;
        } else if let Some(path) = strip_prefix(line, "copy to ") {
            new_path = Some(text::text_of(path));
        }
        i = i + 1;
    }
    assert(all.take(all.len() as int) == all);
    FilePatch::new(old_path, new_path, status, block.to_owned())
}

/// Reads the file patches of a patch that has been split into one block for each file.
pub fn git_fixture_file_patches(blocks: &Vec<String>) -> (res: Vec<FilePatch>)
    requires
        forall|i: int| 0 <= i < blocks@.len() ==> opens_patch((#[trigger] blocks@[i])@),
    ensures
        res@.len() == blocks@.len(),
        forall|i: int|
            0 <= i < blocks@.len() ==> is_stated_patch(blocks@[i]@, #[trigger] res@[i]),
{
    let mut res: Vec<FilePatch> = Vec::new();
    let mut i: usize = 0;
    while i < blocks.len()
        invariant
            i <= blocks@.len(),
            res@.len() == i,
            forall|j: int| 0 <= j < blocks@.len() ==> opens_patch((#[trigger] blocks@[j])@),
            forall|j: int| 0 <= j < i ==> is_stated_patch(blocks@[j]@, #[trigger] res@[j]),
        decreases blocks@.len() - i,
    {
        res.push(read_file_patch(blocks[i].as_str()));
        i = i + 1;
    }
    res
}

} // verus!
