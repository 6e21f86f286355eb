//! What the lines of a file patch in git's extended format state.

use vstd::prelude::*;
use crate::git;
use crate::git_patch;
use crate::git_patch::HeaderView;
use crate::model::{FilePatch, FileStatus};
use crate::text;
use crate::text_laws;
use crate::text_laws::is_lines_of;

verus! {

/// Whether a line opens a file patch for two paths. The first path ends where a space, a `b` and a
/// slash first follow.
pub open spec fn is_opening(line: Seq<char>, old_path: Seq<char>, new_path: Seq<char>) -> bool {
    &&& line == "diff --git a/"@ + old_path + " b/"@ + new_path
    &&& !git::holds(old_path + " b"@, " b/"@)
}

/// Whether a line begins with a text.
pub open spec fn begins(line: Seq<char>, prefix: Seq<char>) -> bool {
    exists|rest: Seq<char>| line == #[trigger] (prefix + rest)
}

/// Whether a line states the old path.
pub open spec fn tells_old_path(line: Seq<char>) -> bool {
    begins(line, "new file mode"@) || begins(line, "rename from "@) || begins(line, "copy from "@)
}

/// Whether a line states the new path.
pub open spec fn tells_new_path(line: Seq<char>) -> bool {
    begins(line, "deleted file mode"@) || begins(line, "rename to "@) || begins(line, "copy to "@)
}

/// Whether a line states the status.
pub open spec fn tells_status(line: Seq<char>) -> bool {
    begins(line, "new file mode"@) || begins(line, "deleted file mode"@) || begins(
        line,
        "rename from "@,
    ) || begins(line, "copy from "@)
}

/// Whether the lines state this old path: a new file has none, a rename and a copy name it, the
/// last such line counts, and without one the path is that of the first line.
pub open spec fn is_old_path(
    lines: Seq<Seq<char>>,
    opening: Option<Seq<char>>,
    path: Option<Seq<char>>,
) -> bool {
    if forall|i: int| 0 <= i < lines.len() ==> !tells_old_path(#[trigger] lines[i]) {
        path == opening
    } else {
        exists|i: int|
            {
                &&& 0 <= i < lines.len()
                &&& tells_old_path(#[trigger] lines[i])
                &&& forall|j: int| i < j < lines.len() ==> !tells_old_path(#[trigger] lines[j])
                &&& match path {
                    None => begins(lines[i], "new file mode"@),
                    Some(named) => lines[i] == "rename from "@ + named || lines[i] == "copy from "@
                        + named,
                }
            }
    }
}

/// Whether the lines state this new path: a deleted file has none, a rename and a copy name it, the
/// last such line counts, and without one the path is that of the first line.
pub open spec fn is_new_path(
    lines: Seq<Seq<char>>,
    opening: Option<Seq<char>>,
    path: Option<Seq<char>>,
) -> bool {
    if forall|i: int| 0 <= i < lines.len() ==> !tells_new_path(#[trigger] lines[i]) {
        path == opening
    } else {
        exists|i: int|
            {
                &&& 0 <= i < lines.len()
                &&& tells_new_path(#[trigger] lines[i])
                &&& forall|j: int| i < j < lines.len() ==> !tells_new_path(#[trigger] lines[j])
                &&& match path {
                    None => begins(lines[i], "deleted file mode"@),
                    Some(named) => lines[i] == "rename to "@ + named || lines[i] == "copy to "@
                        + named,
                }
            }
    }
}

/// Whether the lines state this status, the last line that states one; without one the status is
/// the given one.
pub open spec fn is_status(
    lines: Seq<Seq<char>>,
    without: FileStatus,
    status: FileStatus,
) -> bool {
    if forall|i: int| 0 <= i < lines.len() ==> !tells_status(#[trigger] lines[i]) {
        status == without
    } else {
        exists|i: int|
            {
                &&& 0 <= i < lines.len()
                &&& tells_status(#[trigger] lines[i])
                &&& forall|j: int| i < j < lines.len() ==> !tells_status(#[trigger] lines[j])
                &&& match status {
                    FileStatus::Added => begins(lines[i], "new file mode"@),
                    FileStatus::Deleted => begins(lines[i], "deleted file mode"@),
                    FileStatus::Renamed => begins(lines[i], "rename from "@),
                    FileStatus::Copied => begins(lines[i], "copy from "@),
                    _ => false,
                }
            }
    }
}

proof fn lemma_begins(line: Seq<char>, prefix: Seq<char>)
    ensures
        begins(line, prefix) == text::starts_with(line, prefix),
        begins(line, prefix) == (git_patch::after_prefix(line, prefix) is Some),
        git_patch::after_prefix(line, prefix) matches Some(rest) ==> line == prefix + rest,
        begins(line, prefix) ==> line.len() >= prefix.len() && forall|k: int|
            0 <= k < prefix.len() ==> line[k] == prefix[k],
{
    if text::starts_with(line, prefix) {
        let rest = line.skip(prefix.len() as int);
        assert forall|k: int| 0 <= k < prefix.len() implies line[k] == prefix[k] by {
            assert(line.subrange(0, prefix.len() as int)[k] == prefix[k]);
        }
        assert(line =~= prefix + rest);
    }
    if begins(line, prefix) {
        let rest = choose|rest: Seq<char>| line == #[trigger] (prefix + rest);
        assert(line.subrange(0, prefix.len() as int) =~= prefix);
    }
}

#[verifier::rlimit(40)]
proof fn lemma_line(line: Seq<char>)
    ensures
        !(begins(line, "new file mode"@) && (tells_new_path(line) || begins(line, "rename from "@)
            || begins(line, "copy from "@))),
        !(begins(line, "deleted file mode"@) && tells_old_path(line)),
        !(begins(line, "rename from "@) && (tells_new_path(line) || begins(line, "copy from "@))),
        !(begins(line, "copy from "@) && tells_new_path(line)),
        !(begins(line, "rename to "@) && (tells_old_path(line) || begins(line, "copy to "@)
            || begins(line, "deleted file mode"@))),
        !(begins(line, "copy to "@) && (tells_old_path(line) || begins(
            line,
            "deleted file mode"@,
        ))),
{
    reveal_strlit("new file mode");
    reveal_strlit("deleted file mode");
    reveal_strlit("rename from ");
    reveal_strlit("rename to ");
    reveal_strlit("copy from ");
    reveal_strlit("copy to ");
    lemma_begins(line, "new file mode"@);
    lemma_begins(line, "deleted file mode"@);
    lemma_begins(line, "rename from "@);
    lemma_begins(line, "rename to "@);
    lemma_begins(line, "copy from "@);
    lemma_begins(line, "copy to "@);
    assert("rename from "@[7] == 'f' && "rename to "@[7] == 't');
    assert("copy from "@[5] == 'f' && "copy to "@[5] == 't');
    assert("new file mode"@[0] == 'n' && "deleted file mode"@[0] == 'd');
    assert("rename from "@[0] == 'r' && "rename to "@[0] == 'r');
    assert("copy from "@[0] == 'c' && "copy to "@[0] == 'c');
}

#[verifier::rlimit(40)]
proof fn lemma_told(header: HeaderView, lines: Seq<Seq<char>>)
    ensures
        ({
            let told = git_patch::with_header_lines(header, lines);
            &&& is_old_path(lines, header.old_path, told.old_path)
            &&& is_new_path(lines, header.new_path, told.new_path)
            &&& is_status(lines, header.status, told.status)
        }),
    decreases lines.len(),
{
    if lines.len() > 0 {
        let rest = lines.drop_last();
        let n = lines.len() - 1;
        let line = lines[n];
        let before = git_patch::with_header_lines(header, rest);
        let told = git_patch::with_header_lines(header, lines);
        lemma_told(header, rest);
        lemma_line(line);
        lemma_begins(line, "new file mode"@);
        lemma_begins(line, "deleted file mode"@);
        lemma_begins(line, "rename from "@);
        lemma_begins(line, "rename to "@);
        lemma_begins(line, "copy from "@);
        lemma_begins(line, "copy to "@);
        assert(forall|i: int| 0 <= i < n ==> #[trigger] lines[i] == rest[i]);
        assert(forall|i: int| 0 <= i < n ==> #[trigger] rest[i] == lines[i]);
        if !tells_old_path(line) {
            assert(told.old_path == before.old_path);
            lemma_old_path_stays(lines, header.old_path, told.old_path);
        } else {
            assert(tells_old_path(lines[n]));
        }
        if !tells_new_path(line) {
            assert(told.new_path == before.new_path);
            lemma_new_path_stays(lines, header.new_path, told.new_path);
        } else {
            assert(tells_new_path(lines[n]));
        }
        if !tells_status(line) {
            assert(told.status == before.status);
            lemma_status_stays(lines, header.status, told.status);
        } else {
            assert(tells_status(lines[n]));
        }
    }
}

proof fn lemma_old_path_stays(
    lines: Seq<Seq<char>>,
    opening: Option<Seq<char>>,
    path: Option<Seq<char>>,
)
    requires
        lines.len() > 0,
        !tells_old_path(lines.last()),
        is_old_path(lines.drop_last(), opening, path),
    ensures
        is_old_path(lines, opening, path),
{
    let rest = lines.drop_last();
    let n = lines.len() - 1;
    if exists|i: int| 0 <= i < lines.len() && tells_old_path(#[trigger] lines[i]) {
        let k = choose|i: int| 0 <= i < lines.len() && tells_old_path(#[trigger] lines[i]);
        assert(rest[k] == lines[k]);
        let i = choose|i: int|
            {
                &&& 0 <= i < rest.len()
                &&& tells_old_path(#[trigger] rest[i])
                &&& forall|j: int| i < j < rest.len() ==> !tells_old_path(#[trigger] rest[j])
                &&& match path {
                    None => begins(rest[i], "new file mode"@),
                    Some(named) => rest[i] == "rename from "@ + named || rest[i] == "copy from "@
                        + named,
                }
            };
        assert(lines[i] == rest[i]);
        assert forall|j: int| i < j < lines.len() implies !tells_old_path(#[trigger] lines[j]) by {
            if j < n {
                assert(rest[j] == lines[j]);
            }
        }
    } else {
        assert forall|i: int| 0 <= i < rest.len() implies !tells_old_path(#[trigger] rest[i]) by {
            assert(lines[i] == rest[i]);
        }
    }
}

proof fn lemma_new_path_stays(
    lines: Seq<Seq<char>>,
    opening: Option<Seq<char>>,
    path: Option<Seq<char>>,
)
    requires
        lines.len() > 0,
        !tells_new_path(lines.last()),
        is_new_path(lines.drop_last(), opening, path),
    ensures
        is_new_path(lines, opening, path),
{
    let rest = lines.drop_last();
    let n = lines.len() - 1;
    if exists|i: int| 0 <= i < lines.len() && tells_new_path(#[trigger] lines[i]) {
        let k = choose|i: int| 0 <= i < lines.len() && tells_new_path(#[trigger] lines[i]);
        assert(rest[k] == lines[k]);
        let i = choose|i: int|
            {
                &&& 0 <= i < rest.len()
                &&& tells_new_path(#[trigger] rest[i])
                &&& forall|j: int| i < j < rest.len() ==> !tells_new_path(#[trigger] rest[j])
                &&& match path {
                    None => begins(rest[i], "deleted file mode"@),
                    Some(named) => rest[i] == "rename to "@ + named || rest[i] == "copy to "@
                        + named,
                }
            };
        assert(lines[i] == rest[i]);
        assert forall|j: int| i < j < lines.len() implies !tells_new_path(#[trigger] lines[j]) by {
            if j < n {
                assert(rest[j] == lines[j]);
            }
        }
    } else {
        assert forall|i: int| 0 <= i < rest.len() implies !tells_new_path(#[trigger] rest[i]) by {
            assert(lines[i] == rest[i]);
        }
    }
}

proof fn lemma_status_stays(lines: Seq<Seq<char>>, without: FileStatus, status: FileStatus)
    requires
        lines.len() > 0,
        !tells_status(lines.last()),
        is_status(lines.drop_last(), without, status),
    ensures
        is_status(lines, without, status),
{
    let rest = lines.drop_last();
    let n = lines.len() - 1;
    if exists|i: int| 0 <= i < lines.len() && tells_status(#[trigger] lines[i]) {
        let k = choose|i: int| 0 <= i < lines.len() && tells_status(#[trigger] lines[i]);
        assert(rest[k] == lines[k]);
        let i = choose|i: int|
            {
                &&& 0 <= i < rest.len()
                &&& tells_status(#[trigger] rest[i])
                &&& forall|j: int| i < j < rest.len() ==> !tells_status(#[trigger] rest[j])
                &&& match status {
                    FileStatus::Added => begins(rest[i], "new file mode"@),
                    FileStatus::Deleted => begins(rest[i], "deleted file mode"@),
                    FileStatus::Renamed => begins(rest[i], "rename from "@),
                    FileStatus::Copied => begins(rest[i], "copy from "@),
                    _ => false,
                }
            };
        assert(lines[i] == rest[i]);
        assert forall|j: int| i < j < lines.len() implies !tells_status(#[trigger] lines[j]) by {
            if j < n {
                assert(rest[j] == lines[j]);
            }
        }
    } else {
        assert forall|i: int| 0 <= i < rest.len() implies !tells_status(#[trigger] rest[i]) by {
            assert(lines[i] == rest[i]);
        }
    }
}

proof fn lemma_first_stop(old_path: Seq<char>, rest: Seq<char>, j: int)
    requires
        0 <= j < old_path.len(),
        old_path.len() + 3 <= rest.len(),
        forall|i: int| 0 <= i < old_path.len() ==> rest[i] == old_path[i],
        rest.subrange(old_path.len() as int, old_path.len() as int + 3) == " b/"@,
    ensures
        text::occurs_at(rest, " b/"@, j) == text::occurs_at(old_path + " b"@, " b/"@, j),
{
    reveal_strlit(" b/");
    reveal_strlit(" b");
    let n = old_path.len() as int;
    let start = old_path + " b"@;
    let stop = rest.subrange(n, n + 3);
    assert(stop[0] == rest[n] && stop[1] == rest[n + 1]);
    assert(rest.subrange(j, j + 3) =~= start.subrange(j, j + 3));
}

proof fn lemma_read_opening(line: Seq<char>, old_path: Seq<char>, new_path: Seq<char>)
    requires
        git_patch::opening_paths(line) == Some((old_path, new_path)),
    ensures
        is_opening(line, old_path, new_path),
{
    let prefix = "diff --git a/"@;
    let pat = " b/"@;
    reveal_strlit(" b/");
    reveal_strlit(" b");
    lemma_begins(line, prefix);
    let rest = line.skip(prefix.len() as int);
    text::lemma_find_from(rest, pat, 0);
    let k = text::find_from(rest, pat, 0)->0;
    let stop = rest.subrange(k, k + 3);
    assert(rest =~= old_path + stop + new_path);
    assert(line =~= prefix + rest);
    assert(line =~= prefix + old_path + pat + new_path);
    let start = old_path + " b"@;
    if git::holds(start, pat) {
        let j = choose|j: int| #[trigger] text::occurs_at(start, pat, j);
        lemma_first_stop(old_path, rest, j);
    }
}

proof fn lemma_told_opening(line: Seq<char>, old_path: Seq<char>, new_path: Seq<char>)
    requires
        is_opening(line, old_path, new_path),
    ensures
        git_patch::opening_paths(line) == Some((old_path, new_path)),
{
    let prefix = "diff --git a/"@;
    let pat = " b/"@;
    reveal_strlit(" b/");
    let n = old_path.len() as int;
    let all = old_path + pat + new_path;
    assert(line =~= prefix + all);
    lemma_begins(line, prefix);
    let rest = line.skip(prefix.len() as int);
    assert(rest =~= all);
    assert(rest.subrange(n, n + 3) =~= pat);
    assert forall|j: int| 0 <= j < n implies !text::occurs_at(rest, pat, j) by {
        lemma_first_stop(old_path, rest, j);
    }
    text::lemma_split_once_at(rest, pat, n);
    assert(rest.take(n) =~= old_path);
    assert(rest.skip(n + 3) =~= new_path);
}

proof fn lemma_opening(line: Seq<char>, old_path: Seq<char>, new_path: Seq<char>)
    ensures
        (git_patch::opening_paths(line) == Some((old_path, new_path))) == is_opening(
            line,
            old_path,
            new_path,
        ),
{
    if git_patch::opening_paths(line) == Some((old_path, new_path)) {
        lemma_read_opening(line, old_path, new_path);
    }
    if is_opening(line, old_path, new_path) {
        lemma_told_opening(line, old_path, new_path);
    }
}

/// A file patch can be read where its first line opens one.
pub proof fn law_patches_open_with_two_paths(block: Seq<char>, lines: Seq<Seq<char>>)
    requires
        is_lines_of(lines, block),
    ensures
        git_patch::opens_patch(block) <==> lines.len() > 0 && exists|
            old_path: Seq<char>,
            new_path: Seq<char>,
        | #[trigger] is_opening(lines[0], old_path, new_path),
{
    text_laws::lemma_lines_once(lines, block);
    if lines.len() > 0 {
        if let Some((old_path, new_path)) = git_patch::opening_paths(lines[0]) {
            lemma_opening(lines[0], old_path, new_path);
        }
        if exists|old_path: Seq<char>, new_path: Seq<char>| #[trigger]
            is_opening(lines[0], old_path, new_path) {
            let (old_path, new_path) = choose|old_path: Seq<char>, new_path: Seq<char>| #[trigger]
                is_opening(lines[0], old_path, new_path);
            lemma_opening(lines[0], old_path, new_path);
        }
    }
}

/// A file patch has the paths and the status that its lines state, and is kept as it was written.
pub proof fn law_patches_are_as_their_lines_state(
    block: Seq<char>,
    lines: Seq<Seq<char>>,
    old_path: Seq<char>,
    new_path: Seq<char>,
    patch: FilePatch,
)
    requires
        is_lines_of(lines, block),
        lines.len() > 0,
        is_opening(lines[0], old_path, new_path),
        git_patch::is_stated_patch(block, patch),
    ensures
        is_old_path(
            lines,
            Some(old_path),
            match patch.old_path {
                Some(path) => Some(path@),
                None => None,
            },
        ),
        is_new_path(
            lines,
            Some(new_path),
            match patch.new_path {
                Some(path) => Some(path@),
                None => None,
            },
        ),
        is_status(lines, FileStatus::Modified, patch.status),
        patch.patch@ == block,
        !patch.is_binary && !patch.is_too_large,
{
    text_laws::lemma_lines_once(lines, block);
    lemma_opening(lines[0], old_path, new_path);
    lemma_told(
        HeaderView {
            old_path: Some(old_path),
            new_path: Some(new_path),
            status: FileStatus::Modified,
        },
        lines,
    );
}

} // verus!
