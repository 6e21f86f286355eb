//! What a batch of contents holds, and where contents come from.

use vstd::prelude::*;
use crate::batch;
use crate::batch::FileBatch;
use crate::contents::{ContentSource, Fetch, FetchSource};
use crate::git;
use crate::model::LineSide;
use crate::paths;
use crate::paths::PathParts;
use crate::text;
use crate::text_laws;
use crate::text_laws::is_same_place;

verus! {

/// The line between two blocks of a batch, with the line feeds that end the block before it and
/// the line itself.
pub open spec fn boundary_line() -> Seq<char> {
    "\n"@ + "@@TUICR_BATCH_BOUNDARY_e97f2d44_8b1a@@"@ + "\n"@
}

/// The text of blocks with a boundary line between every two of them.
pub open spec fn joined(blocks: Seq<Seq<char>>) -> Seq<char>
    decreases blocks.len(),
{
    if blocks.len() == 0 {
        Seq::empty()
    } else if blocks.len() == 1 {
        blocks[0]
    } else {
        blocks[0] + boundary_line() + joined(blocks.drop_first())
    }
}

/// Whether these are the blocks of a batch: there is one at least, and each ends at the first
/// boundary line after its start.
pub open spec fn are_blocks(blocks: Seq<Seq<char>>) -> bool {
    &&& blocks.len() > 0
    &&& forall|i: int|
        0 <= i < blocks.len() - 1 ==> !git::holds(
            #[trigger] blocks[i] + boundary_line().drop_last(),
            boundary_line(),
        )
    &&& !git::holds(blocks.last(), boundary_line())
}

/// Whether a block prints a file: its path in the first line and its contents after that. A block
/// of one line prints a file without contents, and an empty block nothing.
pub open spec fn is_entry(block: Seq<char>, path: Seq<char>, data: Seq<char>) -> bool {
    &&& block.len() > 0
    &&& !path.contains('\n')
    &&& block == path + seq!['\n'] + data || block == path && data.len() == 0
}

/// Whether a block prints the file at a path.
pub open spec fn prints_file(block: Seq<char>, query: Seq<char>) -> bool {
    exists|path: Seq<char>, data: Seq<char>| #[trigger]
        is_entry(block, path, data) && is_same_place(path, query)
}

/// Whether `content` is what the last block that prints the file at a path gives for it; nothing
/// where no block does.
pub open spec fn is_printed(
    blocks: Seq<Seq<char>>,
    query: Seq<char>,
    content: Option<Seq<char>>,
) -> bool {
    if forall|i: int| 0 <= i < blocks.len() ==> !prints_file(#[trigger] blocks[i], query) {
        content is None
    } else {
        exists|i: int, path: Seq<char>, data: Seq<char>|
            {
                &&& 0 <= i < blocks.len()
                &&& #[trigger] is_entry(blocks[i], path, data)
                &&& is_same_place(path, query)
                &&& content == Some(data)
                &&& forall|j: int|
                    i < j < blocks.len() ==> !prints_file(#[trigger] blocks[j], query)
            }
    }
}

proof fn lemma_separator()
    ensures
        batch::batch_separator() == boundary_line(),
        boundary_line().len() == 40,
{
    reveal_strlit("\n");
    reveal_strlit("@@TUICR_BATCH_BOUNDARY_e97f2d44_8b1a@@");
}

proof fn lemma_cut(block: Seq<char>, rest: Seq<char>, separator: Seq<char>)
    requires
        separator.len() > 0,
        !git::holds(block + separator.drop_last(), separator),
    ensures
        text::split_once(block + separator + rest, separator) == Some((block, rest)),
{
    let all = block + separator + rest;
    let n = block.len() as int;
    let m = separator.len() as int;
    let start = block + separator.drop_last();
    assert(all.subrange(n, n + m) =~= separator);
    assert forall|j: int| 0 <= j < n implies !text::occurs_at(all, separator, j) by {
        if text::occurs_at(all, separator, j) {
            assert(start.subrange(j, j + m) =~= all.subrange(j, j + m)) by {
                assert forall|i: int| j <= i < j + m implies start[i] == all[i] by {
                    if i >= n {
                        assert(start[i] == separator[i - n]);
                        assert(all[i] == separator[i - n]);
                    }
                }
            }
            assert(text::occurs_at(start, separator, j));
        }
    }
    text::lemma_split_once_at(all, separator, n);
    assert(all.take(n) =~= block);
    assert(all.skip(n + m) =~= rest);
}

#[verifier::rlimit(40)]
proof fn lemma_blocks_are_cut(blocks: Seq<Seq<char>>)
    requires
        are_blocks(blocks),
    ensures
        batch::split_all(joined(blocks), boundary_line()) == blocks,
    decreases blocks.len(),
{
    let separator = boundary_line();
    lemma_separator();
    if blocks.len() == 1 {
        text::lemma_find_from(blocks[0], separator, 0);
        assert(text::split_once(blocks[0], separator) is None) by {
            if let Some(k) = text::find_from(blocks[0], separator, 0) {
                assert(text::occurs_at(blocks.last(), separator, k));
            }
        }
        assert(blocks =~= seq![blocks[0]]);
    } else {
        let rest = blocks.drop_first();
        assert forall|i: int| 0 <= i < rest.len() - 1 implies !git::holds(
            #[trigger] rest[i] + separator.drop_last(),
            separator,
        ) by {
            assert(rest[i] == blocks[i + 1]);
        }
        assert(rest.last() == blocks.last());
        lemma_blocks_are_cut(rest);
        assert(!git::holds(blocks[0] + separator.drop_last(), separator));
        lemma_cut(blocks[0], joined(rest), separator);
        assert(blocks =~= seq![blocks[0]] + rest);
    }
}

#[verifier::rlimit(40)]
proof fn lemma_block(contents: Map<PathParts, Seq<char>>, block: Seq<char>)
    ensures
        block.len() == 0 ==> batch::with_block(contents, block) == contents,
        forall|path: Seq<char>, data: Seq<char>|
            #[trigger] is_entry(block, path, data) ==> batch::with_block(contents, block)
                == contents.insert(paths::path_parts(path), data),
        block.len() > 0 ==> exists|path: Seq<char>, data: Seq<char>| #[trigger]
            is_entry(block, path, data),
{
    let feed = "\n"@;
    reveal_strlit("\n");
    assert(feed =~= seq!['\n']);
    assert forall|path: Seq<char>, data: Seq<char>| #[trigger]
        is_entry(block, path, data) implies batch::with_block(contents, block) == contents.insert(
        paths::path_parts(path),
        data,
    ) by {
        let n = path.len() as int;
        if block == path + seq!['\n'] + data {
            assert(block.subrange(n, n + 1) =~= feed);
            assert forall|j: int| 0 <= j < n implies !text::occurs_at(block, feed, j) by {
                if text::occurs_at(block, feed, j) {
                    assert(block.subrange(j, j + 1)[0] == path[j]);
                }
            }
            text::lemma_split_once_at(block, feed, n);
            assert(block.take(n) =~= path);
            assert(block.skip(n + 1) =~= data);
        } else {
            text::lemma_find_from(block, feed, 0);
            if let Some(k) = text::find_from(block, feed, 0) {
                assert(block.subrange(k, k + 1)[0] == block[k]);
                assert(path.contains('\n'));
            }
            assert(data =~= Seq::empty());
        }
    }
    if block.len() > 0 {
        text::lemma_find_from(block, feed, 0);
        match text::find_from(block, feed, 0) {
            Some(k) => {
                let path = block.take(k);
                let data = block.skip(k + 1);
                assert(block.subrange(k, k + 1)[0] == block[k]);
                assert(block =~= path + seq!['\n'] + data);
                assert(!path.contains('\n')) by {
                    if path.contains('\n') {
                        let j = choose|j: int| 0 <= j < path.len() && path[j] == '\n';
                        assert(block.subrange(j, j + 1) =~= feed);
                        assert(text::occurs_at(block, feed, j));
                    }
                }
                assert(is_entry(block, path, data));
            },
            None => {
                let nothing = Seq::<char>::empty();
                assert(!block.contains('\n')) by {
                    if block.contains('\n') {
                        let j = choose|j: int| 0 <= j < block.len() && block[j] == '\n';
                        assert(block.subrange(j, j + 1) =~= feed);
                        assert(text::occurs_at(block, feed, j));
                    }
                }
                assert(is_entry(block, block, nothing));
            },
        }
    }
}

#[verifier::rlimit(40)]
proof fn lemma_blocks(
    contents: Map<PathParts, Seq<char>>,
    blocks: Seq<Seq<char>>,
    query: Seq<char>,
)
    ensures
        ({
            let after = batch::with_blocks(contents, blocks);
            let key = paths::path_parts(query);
            if forall|i: int| 0 <= i < blocks.len() ==> !prints_file(#[trigger] blocks[i], query) {
                after.dom().contains(key) == contents.dom().contains(key) && (
                contents.dom().contains(key) ==> after[key] == contents[key])
            } else {
                after.dom().contains(key) && is_printed(blocks, query, Some(after[key]))
            }
        }),
    decreases blocks.len(),
{
    if blocks.len() > 0 {
        let key = paths::path_parts(query);
        let block = blocks[0];
        let rest = blocks.drop_first();
        let next = batch::with_block(contents, block);
        let after = batch::with_blocks(contents, blocks);
        lemma_block(contents, block);
        lemma_blocks(next, rest, query);
        assert(forall|i: int| 0 <= i < rest.len() ==> #[trigger] rest[i] == blocks[i + 1]);
        if exists|i: int| 0 <= i < rest.len() && prints_file(#[trigger] rest[i], query) {
            let k = choose|i: int| 0 <= i < rest.len() && prints_file(#[trigger] rest[i], query);
            assert(prints_file(blocks[k + 1], query));
            let (i, path, data) = choose|i: int, path: Seq<char>, data: Seq<char>|
                {
                    &&& 0 <= i < rest.len()
                    &&& #[trigger] is_entry(rest[i], path, data)
                    &&& is_same_place(path, query)
                    &&& Some(after[key]) == Some(data)
                    &&& forall|j: int|
                        i < j < rest.len() ==> !prints_file(#[trigger] rest[j], query)
                };
            assert(is_entry(blocks[i + 1], path, data));
            assert forall|j: int| i + 1 < j < blocks.len() implies !prints_file(
                #[trigger] blocks[j],
                query,
            ) by {
                assert(rest[j - 1] == blocks[j]);
            }
            assert(is_printed(blocks, query, Some(after[key])));
        } else {
            if block.len() > 0 {
                let (path, data) = choose|path: Seq<char>, data: Seq<char>| #[trigger]
                    is_entry(block, path, data);
                text_laws::law_paths_are_told_apart(path, query);
                if is_same_place(path, query) {
                    assert(prints_file(blocks[0], query));
                    assert(is_entry(blocks[0], path, data));
                    assert forall|j: int| 0 < j < blocks.len() implies !prints_file(
                        #[trigger] blocks[j],
                        query,
                    ) by {
                        assert(rest[j - 1] == blocks[j]);
                    }
                    assert(is_printed(blocks, query, Some(after[key])));
                } else {
                    if prints_file(blocks[0], query) {
                        let (other, more) = choose|other: Seq<char>, more: Seq<char>| #[trigger]
                            is_entry(block, other, more) && is_same_place(other, query);
                        text_laws::law_paths_are_told_apart(other, query);
                        assert(contents.insert(paths::path_parts(other), more)
                            == contents.insert(paths::path_parts(path), data));
                        lemma_one_entry(block, path, data, other, more);
                    }
                }
            }
            assert(forall|i: int|
                0 < i < blocks.len() ==> #[trigger] blocks[i] == rest[i - 1]);
        }
    }
}

proof fn lemma_one_entry(
    block: Seq<char>,
    path: Seq<char>,
    data: Seq<char>,
    other: Seq<char>,
    more: Seq<char>,
)
    requires
        is_entry(block, path, data),
        is_entry(block, other, more),
    ensures
        path == other,
        data == more,
{
    let n = path.len() as int;
    let m = other.len() as int;
    if block == path + seq!['\n'] + data {
        assert(block[n] == '\n');
        if block == other + seq!['\n'] + more {
            assert(block[m] == '\n');
            if n < m {
                assert(other[n] == '\n');
            } else if m < n {
                assert(path[m] == '\n');
            }
            assert(path =~= block.take(n));
            assert(other =~= block.take(m));
            assert(data =~= block.skip(n + 1));
            assert(more =~= block.skip(m + 1));
        } else {
            assert(other[n] == '\n');
        }
    } else {
        if block == other + seq!['\n'] + more {
            assert(block[m] == '\n');
            assert(path[m] == '\n');
        }
        assert(data =~= more);
    }
}

/// A batch that was read from printed blocks holds for every path the contents of the last block
/// that prints it, and nothing for any other.
pub proof fn law_batches_hold_what_was_printed(
    blocks: Seq<Seq<char>>,
    files: FileBatch,
    query: Seq<char>,
)
    requires
        are_blocks(blocks),
        files@ == batch::batch_files(joined(blocks)),
    ensures
        is_printed(blocks, query, batch::batch_holds(files, query)),
{
    lemma_separator();
    lemma_blocks_are_cut(blocks);
    lemma_blocks(Map::empty(), blocks, query);
}

proof fn lemma_block_ends(output: Seq<char>, separator: Seq<char>, k: int)
    requires
        separator.len() > 0,
        text::occurs_at(output, separator, k),
        forall|j: int| 0 <= j < k ==> !text::occurs_at(output, separator, j),
    ensures
        !git::holds(output.take(k) + separator.drop_last(), separator),
        output == output.take(k) + separator + output.skip(k + separator.len()),
{
    let m = separator.len() as int;
    let start = output.take(k) + separator.drop_last();
    let found = output.subrange(k, k + m);
    assert(output =~= output.take(k) + found + output.skip(k + m));
    if git::holds(start, separator) {
        let j = choose|j: int| #[trigger] text::occurs_at(start, separator, j);
        assert forall|i: int| 0 <= i < start.len() implies start[i] == output[i] by {
            if i >= k {
                assert(found[i - k] == output[i]);
            }
        }
        assert(output.subrange(j, j + m) =~= start.subrange(j, j + m));
        assert(text::occurs_at(output, separator, j));
    }
}

proof fn lemma_more_blocks(block: Seq<char>, others: Seq<Seq<char>>)
    requires
        !git::holds(block + boundary_line().drop_last(), boundary_line()),
        are_blocks(others),
    ensures
        are_blocks(seq![block] + others),
        joined(seq![block] + others) == block + boundary_line() + joined(others),
{
    let separator = boundary_line();
    let blocks = seq![block] + others;
    assert(blocks.drop_first() =~= others);
    assert(blocks.last() == others.last());
    assert forall|i: int| 0 <= i < blocks.len() - 1 implies !git::holds(
        #[trigger] blocks[i] + separator.drop_last(),
        separator,
    ) by {
        if i > 0 {
            assert(blocks[i] == others[i - 1]);
        }
    }
}

/// Every output is the text of some blocks.
pub proof fn law_every_output_has_blocks(output: Seq<char>) -> (blocks: Seq<Seq<char>>)
    ensures
        are_blocks(blocks),
        joined(blocks) == output,
    decreases output.len(),
{
    let separator = boundary_line();
    lemma_separator();
    text::lemma_find_from(output, separator, 0);
    match text::find_from(output, separator, 0) {
        Some(k) => {
            let rest = output.skip(k + separator.len());
            lemma_block_ends(output, separator, k);
            let others = law_every_output_has_blocks(rest);
            lemma_more_blocks(output.take(k), others);
            seq![output.take(k)] + others
        },
        None => seq![output],
    }
}

/// Whether `content` is what the last entry for a path holds; nothing where there is none.
pub open spec fn is_latest(
    entries: Seq<(String, String)>,
    query: Seq<char>,
    content: Option<Seq<char>>,
) -> bool {
    if forall|i: int| 0 <= i < entries.len() ==> !is_same_place((#[trigger] entries[i]).0@, query) {
        content is None
    } else {
        exists|i: int|
            {
                &&& 0 <= i < entries.len()
                &&& is_same_place((#[trigger] entries[i]).0@, query)
                &&& content == Some(entries[i].1@)
                &&& forall|j: int|
                    i < j < entries.len() ==> !is_same_place((#[trigger] entries[j]).0@, query)
            }
    }
}

proof fn lemma_latest(entries: Seq<(String, String)>, query: Seq<char>)
    ensures
        ({
            let held = batch::batch_contents(entries);
            let key = paths::path_parts(query);
            is_latest(
                entries,
                query,
                if held.dom().contains(key) {
                    Some(held[key])
                } else {
                    None
                },
            )
        }),
    decreases entries.len(),
{
    if entries.len() > 0 {
        let rest = entries.drop_last();
        let n = entries.len() - 1;
        let key = paths::path_parts(query);
        lemma_latest(rest, query);
        text_laws::law_paths_are_told_apart(entries[n].0@, query);
        assert(forall|i: int| 0 <= i < n ==> #[trigger] entries[i] == rest[i]);
        assert(forall|i: int| 0 <= i < n ==> #[trigger] rest[i] == entries[i]);
        let held = batch::batch_contents(rest);
        if !is_same_place(entries[n].0@, query) {
            if exists|i: int| 0 <= i < rest.len() && is_same_place((#[trigger] rest[i]).0@, query) {
                let k = choose|i: int|
                    0 <= i < rest.len() && is_same_place((#[trigger] rest[i]).0@, query);
                assert(is_same_place(entries[k].0@, query));
                let content = if held.dom().contains(key) {
                    Some(held[key])
                } else {
                    None
                };
                let i = choose|i: int|
                    {
                        &&& 0 <= i < rest.len()
                        &&& is_same_place((#[trigger] rest[i]).0@, query)
                        &&& content == Some(rest[i].1@)
                        &&& forall|j: int|
                            i < j < rest.len() ==> !is_same_place((#[trigger] rest[j]).0@, query)
                    };
                assert(entries[i] == rest[i]);
                assert forall|j: int| i < j < entries.len() implies !is_same_place(
                    (#[trigger] entries[j]).0@,
                    query,
                ) by {
                    if j < n {
                        assert(rest[j] == entries[j]);
                    }
                }
            }
        }
    }
}

/// A batch holds for every path what was added for it last.
pub proof fn law_batches_hold_what_was_added_last(files: FileBatch, query: Seq<char>)
    ensures
        is_latest(files.entries@, query, batch::batch_holds(files, query)),
{
    lemma_latest(files.entries@, query);
}

/// Contents of the old side come from the batch of the old side. Those of the new side come from
/// its batch where there is one, and otherwise from the file in the working tree.
pub proof fn law_sides_have_their_own_contents<R: Fn(&str) -> Option<String>>(
    old_files: FileBatch,
    new_files: Option<FileBatch>,
    read_workdir: R,
    fetch: Fetch,
)
    requires
        batch::batches_give(old_files, new_files, read_workdir)(fetch),
    ensures
        fetch.side == LineSide::Old ==> is_latest(old_files.entries@, fetch.path, fetch.content),
        fetch.side == LineSide::New && new_files is Some ==> is_latest(
            new_files->0.entries@,
            fetch.path,
            fetch.content,
        ),
        fetch.side == LineSide::New && new_files is None ==> exists|
            name: &str,
            read: Option<String>,
        |
            {
                &&& #[trigger] read_workdir.ensures((name,), read)
                &&& name@ == fetch.path
                &&& match read {
                    Some(content) => fetch.content == Some(content@),
                    None => fetch.content is None,
                }
            },
{
    lemma_latest(old_files.entries@, fetch.path);
    if new_files is Some {
        lemma_latest(new_files->0.entries@, fetch.path);
    }
}

/// A source with a function for each side gives of a side what the function of that side gives for
/// the path that is asked for.
pub proof fn law_functions_give_their_own_side<
    F: Fn(&str) -> Option<String>,
    H: Fn(&str) -> Option<String>,
>(source: FetchSource<F, H>, fetch: Fetch)
    requires
        source.can_give(fetch),
    ensures
        fetch.side == LineSide::Old ==> exists|name: &str, read: Option<String>|
            {
                &&& #[trigger] source.old_function().ensures((name,), read)
                &&& is_read(name@, read, fetch)
            },
        fetch.side == LineSide::New ==> exists|name: &str, read: Option<String>|
            {
                &&& #[trigger] source.new_function().ensures((name,), read)
                &&& is_read(name@, read, fetch)
            },
{
}

/// Whether a fetch asks for the file with a name and has what was read of it.
pub open spec fn is_read(name: Seq<char>, read: Option<String>, fetch: Fetch) -> bool {
    &&& name == fetch.path
    &&& match read {
        Some(content) => fetch.content == Some(content@),
        None => fetch.content is None,
    }
}

} // verus!
