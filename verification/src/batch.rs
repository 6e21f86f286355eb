//! Contents of many files fetched at once: how a batch is read, how batches are fetched, and a
//! source of contents that draws on them.

use vstd::prelude::*;
use crate::contents;
use crate::contents::{ContentSource, Fetch};
use crate::error::TuicrError;
use crate::model::LineSide;
use crate::paths;
use crate::paths::PathParts;
use crate::text;

verus! {

/// The line that stands between two files in a batch of contents. Its suffix is unlikely to
/// occur in real source text.
pub const BATCH_BOUNDARY: &'static str = "@@TUICR_BATCH_BOUNDARY_e97f2d44_8b1a@@";

/// The contents of files, by path. A path that was added again has its latest contents.
#[derive(Debug, Clone)]
pub struct FileBatch {
    pub entries: Vec<(String, String)>,
}

/// The contents that a list of entries holds for each path.
pub open spec fn batch_contents(entries: Seq<(String, String)>) -> Map<PathParts, Seq<char>>
    decreases entries.len(),
{
    if entries.len() == 0 {
        Map::empty()
    } else {
        batch_contents(entries.drop_last()).insert(
            paths::path_parts(entries.last().0@),
            entries.last().1@,
        )
    }
}

impl View for FileBatch {
    type V = Map<PathParts, Seq<char>>;

    open spec fn view(&self) -> Map<PathParts, Seq<char>> {
        batch_contents(self.entries@)
    }
}

impl FileBatch {
    /// A batch without files.
    pub fn new() -> (res: Self)
        ensures
            res@ == Map::<PathParts, Seq<char>>::empty(),
    {
        FileBatch { entries: Vec::new() }
    }

    /// Adds the contents of a file.
    pub fn insert(&mut self, path: String, data: String)
        ensures
            final(self)@ == old(self)@.insert(paths::path_parts(path@), data@),
    {
        let ghost before = self.entries@;
        self.entries.push((path, data));
        assert(self.entries@.drop_last() == before);
    }

    /// The contents of a file.
    pub fn get(&self, path: &str) -> (res: Option<&String>)
        ensures
            match res {
                Some(data) => self@.dom().contains(paths::path_parts(path@))
                    && self@[paths::path_parts(path@)] == data@,
                None => !self@.dom().contains(paths::path_parts(path@)),
            },
    {
        let ghost parts = paths::path_parts(path@);
        let mut n: usize = self.entries.len();
        assert(self.entries@.take(n as int) == self.entries@);
        while n > 0
            invariant
                n <= self.entries@.len(),
                parts == paths::path_parts(path@),
                ({
                    let left = batch_contents(self.entries@.take(n as int));
                    &&& left.dom().contains(parts) == self@.dom().contains(parts)
                    &&& left.dom().contains(parts) ==> left[parts] == self@[parts]
                }),
            decreases n,
        {
            proof {
                assert(self.entries@.take(n as int).drop_last() == self.entries@.take(n - 1));
            }
            if paths::same_path(self.entries[n - 1].0.as_str(), path) {
                return Some(&self.entries[n - 1].1);
            }
            n = n - 1;
        }
        None
    }
}

/// What stands between two files in a batch of contents.
pub open spec fn batch_separator() -> Seq<char> {
    "\n"@ + BATCH_BOUNDARY@ + "\n"@
}

/// The parts of a text between the occurrences of a separator, taken from the left.
pub open spec fn split_all(s: Seq<char>, separator: Seq<char>) -> Seq<Seq<char>>
    recommends
        separator.len() > 0,
    decreases s.len(),
{
    match text::split_once(s, separator) {
        Some((left, right)) => if right.len() < s.len() {
            seq![left] + split_all(right, separator)
        } else {
            seq![left]
        },
        None => seq![s],
    }
}

/// Adds one block of a batch to what came before it: its first line is the path of a file, the
/// rest its contents. An empty block adds nothing.
pub open spec fn with_block(
    contents: Map<PathParts, Seq<char>>,
    block: Seq<char>,
) -> Map<PathParts, Seq<char>> {
    if block.len() == 0 {
        contents
    } else {
        match text::split_once(block, "\n"@) {
            Some((path, data)) => contents.insert(paths::path_parts(path), data),
            None => contents.insert(paths::path_parts(block), Seq::empty()),
        }
    }
}

/// The contents that the blocks of a batch hold, added to what came before them.
pub open spec fn with_blocks(
    contents: Map<PathParts, Seq<char>>,
    blocks: Seq<Seq<char>>,
) -> Map<PathParts, Seq<char>>
    decreases blocks.len(),
{
    if blocks.len() == 0 {
        contents
    } else {
        with_blocks(with_block(contents, blocks[0]), blocks.drop_first())
    }
}

/// The contents that the output of a batched command holds for each path.
pub open spec fn batch_files(output: Seq<char>) -> Map<PathParts, Seq<char>> {
    with_blocks(Map::empty(), split_all(output, batch_separator()))
}

fn add_block(batch: &mut FileBatch, block: &[char])
    ensures
        final(batch)@ == with_block(old(batch)@, block@),
{
    if block.len() == 0 {
        return ;
    }
    match text::divide_once(block, "\n") {
        Some((path, data)) => {
            batch.insert(text::text_of(path), text::text_of(data));
        },
        None => {
            batch.insert(text::text_of(block), String::new());
        },
    }
}

proof fn lemma_separator()
    ensures
        batch_separator().len() > 0,
{
    reveal_strlit("\n");
}

/// Reads the output of a batched command that puts a boundary line and a path before the
/// contents of every file.
pub fn parse_batched_files(output: &str) -> (res: FileBatch)
    ensures
        res@ == batch_files(output@),
{
    let chars = text::chars_of(output);
    let boundary = text::chars_of(BATCH_BOUNDARY);
    let separator = text::enclose("\n", boundary.as_slice(), "\n");
    let mut batch = FileBatch::new();
    let mut rest: &[char] = chars.as_slice();
    let mut more = true;
    proof {
        lemma_separator();
    }
    while more
        invariant
            separator@ == batch_separator(),
            separator@.len() > 0,
            more ==> with_blocks(batch@, split_all(rest@, separator@)) == batch_files(output@),
            !more ==> batch@ == batch_files(output@),
        decreases (if more {
            rest@.len() + 1
        } else {
            0
        }),
    {
        let ghost contents = batch@;
        let ghost blocks = split_all(rest@, separator@);
        match text::divide_once(rest, separator.as_str()) {
            Some((left, right)) => {
                proof {
                    text::lemma_find_from(rest@, separator@, 0);
                    assert(right@.len() < rest@.len());
                    assert(blocks[0] == left@);
                    assert(blocks.drop_first() == split_all(right@, separator@));
                }
                add_block(&mut batch, left);
                rest = right;
            },
            None => {
                proof {
                    assert(blocks[0] == rest@);
                    assert(blocks.drop_first() == Seq::<Seq<char>>::empty());
                    assert(with_blocks(with_block(contents, rest@), blocks.drop_first())
                        == with_block(contents, rest@));
                }
                add_block(&mut batch, rest);
                more = false;
            },
        }
    }
    batch
}

/// One file as a batched command prints it, after the separator.
pub open spec fn batch_entry(path: Seq<char>, data: Seq<char>) -> Seq<char> {
    path + "\n"@ + data
}

/// The output of a batched command for the given paths and contents.
pub open spec fn batch_output(files: Seq<(Seq<char>, Seq<char>)>) -> Seq<char>
    decreases files.len(),
{
    if files.len() == 0 {
        Seq::empty()
    } else {
        batch_separator() + batch_entry(files[0].0, files[0].1) + batch_output(files.drop_first())
    }
}

/// The given contents for each path, added to what came before them.
pub open spec fn with_files(
    contents: Map<PathParts, Seq<char>>,
    files: Seq<(Seq<char>, Seq<char>)>,
) -> Map<PathParts, Seq<char>>
    decreases files.len(),
{
    if files.len() == 0 {
        contents
    } else {
        with_files(
            contents.insert(paths::path_parts(files[0].0), files[0].1),
            files.drop_first(),
        )
    }
}

/// Whether a text holds the boundary of a batch.
pub open spec fn holds_boundary(s: Seq<char>) -> bool {
    exists|i: int| #[trigger] text::occurs_at(s, BATCH_BOUNDARY@, i)
}

proof fn lemma_boundary()
    ensures
        BATCH_BOUNDARY@.len() == 38,
        forall|i: int| 0 <= i < BATCH_BOUNDARY@.len() ==> BATCH_BOUNDARY@[i] != '\n',
{
    reveal_strlit("@@TUICR_BATCH_BOUNDARY_e97f2d44_8b1a@@");
}

proof fn lemma_first_separator(body: Seq<char>, tail: Seq<char>)
    requires
        !holds_boundary(body),
    ensures
        text::split_once(body + (batch_separator() + tail), batch_separator()) == Some((body, tail)),
{
    let separator = batch_separator();
    let s = body + (separator + tail);
    let boundary = BATCH_BOUNDARY@;
    reveal_strlit("\n");
    lemma_boundary();
    let n = body.len() as int;
    assert(s.subrange(n, n + separator.len()) == separator);
    assert forall|j: int| 0 <= j < n implies !text::occurs_at(s, separator, j) by {
        if text::occurs_at(s, separator, j) {
            let found = s.subrange(j, j + separator.len());
            if j + 1 + boundary.len() <= n {
                assert(body.subrange(j + 1, j + 1 + boundary.len()) == boundary) by {
                    assert forall|i: int| 0 <= i < boundary.len() implies body.subrange(
                        j + 1,
                        j + 1 + boundary.len(),
                    )[i] == boundary[i] by {
                        assert(found[i + 1] == separator[i + 1]);
                    }
                }
                assert(text::occurs_at(body, boundary, j + 1));
            } else {
                assert(s[n] == '\n');
                assert(found[n - j] == s[n]);
                assert(separator[n - j] == boundary[n - j - 1]);
            }
        }
    }
    text::lemma_split_once_at(s, separator, n);
    assert(s.take(n) == body);
    assert(s.skip(n + separator.len()) == tail);
}

proof fn lemma_no_separator(body: Seq<char>)
    requires
        !holds_boundary(body),
    ensures
        text::split_once(body, batch_separator()) is None,
{
    let separator = batch_separator();
    let boundary = BATCH_BOUNDARY@;
    reveal_strlit("\n");
    text::lemma_find_from(body, separator, 0);
    if let Some(k) = text::find_from(body, separator, 0) {
        let found = body.subrange(k, k + separator.len());
        assert(body.subrange(k + 1, k + 1 + boundary.len()) == boundary) by {
            assert forall|i: int| 0 <= i < boundary.len() implies body.subrange(
                k + 1,
                k + 1 + boundary.len(),
            )[i] == boundary[i] by {
                assert(found[i + 1] == separator[i + 1]);
            }
        }
        assert(text::occurs_at(body, boundary, k + 1));
    }
}

/// The entries of a batch, one block each.
spec fn batch_entries(files: Seq<(Seq<char>, Seq<char>)>) -> Seq<Seq<char>>
    decreases files.len(),
{
    if files.len() == 0 {
        Seq::empty()
    } else {
        seq![batch_entry(files[0].0, files[0].1)] + batch_entries(files.drop_first())
    }
}

proof fn lemma_batch_splits(body: Seq<char>, files: Seq<(Seq<char>, Seq<char>)>)
    requires
        !holds_boundary(body),
        forall|i: int|
            0 <= i < files.len() ==> !holds_boundary(
                batch_entry((#[trigger] files[i]).0, files[i].1),
            ),
    ensures
        split_all(body + batch_output(files), batch_separator()) == seq![body] + batch_entries(
            files,
        ),
    decreases files.len(),
{
    let separator = batch_separator();
    if files.len() == 0 {
        assert(body + batch_output(files) == body);
        lemma_no_separator(body);
        assert(seq![body] + batch_entries(files) == seq![body]);
    } else {
        let entry = batch_entry(files[0].0, files[0].1);
        let rest = files.drop_first();
        let tail = entry + batch_output(rest);
        assert(batch_output(files) == separator + tail);
        lemma_first_separator(body, tail);
        lemma_separator();
        assert forall|i: int| 0 <= i < rest.len() implies !holds_boundary(
            batch_entry((#[trigger] rest[i]).0, rest[i].1),
        ) by {
            assert(rest[i] == files[i + 1]);
        }
        lemma_batch_splits(entry, rest);
        assert(seq![body] + split_all(tail, separator) == seq![body] + batch_entries(files));
    }
}

proof fn lemma_entries_read_back(
    contents: Map<PathParts, Seq<char>>,
    files: Seq<(Seq<char>, Seq<char>)>,
)
    requires
        forall|i: int| 0 <= i < files.len() ==> !(#[trigger] files[i]).0.contains('\n'),
    ensures
        with_blocks(contents, batch_entries(files)) == with_files(contents, files),
    decreases files.len(),
{
    if files.len() > 0 {
        let (path, data) = files[0];
        let entry = batch_entry(path, data);
        let rest = files.drop_first();
        let newline = "\n"@;
        reveal_strlit("\n");
        let n = path.len() as int;
        assert(!files[0].0.contains('\n'));
        assert(entry.subrange(n, n + 1) == newline);
        assert forall|j: int| 0 <= j < n implies !text::occurs_at(entry, newline, j) by {
            if text::occurs_at(entry, newline, j) {
                assert(entry.subrange(j, j + 1)[0] == path[j]);
            }
        }
        text::lemma_split_once_at(entry, newline, n);
        assert(entry.take(n) == path);
        assert(entry.skip(n + 1) == data);
        assert forall|i: int| 0 <= i < rest.len() implies !(#[trigger] rest[i]).0.contains('\n') by {
            assert(rest[i] == files[i + 1]);
        }
        let next = with_block(contents, entry);
        lemma_entries_read_back(next, rest);
        let blocks = batch_entries(files);
        assert(blocks[0] == entry);
        assert(blocks.drop_first() == batch_entries(rest));
    }
}

/// What a batched command printed is read back: every path has the contents printed for it, the
/// last ones where a path was printed more than once. Paths hold no line feed, and no file
/// holds the boundary.
pub proof fn law_batch_reads_back(files: Seq<(Seq<char>, Seq<char>)>)
    requires
        forall|i: int| 0 <= i < files.len() ==> !(#[trigger] files[i]).0.contains('\n'),
        forall|i: int|
            0 <= i < files.len() ==> !holds_boundary(
                batch_entry((#[trigger] files[i]).0, files[i].1),
            ),
    ensures
        batch_files(batch_output(files)) == with_files(Map::empty(), files),
{
    let nothing = Seq::<char>::empty();
    lemma_boundary();
    assert(!holds_boundary(nothing));
    lemma_batch_splits(nothing, files);
    assert(nothing + batch_output(files) == batch_output(files));
    let blocks = seq![nothing] + batch_entries(files);
    assert(blocks[0] == nothing);
    assert(blocks.drop_first() == batch_entries(files));
    lemma_entries_read_back(Map::empty(), files);
}

/// One fetch of a batch: the revision and the paths that were asked for, and what came back.
pub struct BatchCall {
    pub rev: Seq<char>,
    pub paths: Seq<Seq<char>>,
    pub result: Result<FileBatch, TuicrError>,
}

/// Fetches batches of contents. The fetches are on record, in order, for contracts to speak of.
pub struct BatchFetcher<B> {
    function: B,
    calls: Ghost<Seq<BatchCall>>,
}

impl<B: Fn(&str, &Vec<String>) -> Result<FileBatch, TuicrError>> BatchFetcher<B> {
    /// The function that fetches a batch.
    pub closed spec fn function(self) -> B {
        self.function
    }

    /// What was fetched so far.
    pub closed spec fn calls(self) -> Seq<BatchCall> {
        self.calls@
    }

    /// Whether every batch can be asked for.
    pub open spec fn takes_any_batch(self) -> bool {
        forall|rev: &str, listed: &Vec<String>| #[trigger] self.function().requires((rev, listed))
    }

    /// Whether a fetch is one that the function can give.
    pub open spec fn can_give(self, call: BatchCall) -> bool {
        exists|rev: &str, listed: &Vec<String>|
            rev@ == call.rev && text::views(listed@) == call.paths
                && #[trigger] self.function().ensures((rev, listed), call.result)
    }

    /// A fetcher that has fetched nothing yet.
    pub fn new(function: B) -> (res: Self)
        ensures
            res.function() == function,
            res.calls() == Seq::<BatchCall>::empty(),
    {
        BatchFetcher { function, calls: Ghost(Seq::empty()) }
    }

    /// Fetches the files at the given paths as they are at a revision.
    pub fn fetch(&mut self, rev: &str, listed: &Vec<String>) -> (res: Result<
        FileBatch,
        TuicrError,
    >)
        requires
            old(self).takes_any_batch(),
        ensures
            ({
                let call = BatchCall { rev: rev@, paths: text::views(listed@), result: res };
                &&& old(self).can_give(call)
                &&& final(self).calls() == old(self).calls().push(call)
            }),
            final(self).function() == old(self).function(),
    {
        assert(self.function().requires((rev, listed)));
        let result = (self.function)(rev, listed);
        assert(self.function().ensures((rev, listed), result));
        self.calls = Ghost(
            self.calls@.push(BatchCall { rev: rev@, paths: text::views(listed@), result }),
        );
        result
    }
}

/// The contents that a batch holds for a path.
pub open spec fn batch_holds(files: FileBatch, path: Seq<char>) -> Option<Seq<char>> {
    if files@.dom().contains(paths::path_parts(path)) {
        Some(files@[paths::path_parts(path)])
    } else {
        None
    }
}

/// What can be fetched from a batch of the old side and one of the new side. Without the latter
/// the new side comes from a reader of files.
pub open spec fn batches_give<R: Fn(&str) -> Option<String>>(
    old_files: FileBatch,
    new_files: Option<FileBatch>,
    read_workdir: R,
) -> spec_fn(Fetch) -> bool {
    |fetch: Fetch|
        match (fetch.side, new_files) {
            (LineSide::Old, _) => fetch.content == batch_holds(old_files, fetch.path),
            (LineSide::New, Some(files)) => fetch.content == batch_holds(files, fetch.path),
            (LineSide::New, None) => contents::reader_gives(
                read_workdir,
                fetch.path,
                fetch.content,
            ),
        }
}

/// Contents that come from batches, or from the working tree where there is no batch of the new
/// side.
pub struct BatchSource<'a, R> {
    old_files: FileBatch,
    new_files: Option<FileBatch>,
    read_workdir: &'a R,
    fetches: Ghost<Seq<Fetch>>,
}

impl<'a, R: Fn(&str) -> Option<String>> BatchSource<'a, R> {
    /// The files of the old side.
    pub closed spec fn old_files(self) -> FileBatch {
        self.old_files
    }

    /// The files of the new side.
    pub closed spec fn new_files(self) -> Option<FileBatch> {
        self.new_files
    }

    /// The reader of the working tree.
    pub closed spec fn read_workdir(self) -> R {
        *self.read_workdir
    }

    /// A source that has been asked for nothing yet.
    pub fn new(old_files: FileBatch, new_files: Option<FileBatch>, read_workdir: &'a R) -> (res:
        Self)
        ensures
            res.old_files() == old_files,
            res.new_files() == new_files,
            res.read_workdir() == *read_workdir,
            res.fetches() == Seq::<Fetch>::empty(),
    {
        BatchSource { old_files, new_files, read_workdir, fetches: Ghost(Seq::empty()) }
    }
}

fn held_content(files: &FileBatch, path: &str) -> (res: Option<String>)
    ensures
        text::opt_view(res) == batch_holds(*files, path@),
{
    match files.get(path) {
        Some(data) => Some(data.clone()),
        None => None,
    }
}

impl<'a, R: Fn(&str) -> Option<String>> ContentSource for BatchSource<'a, R> {
    open spec fn takes_any_path(&self) -> bool {
        contents::takes_any_path(self.read_workdir())
    }

    open spec fn can_give(&self, fetch: Fetch) -> bool {
        batches_give(self.old_files(), self.new_files(), self.read_workdir())(fetch)
    }

    closed spec fn fetches(&self) -> Seq<Fetch> {
        self.fetches@
    }

    fn content_of(&mut self, side: LineSide, path: &str) -> (res: Option<String>) {
        let content = match (side, &self.new_files) {
            (LineSide::Old, _) => held_content(&self.old_files, path),
            (LineSide::New, Some(files)) => held_content(files, path),
            (LineSide::New, None) => contents::read_file(self.read_workdir, path),
        };
        self.fetches = Ghost(
            self.fetches@.push(Fetch { side, path: path@, content: text::opt_view(content) }),
        );
        content
    }
}

} // verus!
