//! Where the contents of files come from, with a record of what was fetched.

use vstd::prelude::*;
use crate::model::LineSide;
use crate::text;

verus! {

/// One fetch: which side of which file was asked for, and the contents that came back.
pub struct Fetch {
    pub side: LineSide,
    pub path: Seq<char>,
    pub content: Option<Seq<char>>,
}

/// Whether a function takes every path.
pub open spec fn takes_any_path<T, F: Fn(&str) -> T>(f: F) -> bool {
    forall|path: &str| #[trigger] f.requires((path,))
}

/// Whether a function can give these contents for a path.
pub open spec fn reader_gives<F: Fn(&str) -> Option<String>>(
    read: F,
    path: Seq<char>,
    content: Option<Seq<char>>,
) -> bool {
    exists|name: &str, out: Option<String>|
        name@ == path && text::opt_view(out) == content && #[trigger] read.ensures((name,), out)
}

/// Reads the file at a path.
pub fn read_file<F: Fn(&str) -> Option<String>>(read: &F, path: &str) -> (res: Option<String>)
    requires
        takes_any_path(*read),
    ensures
        reader_gives(*read, path@, text::opt_view(res)),
{
    let content = read(path);
    assert(read.ensures((path,), content));
    content
}

/// Where the contents of the two sides of a file come from. The fetches are on record, in order,
/// for contracts to speak of.
pub trait ContentSource {
    /// Whether the source can be asked for any path.
    spec fn takes_any_path(&self) -> bool;

    /// Whether a fetch is one that the source can give.
    spec fn can_give(&self, fetch: Fetch) -> bool;

    /// What was fetched so far.
    spec fn fetches(&self) -> Seq<Fetch>;

    /// The contents of one side of the file at a path, or nothing where they cannot be had.
    fn content_of(&mut self, side: LineSide, path: &str) -> (res: Option<String>)
        requires
            old(self).takes_any_path(),
        ensures
            ({
                let fetch = Fetch { side, path: path@, content: text::opt_view(res) };
                &&& old(self).can_give(fetch)
                &&& final(self).fetches() == old(self).fetches().push(fetch)
            }),
            final(self).takes_any_path(),
            forall|fetch: Fetch| #[trigger]
                final(self).can_give(fetch) == old(self).can_give(fetch),
    ;
}

/// Fetches the two sides of a file with a function for each.
pub struct FetchSource<F, H> {
    old: F,
    new: H,
    fetches: Ghost<Seq<Fetch>>,
}

impl<F: Fn(&str) -> Option<String>, H: Fn(&str) -> Option<String>> FetchSource<F, H> {
    /// The function for the old side.
    pub closed spec fn old_function(self) -> F {
        self.old
    }

    /// The function for the new side.
    pub closed spec fn new_function(self) -> H {
        self.new
    }

    /// A source that has fetched nothing yet.
    pub fn new(old_function: F, new_function: H) -> (res: Self)
        ensures
            res.old_function() == old_function,
            res.new_function() == new_function,
            res.fetches() == Seq::<Fetch>::empty(),
    {
        FetchSource { old: old_function, new: new_function, fetches: Ghost(Seq::empty()) }
    }
}

impl<F: Fn(&str) -> Option<String>, H: Fn(&str) -> Option<String>> ContentSource for FetchSource<
    F,
    H,
> {
    open spec fn takes_any_path(&self) -> bool {
        takes_any_path(self.old_function()) && takes_any_path(self.new_function())
    }

    open spec fn can_give(&self, fetch: Fetch) -> bool {
        match fetch.side {
            LineSide::Old => reader_gives(self.old_function(), fetch.path, fetch.content),
            LineSide::New => reader_gives(self.new_function(), fetch.path, fetch.content),
        }
    }

    closed spec fn fetches(&self) -> Seq<Fetch> {
        self.fetches@
    }

    fn content_of(&mut self, side: LineSide, path: &str) -> (res: Option<String>) {
        let content = match side {
            LineSide::Old => read_file(&self.old, path),
            LineSide::New => read_file(&self.new, path),
        };
        self.fetches = Ghost(
            self.fetches@.push(Fetch { side, path: path@, content: text::opt_view(content) }),
        );
        content
    }
}

} // verus!
