//! The automatic white-space policy for local diffs.
//!
//! Auto mode materializes the normal and the white-space-blind variant of one comparison at most
//! once each, then selects whole file records by old path, new path and status, in the order of
//! the normal variant.

use vstd::prelude::*;
use crate::error::{ErrorView, TuicrError};
use crate::loader::{DiffLoader, Load};
use crate::model;
use crate::model::{DiffFile, FileStatus};
use crate::paths;
use crate::paths::PathParts;
use crate::record;
use crate::text;

verus! {

/// The extension by which a change is compared: that of its new path, or of its old path where
/// there is no new one, in lower case.
pub open spec fn compared_extension(
    old_path: Option<Seq<char>>,
    new_path: Option<Seq<char>>,
) -> Option<Seq<char>> {
    match model::shown_path(old_path, new_path) {
        Some(path) => match paths::extension(path) {
            Some(ext) => Some(text::lowered(ext)),
            None => None,
        },
        None => None,
    }
}

/// The extension by which a change is compared.
pub fn comparison_extension(old_path: Option<&str>, new_path: Option<&str>) -> (res: Option<String>)
    ensures
        text::opt_view(res) == compared_extension(text::opt_view(old_path), text::opt_view(new_path)),
{
    let path: &str = match new_path {
        Some(path) => path,
        None => match old_path {
            Some(path) => path,
            None => {
                return None;
            },
        },
    };
    match paths::extension_of(path) {
        Some(ext) => {
            let lower = text::lower_case(ext.as_slice());
            Some(text::text_of(lower.as_slice()))
        },
        None => None,
    }
}

/// Which files are compared without regard to white space, by extension. An override decides
/// before the table does, and a later override before an earlier one.
#[derive(Debug, Clone)]
pub struct WhitespaceAutoPolicy {
    pub ignored: Vec<String>,
    pub overrides: Vec<(String, bool)>,
}

/// What the overrides say of an extension.
pub open spec fn override_for(overrides: Seq<(String, bool)>, ext: Seq<char>) -> Option<bool>
    decreases overrides.len(),
{
    if overrides.len() == 0 {
        None
    } else if overrides.last().0@ == ext {
        Some(overrides.last().1)
    } else {
        override_for(overrides.drop_last(), ext)
    }
}

impl WhitespaceAutoPolicy {
    /// Whether files with this extension are compared without regard to white space.
    pub open spec fn ignores_extension(self, ext: Seq<char>) -> bool {
        match override_for(self.overrides@, ext) {
            Some(choice) => choice,
            None => text::views(self.ignored@).contains(ext),
        }
    }

    /// Whether a file is compared without regard to white space.
    pub open spec fn ignores(self, file: DiffFile) -> bool {
        match compared_extension(text::opt_view(file.old_path), text::opt_view(file.new_path)) {
            Some(ext) => self.ignores_extension(ext),
            None => false,
        }
    }

    /// The policy that ignores white space in files with the given extensions.
    pub fn from_extensions(ignored: Vec<String>) -> (res: Self)
        ensures
            res.ignored == ignored,
            res.overrides@ == Seq::<(String, bool)>::empty(),
    {
        WhitespaceAutoPolicy { ignored, overrides: Vec::new() }
    }

    /// The same policy with other overrides.
    pub fn with_overrides(self, overrides: Vec<(String, bool)>) -> (res: Self)
        ensures
            res == (WhitespaceAutoPolicy { ignored: self.ignored, overrides }),
    {
        WhitespaceAutoPolicy { ignored: self.ignored, overrides }
    }

    fn ignores_chars(&self, ext: &[char]) -> (res: bool)
        ensures
            res == self.ignores_extension(ext@),
    {
        let mut n: usize = self.overrides.len();
        proof {
            assert(self.overrides@.take(n as int) == self.overrides@);
        }
        while n > 0
            invariant
                n <= self.overrides@.len(),
                override_for(self.overrides@.take(n as int), ext@) == override_for(
                    self.overrides@,
                    ext@,
                ),
            decreases n,
        {
            proof {
                assert(self.overrides@.take(n as int).drop_last() == self.overrides@.take(n - 1));
            }
            if text::is_text(ext, self.overrides[n - 1].0.as_str()) {
                return self.overrides[n - 1].1;
            }
            n = n - 1;
        }
        let mut i: usize = 0;
        let ghost table = text::views(self.ignored@);
        while i < self.ignored.len()
            invariant
                i <= self.ignored@.len(),
                table == text::views(self.ignored@),
                override_for(self.overrides@, ext@) is None,
                forall|j: int| 0 <= j < i ==> table[j] != ext@,
            decreases self.ignored@.len() - i,
        {
            if text::is_text(ext, self.ignored[i].as_str()) {
                assert(table[i as int] == ext@);
                return true;
            }
            i = i + 1;
        }
        false
    }

    /// Whether a file is compared without regard to white space.
    pub fn ignores_diff_file(&self, file: &DiffFile) -> (res: bool)
        ensures
            res == self.ignores(*file),
    {
        let path = match file.display_path() {
            Some(path) => path,
            None => {
                return false;
            },
        };
        match paths::extension_of(path.as_str()) {
            Some(ext) => {
                let lower = text::lower_case(ext.as_slice());
                self.ignores_chars(lower.as_slice())
            },
            None => false,
        }
    }
}

/// How a review compares white space.
#[derive(Debug, Clone)]
pub enum DiffWhitespaceMode {
    Normal,
    IgnoreAll,
    Auto(WhitespaceAutoPolicy),
}

/// One pass of a comparison.
#[derive(Debug, Clone, Copy, PartialEq, Eq, Structural)]
pub enum WhitespaceComparison {
    Normal,
    IgnoreAll,
}

impl WhitespaceComparison {
    /// Whether the pass ignores all white space.
    pub fn ignores_all(self) -> (res: bool)
        ensures
            res == (self is IgnoreAll),
    {
        match self {
            WhitespaceComparison::IgnoreAll => true,
            WhitespaceComparison::Normal => false,
        }
    }
}

/// What tells one file record from another.
pub struct FileIdentity {
    pub old_path: Option<PathParts>,
    pub new_path: Option<PathParts>,
    pub status: FileStatus,
}

pub open spec fn optional_parts(path: Option<String>) -> Option<PathParts> {
    match path {
        Some(p) => Some(paths::path_parts(p@)),
        None => None,
    }
}

/// The identity of a file record.
pub open spec fn file_identity(file: DiffFile) -> FileIdentity {
    FileIdentity {
        old_path: optional_parts(file.old_path),
        new_path: optional_parts(file.new_path),
        status: file.status,
    }
}

fn same_optional_path(a: &Option<String>, b: &Option<String>) -> (res: bool)
    ensures
        res == (optional_parts(*a) == optional_parts(*b)),
{
    match (a, b) {
        (Some(left), Some(right)) => paths::same_path(left.as_str(), right.as_str()),
        (None, None) => true,
        _ => false,
    }
}

/// Whether two records have the same identity.
pub fn same_identity(a: &DiffFile, b: &DiffFile) -> (res: bool)
    ensures
        res == (file_identity(*a) == file_identity(*b)),
{
    same_optional_path(&a.old_path, &b.old_path) && same_optional_path(&a.new_path, &b.new_path)
        && a.status == b.status
}

/// The path and status of a record, in words.
pub open spec fn identity_text(file: DiffFile) -> Seq<char> {
    (match model::shown_path(file.old_path, file.new_path) {
        Some(path) => path@,
        None => "<unknown>"@,
    }) + " ("@ + seq![file.status.letter()] + ")"@
}

/// The path and status of a record, in words.
pub fn display_identity(file: &DiffFile) -> (res: String)
    ensures
        res@ == identity_text(*file),
{
    let mut res = match file.display_path() {
        Some(path) => path.as_str().to_owned(),
        None => "<unknown>".to_owned(),
    };
    res.append(" (");
    let ghost before = res@;
    res.push(file.status.as_char());
    proof {
        assert(res@ == before + seq![file.status.letter()]);
    }
    res.append(")");
    res
}

/// Whether a record that only the normal variant holds is kept: it has no text to compare.
pub open spec fn is_metadata_only(file: DiffFile) -> bool {
    file.is_binary || file.is_too_large || file.is_commit_message || file.hunks@.len() == 0
}

/// Whether a record that only the normal variant holds is kept.
pub fn preserve_unmatched_record(file: &DiffFile) -> (res: bool)
    ensures
        res == is_metadata_only(*file),
{
    file.is_binary || file.is_too_large || file.is_commit_message || file.hunks.len() == 0
}

/// Whether a record that only the normal variant holds is a change of white space alone.
pub open spec fn is_whitespace_only(file: DiffFile) -> bool {
    file.status == FileStatus::Modified && file.hunks@.len() > 0
}

/// Whether a record that only the normal variant holds is a change of white space alone.
pub fn is_expected_whitespace_omit(file: &DiffFile) -> (res: bool)
    ensures
        res == is_whitespace_only(*file),
{
    file.status == FileStatus::Modified && file.hunks.len() > 0
}

/// The first record of `pool` with the given identity, at or after `i`.
pub open spec fn position_of(pool: Seq<DiffFile>, identity: FileIdentity, i: int) -> Option<int>
    decreases pool.len() - i,
{
    if i < 0 || i >= pool.len() {
        None
    } else if file_identity(pool[i]) == identity {
        Some(i)
    } else {
        position_of(pool, identity, i + 1)
    }
}

/// The first record of `files` with the identity of `file`.
pub fn find_record(files: &Vec<DiffFile>, file: &DiffFile) -> (res: Option<usize>)
    ensures
        match res {
            Some(i) => i < files@.len() && position_of(files@, file_identity(*file), 0) == Some(
                i as int,
            ),
            None => position_of(files@, file_identity(*file), 0) is None,
        },
{
    let mut i: usize = 0;
    while i < files.len()
        invariant
            i <= files@.len(),
            position_of(files@, file_identity(*file), i as int) == position_of(
                files@,
                file_identity(*file),
                0,
            ),
        decreases files@.len() - i,
    {
        if same_identity(&files[i], file) {
            return Some(i);
        }
        i = i + 1;
    }
    None
}

/// The first record that has the identity of an earlier one, at or after `i`.
pub open spec fn first_duplicate(files: Seq<DiffFile>, i: int) -> Option<int>
    decreases files.len() - i,
{
    if i < 0 || i >= files.len() {
        None
    } else if position_of(files.take(i), file_identity(files[i]), 0) is Some {
        Some(i)
    } else {
        first_duplicate(files, i + 1)
    }
}

pub open spec fn duplicate_error(file: DiffFile) -> ErrorView {
    ErrorView::VcsCommand(
        "auto whitespace selection found duplicate ignored file "@ + identity_text(file),
    )
}

pub open spec fn unmatched_error(file: DiffFile) -> ErrorView {
    ErrorView::VcsCommand("auto whitespace selection could not match "@ + identity_text(file))
}

/// A selection that goes on with `first`.
pub open spec fn after_record(
    first: Seq<DiffFile>,
    rest: Result<Seq<DiffFile>, ErrorView>,
) -> Result<Seq<DiffFile>, ErrorView> {
    match rest {
        Ok(files) => Ok(first + files),
        Err(error) => Err(error),
    }
}

/// The records selected for `normal`, in order, from what is left of the ignored variant.
pub open spec fn selection(
    policy: WhitespaceAutoPolicy,
    normal: Seq<DiffFile>,
    pool: Seq<DiffFile>,
) -> Result<Seq<DiffFile>, ErrorView>
    decreases normal.len(),
{
    if normal.len() == 0 {
        Ok(Seq::empty())
    } else {
        let file = normal[0];
        let rest = normal.drop_first();
        if !policy.ignores(file) {
            after_record(seq![file], selection(policy, rest, pool))
        } else {
            match position_of(pool, file_identity(file), 0) {
                Some(i) => after_record(seq![pool[i]], selection(policy, rest, pool.remove(i))),
                None => if is_metadata_only(file) {
                    after_record(seq![file], selection(policy, rest, pool))
                } else if is_whitespace_only(file) {
                    selection(policy, rest, pool)
                } else {
                    Err(unmatched_error(file))
                },
            }
        }
    }
}

/// The records that auto mode shows, or the error it gives.
pub open spec fn auto_selection(
    policy: WhitespaceAutoPolicy,
    normal: Seq<DiffFile>,
    ignored: Seq<DiffFile>,
) -> Result<Seq<DiffFile>, ErrorView> {
    match first_duplicate(ignored, 0) {
        Some(i) => Err(duplicate_error(ignored[i])),
        None => selection(policy, normal, ignored),
    }
}

/// Whether an executed result is the expected one.
pub open spec fn is_result(
    res: Result<Vec<DiffFile>, TuicrError>,
    expected: Result<Seq<DiffFile>, ErrorView>,
) -> bool {
    match (res, expected) {
        (Ok(files), Ok(records)) => files@ == records,
        (Err(error), Err(view)) => error@ == view,
        _ => false,
    }
}

proof fn lemma_after_record(
    done: Seq<DiffFile>,
    first: Seq<DiffFile>,
    rest: Result<Seq<DiffFile>, ErrorView>,
)
    ensures
        after_record(done, after_record(first, rest)) == after_record(done + first, rest),
{
    match rest {
        Ok(files) => {
            assert(done + (first + files) == (done + first) + files);
        },
        Err(_) => {},
    }
}

fn check_duplicates(ignored: &Vec<DiffFile>) -> (res: Result<(), TuicrError>)
    ensures
        match (res, first_duplicate(ignored@, 0)) {
            (Ok(_), None) => true,
            (Err(error), Some(i)) => error@ == duplicate_error(ignored@[i]),
            _ => false,
        },
{
    let mut i: usize = 0;
    while i < ignored.len()
        invariant
            i <= ignored@.len(),
            first_duplicate(ignored@, i as int) == first_duplicate(ignored@, 0),
        decreases ignored@.len() - i,
    {
        let ghost identity = file_identity(ignored@[i as int]);
        let mut j: usize = 0;
        while j < i
            invariant
                j <= i < ignored@.len(),
                identity == file_identity(ignored@[i as int]),
                first_duplicate(ignored@, i as int) == first_duplicate(ignored@, 0),
                position_of(ignored@.take(i as int), identity, j as int) == position_of(
                    ignored@.take(i as int),
                    identity,
                    0,
                ),
            decreases i - j,
        {
            if same_identity(&ignored[j], &ignored[i]) {
                let mut message =
                    "auto whitespace selection found duplicate ignored file ".to_owned();
                message.append(display_identity(&ignored[i]).as_str());
                assert(ignored@.take(i as int)[j as int] == ignored@[j as int]);
                return Err(TuicrError::VcsCommand(message));
            }
            assert(ignored@.take(i as int)[j as int] == ignored@[j as int]);
            j = j + 1;
        }
        i = i + 1;
    }
    Ok(())
}

/// Selects whole file records in the order of the normal variant.
///
/// A file whose white space is ignored takes the record of the ignored variant where there is
/// one. A modified file that is missing from that variant changed in white space alone and is
/// left out; a record without text to compare is kept. Anything else that has no match is an
/// error, as is an ignored variant that holds one identity twice.
pub fn select_auto_diff_files(
    policy: &WhitespaceAutoPolicy,
    normal: Vec<DiffFile>,
    ignored: Vec<DiffFile>,
) -> (res: Result<Vec<DiffFile>, TuicrError>)
    ensures
        is_result(res, auto_selection(*policy, normal@, ignored@)),
{
    match check_duplicates(&ignored) {
        Ok(_) => {},
        Err(error) => {
            return Err(error);
        },
    }
    let ghost all = normal@;
    let mut pool: Vec<DiffFile> = ignored;
    let mut selected: Vec<DiffFile> = Vec::new();
    proof {
        assert(all.skip(0) == all);
        match selection(*policy, all, pool@) {
            Ok(files) => {
                assert(Seq::<DiffFile>::empty() + files == files);
            },
            Err(_) => {},
        }
    }
    for file in it: normal
        invariant
            it.seq() == all,
            all == normal@,
            auto_selection(*policy, normal@, ignored@) == after_record(
                selected@,
                selection(*policy, all.skip(it.index() as int), pool@),
            ),
    {
        let ghost rest = all.skip(it.index() as int);
        let ghost done = selected@;
        proof {
            assert(rest[0] == file);
            assert(rest.drop_first() == all.skip(it.index() + 1));
        }
        if !policy.ignores_diff_file(&file) {
            proof {
                lemma_after_record(done, seq![file], selection(*policy, rest.drop_first(), pool@));
                assert(done + seq![file] == done.push(file));
            }
            selected.push(file);
        } else {
            match find_record(&pool, &file) {
                Some(i) => {
                    let ghost before = pool@;
                    let ignored_file = pool.remove(i);
                    proof {
                        lemma_after_record(
                            done,
                            seq![ignored_file],
                            selection(*policy, rest.drop_first(), pool@),
                        );
                        assert(done + seq![ignored_file] == done.push(ignored_file));
                    }
                    selected.push(ignored_file);
                },
                None => {
                    if preserve_unmatched_record(&file) {
                        proof {
                            lemma_after_record(
                                done,
                                seq![file],
                                selection(*policy, rest.drop_first(), pool@),
                            );
                            assert(done + seq![file] == done.push(file));
                        }
                        selected.push(file);
                    } else if !is_expected_whitespace_omit(&file) {
                        let mut message = "auto whitespace selection could not match ".to_owned();
                        message.append(display_identity(&file).as_str());
                        return Err(TuicrError::VcsCommand(message));
                    }
                },
            }
        }
    }
    proof {
        assert(all.skip(all.len() as int).len() == 0);
        assert(selected@ + Seq::<DiffFile>::empty() == selected@);
    }
    Ok(selected)
}

/// A variant as auto mode takes it: one that reports no changes is empty.
pub open spec fn variant_files(res: Result<Vec<DiffFile>, TuicrError>) -> Result<
    Seq<DiffFile>,
    TuicrError,
> {
    match res {
        Ok(files) => Ok(files@),
        Err(TuicrError::NoChanges) => Ok(Seq::empty()),
        Err(error) => Err(error),
    }
}

/// A variant as auto mode takes it.
pub fn take_variant(variant: Result<Vec<DiffFile>, TuicrError>) -> (res: Result<
    Vec<DiffFile>,
    TuicrError,
>)
    ensures
        match (res, variant_files(variant)) {
            (Ok(files), Ok(records)) => files@ == records,
            (Err(error), Err(expected)) => error == expected,
            _ => false,
        },
{
    match variant {
        Ok(files) => Ok(files),
        Err(TuicrError::NoChanges) => Ok(Vec::new()),
        Err(error) => Err(error),
    }
}

/// What auto mode gives for a normal variant that is not empty, once the ignored variant has
/// been loaded: a selection that leaves nothing is no change at all.
pub open spec fn auto_outcome(
    policy: WhitespaceAutoPolicy,
    normal: Seq<DiffFile>,
    ignored: Result<Vec<DiffFile>, TuicrError>,
) -> Result<Seq<DiffFile>, ErrorView> {
    match variant_files(ignored) {
        Ok(records) => match auto_selection(policy, normal, records) {
            Ok(files) => if files.len() == 0 {
                Err(ErrorView::NoChanges)
            } else {
                Ok(files)
            },
            Err(error) => Err(error),
        },
        Err(error) => Err(error@),
    }
}

/// What auto mode gives for a normal variant that is not empty, once the ignored variant has
/// been loaded.
pub fn finish_auto_diff(
    policy: &WhitespaceAutoPolicy,
    normal: Vec<DiffFile>,
    ignored: Result<Vec<DiffFile>, TuicrError>,
) -> (res: Result<Vec<DiffFile>, TuicrError>)
    ensures
        is_result(res, auto_outcome(*policy, normal@, ignored)),
{
    match take_variant(ignored) {
        Ok(records) => match select_auto_diff_files(policy, normal, records) {
            Ok(selected) => {
                if selected.len() == 0 {
                    Err(TuicrError::NoChanges)
                } else {
                    Ok(selected)
                }
            },
            Err(error) => Err(error),
        },
        Err(error) => Err(error),
    }
}

/// Whether `res` is what the given loads come to in a mode, and they are the loads that the mode
/// makes: one for the normal and the white-space-blind mode. Auto mode loads the normal variant,
/// and the ignored one only where the normal one has files.
pub open spec fn is_diff_of(
    mode: DiffWhitespaceMode,
    loads: Seq<Load>,
    res: Result<Vec<DiffFile>, TuicrError>,
) -> bool {
    match mode {
        DiffWhitespaceMode::Normal => loads == seq![
            Load { comparison: WhitespaceComparison::Normal, result: res },
        ],
        DiffWhitespaceMode::IgnoreAll => loads == seq![
            Load { comparison: WhitespaceComparison::IgnoreAll, result: res },
        ],
        DiffWhitespaceMode::Auto(policy) => {
            &&& loads.len() > 0
            &&& loads[0].comparison == WhitespaceComparison::Normal
            &&& match variant_files(loads[0].result) {
                Err(error) => loads.len() == 1 && res == Err::<Vec<DiffFile>, TuicrError>(error),
                Ok(files) => if files.len() == 0 {
                    loads.len() == 1 && is_result(res, Err(ErrorView::NoChanges))
                } else {
                    &&& loads.len() == 2
                    &&& loads[1].comparison == WhitespaceComparison::IgnoreAll
                    &&& is_result(res, auto_outcome(policy, files, loads[1].result))
                },
            }
        },
    }
}

/// Loads a comparison once for the normal and the white-space-blind mode, and at most twice for
/// auto mode, which then selects whole file records.
pub fn materialize_diff<F>(mode: &DiffWhitespaceMode, loader: &mut DiffLoader<F>) -> (res: Result<
    Vec<DiffFile>,
    TuicrError,
>) where F: Fn(WhitespaceComparison) -> Result<Vec<DiffFile>, TuicrError>
    requires
        old(loader).takes_any_comparison(),
    ensures
        final(loader).function() == old(loader).function(),
        ({
            let loads = record::since(old(loader).loads(), final(loader).loads());
            &&& record::extends(old(loader).loads(), final(loader).loads())
            &&& forall|i: int|
                0 <= i < loads.len() ==> old(loader).can_give(#[trigger] loads[i])
            &&& is_diff_of(*mode, loads, res)
        }),
{
    let ghost before = loader.loads();
    match mode {
        DiffWhitespaceMode::Normal => {
            let result = loader.load(WhitespaceComparison::Normal);
            proof {
                record::lemma_extends(
                    before,
                    loader.loads(),
                    seq![Load { comparison: WhitespaceComparison::Normal, result }],
                );
            }
            result
        },
        DiffWhitespaceMode::IgnoreAll => {
            let result = loader.load(WhitespaceComparison::IgnoreAll);
            proof {
                record::lemma_extends(
                    before,
                    loader.loads(),
                    seq![Load { comparison: WhitespaceComparison::IgnoreAll, result }],
                );
            }
            result
        },
        DiffWhitespaceMode::Auto(policy) => {
            let normal = loader.load(WhitespaceComparison::Normal);
            proof {
                record::lemma_extends(
                    before,
                    loader.loads(),
                    seq![Load { comparison: WhitespaceComparison::Normal, result: normal }],
                );
            }
            match take_variant(normal) {
                Ok(files) => {
                    if files.len() == 0 {
                        return Err(TuicrError::NoChanges);
                    }
                    let ignored = loader.load(WhitespaceComparison::IgnoreAll);
                    proof {
                        record::lemma_extends(
                            before,
                            loader.loads(),
                            seq![
                                Load { comparison: WhitespaceComparison::Normal, result: normal },
                                Load {
                                    comparison: WhitespaceComparison::IgnoreAll,
                                    result: ignored,
                                },
                            ],
                        );
                    }
                    finish_auto_diff(policy, files, ignored)
                },
                Err(error) => Err(error),
            }
        },
    }
}

/// The identities of records, in order.
pub open spec fn identities(files: Seq<DiffFile>) -> Seq<FileIdentity> {
    files.map_values(|file: DiffFile| file_identity(file))
}

/// Whether `part` is `whole` with some elements left out.
pub open spec fn is_subsequence<T>(part: Seq<T>, whole: Seq<T>) -> bool
    decreases whole.len(),
{
    if part.len() == 0 {
        true
    } else if whole.len() == 0 {
        false
    } else {
        ||| part[0] == whole[0] && is_subsequence(part.drop_first(), whole.drop_first())
        ||| is_subsequence(part, whole.drop_first())
    }
}

pub proof fn lemma_position_of(pool: Seq<DiffFile>, identity: FileIdentity, i: int)
    requires
        0 <= i,
    ensures
        match position_of(pool, identity, i) {
            Some(k) => i <= k < pool.len() && file_identity(pool[k]) == identity && forall|j: int|
                i <= j < k ==> file_identity(#[trigger] pool[j]) != identity,
            None => forall|j: int|
                i <= j < pool.len() ==> file_identity(#[trigger] pool[j]) != identity,
        },
    decreases pool.len() - i,
{
    if i < pool.len() && file_identity(pool[i]) != identity {
        lemma_position_of(pool, identity, i + 1);
    }
}

/// A selection keeps the order of the normal variant: its identities are those of the normal
/// variant, with some left out.
pub proof fn law_selection_keeps_order(
    policy: WhitespaceAutoPolicy,
    normal: Seq<DiffFile>,
    pool: Seq<DiffFile>,
)
    ensures
        selection(policy, normal, pool) matches Ok(files) ==> is_subsequence(
            identities(files),
            identities(normal),
        ),
    decreases normal.len(),
{
    if normal.len() > 0 {
        let file = normal[0];
        let rest = normal.drop_first();
        let position = position_of(pool, file_identity(file), 0);
        let found = policy.ignores(file) && position is Some;
        let left = if found {
            pool.remove(position->0)
        } else {
            pool
        };
        law_selection_keeps_order(policy, rest, left);
        lemma_position_of(pool, file_identity(file), 0);
        assert(identities(rest) == identities(normal).drop_first());
        if let Ok(files) = selection(policy, normal, pool) {
            if let Ok(tail) = selection(policy, rest, left) {
                if files.len() > 0 && files != tail {
                    assert(files.drop_first() == tail);
                    assert(identities(files).drop_first() == identities(tail));
                }
            }
        }
    }
}

/// Whether every record of a selection stands whole in the normal or in the ignored variant.
pub open spec fn comes_from(
    files: Seq<DiffFile>,
    normal: Seq<DiffFile>,
    ignored: Seq<DiffFile>,
) -> bool {
    forall|k: int|
        0 <= k < files.len() ==> normal.contains(#[trigger] files[k]) || ignored.contains(files[k])
}

/// Every selected record is a whole record of the normal or of the ignored variant: hashes and
/// line numbers come from the chosen record.
pub proof fn law_selection_takes_whole_records(
    policy: WhitespaceAutoPolicy,
    normal: Seq<DiffFile>,
    pool: Seq<DiffFile>,
)
    ensures
        selection(policy, normal, pool) matches Ok(files) ==> comes_from(files, normal, pool),
    decreases normal.len(),
{
    if normal.len() > 0 {
        let file = normal[0];
        let rest = normal.drop_first();
        let position = position_of(pool, file_identity(file), 0);
        let found = policy.ignores(file) && position is Some;
        let left = if found {
            pool.remove(position->0)
        } else {
            pool
        };
        law_selection_takes_whole_records(policy, rest, left);
        lemma_position_of(pool, file_identity(file), 0);
        if let Ok(files) = selection(policy, normal, pool) {
            if let Ok(tail) = selection(policy, rest, left) {
                assert forall|k: int| 0 <= k < files.len() implies normal.contains(
                    #[trigger] files[k],
                ) || pool.contains(files[k]) by {
                    let j = if files == tail {
                        k
                    } else {
                        k - 1
                    };
                    if files != tail && k == 0 {
                        assert(normal[0] == file);
                        if found {
                            assert(pool[position->0] == files[0]);
                        }
                    } else {
                        assert(files[k] == tail[j]);
                        if rest.contains(tail[j]) {
                            let m = choose|m: int| 0 <= m < rest.len() && rest[m] == tail[j];
                            assert(normal[m + 1] == tail[j]);
                        } else {
                            let m = choose|m: int| 0 <= m < left.len() && left[m] == tail[j];
                            assert(left[m] == tail[j]);
                            if found && m >= position->0 {
                                assert(pool[m + 1] == tail[j]);
                            } else {
                                assert(pool[m] == tail[j]);
                            }
                        }
                    }
                }
            }
        }
    }
}

/// A file whose white space counts is kept as the normal variant has it.
pub proof fn law_selection_keeps_other_files(
    policy: WhitespaceAutoPolicy,
    normal: Seq<DiffFile>,
    pool: Seq<DiffFile>,
    k: int,
)
    requires
        0 <= k < normal.len(),
        !policy.ignores(normal[k]),
    ensures
        selection(policy, normal, pool) matches Ok(files) ==> files.contains(normal[k]),
    decreases normal.len(),
{
    let file = normal[0];
    let rest = normal.drop_first();
    let position = position_of(pool, file_identity(file), 0);
    let found = policy.ignores(file) && position is Some;
    let left = if found {
        pool.remove(position->0)
    } else {
        pool
    };
    if let Ok(files) = selection(policy, normal, pool) {
        if let Ok(tail) = selection(policy, rest, left) {
            if k == 0 {
                assert(files[0] == normal[0]);
            } else {
                law_selection_keeps_other_files(policy, rest, left, k - 1);
                assert(rest[k - 1] == normal[k]);
                let m = choose|m: int| 0 <= m < tail.len() && tail[m] == normal[k];
                if files == tail {
                    assert(files[m] == normal[k]);
                } else {
                    assert(files[m + 1] == normal[k]);
                }
            }
        }
    }
}

/// A record without text to compare is kept as the normal variant has it, where the ignored
/// variant does not have it.
pub proof fn law_selection_keeps_metadata(
    policy: WhitespaceAutoPolicy,
    normal: Seq<DiffFile>,
    pool: Seq<DiffFile>,
    k: int,
)
    requires
        0 <= k < normal.len(),
        is_metadata_only(normal[k]),
        forall|i: int|
            0 <= i < pool.len() ==> file_identity(#[trigger] pool[i]) != file_identity(normal[k]),
    ensures
        selection(policy, normal, pool) matches Ok(files) ==> files.contains(normal[k]),
    decreases normal.len(),
{
    let file = normal[0];
    let rest = normal.drop_first();
    let position = position_of(pool, file_identity(file), 0);
    let found = policy.ignores(file) && position is Some;
    let left = if found {
        pool.remove(position->0)
    } else {
        pool
    };
    lemma_position_of(pool, file_identity(file), 0);
    if let Ok(files) = selection(policy, normal, pool) {
        if let Ok(tail) = selection(policy, rest, left) {
            if k == 0 {
                assert(files[0] == normal[0]);
            } else {
                lemma_left_without(pool, position, found, file_identity(normal[k]));
                assert(rest[k - 1] == normal[k]);
                law_selection_keeps_metadata(policy, rest, left, k - 1);
                let m = choose|m: int| 0 <= m < tail.len() && tail[m] == normal[k];
                if files == tail {
                    assert(files[m] == normal[k]);
                } else {
                    assert(files[m + 1] == normal[k]);
                }
            }
        }
    }
}

/// A changed file that is neither modified nor without text is refused, where its white space is
/// ignored and the ignored variant does not have it.
pub proof fn law_unmatched_files_are_refused(
    policy: WhitespaceAutoPolicy,
    normal: Seq<DiffFile>,
    pool: Seq<DiffFile>,
    k: int,
)
    requires
        0 <= k < normal.len(),
        policy.ignores(normal[k]),
        !is_metadata_only(normal[k]),
        !is_whitespace_only(normal[k]),
        forall|i: int|
            0 <= i < pool.len() ==> file_identity(#[trigger] pool[i]) != file_identity(normal[k]),
    ensures
        selection(policy, normal, pool) is Err,
    decreases normal.len(),
{
    let file = normal[0];
    let rest = normal.drop_first();
    let position = position_of(pool, file_identity(file), 0);
    let found = policy.ignores(file) && position is Some;
    let left = if found {
        pool.remove(position->0)
    } else {
        pool
    };
    lemma_position_of(pool, file_identity(file), 0);
    if k > 0 {
        lemma_left_without(pool, position, found, file_identity(normal[k]));
        assert(rest[k - 1] == normal[k]);
        law_unmatched_files_are_refused(policy, rest, left, k - 1);
    }
}

proof fn lemma_left_without(
    pool: Seq<DiffFile>,
    position: Option<int>,
    found: bool,
    identity: FileIdentity,
)
    requires
        found ==> (position matches Some(p) && 0 <= p < pool.len()),
        forall|i: int| 0 <= i < pool.len() ==> file_identity(#[trigger] pool[i]) != identity,
    ensures
        ({
            let left = if found {
                pool.remove(position->0)
            } else {
                pool
            };
            forall|i: int| 0 <= i < left.len() ==> file_identity(#[trigger] left[i]) != identity
        }),
{
    if found {
        let p = position->0;
        let left = pool.remove(p);
        assert forall|i: int| 0 <= i < left.len() implies file_identity(#[trigger] left[i])
            != identity by {
            assert(left[i] == if i < p {
                pool[i]
            } else {
                pool[i + 1]
            });
        }
    }
}

/// A policy that ignores no file of the normal variant selects that variant as it stands.
pub proof fn law_selection_without_ignored_files(
    policy: WhitespaceAutoPolicy,
    normal: Seq<DiffFile>,
    pool: Seq<DiffFile>,
)
    requires
        forall|k: int| 0 <= k < normal.len() ==> !policy.ignores(#[trigger] normal[k]),
    ensures
        selection(policy, normal, pool) == Ok::<Seq<DiffFile>, ErrorView>(normal),
    decreases normal.len(),
{
    if normal.len() > 0 {
        let rest = normal.drop_first();
        assert forall|k: int| 0 <= k < rest.len() implies !policy.ignores(#[trigger] rest[k]) by {
            assert(rest[k] == normal[k + 1]);
        }
        law_selection_without_ignored_files(policy, rest, pool);
        assert(seq![normal[0]] + rest == normal);
    } else {
        assert(normal == Seq::<DiffFile>::empty());
    }
}

/// Whether no two records have one identity.
pub open spec fn all_distinct(files: Seq<DiffFile>) -> bool {
    forall|i: int, j: int|
        0 <= j < i < files.len() ==> file_identity(#[trigger] files[i]) != file_identity(
            #[trigger] files[j],
        )
}

/// A file whose white space is ignored takes the record of the ignored variant, where that
/// variant has one.
pub proof fn law_selection_takes_ignored_record(
    policy: WhitespaceAutoPolicy,
    normal: Seq<DiffFile>,
    pool: Seq<DiffFile>,
    k: int,
    i: int,
)
    requires
        all_distinct(normal),
        all_distinct(pool),
        0 <= k < normal.len(),
        policy.ignores(normal[k]),
        0 <= i < pool.len(),
        file_identity(pool[i]) == file_identity(normal[k]),
    ensures
        selection(policy, normal, pool) matches Ok(files) ==> files.contains(pool[i]),
    decreases normal.len(),
{
    let file = normal[0];
    let rest = normal.drop_first();
    let position = position_of(pool, file_identity(file), 0);
    let found = policy.ignores(file) && position is Some;
    let left = if found {
        pool.remove(position->0)
    } else {
        pool
    };
    lemma_position_of(pool, file_identity(file), 0);
    if let Ok(files) = selection(policy, normal, pool) {
        if let Ok(tail) = selection(policy, rest, left) {
            if k == 0 {
                let p = position->0;
                assert(found);
                assert(p == i) by {
                    if p < i {
                        assert(file_identity(pool[i]) != file_identity(pool[p]));
                    } else if i < p {
                        assert(file_identity(pool[p]) != file_identity(pool[i]));
                    }
                }
                assert(files[0] == pool[i]);
            } else {
                assert(rest[k - 1] == normal[k]);
                assert(all_distinct(rest)) by {
                    assert forall|a: int, b: int| 0 <= b < a < rest.len() implies file_identity(
                        #[trigger] rest[a],
                    ) != file_identity(#[trigger] rest[b]) by {
                        assert(rest[a] == normal[a + 1]);
                        assert(rest[b] == normal[b + 1]);
                    }
                }
                let m: int = if found && i > position->0 {
                    i - 1
                } else {
                    i
                };
                if found {
                    let p = position->0;
                    assert(file_identity(normal[k]) != file_identity(normal[0]));
                    assert(p != i);
                    assert forall|a: int, b: int| 0 <= b < a < left.len() implies file_identity(
                        #[trigger] left[a],
                    ) != file_identity(#[trigger] left[b]) by {
                        let x: int = if a >= p {
                            a + 1
                        } else {
                            a
                        };
                        let y: int = if b >= p {
                            b + 1
                        } else {
                            b
                        };
                        assert(left[a] == pool[x]);
                        assert(left[b] == pool[y]);
                    }
                }
                assert(left[m] == pool[i]);
                law_selection_takes_ignored_record(policy, rest, left, k - 1, m);
                let t = choose|t: int| 0 <= t < tail.len() && tail[t] == pool[i];
                if files == tail {
                    assert(files[t] == pool[i]);
                } else {
                    assert(files[t + 1] == pool[i]);
                }
            }
        }
    }
}

/// A modified file whose white space is ignored is left out where the ignored variant does not
/// have it: only its white space changed.
pub proof fn law_selection_omits_whitespace_changes(
    policy: WhitespaceAutoPolicy,
    normal: Seq<DiffFile>,
    pool: Seq<DiffFile>,
    k: int,
)
    requires
        all_distinct(normal),
        0 <= k < normal.len(),
        policy.ignores(normal[k]),
        is_whitespace_only(normal[k]),
        !is_metadata_only(normal[k]),
        forall|i: int|
            0 <= i < pool.len() ==> file_identity(#[trigger] pool[i]) != file_identity(normal[k]),
    ensures
        selection(policy, normal, pool) matches Ok(files) ==> forall|t: int|
            0 <= t < files.len() ==> file_identity(#[trigger] files[t]) != file_identity(normal[k]),
{
    lemma_selection_without(policy, normal, pool, file_identity(normal[k]));
}

proof fn lemma_selection_without(
    policy: WhitespaceAutoPolicy,
    normal: Seq<DiffFile>,
    pool: Seq<DiffFile>,
    identity: FileIdentity,
)
    requires
        forall|i: int| 0 <= i < pool.len() ==> file_identity(#[trigger] pool[i]) != identity,
        forall|i: int|
            0 <= i < normal.len() && file_identity(#[trigger] normal[i]) == identity
                ==> policy.ignores(normal[i]) && is_whitespace_only(normal[i])
                && !is_metadata_only(normal[i]),
    ensures
        selection(policy, normal, pool) matches Ok(files) ==> forall|t: int|
            0 <= t < files.len() ==> file_identity(#[trigger] files[t]) != identity,
    decreases normal.len(),
{
    if normal.len() > 0 {
        let file = normal[0];
        let rest = normal.drop_first();
        let position = position_of(pool, file_identity(file), 0);
        let found = policy.ignores(file) && position is Some;
        let left = if found {
            pool.remove(position->0)
        } else {
            pool
        };
        lemma_position_of(pool, file_identity(file), 0);
        lemma_left_without(pool, position, found, identity);
        assert forall|i: int|
            0 <= i < rest.len() && file_identity(#[trigger] rest[i]) == identity implies policy.ignores(
            rest[i],
        ) && is_whitespace_only(rest[i]) && !is_metadata_only(rest[i]) by {
            assert(rest[i] == normal[i + 1]);
        }
        lemma_selection_without(policy, rest, left, identity);
        if let Ok(files) = selection(policy, normal, pool) {
            if let Ok(tail) = selection(policy, rest, left) {
                assert forall|t: int| 0 <= t < files.len() implies file_identity(
                    #[trigger] files[t],
                ) != identity by {
                    if files == tail {
                    } else if t > 0 {
                        assert(files[t] == tail[t - 1]);
                    }
                }
            }
        }
    }
}

/// An ignored variant is refused exactly where two of its records have one identity.
pub proof fn law_duplicates_are_refused(files: Seq<DiffFile>)
    ensures
        first_duplicate(files, 0) is Some <==> exists|i: int, j: int|
            0 <= j < i < files.len() && file_identity(#[trigger] files[i]) == file_identity(
                #[trigger] files[j],
            ),
{
    lemma_first_duplicate(files, 0);
}

proof fn lemma_first_duplicate(files: Seq<DiffFile>, start: int)
    requires
        0 <= start,
    ensures
        first_duplicate(files, start) is Some <==> exists|i: int, j: int|
            start <= i && 0 <= j < i < files.len() && file_identity(#[trigger] files[i])
                == file_identity(#[trigger] files[j]),
    decreases files.len() - start,
{
    if start < files.len() {
        lemma_first_duplicate(files, start + 1);
        let before = files.take(start);
        let identity = file_identity(files[start]);
        lemma_position_of(before, identity, 0);
        match position_of(before, identity, 0) {
            Some(j) => {
                assert(before[j] == files[j]);
            },
            None => {
                assert forall|j: int| 0 <= j < start implies file_identity(#[trigger] files[j])
                    != identity by {
                    assert(before[j] == files[j]);
                }
            },
        }
    }
}

} // verus!
