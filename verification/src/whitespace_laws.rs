//! What auto mode shows: which files are compared without white space, and which record stands for
//! each of them.

use vstd::prelude::*;
use crate::error::{ErrorView, TuicrError};
use crate::loader::Load;
use crate::model;
use crate::model::{DiffFile, FileStatus};
use crate::paths;
use crate::text;
use crate::text_laws;
use crate::whitespace;
use crate::whitespace::{DiffWhitespaceMode, WhitespaceAutoPolicy};

verus! {

/// Whether `small` is a text with each ASCII capital turned into the small letter at its place in
/// the alphabet.
pub open spec fn is_small(s: Seq<char>, small: Seq<char>) -> bool {
    &&& small.len() == s.len()
    &&& forall|k: int| 0 <= k < s.len() ==> is_small_letter(s[k], #[trigger] small[k])
}

/// Whether `small` is the small letter of a capital, or any other character itself.
pub open spec fn is_small_letter(c: char, small: char) -> bool {
    let capitals = "ABCDEFGHIJKLMNOPQRSTUVWXYZ"@;
    if capitals.contains(c) {
        exists|i: int|
            0 <= i < capitals.len() && #[trigger] capitals[i] == c && small
                == "abcdefghijklmnopqrstuvwxyz"@[i]
    } else {
        small == c
    }
}

proof fn lemma_small(s: Seq<char>, small: Seq<char>)
    ensures
        is_small(s, small) == (small == text::lowered(s)),
{
    reveal_strlit("ABCDEFGHIJKLMNOPQRSTUVWXYZ");
    reveal_strlit("abcdefghijklmnopqrstuvwxyz");
    let capitals = "ABCDEFGHIJKLMNOPQRSTUVWXYZ"@;
    let lower = text::lowered(s);
    assert forall|k: int, c: char| 0 <= k < s.len() implies #[trigger] is_small_letter(s[k], c)
        == (c == lower[k]) by {
        text_laws::law_capitals_become_small_letters(s, k);
        if capitals.contains(s[k]) {
            let i = choose|i: int| 0 <= i < capitals.len() && capitals[i] == s[k];
            assert(lower[k] == "abcdefghijklmnopqrstuvwxyz"@[i]);
        }
    }
    if is_small(s, small) {
        assert(small =~= lower);
    }
    if small == lower {
        assert forall|k: int| 0 <= k < s.len() implies is_small_letter(s[k], #[trigger] small[k]) by {
            assert(small[k] == lower[k]);
        }
    }
}

/// Whether override `j` is the last one for an extension.
pub open spec fn has_last_word(overrides: Seq<(String, bool)>, ext: Seq<char>, j: int) -> bool {
    &&& 0 <= j < overrides.len()
    &&& overrides[j].0@ == ext
    &&& forall|m: int| j < m < overrides.len() ==> (#[trigger] overrides[m]).0@ != ext
}

/// Whether a policy ignores white space in files with an extension: the last override for it says
/// so, or there is none and the table lists it.
pub open spec fn is_ignored_extension(policy: WhitespaceAutoPolicy, ext: Seq<char>) -> bool {
    let overrides = policy.overrides@;
    ||| exists|j: int| #[trigger] has_last_word(overrides, ext, j) && overrides[j].1
    ||| (forall|m: int| 0 <= m < overrides.len() ==> (#[trigger] overrides[m]).0@ != ext)
        && exists|i: int| 0 <= i < policy.ignored@.len() && (#[trigger] policy.ignored@[i])@ == ext
}

proof fn lemma_override(overrides: Seq<(String, bool)>, ext: Seq<char>)
    ensures
        match whitespace::override_for(overrides, ext) {
            Some(choice) => exists|j: int| #[trigger]
                has_last_word(overrides, ext, j) && overrides[j].1 == choice,
            None => forall|m: int| 0 <= m < overrides.len() ==> (#[trigger] overrides[m]).0@ != ext,
        },
    decreases overrides.len(),
{
    if overrides.len() > 0 {
        let rest = overrides.drop_last();
        let n = overrides.len() - 1;
        assert(overrides[n] == overrides.last());
        if overrides.last().0@ == ext {
            assert(has_last_word(overrides, ext, n));
        } else {
            lemma_override(rest, ext);
            match whitespace::override_for(overrides, ext) {
                Some(choice) => {
                    let j = choose|j: int| #[trigger]
                        has_last_word(rest, ext, j) && rest[j].1 == choice;
                    assert(rest[j] == overrides[j]);
                    assert forall|m: int| j < m < overrides.len() implies (#[trigger] overrides[m]).0@
                        != ext by {
                        if m < n {
                            assert(rest[m] == overrides[m]);
                        }
                    }
                    assert(has_last_word(overrides, ext, j));
                },
                None => {
                    assert forall|m: int| 0 <= m < overrides.len() implies (#[trigger] overrides[m]).0@
                        != ext by {
                        if m < n {
                            assert(rest[m] == overrides[m]);
                        }
                    }
                },
            }
        }
    }
}

/// An extension is ignored as the last override for it says, and where there is none, as the table
/// says.
pub proof fn law_last_override_decides(policy: WhitespaceAutoPolicy, ext: Seq<char>)
    ensures
        policy.ignores_extension(ext) == is_ignored_extension(policy, ext),
{
    let overrides = policy.overrides@;
    let table = text::views(policy.ignored@);
    lemma_override(overrides, ext);
    if table.contains(ext) {
        let i = choose|i: int| 0 <= i < table.len() && table[i] == ext;
        assert(policy.ignored@[i]@ == ext);
    }
    if exists|i: int| 0 <= i < policy.ignored@.len() && (#[trigger] policy.ignored@[i])@ == ext {
        let i = choose|i: int|
            0 <= i < policy.ignored@.len() && (#[trigger] policy.ignored@[i])@ == ext;
        assert(table[i] == ext);
    }
    if let Some(choice) = whitespace::override_for(overrides, ext) {
        let j = choose|j: int| #[trigger]
            has_last_word(overrides, ext, j) && overrides[j].1 == choice;
        assert(overrides[j].0@ == ext);
        assert forall|k: int| #[trigger] has_last_word(overrides, ext, k) implies k == j by {
            if k < j {
                assert(overrides[j].0@ != ext);
            } else if j < k {
                assert(overrides[k].0@ != ext);
            }
        }
    }
}

/// The path that a file is shown under.
pub open spec fn path_of(file: DiffFile) -> Option<Seq<char>> {
    match (file.new_path, file.old_path) {
        (Some(path), _) => Some(path@),
        (None, Some(path)) => Some(path@),
        (None, None) => None,
    }
}

/// Whether a file is compared without regard to white space: the extension of its path, in small
/// letters, is one that the policy ignores.
pub open spec fn is_blind(policy: WhitespaceAutoPolicy, file: DiffFile) -> bool {
    path_of(file) matches Some(path) && exists|ext: Seq<char>, small: Seq<char>| #[trigger]
        text_laws::is_extension(path, ext) && #[trigger] is_small(ext, small)
            && is_ignored_extension(policy, small)
}

/// The policy goes by the extension of the path that a file is shown under.
pub proof fn law_policy_goes_by_extension(policy: WhitespaceAutoPolicy, file: DiffFile)
    ensures
        policy.ignores(file) == is_blind(policy, file),
{
    if let Some(path) = path_of(file) {
        text_laws::law_extension_follows_the_last_dot(path);
        if let Some(ext) = paths::extension(path) {
            let small = text::lowered(ext);
            lemma_small(ext, small);
            law_last_override_decides(policy, small);
            assert(text_laws::is_extension(path, ext));
        }
        if is_blind(policy, file) {
            let (ext, small) = choose|ext: Seq<char>, small: Seq<char>| #[trigger]
                text_laws::is_extension(path, ext) && #[trigger] is_small(ext, small)
                    && is_ignored_extension(policy, small);
            assert(paths::extension(path) == Some(ext));
            lemma_small(ext, small);
            law_last_override_decides(policy, small);
        }
    }
}

/// The extension that changes are compared by is that of the new path, or else of the old one, in
/// small letters.
pub proof fn law_compared_extension_is_small(
    old_path: Option<Seq<char>>,
    new_path: Option<Seq<char>>,
    small: Seq<char>,
)
    ensures
        (whitespace::compared_extension(old_path, new_path) == Some(small)) == (match (
            new_path,
            old_path,
        ) {
            (Some(path), _) => exists|ext: Seq<char>| #[trigger]
                text_laws::is_extension(path, ext) && is_small(ext, small),
            (None, Some(path)) => exists|ext: Seq<char>| #[trigger]
                text_laws::is_extension(path, ext) && is_small(ext, small),
            (None, None) => false,
        }),
{
    if new_path is Some || old_path is Some {
        let path = if new_path is Some {
            new_path->0
        } else {
            old_path->0
        };
        text_laws::law_extension_follows_the_last_dot(path);
        if let Some(ext) = paths::extension(path) {
            assert(text_laws::is_extension(path, ext));
            lemma_small(ext, small);
        }
        if exists|ext: Seq<char>| #[trigger]
            text_laws::is_extension(path, ext) && is_small(ext, small) {
            let ext = choose|ext: Seq<char>| #[trigger]
                text_laws::is_extension(path, ext) && is_small(ext, small);
            assert(paths::extension(path) == Some(ext));
            lemma_small(ext, small);
        }
    }
}

/// Whether two paths that may be missing name one place.
pub open spec fn is_same_optional(a: Option<String>, b: Option<String>) -> bool {
    match (a, b) {
        (Some(left), Some(right)) => text_laws::is_same_place(left@, right@),
        (None, None) => true,
        _ => false,
    }
}

/// Whether two records are of one file: they have the same old path, new path and status.
pub open spec fn is_same_record(a: DiffFile, b: DiffFile) -> bool {
    &&& a.status == b.status
    &&& is_same_optional(a.old_path, b.old_path)
    &&& is_same_optional(a.new_path, b.new_path)
}

/// Records are told apart by old path, new path and status.
pub proof fn law_records_are_told_apart(a: DiffFile, b: DiffFile)
    ensures
        (whitespace::file_identity(a) == whitespace::file_identity(b)) == is_same_record(a, b),
{
    if a.old_path is Some && b.old_path is Some {
        text_laws::law_paths_are_told_apart(a.old_path->0@, b.old_path->0@);
    }
    if a.new_path is Some && b.new_path is Some {
        text_laws::law_paths_are_told_apart(a.new_path->0@, b.new_path->0@);
    }
}

proof fn lemma_same_record_ignored(policy: WhitespaceAutoPolicy, a: DiffFile, b: DiffFile)
    requires
        whitespace::file_identity(a) == whitespace::file_identity(b),
    ensures
        policy.ignores(a) == policy.ignores(b),
{
    let of_a = model::shown_path(text::opt_view(a.old_path), text::opt_view(a.new_path));
    let of_b = model::shown_path(text::opt_view(b.old_path), text::opt_view(b.new_path));
    if a.new_path is Some {
        assert(whitespace::optional_parts(a.new_path) == whitespace::optional_parts(b.new_path));
    } else if a.old_path is Some {
        assert(whitespace::optional_parts(a.old_path) == whitespace::optional_parts(b.old_path));
    }
    if of_a is Some && of_b is Some {
        assert(paths::path_parts(of_a->0) == paths::path_parts(of_b->0));
    }
}

/// Whether a record has text that can be compared.
pub open spec fn has_text(file: DiffFile) -> bool {
    !file.is_binary && !file.is_too_large && !file.is_commit_message && file.hunks@.len() > 0
}

/// Whether record `i` of the ignored variant stands for record `k` of the normal one: they are of
/// one file, and no earlier record of the normal variant is.
pub open spec fn stands_for(
    normal: Seq<DiffFile>,
    ignored: Seq<DiffFile>,
    k: int,
    i: int,
) -> bool {
    &&& 0 <= i < ignored.len()
    &&& is_same_record(ignored[i], normal[k])
    &&& forall|j: int| 0 <= j < k ==> !is_same_record(#[trigger] normal[j], normal[k])
}

/// Whether a record of the ignored variant stands for record `k` of the normal one.
pub open spec fn has_stand_in(normal: Seq<DiffFile>, ignored: Seq<DiffFile>, k: int) -> bool {
    exists|i: int| #[trigger] stands_for(normal, ignored, k, i)
}

/// Whether record `k` of the normal variant cannot be selected: its white space is ignored, it has
/// text, nothing stands for it, and it was not modified but added, deleted, renamed or copied.
pub open spec fn is_refused(
    policy: WhitespaceAutoPolicy,
    normal: Seq<DiffFile>,
    ignored: Seq<DiffFile>,
    k: int,
) -> bool {
    &&& is_blind(policy, normal[k])
    &&& !has_stand_in(normal, ignored, k)
    &&& has_text(normal[k])
    &&& normal[k].status != FileStatus::Modified
}

/// Whether `part` is what is shown for record `k` of the normal variant: the record itself where its
/// white space counts, what stands for it where something does, the record itself where it has no
/// text, and nothing where it was modified: then only its white space was.
pub open spec fn is_shown_for(
    policy: WhitespaceAutoPolicy,
    normal: Seq<DiffFile>,
    ignored: Seq<DiffFile>,
    k: int,
    part: Seq<DiffFile>,
) -> bool {
    if !is_blind(policy, normal[k]) {
        part == seq![normal[k]]
    } else if has_stand_in(normal, ignored, k) {
        exists|i: int| #[trigger] stands_for(normal, ignored, k, i) && part == seq![ignored[i]]
    } else if !has_text(normal[k]) {
        part == seq![normal[k]]
    } else {
        part == Seq::<DiffFile>::empty() && normal[k].status == FileStatus::Modified
    }
}

/// Parts one after the other.
pub open spec fn in_a_row(parts: Seq<Seq<DiffFile>>) -> Seq<DiffFile>
    decreases parts.len(),
{
    if parts.len() == 0 {
        Seq::empty()
    } else {
        parts[0] + in_a_row(parts.drop_first())
    }
}

/// Whether no two records are of one file.
pub open spec fn are_distinct(files: Seq<DiffFile>) -> bool {
    forall|i: int, j: int|
        0 <= j < i < files.len() ==> !is_same_record(#[trigger] files[j], #[trigger] files[i])
}

/// The path and status of a record, in words.
pub open spec fn in_words(file: DiffFile) -> Seq<char> {
    (match path_of(file) {
        Some(path) => path,
        None => "<unknown>"@,
    }) + " ("@ + seq![
        (match file.status {
            FileStatus::Added => 'A',
            FileStatus::Modified => 'M',
            FileStatus::Deleted => 'D',
            FileStatus::Renamed => 'R',
            FileStatus::Copied => 'C',
        }),
    ] + ")"@
}

/// Whether `outcome` is what auto mode selects: what is shown for each record of the normal
/// variant, in order, or an error that names the first record that cannot be selected.
pub open spec fn is_selected(
    policy: WhitespaceAutoPolicy,
    normal: Seq<DiffFile>,
    ignored: Seq<DiffFile>,
    outcome: Result<Seq<DiffFile>, ErrorView>,
) -> bool {
    match outcome {
        Ok(files) => exists|parts: Seq<Seq<DiffFile>>| #[trigger]
            in_a_row(parts) == files && parts.len() == normal.len() && forall|k: int|
                0 <= k < normal.len() ==> is_shown_for(
                    policy,
                    normal,
                    ignored,
                    k,
                    #[trigger] parts[k],
                ),
        Err(error) => exists|k: int|
            0 <= k < normal.len() && #[trigger] is_refused(policy, normal, ignored, k) && (forall|
                j: int,
            |
                0 <= j < k ==> !#[trigger] is_refused(policy, normal, ignored, j)) && error
                == ErrorView::VcsCommand(
                "auto whitespace selection could not match "@ + in_words(normal[k]),
            ),
    }
}

/// Whether `pool` is what is left of the ignored variant once the first `n` records of the normal
/// variant have been looked at.
spec fn is_left(
    policy: WhitespaceAutoPolicy,
    normal: Seq<DiffFile>,
    ignored: Seq<DiffFile>,
    n: int,
    pool: Seq<DiffFile>,
) -> bool {
    &&& whitespace::all_distinct(pool)
    &&& forall|r: DiffFile| #[trigger]
        pool.contains(r) <==> ignored.contains(r) && forall|j: int|
            0 <= j < n && policy.ignores(#[trigger] normal[j]) ==> whitespace::file_identity(
                normal[j],
            ) != whitespace::file_identity(r)
}

proof fn lemma_next_left(
    policy: WhitespaceAutoPolicy,
    normal: Seq<DiffFile>,
    ignored: Seq<DiffFile>,
    n: int,
    pool: Seq<DiffFile>,
)
    requires
        0 <= n < normal.len(),
        is_left(policy, normal, ignored, n, pool),
    ensures
        ({
            let position = whitespace::position_of(pool, whitespace::file_identity(normal[n]), 0);
            is_left(
                policy,
                normal,
                ignored,
                n + 1,
                if policy.ignores(normal[n]) && position is Some {
                    pool.remove(position->0)
                } else {
                    pool
                },
            )
        }),
{
    let file = normal[n];
    let identity = whitespace::file_identity(file);
    let position = whitespace::position_of(pool, identity, 0);
    whitespace::lemma_position_of(pool, identity, 0);
    let found = policy.ignores(file) && position is Some;
    let left = if found {
        pool.remove(position->0)
    } else {
        pool
    };
    assert forall|r: DiffFile| #[trigger] left.contains(r) <==> pool.contains(r) && (policy.ignores(file)
        ==> identity != whitespace::file_identity(r)) by {
        if found {
            let p = position->0;
            if left.contains(r) {
                let m = choose|m: int| 0 <= m < left.len() && left[m] == r;
                let x: int = if m >= p {
                    m + 1
                } else {
                    m
                };
                assert(pool[x] == r);
                if x < p {
                    assert(whitespace::file_identity(pool[p]) != whitespace::file_identity(
                        pool[x],
                    ));
                } else {
                    assert(whitespace::file_identity(pool[x]) != whitespace::file_identity(
                        pool[p],
                    ));
                }
            }
            if pool.contains(r) && identity != whitespace::file_identity(r) {
                let x = choose|x: int| 0 <= x < pool.len() && pool[x] == r;
                assert(x != p);
                let m: int = if x > p {
                    x - 1
                } else {
                    x
                };
                assert(left[m] == r);
            }
        } else if policy.ignores(file) && pool.contains(r) {
            let x = choose|x: int| 0 <= x < pool.len() && pool[x] == r;
            assert(whitespace::file_identity(pool[x]) != identity);
        }
    }
    assert(whitespace::all_distinct(left)) by {
        if found {
            let p = position->0;
            assert forall|a: int, b: int| 0 <= b < a < left.len() implies whitespace::file_identity(
                #[trigger] left[a],
            ) != whitespace::file_identity(#[trigger] left[b]) by {
                let x: int = if a >= p {
                    a + 1
                } else {
                    a
                };
                let y: int = if b >= p {
                    b + 1
                } else {
                    b
                };
                assert(left[a] == pool[x]);
                assert(left[b] == pool[y]);
            }
        }
    }
    assert forall|r: DiffFile| #[trigger] left.contains(r) <==> ignored.contains(r) && (forall|j: int|
        0 <= j < n + 1 && policy.ignores(#[trigger] normal[j]) ==> whitespace::file_identity(
            normal[j],
        ) != whitespace::file_identity(r)) by {
        assert(pool.contains(r) <==> ignored.contains(r) && (forall|j: int|
            0 <= j < n && policy.ignores(#[trigger] normal[j]) ==> whitespace::file_identity(
                normal[j],
            ) != whitespace::file_identity(r)));
        if left.contains(r) {
            assert forall|j: int| 0 <= j < n + 1 && policy.ignores(#[trigger] normal[j]) implies whitespace::file_identity(
                normal[j],
            ) != whitespace::file_identity(r) by {
                if j < n {
                }
            }
        }
        if ignored.contains(r) && (forall|j: int|
            0 <= j < n + 1 && policy.ignores(#[trigger] normal[j]) ==> whitespace::file_identity(
                normal[j],
            ) != whitespace::file_identity(r)) {
            assert(policy.ignores(normal[n]) ==> identity != whitespace::file_identity(r));
        }
    }
}

/// What the pool holds for a record is what stands for it.
proof fn lemma_stand_in(
    policy: WhitespaceAutoPolicy,
    normal: Seq<DiffFile>,
    ignored: Seq<DiffFile>,
    n: int,
    pool: Seq<DiffFile>,
)
    requires
        0 <= n < normal.len(),
        whitespace::all_distinct(ignored),
        is_left(policy, normal, ignored, n, pool),
        policy.ignores(normal[n]),
    ensures
        match whitespace::position_of(pool, whitespace::file_identity(normal[n]), 0) {
            Some(p) => exists|i: int| #[trigger]
                stands_for(normal, ignored, n, i) && pool[p] == ignored[i],
            None => !has_stand_in(normal, ignored, n),
        },
{
    let file = normal[n];
    let identity = whitespace::file_identity(file);
    whitespace::lemma_position_of(pool, identity, 0);
    match whitespace::position_of(pool, identity, 0) {
        Some(p) => {
            let r = pool[p];
            assert(pool.contains(r));
            let i = choose|i: int| 0 <= i < ignored.len() && ignored[i] == r;
            law_records_are_told_apart(ignored[i], file);
            assert forall|j: int| 0 <= j < n implies !is_same_record(#[trigger] normal[j], file) by {
                law_records_are_told_apart(normal[j], file);
                if is_same_record(normal[j], file) {
                    lemma_same_record_ignored(policy, normal[j], file);
                }
            }
            assert(stands_for(normal, ignored, n, i));
        },
        None => {
            if has_stand_in(normal, ignored, n) {
                let i = choose|i: int| #[trigger] stands_for(normal, ignored, n, i);
                let r = ignored[i];
                law_records_are_told_apart(r, file);
                assert(ignored.contains(r));
                assert forall|j: int| 0 <= j < n && policy.ignores(#[trigger] normal[j]) implies whitespace::file_identity(
                    normal[j],
                ) != whitespace::file_identity(r) by {
                    law_records_are_told_apart(normal[j], file);
                    assert(!is_same_record(normal[j], file));
                }
                assert(pool.contains(r));
                let x = choose|x: int| 0 <= x < pool.len() && pool[x] == r;
                assert(whitespace::file_identity(pool[x]) == identity);
            }
        },
    }
}

proof fn lemma_words(file: DiffFile)
    ensures
        whitespace::identity_text(file) == in_words(file),
{
}

proof fn lemma_selection_parts(
    policy: WhitespaceAutoPolicy,
    normal: Seq<DiffFile>,
    ignored: Seq<DiffFile>,
    n: int,
    pool: Seq<DiffFile>,
) -> (parts: Seq<Seq<DiffFile>>)
    requires
        0 <= n <= normal.len(),
        whitespace::all_distinct(ignored),
        is_left(policy, normal, ignored, n, pool),
    ensures
        match whitespace::selection(policy, normal.skip(n), pool) {
            Ok(files) => {
                &&& in_a_row(parts) == files
                &&& parts.len() == normal.len() - n
                &&& forall|k: int|
                    n <= k < normal.len() ==> is_shown_for(
                        policy,
                        normal,
                        ignored,
                        k,
                        #[trigger] parts[k - n],
                    )
                &&& forall|k: int|
                    n <= k < normal.len() ==> !#[trigger] is_refused(policy, normal, ignored, k)
            },
            Err(error) => exists|k: int|
                n <= k < normal.len() && #[trigger] is_refused(policy, normal, ignored, k) && (
                forall|j: int|
                    n <= j < k ==> !#[trigger] is_refused(policy, normal, ignored, j)) && error
                    == ErrorView::VcsCommand(
                    "auto whitespace selection could not match "@ + in_words(normal[k]),
                ),
        },
    decreases normal.len() - n,
{
    let rest = normal.skip(n);
    let result = whitespace::selection(policy, rest, pool);
    if n == normal.len() {
        let parts = Seq::<Seq<DiffFile>>::empty();
        parts
    } else {
        let file = normal[n];
        let position = whitespace::position_of(pool, whitespace::file_identity(file), 0);
        let found = policy.ignores(file) && position is Some;
        let left = if found {
            pool.remove(position->0)
        } else {
            pool
        };
        assert(rest[0] == file);
        assert(rest.drop_first() =~= normal.skip(n + 1));
        law_policy_goes_by_extension(policy, file);
        lemma_next_left(policy, normal, ignored, n, pool);
        if policy.ignores(file) {
            lemma_stand_in(policy, normal, ignored, n, pool);
        }
        lemma_words(file);
        let part = if !policy.ignores(file) {
            seq![file]
        } else if position is Some {
            seq![pool[position->0]]
        } else if whitespace::is_metadata_only(file) {
            seq![file]
        } else {
            Seq::empty()
        };
        let refused = policy.ignores(file) && position is None && !whitespace::is_metadata_only(file)
            && !whitespace::is_whitespace_only(file);
        assert(refused == is_refused(policy, normal, ignored, n));
        assert(!refused ==> is_shown_for(policy, normal, ignored, n, part));
        if refused {
            assert(result is Err);
            Seq::empty()
        } else {
            let others = lemma_selection_parts(policy, normal, ignored, n + 1, left);
            let parts = seq![part] + others;
            let tail = whitespace::selection(policy, normal.skip(n + 1), left);
            assert(parts.drop_first() =~= others);
            match tail {
                Ok(files) => {
                    assert(Seq::<DiffFile>::empty() + files =~= files);
                    assert(result == Ok::<Seq<DiffFile>, ErrorView>(part + files));
                    assert forall|k: int| n <= k < normal.len() implies is_shown_for(
                        policy,
                        normal,
                        ignored,
                        k,
                        #[trigger] parts[k - n],
                    ) by {
                        if k > n {
                            assert(parts[k - n] == others[k - n - 1]);
                            assert(others[k - (n + 1)] == others[k - n - 1]);
                        }
                    }
                },
                Err(error) => {
                    assert(result == Err::<Seq<DiffFile>, ErrorView>(error));
                },
            }
            parts
        }
    }
}

proof fn lemma_distinct(files: Seq<DiffFile>)
    ensures
        whitespace::all_distinct(files) == are_distinct(files),
{
    assert forall|i: int, j: int| 0 <= j < i < files.len() implies (whitespace::file_identity(
        #[trigger] files[i],
    ) != whitespace::file_identity(#[trigger] files[j])) == !is_same_record(files[j], files[i]) by {
        law_records_are_told_apart(files[j], files[i]);
    }
    if whitespace::all_distinct(files) {
        assert(are_distinct(files));
    }
    if are_distinct(files) {
        assert forall|i: int, j: int| 0 <= j < i < files.len() implies whitespace::file_identity(
            #[trigger] files[i],
        ) != whitespace::file_identity(#[trigger] files[j]) by {
            assert(!is_same_record(files[j], files[i]));
        }
    }
}

proof fn lemma_duplicate_at(files: Seq<DiffFile>, start: int)
    requires
        0 <= start,
    ensures
        whitespace::first_duplicate(files, start) matches Some(i) ==> {
            &&& start <= i < files.len()
            &&& exists|j: int| 0 <= j < i && is_same_record(#[trigger] files[j], files[i])
            &&& forall|m: int, j: int|
                start <= m < i && 0 <= j < m ==> !is_same_record(
                    #[trigger] files[j],
                    #[trigger] files[m],
                )
        },
        whitespace::first_duplicate(files, start) is None ==> forall|m: int, j: int|
            start <= m < files.len() && 0 <= j < m ==> !is_same_record(
                #[trigger] files[j],
                #[trigger] files[m],
            ),
    decreases files.len() - start,
{
    if start < files.len() {
        let before = files.take(start);
        let identity = whitespace::file_identity(files[start]);
        whitespace::lemma_position_of(before, identity, 0);
        match whitespace::position_of(before, identity, 0) {
            Some(j) => {
                assert(before[j] == files[j]);
                law_records_are_told_apart(files[j], files[start]);
            },
            None => {
                lemma_duplicate_at(files, start + 1);
                assert forall|j: int| 0 <= j < start implies !is_same_record(
                    #[trigger] files[j],
                    files[start],
                ) by {
                    assert(before[j] == files[j]);
                    law_records_are_told_apart(files[j], files[start]);
                }
            },
        }
    }
}

/// Auto mode decides record by record what is shown; an ignored variant with two records of one
/// file is refused, and the error names the first that repeats an earlier one.
pub proof fn law_auto_mode_selects_record_by_record(
    policy: WhitespaceAutoPolicy,
    normal: Seq<DiffFile>,
    ignored: Seq<DiffFile>,
)
    ensures
        are_distinct(ignored) ==> is_selected(
            policy,
            normal,
            ignored,
            whitespace::auto_selection(policy, normal, ignored),
        ),
        !are_distinct(ignored) ==> exists|i: int|
            0 <= i < ignored.len() && (exists|j: int|
                0 <= j < i && is_same_record(#[trigger] ignored[j], ignored[i])) && are_distinct(
                #[trigger] ignored.take(i),
            ) && whitespace::auto_selection(policy, normal, ignored) == Err::<
                Seq<DiffFile>,
                ErrorView,
            >(
                ErrorView::VcsCommand(
                    "auto whitespace selection found duplicate ignored file "@ + in_words(
                        ignored[i],
                    ),
                ),
            ),
{
    lemma_distinct(ignored);
    lemma_duplicate_at(ignored, 0);
    if are_distinct(ignored) {
        if let Some(i) = whitespace::first_duplicate(ignored, 0) {
            let j = choose|j: int| 0 <= j < i && is_same_record(#[trigger] ignored[j], ignored[i]);
            assert(!is_same_record(ignored[j], ignored[i]));
        }
        assert(is_left(policy, normal, ignored, 0, ignored));
        let parts = lemma_selection_parts(policy, normal, ignored, 0, ignored);
        assert(normal.skip(0) =~= normal);
        if let Ok(files) = whitespace::selection(policy, normal, ignored) {
            assert(in_a_row(parts) == files);
            assert forall|k: int| 0 <= k < normal.len() implies is_shown_for(
                policy,
                normal,
                ignored,
                k,
                #[trigger] parts[k],
            ) by {
                assert(parts[k - 0] == parts[k]);
            }
        }
    } else {
        let i = whitespace::first_duplicate(ignored, 0)->0;
        lemma_words(ignored[i]);
        let before = ignored.take(i);
        assert forall|m: int, j: int| 0 <= j < m < before.len() implies !is_same_record(
            #[trigger] before[j],
            #[trigger] before[m],
        ) by {
            assert(before[j] == ignored[j]);
            assert(before[m] == ignored[m]);
        }
        assert(are_distinct(ignored.take(i)));
    }
}

/// A modified file with at least one hunk of text, whose white space is ignored and of which the
/// ignored variant has no record, does not count at all: the outcome is that without it.
pub proof fn law_whitespace_changes_do_not_count(
    policy: WhitespaceAutoPolicy,
    normal: Seq<DiffFile>,
    ignored: Seq<DiffFile>,
    k: int,
)
    requires
        0 <= k < normal.len(),
        normal[k].status == FileStatus::Modified,
        normal[k].hunks@.len() > 0,
        !normal[k].is_binary,
        !normal[k].is_too_large,
        !normal[k].is_commit_message,
        is_blind(policy, normal[k]),
        forall|i: int| 0 <= i < ignored.len() ==> !is_same_record(#[trigger] ignored[i], normal[k]),
    ensures
        whitespace::auto_selection(policy, normal, ignored) == whitespace::auto_selection(
            policy,
            normal.remove(k),
            ignored,
        ),
        (forall|j: int|
            0 <= j < normal.len() && j != k ==> !is_same_record(#[trigger] normal[j], normal[k]))
            ==> (whitespace::auto_selection(policy, normal, ignored) matches Ok(files) ==> forall|
            t: int,
        |
            0 <= t < files.len() ==> !is_same_record(#[trigger] files[t], normal[k])),
{
    law_policy_goes_by_extension(policy, normal[k]);
    let identity = whitespace::file_identity(normal[k]);
    assert forall|i: int| 0 <= i < ignored.len() implies whitespace::file_identity(
        #[trigger] ignored[i],
    ) != identity by {
        law_records_are_told_apart(ignored[i], normal[k]);
    }
    lemma_without(policy, normal, ignored, k);
    if forall|j: int|
        0 <= j < normal.len() && j != k ==> !is_same_record(#[trigger] normal[j], normal[k]) {
        if let Ok(files) = whitespace::auto_selection(policy, normal, ignored) {
            let others = normal.remove(k);
            whitespace::law_selection_takes_whole_records(policy, others, ignored);
            assert forall|t: int| 0 <= t < files.len() implies !is_same_record(
                #[trigger] files[t],
                normal[k],
            ) by {
                if others.contains(files[t]) {
                    let m = choose|m: int| 0 <= m < others.len() && others[m] == files[t];
                    let j: int = if m >= k {
                        m + 1
                    } else {
                        m
                    };
                    assert(normal[j] == files[t]);
                } else {
                    let i = choose|i: int| 0 <= i < ignored.len() && ignored[i] == files[t];
                    assert(ignored[i] == files[t]);
                }
            }
        }
    }
}

proof fn lemma_without(
    policy: WhitespaceAutoPolicy,
    normal: Seq<DiffFile>,
    pool: Seq<DiffFile>,
    k: int,
)
    requires
        0 <= k < normal.len(),
        normal[k].status == FileStatus::Modified,
        has_text(normal[k]),
        policy.ignores(normal[k]),
        forall|i: int|
            0 <= i < pool.len() ==> whitespace::file_identity(#[trigger] pool[i])
                != whitespace::file_identity(normal[k]),
    ensures
        whitespace::selection(policy, normal, pool) == whitespace::selection(
            policy,
            normal.remove(k),
            pool,
        ),
    decreases normal.len(),
{
    let file = normal[0];
    let rest = normal.drop_first();
    let fewer = normal.remove(k);
    let identity = whitespace::file_identity(file);
    let position = whitespace::position_of(pool, identity, 0);
    whitespace::lemma_position_of(pool, identity, 0);
    if k == 0 {
        assert(fewer =~= rest);
    } else {
        let found = policy.ignores(file) && position is Some;
        let left = if found {
            pool.remove(position->0)
        } else {
            pool
        };
        assert(rest[k - 1] == normal[k]);
        assert forall|i: int| 0 <= i < left.len() implies whitespace::file_identity(
            #[trigger] left[i],
        ) != whitespace::file_identity(normal[k]) by {
            if found {
                let p = position->0;
                assert(left[i] == if i < p {
                    pool[i]
                } else {
                    pool[i + 1]
                });
            }
        }
        lemma_without(policy, rest, left, k - 1);
        assert(fewer[0] == file);
        assert(fewer.drop_first() =~= rest.remove(k - 1));
    }
}

/// The files that a load gave; a report of no changes is a load of none.
pub open spec fn loaded(load: Load) -> Result<Seq<DiffFile>, TuicrError> {
    match load.result {
        Ok(files) => Ok(files@),
        Err(error) => match error {
            TuicrError::NoChanges => Ok(Seq::empty()),
            _ => Err(error),
        },
    }
}

/// The plain modes load their own variant once and return it as it is. Auto mode loads the normal
/// variant first. A failure of it is returned, and without files there are no changes; only then the
/// ignored variant is loaded, whose failure is returned too. The selection of the two is the diff,
/// and an empty one is no change.
pub proof fn law_each_mode_loads_what_it_shows(
    mode: DiffWhitespaceMode,
    loads: Seq<Load>,
    res: Result<Vec<DiffFile>, TuicrError>,
)
    requires
        whitespace::is_diff_of(mode, loads, res),
    ensures
        mode is Normal ==> loads.len() == 1 && loads[0].comparison is Normal && res
            == loads[0].result,
        mode is IgnoreAll ==> loads.len() == 1 && loads[0].comparison is IgnoreAll && res
            == loads[0].result,
        mode matches DiffWhitespaceMode::Auto(policy) ==> {
            &&& loads.len() > 0
            &&& loads[0].comparison is Normal
            &&& match loaded(loads[0]) {
                Err(error) => loads.len() == 1 && res == Err::<Vec<DiffFile>, TuicrError>(error),
                Ok(normal) => if normal.len() == 0 {
                    loads.len() == 1 && (res matches Err(error) && error@ == ErrorView::NoChanges)
                } else {
                    &&& loads.len() == 2
                    &&& loads[1].comparison is IgnoreAll
                    &&& match loaded(loads[1]) {
                        Err(error) => res matches Err(reported) && reported@ == error@,
                        Ok(ignored) => match (
                            res,
                            whitespace::auto_selection(policy, normal, ignored),
                        ) {
                            (Ok(files), Ok(selected)) => files@ == selected && selected.len() > 0,
                            (Err(error), Ok(selected)) => selected.len() == 0 && error@
                                == ErrorView::NoChanges,
                            (Err(error), Err(expected)) => error@ == expected,
                            (Ok(_), Err(_)) => false,
                        },
                    }
                },
            }
        },
{
}

} // verus!
