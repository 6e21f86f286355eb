//! The git backend: a library backend and a command line backend, and the choice between them.

use vstd::prelude::*;
use crate::backend::{VcsBackend, VcsInfo};
use crate::error::TuicrError;
use crate::git;
use crate::git::{
    uses_reftable,
    uses_sha256,
    uses_split_index,
    CommandOutputError,
    GitBackendPreference,
    GitRepoMode,
};
use crate::model::{DiffFile, DiffLine, FileStatus};
use crate::whitespace::DiffWhitespaceMode;

verus! {

/// The git backend: every operation goes to the one backend that was chosen when the repository
/// was discovered.
#[derive(Debug)]
pub enum GitBackend<L, C> {
    Libgit2(L),
    Cli(C),
}

impl<
    L: VcsBackend,
    C: VcsBackend<
        Highlighter = L::Highlighter,
        ChangeStatus = L::ChangeStatus,
        ChangeKind = L::ChangeKind,
        CommitInfo = L::CommitInfo,
        RevisionRange = L::RevisionRange,
    >,
> VcsBackend for GitBackend<L, C> {
    type Highlighter = L::Highlighter;

    type ChangeStatus = L::ChangeStatus;

    type ChangeKind = L::ChangeKind;

    type CommitInfo = L::CommitInfo;

    type RevisionRange = L::RevisionRange;

    fn info(&self) -> (res: &VcsInfo)
        ensures
            match *self {
                GitBackend::Libgit2(backend) => call_ensures(L::info, (&backend,), res),
                GitBackend::Cli(backend) => call_ensures(C::info, (&backend,), res),
            },
    {
        match self {
            GitBackend::Libgit2(backend) => backend.info(),
            GitBackend::Cli(backend) => backend.info(),
        }
    }

    fn startup_warnings(&self) -> (res: Vec<String>)
        ensures
            match *self {
                GitBackend::Libgit2(backend) => call_ensures(
                    L::startup_warnings,
                    (&backend,),
                    res,
                ),
                GitBackend::Cli(backend) => call_ensures(C::startup_warnings, (&backend,), res),
            },
    {
        match self {
            GitBackend::Libgit2(backend) => backend.startup_warnings(),
            GitBackend::Cli(backend) => backend.startup_warnings(),
        }
    }

    fn supports_sparse_checkout(&self) -> (res: bool)
        ensures
            match *self {
                GitBackend::Libgit2(backend) => call_ensures(
                    L::supports_sparse_checkout,
                    (&backend,),
                    res,
                ),
                GitBackend::Cli(backend) => call_ensures(
                    C::supports_sparse_checkout,
                    (&backend,),
                    res,
                ),
            },
    {
        match self {
            GitBackend::Libgit2(backend) => backend.supports_sparse_checkout(),
            GitBackend::Cli(backend) => backend.supports_sparse_checkout(),
        }
    }

    fn get_working_tree_diff(
        &self,
        highlighter: &Self::Highlighter,
    ) -> (res: Result<Vec<DiffFile>, TuicrError>)
        ensures
            match *self {
                GitBackend::Libgit2(backend) => call_ensures(
                    L::get_working_tree_diff,
                    (&backend, highlighter),
                    res,
                ),
                GitBackend::Cli(backend) => call_ensures(
                    C::get_working_tree_diff,
                    (&backend, highlighter),
                    res,
                ),
            },
    {
        match self {
            GitBackend::Libgit2(backend) => backend.get_working_tree_diff(highlighter),
            GitBackend::Cli(backend) => backend.get_working_tree_diff(highlighter),
        }
    }

    fn get_staged_diff(
        &self,
        highlighter: &Self::Highlighter,
    ) -> (res: Result<Vec<DiffFile>, TuicrError>)
        ensures
            match *self {
                GitBackend::Libgit2(backend) => call_ensures(
                    L::get_staged_diff,
                    (&backend, highlighter),
                    res,
                ),
                GitBackend::Cli(backend) => call_ensures(
                    C::get_staged_diff,
                    (&backend, highlighter),
                    res,
                ),
            },
    {
        match self {
            GitBackend::Libgit2(backend) => backend.get_staged_diff(highlighter),
            GitBackend::Cli(backend) => backend.get_staged_diff(highlighter),
        }
    }

    fn get_unstaged_diff(
        &self,
        highlighter: &Self::Highlighter,
    ) -> (res: Result<Vec<DiffFile>, TuicrError>)
        ensures
            match *self {
                GitBackend::Libgit2(backend) => call_ensures(
                    L::get_unstaged_diff,
                    (&backend, highlighter),
                    res,
                ),
                GitBackend::Cli(backend) => call_ensures(
                    C::get_unstaged_diff,
                    (&backend, highlighter),
                    res,
                ),
            },
    {
        match self {
            GitBackend::Libgit2(backend) => backend.get_unstaged_diff(highlighter),
            GitBackend::Cli(backend) => backend.get_unstaged_diff(highlighter),
        }
    }

    fn get_change_status(&self) -> (res: Result<Self::ChangeStatus, TuicrError>)
        ensures
            match *self {
                GitBackend::Libgit2(backend) => call_ensures(
                    L::get_change_status,
                    (&backend,),
                    res,
                ),
                GitBackend::Cli(backend) => call_ensures(C::get_change_status, (&backend,), res),
            },
    {
        match self {
            GitBackend::Libgit2(backend) => backend.get_change_status(),
            GitBackend::Cli(backend) => backend.get_change_status(),
        }
    }

    fn list_changed_paths(&self, kind: Self::ChangeKind) -> (res: Result<Vec<String>, TuicrError>)
        ensures
            match *self {
                GitBackend::Libgit2(backend) => call_ensures(
                    L::list_changed_paths,
                    (&backend, kind),
                    res,
                ),
                GitBackend::Cli(backend) => call_ensures(
                    C::list_changed_paths,
                    (&backend, kind),
                    res,
                ),
            },
    {
        match self {
            GitBackend::Libgit2(backend) => backend.list_changed_paths(kind),
            GitBackend::Cli(backend) => backend.list_changed_paths(kind),
        }
    }

    fn fetch_context_lines(
        &self,
        file_path: &str,
        file_status: FileStatus,
        ref_commit: Option<&str>,
        start_line: u32,
        end_line: u32,
    ) -> (res: Result<Vec<DiffLine>, TuicrError>)
        ensures
            match *self {
                GitBackend::Libgit2(backend) => call_ensures(
                    L::fetch_context_lines,
                    (&backend, file_path, file_status, ref_commit, start_line, end_line),
                    res,
                ),
                GitBackend::Cli(backend) => call_ensures(
                    C::fetch_context_lines,
                    (&backend, file_path, file_status, ref_commit, start_line, end_line),
                    res,
                ),
            },
    {
        match self {
            GitBackend::Libgit2(backend) => backend.fetch_context_lines(
                file_path,
                file_status,
                ref_commit,
                start_line,
                end_line,
            ),
            GitBackend::Cli(backend) => backend.fetch_context_lines(
                file_path,
                file_status,
                ref_commit,
                start_line,
                end_line,
            ),
        }
    }

    fn file_line_count(
        &self,
        file_path: &str,
        file_status: FileStatus,
        ref_commit: Option<&str>,
    ) -> (res: Result<u32, TuicrError>)
        ensures
            match *self {
                GitBackend::Libgit2(backend) => call_ensures(
                    L::file_line_count,
                    (&backend, file_path, file_status, ref_commit),
                    res,
                ),
                GitBackend::Cli(backend) => call_ensures(
                    C::file_line_count,
                    (&backend, file_path, file_status, ref_commit),
                    res,
                ),
            },
    {
        match self {
            GitBackend::Libgit2(backend) => backend.file_line_count(
                file_path,
                file_status,
                ref_commit,
            ),
            GitBackend::Cli(backend) => backend.file_line_count(
                file_path,
                file_status,
                ref_commit,
            ),
        }
    }

    fn get_recent_commits(
        &self,
        offset: usize,
        limit: usize,
    ) -> (res: Result<Vec<Self::CommitInfo>, TuicrError>)
        ensures
            match *self {
                GitBackend::Libgit2(backend) => call_ensures(
                    L::get_recent_commits,
                    (&backend, offset, limit),
                    res,
                ),
                GitBackend::Cli(backend) => call_ensures(
                    C::get_recent_commits,
                    (&backend, offset, limit),
                    res,
                ),
            },
    {
        match self {
            GitBackend::Libgit2(backend) => backend.get_recent_commits(offset, limit),
            GitBackend::Cli(backend) => backend.get_recent_commits(offset, limit),
        }
    }

    fn resolve_revision_range(
        &self,
        revisions: &str,
    ) -> (res: Result<Self::RevisionRange, TuicrError>)
        ensures
            match *self {
                GitBackend::Libgit2(backend) => call_ensures(
                    L::resolve_revision_range,
                    (&backend, revisions),
                    res,
                ),
                GitBackend::Cli(backend) => call_ensures(
                    C::resolve_revision_range,
                    (&backend, revisions),
                    res,
                ),
            },
    {
        match self {
            GitBackend::Libgit2(backend) => backend.resolve_revision_range(revisions),
            GitBackend::Cli(backend) => backend.resolve_revision_range(revisions),
        }
    }

    fn get_commit_range_diff(
        &self,
        revision_range: &Self::RevisionRange,
        highlighter: &Self::Highlighter,
    ) -> (res: Result<Vec<DiffFile>, TuicrError>)
        ensures
            match *self {
                GitBackend::Libgit2(backend) => call_ensures(
                    L::get_commit_range_diff,
                    (&backend, revision_range, highlighter),
                    res,
                ),
                GitBackend::Cli(backend) => call_ensures(
                    C::get_commit_range_diff,
                    (&backend, revision_range, highlighter),
                    res,
                ),
            },
    {
        match self {
            GitBackend::Libgit2(backend) => backend.get_commit_range_diff(
                revision_range,
                highlighter,
            ),
            GitBackend::Cli(backend) => backend.get_commit_range_diff(
                revision_range,
                highlighter,
            ),
        }
    }

    fn get_commits_info(
        &self,
        ids: &Vec<String>,
    ) -> (res: Result<Vec<Self::CommitInfo>, TuicrError>)
        ensures
            match *self {
                GitBackend::Libgit2(backend) => call_ensures(
                    L::get_commits_info,
                    (&backend, ids),
                    res,
                ),
                GitBackend::Cli(backend) => call_ensures(
                    C::get_commits_info,
                    (&backend, ids),
                    res,
                ),
            },
    {
        match self {
            GitBackend::Libgit2(backend) => backend.get_commits_info(ids),
            GitBackend::Cli(backend) => backend.get_commits_info(ids),
        }
    }

    fn get_working_tree_with_commits_diff(
        &self,
        commit_ids: &Vec<String>,
        highlighter: &Self::Highlighter,
    ) -> (res: Result<Vec<DiffFile>, TuicrError>)
        ensures
            match *self {
                GitBackend::Libgit2(backend) => call_ensures(
                    L::get_working_tree_with_commits_diff,
                    (&backend, commit_ids, highlighter),
                    res,
                ),
                GitBackend::Cli(backend) => call_ensures(
                    C::get_working_tree_with_commits_diff,
                    (&backend, commit_ids, highlighter),
                    res,
                ),
            },
    {
        match self {
            GitBackend::Libgit2(backend) => backend.get_working_tree_with_commits_diff(
                commit_ids,
                highlighter,
            ),
            GitBackend::Cli(backend) => backend.get_working_tree_with_commits_diff(
                commit_ids,
                highlighter,
            ),
        }
    }

    fn stage_file(&self, path: &str) -> (res: Result<(), TuicrError>)
        ensures
            match *self {
                GitBackend::Libgit2(backend) => call_ensures(
                    L::stage_file,
                    (&backend, path),
                    res,
                ),
                GitBackend::Cli(backend) => call_ensures(C::stage_file, (&backend, path), res),
            },
    {
        match self {
            GitBackend::Libgit2(backend) => backend.stage_file(path),
            GitBackend::Cli(backend) => backend.stage_file(path),
        }
    }
}

impl<
    L: VcsBackend,
    C: VcsBackend<
        Highlighter = L::Highlighter,
        ChangeStatus = L::ChangeStatus,
        ChangeKind = L::ChangeKind,
        CommitInfo = L::CommitInfo,
        RevisionRange = L::RevisionRange,
    >,
> GitBackend<L, C> {
    /// Whether `info` is what the chosen backend can say of the repository.
    pub open spec fn info_told(self, info: &VcsInfo) -> bool {
        match self {
            GitBackend::Libgit2(backend) => call_ensures(L::info, (&backend,), info),
            GitBackend::Cli(backend) => call_ensures(C::info, (&backend,), info),
        }
    }

    /// The fetch URL of a remote. Git itself is asked, at the root of the repository, whichever
    /// backend was chosen.
    pub fn remote_url<R: Fn(&str, &Vec<String>) -> Result<String, CommandOutputError>>(
        &self,
        run: &R,
        name: &str,
    ) -> (res: Result<String, TuicrError>)
        requires
            git::runs_anywhere(*run),
        ensures
            exists|info: &VcsInfo| #[trigger]
                self.info_told(info) && git::git_gives(
                    *run,
                    info.root_path@,
                    git::remote_url_arguments(name@),
                    res,
                ),
    {
        let info = self.info();
        assert(self.info_told(info));
        git::remote_url(run, info.root_path.as_str(), name)
    }
}

/// Whether `chosen` can be the answer to whether the command line backend is used from the
/// start: it is where the user asks for it, and for repositories with reftable, a split index or
/// SHA-256, which the library backend cannot read. Git is asked only as long as the answer is
/// open.
pub open spec fn cli_told<R: Fn(&str, &Vec<String>) -> Result<String, CommandOutputError>>(
    run: R,
    cwd: Seq<char>,
    preference: GitBackendPreference,
    chosen: bool,
) -> bool {
    if preference == GitBackendPreference::Cli {
        chosen
    } else if git::reftable_told(run, cwd, true) && chosen {
        true
    } else {
        git::reftable_told(run, cwd, false) && if git::split_index_told(run, cwd, true) && chosen {
            true
        } else {
            git::split_index_told(run, cwd, false) && git::sha256_told(run, cwd, chosen)
        }
    }
}

/// Whether `res` can be the outcome of opening the command line backend.
pub open spec fn is_cli_backend<
    L,
    C,
    O: Fn(&str, &DiffWhitespaceMode) -> Result<C, TuicrError>,
>(open_cli: O, cwd: &str, mode: &DiffWhitespaceMode, res: Result<GitBackend<L, C>, TuicrError>) -> bool {
    exists|opened: Result<C, TuicrError>| #[trigger] open_cli.ensures((cwd, mode), opened) && res
        == (match opened {
        Ok(backend) => Ok(GitBackend::<L, C>::Cli(backend)),
        Err(error) => Err(error),
    })
}

/// Whether the library backend can be asked to give way: part of the tree is not checked out, and
/// the backend does not read that.
pub open spec fn gives_way<
    L: VcsBackend,
    R: Fn(&str, &Vec<String>) -> Result<String, CommandOutputError>,
>(run: R, backend: L, answer: bool) -> bool {
    exists|info: &VcsInfo, out: Result<String, TuicrError>|
        #![trigger call_ensures(L::info, (&backend,), info), git::git_gives(run, info.root_path@, git::sparse_settings_arguments(), out)]
        call_ensures(L::info, (&backend,), info) && git::git_gives(
            run,
            info.root_path@,
            git::sparse_settings_arguments(),
            out,
        ) && if git::configured_mode(git::output_or_nothing(out)) == GitRepoMode::Standard {
            !answer
        } else {
            call_ensures(L::supports_sparse_checkout, (&backend,), !answer)
        }
}

/// Whether `res` can be the outcome of discovering a git repository around a directory.
pub open spec fn is_discovered<
    L: VcsBackend,
    C,
    R: Fn(&str, &Vec<String>) -> Result<String, CommandOutputError>,
    P: Fn(&str, &DiffWhitespaceMode) -> Result<L, TuicrError>,
    O: Fn(&str, &DiffWhitespaceMode) -> Result<C, TuicrError>,
>(
    run: R,
    open_libgit2: P,
    open_cli: O,
    cwd: &str,
    preference: GitBackendPreference,
    mode: &DiffWhitespaceMode,
    res: Result<GitBackend<L, C>, TuicrError>,
) -> bool {
    ||| cli_told(run, cwd@, preference, true) && is_cli_backend(open_cli, cwd, mode, res)
    ||| cli_told(run, cwd@, preference, false) && exists|opened: Result<L, TuicrError>| #[trigger]
        open_libgit2.ensures((cwd, mode), opened) && match opened {
            Err(error) => res == Err::<GitBackend<L, C>, TuicrError>(error),
            Ok(backend) => {
                ||| gives_way(run, backend, true) && is_cli_backend(open_cli, cwd, mode, res)
                ||| gives_way(run, backend, false) && res == Ok::<GitBackend<L, C>, TuicrError>(
                    GitBackend::Libgit2(backend),
                )
            },
        }
}

impl<L: VcsBackend, C> GitBackend<L, C> {
    /// Discovers the git repository around a directory and chooses the backend for it.
    pub fn discover_from<
        R: Fn(&str, &Vec<String>) -> Result<String, CommandOutputError>,
        P: Fn(&str, &DiffWhitespaceMode) -> Result<L, TuicrError>,
        O: Fn(&str, &DiffWhitespaceMode) -> Result<C, TuicrError>,
    >(
        run: &R,
        open_libgit2: &P,
        open_cli: &O,
        cwd: &str,
        preference: GitBackendPreference,
        mode: &DiffWhitespaceMode,
    ) -> (res: Result<Self, TuicrError>)
        requires
            git::runs_anywhere(*run),
            open_libgit2.requires((cwd, mode)),
            open_cli.requires((cwd, mode)),
        ensures
            is_discovered(*run, *open_libgit2, *open_cli, cwd, preference, mode, res),
    {
        let use_cli = preference == GitBackendPreference::Cli || uses_reftable(run, cwd)
            || uses_split_index(run, cwd) || uses_sha256(run, cwd);
        assert(cli_told(*run, cwd@, preference, use_cli));
        if use_cli {
            let opened = open_cli(cwd, mode);
            assert(open_cli.ensures((cwd, mode), opened));
            return match opened {
                Ok(backend) => Ok(GitBackend::Cli(backend)),
                Err(error) => Err(error),
            };
        }
        let opened = open_libgit2(cwd, mode);
        assert(open_libgit2.ensures((cwd, mode), opened));
        let backend = match opened {
            Ok(backend) => backend,
            Err(error) => {
                return Err(error);
            },
        };
        let info = backend.info();
        assert(call_ensures(L::info, (&backend,), info));
        let repo_mode = GitRepoMode::detect(run, info.root_path.as_str());
        let answer = repo_mode.is_sparse_checkout() && !backend.supports_sparse_checkout();
        proof {
            let out = choose|out: Result<String, TuicrError>| #[trigger]
                git::git_gives(
                    *run,
                    info.root_path@,
                    git::sparse_settings_arguments(),
                    out,
                ) && repo_mode == git::configured_mode(git::output_or_nothing(out));
            assert(git::git_gives(
                *run,
                info.root_path@,
                git::sparse_settings_arguments(),
                out,
            ));
            assert(gives_way(*run, backend, answer));
        }
        if answer {
            let opened = open_cli(cwd, mode);
            assert(open_cli.ensures((cwd, mode), opened));
            return match opened {
                Ok(backend) => Ok(GitBackend::Cli(backend)),
                Err(error) => Err(error),
            };
        }
        Ok(GitBackend::Libgit2(backend))
    }
}

} // verus!
