//! The interface of a version control backend.

use vstd::prelude::*;
use crate::error::TuicrError;
use crate::model::{DiffFile, DiffLine, FileStatus};

verus! {

/// Which version control system a repository belongs to.
#[derive(Debug, Clone, Copy, PartialEq, Eq, Structural)]
pub enum VcsType {
    Git,
    Mercurial,
    Jujutsu,
}

/// Where a repository stands and what is checked out in it.
#[derive(Debug, Clone)]
pub struct VcsInfo {
    pub root_path: String,
    pub head_commit: String,
    pub branch_name: Option<String>,
    pub vcs_type: VcsType,
}

/// A version control backend.
pub trait VcsBackend {
    /// What colours the lines of a diff.
    type Highlighter;

    /// What kinds of changes there are.
    type ChangeStatus;

    /// A kind of change.
    type ChangeKind;

    /// What is known of a commit.
    type CommitInfo;

    /// The commits that a revision string names.
    type RevisionRange;

    /// Where the repository stands and what is checked out in it.
    fn info(&self) -> &VcsInfo;

    /// What the user should be told when a review begins.
    fn startup_warnings(&self) -> Vec<String>;

    /// Whether the backend can read a sparse checkout.
    fn supports_sparse_checkout(&self) -> bool;

    /// The changes of the working tree.
    fn get_working_tree_diff(
        &self,
        highlighter: &Self::Highlighter,
    ) -> Result<Vec<DiffFile>, TuicrError>;

    /// The staged changes.
    fn get_staged_diff(
        &self,
        highlighter: &Self::Highlighter,
    ) -> Result<Vec<DiffFile>, TuicrError>;

    /// The changes that are not staged.
    fn get_unstaged_diff(
        &self,
        highlighter: &Self::Highlighter,
    ) -> Result<Vec<DiffFile>, TuicrError>;

    /// What kinds of changes there are.
    fn get_change_status(&self) -> Result<Self::ChangeStatus, TuicrError>;

    /// The paths with changes of one kind.
    fn list_changed_paths(&self, kind: Self::ChangeKind) -> Result<Vec<String>, TuicrError>;

    /// The lines of a file between two line numbers.
    fn fetch_context_lines(
        &self,
        file_path: &str,
        file_status: FileStatus,
        ref_commit: Option<&str>,
        start_line: u32,
        end_line: u32,
    ) -> Result<Vec<DiffLine>, TuicrError>;

    /// The number of lines of a file.
    fn file_line_count(
        &self,
        file_path: &str,
        file_status: FileStatus,
        ref_commit: Option<&str>,
    ) -> Result<u32, TuicrError>;

    /// The latest commits, without the first `offset` of them.
    fn get_recent_commits(
        &self,
        offset: usize,
        limit: usize,
    ) -> Result<Vec<Self::CommitInfo>, TuicrError>;

    /// The commits that a revision string names.
    fn resolve_revision_range(&self, revisions: &str) -> Result<Self::RevisionRange, TuicrError>;

    /// The changes of a range of commits.
    fn get_commit_range_diff(
        &self,
        revision_range: &Self::RevisionRange,
        highlighter: &Self::Highlighter,
    ) -> Result<Vec<DiffFile>, TuicrError>;

    /// What is known of the given commits.
    fn get_commits_info(&self, ids: &Vec<String>) -> Result<Vec<Self::CommitInfo>, TuicrError>;

    /// The changes of the given commits and of the working tree together.
    fn get_working_tree_with_commits_diff(
        &self,
        commit_ids: &Vec<String>,
        highlighter: &Self::Highlighter,
    ) -> Result<Vec<DiffFile>, TuicrError>;

    /// Stages a file.
    fn stage_file(&self, path: &str) -> Result<(), TuicrError>;
}

} // verus!
