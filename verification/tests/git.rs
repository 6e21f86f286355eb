use std::cell::RefCell;

use tuicr::backend::{VcsBackend, VcsInfo, VcsType};
use tuicr::error::TuicrError;
use tuicr::git::{
    git_bool_config_enabled, git_command_error, git_fsmonitor_config_enabled, remote_url,
    run_git_command, uses_reftable, uses_sha256, uses_split_index, CommandOutputError,
    CommandOutputErrorKind, GitBackendPreference, GitRepoMode, RevisionExpression,
};
use tuicr::git_backend::GitBackend;
use tuicr::model::{DiffFile, DiffLine, FileStatus};
use tuicr::whitespace::DiffWhitespaceMode;

#[test]
fn derives_git_repo_mode_from_config() {
    assert_eq!(GitRepoMode::from_config(""), GitRepoMode::Standard);
    assert_eq!(
        GitRepoMode::from_config("core.sparsecheckout true\n"),
        GitRepoMode::SparseCheckout
    );
    assert_eq!(
        GitRepoMode::from_config("core.sparsecheckout true\nindex.sparse true\n"),
        GitRepoMode::SparseIndex
    );
}

#[test]
fn derives_backend_preference_from_config() {
    assert_eq!(
        GitBackendPreference::from_config(None),
        GitBackendPreference::Libgit2
    );
    assert_eq!(
        GitBackendPreference::from_config(Some("libgit2")),
        GitBackendPreference::Libgit2
    );
    assert_eq!(
        GitBackendPreference::from_config(Some("cli")),
        GitBackendPreference::Cli
    );
}

#[test]
fn the_last_setting_of_a_key_counts() {
    assert_eq!(
        GitRepoMode::from_config("core.sparsecheckout true\ncore.sparsecheckout false\n"),
        GitRepoMode::Standard
    );
    assert_eq!(
        GitRepoMode::from_config("index.sparse\t on \nindex.sparsely false\n"),
        GitRepoMode::SparseIndex
    );
    assert_eq!(GitRepoMode::from_config("index.sparse\n"), GitRepoMode::Standard);
    assert!(GitRepoMode::SparseIndex.is_sparse_checkout());
    assert!(GitRepoMode::SparseCheckout.is_sparse_checkout());
    assert!(!GitRepoMode::Standard.is_sparse_checkout());
}

#[test]
fn configuration_values_are_trimmed_words() {
    for value in ["true", "1", "yes", "on", " true\n"] {
        assert!(git_bool_config_enabled(value), "{value:?}");
        assert!(git_fsmonitor_config_enabled(value), "{value:?}");
    }
    for value in ["", "false", "0", "no", "off", "  "] {
        assert!(!git_bool_config_enabled(value), "{value:?}");
        assert!(!git_fsmonitor_config_enabled(value), "{value:?}");
    }
    assert!(!git_bool_config_enabled(".git/hooks/watch"));
    assert!(git_fsmonitor_config_enabled(".git/hooks/watch"));
    assert!(!git_bool_config_enabled("True"));
    assert!(git_fsmonitor_config_enabled("True"));
}

fn parsed(revisions: &str) -> String {
    match RevisionExpression::parse(revisions) {
        Ok(RevisionExpression::Single(rev)) => format!("single {rev}"),
        Ok(RevisionExpression::Range { base, head }) => format!("range {base} to {head}"),
        Ok(RevisionExpression::MergeBaseRange { left, right }) => {
            format!("merge base {left} to {right}")
        }
        Err(TuicrError::VcsCommand(message)) => message,
        Err(other) => panic!("unexpected error: {other:?}"),
    }
}

#[test]
fn revision_expressions_are_told_apart() {
    assert_eq!(parsed("HEAD"), "single HEAD");
    assert_eq!(parsed("v1.0"), "single v1.0");
    assert_eq!(parsed(""), "single ");
    assert_eq!(parsed("A..B"), "range A to B");
    assert_eq!(parsed("A.."), "range A to HEAD");
    assert_eq!(parsed("..B"), "range HEAD to B");
    assert_eq!(parsed(".."), "range HEAD to HEAD");
    assert_eq!(parsed("v1.0..v1.1"), "range v1.0 to v1.1");
    assert_eq!(parsed("A...B"), "merge base A to B");
    assert_eq!(parsed("A..B...C"), "merge base A..B to C");
    assert_eq!(parsed("...B"), "Invalid revision range: missing endpoint");
    assert_eq!(parsed("A..."), "Invalid revision range: missing endpoint");
}

fn failed(kind: CommandOutputErrorKind) -> CommandOutputError {
    CommandOutputError { kind, stderr: "fatal: oops".to_string() }
}

fn message(error: TuicrError) -> String {
    match error {
        TuicrError::VcsCommand(message) => message,
        other => panic!("unexpected error: {other:?}"),
    }
}

#[test]
fn failed_commands_report_what_went_wrong() {
    assert_eq!(
        message(git_command_error(failed(CommandOutputErrorKind::Unsuccessful))),
        "fatal: oops"
    );
    assert_eq!(
        message(git_command_error(failed(CommandOutputErrorKind::NotFound))),
        "Failed to run git: fatal: oops"
    );
    assert_eq!(
        message(git_command_error(failed(CommandOutputErrorKind::SpawnFailed))),
        "Failed to run git: fatal: oops"
    );
}

#[test]
fn commands_are_run_with_leading_settings() {
    let log: RefCell<Vec<String>> = RefCell::new(Vec::new());
    let run = |dir: &str, args: &Vec<String>| {
        log.borrow_mut().push(format!("{dir}: {}", args.join(" ")));
        Ok::<String, CommandOutputError>("out".to_string())
    };
    let args = vec!["status".to_string()];
    assert_eq!(run_git_command(&run, "/repo", &args).unwrap(), "out");
    assert_eq!(remote_url(&run, "/repo", "--all").unwrap(), "out");
    assert!(!uses_sha256(&run, "/repo"));
    assert!(!uses_reftable(&run, "/repo"));
    assert!(!uses_split_index(&run, "/repo"));
    assert_eq!(GitRepoMode::detect(&run, "/repo"), GitRepoMode::Standard);
    let lead = "/repo: -c commit.gpgsign=false -c init.defaultRefFormat=files";
    assert_eq!(
        log.into_inner(),
        vec![
            format!("{lead} status"),
            format!("{lead} remote get-url -- --all"),
            format!("{lead} rev-parse --show-object-format"),
            format!("{lead} config --get extensions.refStorage"),
            format!("{lead} config --get core.splitIndex"),
            format!("{lead} config --get-regexp ^(core\\.sparsecheckout|index\\.sparse)$"),
        ]
    );
}

#[test]
fn a_failed_command_is_an_error_and_a_no() {
    let run = |_: &str, _: &Vec<String>| {
        Err::<String, CommandOutputError>(failed(CommandOutputErrorKind::NotFound))
    };
    assert_eq!(
        message(remote_url(&run, "/repo", "origin").unwrap_err()),
        "Failed to run git: fatal: oops"
    );
    assert!(!uses_sha256(&run, "/repo"));
    assert!(!uses_reftable(&run, "/repo"));
    assert!(!uses_split_index(&run, "/repo"));
    assert_eq!(GitRepoMode::detect(&run, "/repo"), GitRepoMode::Standard);
}

struct Stub {
    info: VcsInfo,
    name: &'static str,
    sparse: bool,
}

impl Stub {
    fn said<T>(&self, what: String) -> Result<T, TuicrError> {
        Err(TuicrError::VcsCommand(format!("{}: {what}", self.name)))
    }
}

impl VcsBackend for Stub {
    type Highlighter = u8;
    type ChangeStatus = u8;
    type ChangeKind = u8;
    type CommitInfo = u8;
    type RevisionRange = u8;

    fn info(&self) -> &VcsInfo {
        &self.info
    }
    fn startup_warnings(&self) -> Vec<String> {
        if self.sparse {
            vec!["Sparse checkout detected; using Git CLI backend.".to_string()]
        } else {
            Vec::new()
        }
    }
    fn supports_sparse_checkout(&self) -> bool {
        self.sparse
    }
    fn get_working_tree_diff(&self, h: &u8) -> Result<Vec<DiffFile>, TuicrError> {
        self.said(format!("working tree {h}"))
    }
    fn get_staged_diff(&self, h: &u8) -> Result<Vec<DiffFile>, TuicrError> {
        self.said(format!("staged {h}"))
    }
    fn get_unstaged_diff(&self, h: &u8) -> Result<Vec<DiffFile>, TuicrError> {
        self.said(format!("unstaged {h}"))
    }
    fn get_change_status(&self) -> Result<u8, TuicrError> {
        self.said("status".to_string())
    }
    fn list_changed_paths(&self, kind: u8) -> Result<Vec<String>, TuicrError> {
        self.said(format!("paths {kind}"))
    }
    fn fetch_context_lines(
        &self,
        file_path: &str,
        file_status: FileStatus,
        ref_commit: Option<&str>,
        start_line: u32,
        end_line: u32,
    ) -> Result<Vec<DiffLine>, TuicrError> {
        self.said(format!(
            "context {file_path} {file_status:?} {ref_commit:?} {start_line} {end_line}"
        ))
    }
    fn file_line_count(
        &self,
        file_path: &str,
        file_status: FileStatus,
        ref_commit: Option<&str>,
    ) -> Result<u32, TuicrError> {
        self.said(format!("count {file_path} {file_status:?} {ref_commit:?}"))
    }
    fn get_recent_commits(&self, offset: usize, limit: usize) -> Result<Vec<u8>, TuicrError> {
        self.said(format!("recent {offset} {limit}"))
    }
    fn resolve_revision_range(&self, revisions: &str) -> Result<u8, TuicrError> {
        self.said(format!("resolve {revisions}"))
    }
    fn get_commit_range_diff(&self, range: &u8, h: &u8) -> Result<Vec<DiffFile>, TuicrError> {
        self.said(format!("range {range} {h}"))
    }
    fn get_commits_info(&self, ids: &Vec<String>) -> Result<Vec<u8>, TuicrError> {
        self.said(format!("commits {}", ids.join(",")))
    }
    fn get_working_tree_with_commits_diff(
        &self,
        commit_ids: &Vec<String>,
        h: &u8,
    ) -> Result<Vec<DiffFile>, TuicrError> {
        self.said(format!("tree and {} {h}", commit_ids.join(",")))
    }
    fn stage_file(&self, path: &str) -> Result<(), TuicrError> {
        self.said(format!("stage {path}"))
    }
}

fn stub(name: &'static str, root: &str, sparse: bool) -> Stub {
    Stub {
        info: VcsInfo {
            root_path: root.to_string(),
            head_commit: "abc".to_string(),
            branch_name: None,
            vcs_type: VcsType::Git,
        },
        name,
        sparse,
    }
}

/// Discovers a backend for a repository in which git prints the given outputs.
fn discover(
    cwd: &str,
    preference: GitBackendPreference,
    outputs: &[(&str, &str)],
) -> GitBackend<Stub, Stub> {
    let run = |_: &str, args: &Vec<String>| {
        let line = args.join(" ");
        outputs
            .iter()
            .find(|(key, _)| line.contains(key))
            .map(|(_, output)| output.to_string())
            .ok_or(CommandOutputError {
                kind: CommandOutputErrorKind::Unsuccessful,
                stderr: String::new(),
            })
    };
    let library = |_: &str, _: &DiffWhitespaceMode| Ok(stub("library", "/root", false));
    let cli = |_: &str, _: &DiffWhitespaceMode| Ok(stub("cli", "/root", true));
    GitBackend::discover_from(
        &run,
        &library,
        &cli,
        cwd,
        preference,
        &DiffWhitespaceMode::Normal,
    )
    .expect("failed to discover backend")
}

const SPARSE: &str = "--get-regexp";

#[test]
fn default_preference_routes_sparse_index_repo_to_cli_with_warning() {
    let backend = discover(
        "/root",
        GitBackendPreference::Libgit2,
        &[(SPARSE, "core.sparsecheckout true\nindex.sparse true\n")],
    );

    match backend {
        GitBackend::Cli(backend) => {
            assert!(backend.supports_sparse_checkout());
            assert_eq!(
                backend.startup_warnings().first().map(String::as_str),
                Some("Sparse checkout detected; using Git CLI backend.")
            );
        }
        GitBackend::Libgit2(_) => panic!("sparse-index repo should use Git CLI backend"),
    }
}

#[test]
fn default_preference_keeps_standard_repo_on_libgit2() {
    let backend = discover(
        "/root",
        GitBackendPreference::Libgit2,
        &[("--show-object-format", "sha1\n"), ("splitIndex", "false\n")],
    );

    match backend {
        GitBackend::Libgit2(backend) => assert!(!backend.supports_sparse_checkout()),
        GitBackend::Cli(_) => panic!("standard repo should use libgit2 by default"),
    }
}

#[test]
fn default_preference_routes_reftable_repo_to_cli() {
    for storage in ["reftable\n", "RefTable\n"] {
        let backend = discover(
            "/root",
            GitBackendPreference::Libgit2,
            &[("extensions.refStorage", storage)],
        );
        assert!(
            matches!(backend, GitBackend::Cli(_)),
            "reftable repo should use Git CLI backend, not libgit2"
        );
    }
}

#[test]
fn default_preference_routes_split_index_repo_to_cli() {
    let backend = discover(
        "/root",
        GitBackendPreference::Libgit2,
        &[("core.splitIndex", "true\n")],
    );
    assert!(
        matches!(backend, GitBackend::Cli(_)),
        "split-index repo should use Git CLI backend, not libgit2"
    );
}

#[test]
fn sha256_default_discovery_from_root_and_subdirectory_uses_cli() {
    for path in ["/root", "/root/src"] {
        let backend = discover(
            path,
            GitBackendPreference::Libgit2,
            &[("--show-object-format", "sha256\n")],
        );
        assert!(matches!(backend, GitBackend::Cli(_)));
    }
}

#[test]
fn a_user_can_ask_for_the_command_line() {
    let backend = discover("/root", GitBackendPreference::Cli, &[]);
    assert!(matches!(backend, GitBackend::Cli(_)));
}

#[test]
fn a_library_that_reads_sparse_checkouts_keeps_them() {
    let run = |_: &str, args: &Vec<String>| {
        if args.contains(&SPARSE.to_string()) {
            Ok("core.sparsecheckout true\n".to_string())
        } else {
            Err(CommandOutputError {
                kind: CommandOutputErrorKind::Unsuccessful,
                stderr: String::new(),
            })
        }
    };
    let library = |_: &str, _: &DiffWhitespaceMode| Ok(stub("library", "/root", true));
    let cli = |_: &str, _: &DiffWhitespaceMode| Err::<Stub, TuicrError>(TuicrError::NotARepository);
    let backend = GitBackend::discover_from(
        &run,
        &library,
        &cli,
        "/root",
        GitBackendPreference::Libgit2,
        &DiffWhitespaceMode::Normal,
    );
    assert!(matches!(backend, Ok(GitBackend::Libgit2(_))));
}

#[test]
fn a_repository_that_cannot_be_opened_is_an_error() {
    let run = |_: &str, _: &Vec<String>| Ok::<String, CommandOutputError>(String::new());
    let library =
        |_: &str, _: &DiffWhitespaceMode| Err::<Stub, TuicrError>(TuicrError::NotARepository);
    let cli = |_: &str, _: &DiffWhitespaceMode| {
        Err::<Stub, TuicrError>(TuicrError::VcsCommand("no cli".to_string()))
    };
    let open = |preference: GitBackendPreference| {
        GitBackend::discover_from(
            &run,
            &library,
            &cli,
            "/root",
            preference,
            &DiffWhitespaceMode::Normal,
        )
    };
    assert!(matches!(
        open(GitBackendPreference::Libgit2),
        Err(TuicrError::NotARepository)
    ));
    assert!(matches!(
        open(GitBackendPreference::Cli),
        Err(TuicrError::VcsCommand(message)) if message == "no cli"
    ));
}

#[test]
fn every_operation_goes_to_the_chosen_backend() {
    for name in ["library", "cli"] {
        let backend: GitBackend<Stub, Stub> = if name == "cli" {
            GitBackend::Cli(stub("cli", "/cli", true))
        } else {
            GitBackend::Libgit2(stub("library", "/library", false))
        };
        let ids = vec!["a".to_string(), "b".to_string()];
        assert_eq!(backend.info().root_path, format!("/{name}"));
        assert_eq!(backend.startup_warnings().len(), if name == "cli" { 1 } else { 0 });
        assert_eq!(backend.supports_sparse_checkout(), name == "cli");
        let said = vec![
            message(backend.get_working_tree_diff(&1).unwrap_err()),
            message(backend.get_staged_diff(&2).unwrap_err()),
            message(backend.get_unstaged_diff(&3).unwrap_err()),
            message(backend.get_change_status().unwrap_err()),
            message(backend.list_changed_paths(4).unwrap_err()),
            message(
                backend
                    .fetch_context_lines("f.rs", FileStatus::Modified, Some("abc"), 5, 6)
                    .unwrap_err(),
            ),
            message(backend.file_line_count("f.rs", FileStatus::Added, None).unwrap_err()),
            message(backend.get_recent_commits(7, 8).unwrap_err()),
            message(backend.resolve_revision_range("A..B").unwrap_err()),
            message(backend.get_commit_range_diff(&9, &10).unwrap_err()),
            message(backend.get_commits_info(&ids).unwrap_err()),
            message(backend.get_working_tree_with_commits_diff(&ids, &11).unwrap_err()),
            message(backend.stage_file("f.rs").unwrap_err()),
        ];
        let expected: Vec<String> = [
            "working tree 1",
            "staged 2",
            "unstaged 3",
            "status",
            "paths 4",
            "context f.rs Modified Some(\"abc\") 5 6",
            "count f.rs Added None",
            "recent 7 8",
            "resolve A..B",
            "range 9 10",
            "commits a,b",
            "tree and a,b 11",
            "stage f.rs",
        ]
        .iter()
        .map(|what| format!("{name}: {what}"))
        .collect();
        assert_eq!(said, expected);

        let run = |dir: &str, args: &Vec<String>| {
            Ok::<String, CommandOutputError>(format!("{dir} {}", args[4..].join(" ")))
        };
        assert_eq!(
            backend.remote_url(&run, "upstream").unwrap(),
            format!("/{name} remote get-url -- upstream")
        );
    }
}
