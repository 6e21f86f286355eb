use std::cell::{Cell, RefCell};

use tuicr::error::TuicrError;
use tuicr::loader::DiffLoader;
use tuicr::model::{DiffFile, DiffHunk, DiffLine, FileStatus, LineColoring, LineOrigin};
use tuicr::whitespace::{
    comparison_extension, materialize_diff, select_auto_diff_files, DiffWhitespaceMode,
    WhitespaceAutoPolicy, WhitespaceComparison,
};

/// Types whose white space carries no meaning; Python and YAML are not among them.
fn policy() -> WhitespaceAutoPolicy {
    WhitespaceAutoPolicy::from_extensions(vec![
        "json".to_string(),
        "rs".to_string(),
        "js".to_string(),
        "ts".to_string(),
        "tsx".to_string(),
    ])
}

fn hunk(old_start: u32, new_start: u32, content: &str) -> DiffHunk {
    DiffHunk {
        header: format!("@@ -{old_start},1 +{new_start},1 @@"),
        lines: vec![DiffLine {
            origin: LineOrigin::Addition,
            content: content.to_string(),
            old_lineno: None,
            new_lineno: Some(new_start),
            coloring: LineColoring::Pending,
        }],
        old_start,
        old_count: 1,
        new_start,
        new_count: 1,
    }
}

fn file(
    old: Option<&str>,
    new: Option<&str>,
    status: FileStatus,
    hash: u64,
    hunks: Vec<DiffHunk>,
) -> DiffFile {
    DiffFile {
        old_path: old.map(str::to_string),
        new_path: new.map(str::to_string),
        status,
        hunks,
        is_binary: false,
        is_too_large: false,
        is_commit_message: false,
        content_hash: hash,
    }
}

fn paths(files: &[DiffFile]) -> Vec<String> {
    files
        .iter()
        .map(|file| file.display_path().unwrap().clone())
        .collect()
}

#[test]
fn uppercase_and_multi_dot_names_use_final_extension() {
    assert_eq!(comparison_extension(None, Some("src/App.JSON")), Some("json".into()));
    assert_eq!(comparison_extension(None, Some("archive.tar.gz")), Some("gz".into()));
    assert_eq!(comparison_extension(None, Some("Foo.test.TSX")), Some("tsx".into()));
}

#[test]
fn extensionless_and_dotfiles_compare_normally() {
    assert_eq!(comparison_extension(None, Some("Makefile")), None);
    assert_eq!(comparison_extension(None, Some(".gitignore")), None);
    assert_eq!(comparison_extension(None, Some(".rs")), None);
    assert!(!policy().ignores_diff_file(&file(
        None,
        Some("Makefile"),
        FileStatus::Modified,
        1,
        vec![hunk(1, 1, "x")],
    )));
}

#[test]
fn destination_extension_wins_for_renames_and_source_for_deletions() {
    let renamed = file(Some("old.py"), Some("new.json"), FileStatus::Renamed, 1, Vec::new());
    assert!(policy().ignores_diff_file(&renamed));
    assert_eq!(
        comparison_extension(renamed.old_path.as_deref(), renamed.new_path.as_deref()),
        Some("json".into())
    );

    let deleted_python = file(Some("gone.py"), None, FileStatus::Deleted, 2, Vec::new());
    assert!(!policy().ignores_diff_file(&deleted_python));

    let deleted_rust = file(Some("gone.rs"), None, FileStatus::Deleted, 3, Vec::new());
    assert!(policy().ignores_diff_file(&deleted_rust));
}

#[test]
fn python_and_yaml_compare_normally_unless_overridden() {
    let python = file(
        Some("app.py"),
        Some("app.py"),
        FileStatus::Modified,
        1,
        vec![hunk(1, 1, "x =  1")],
    );
    let yaml = file(
        Some("cfg.yaml"),
        Some("cfg.yaml"),
        FileStatus::Modified,
        2,
        vec![hunk(1, 1, "a:  1")],
    );
    assert!(!policy().ignores_diff_file(&python));
    assert!(!policy().ignores_diff_file(&yaml));

    let overridden = policy().with_overrides(vec![("py".into(), true)]);
    assert!(overridden.ignores_diff_file(&python));
    assert!(!overridden.ignores_diff_file(&yaml));
}

#[test]
fn explicit_false_override_preserves_builtin_ignored_type() {
    let rust = file(
        Some("lib.rs"),
        Some("lib.rs"),
        FileStatus::Modified,
        1,
        vec![hunk(1, 1, "fn x(){ }")],
    );
    assert!(policy().ignores_diff_file(&rust));
    let sensitive_rust = policy().with_overrides(vec![("rs".into(), false)]);
    assert!(!sensitive_rust.ignores_diff_file(&rust));
}

#[test]
fn selection_keeps_normal_order_and_ignored_coordinates() {
    let normal = vec![
        file(
            Some("a.json"),
            Some("a.json"),
            FileStatus::Modified,
            10,
            vec![hunk(1, 1, "  {")],
        ),
        file(
            Some("b.py"),
            Some("b.py"),
            FileStatus::Modified,
            20,
            vec![hunk(2, 2, "x =  1")],
        ),
        file(
            Some("c.rs"),
            Some("c.rs"),
            FileStatus::Modified,
            30,
            vec![hunk(3, 3, "fn x(){ }")],
        ),
    ];
    let ignored = vec![
        file(
            Some("c.rs"),
            Some("c.rs"),
            FileStatus::Modified,
            31,
            vec![hunk(30, 30, "fn x(){}")],
        ),
        file(
            Some("a.json"),
            Some("a.json"),
            FileStatus::Modified,
            11,
            Vec::new(),
        ),
    ];

    let selected = select_auto_diff_files(&policy(), normal, ignored).unwrap();
    assert_eq!(paths(&selected), vec!["a.json", "b.py", "c.rs"]);
    assert_eq!(selected[0].content_hash, 11);
    assert!(selected[0].hunks.is_empty());
    assert_eq!(selected[1].content_hash, 20);
    assert_eq!(selected[1].hunks[0].old_start, 2);
    assert_eq!(selected[2].content_hash, 31);
    assert_eq!(selected[2].hunks[0].new_start, 30);
}

#[test]
fn missing_ignored_modified_file_is_omitted() {
    let normal = vec![
        file(
            Some("a.json"),
            Some("a.json"),
            FileStatus::Modified,
            10,
            vec![hunk(1, 1, "  {")],
        ),
        file(
            Some("b.py"),
            Some("b.py"),
            FileStatus::Modified,
            20,
            vec![hunk(2, 2, "x =  1")],
        ),
    ];

    let selected = select_auto_diff_files(&policy(), normal, Vec::new()).unwrap();
    assert_eq!(paths(&selected), vec!["b.py"]);
    assert_eq!(selected[0].content_hash, 20);
}

#[test]
fn metadata_only_records_are_preserved_when_ignored_variant_lacks_them() {
    let mut binary = file(
        Some("data.json"),
        Some("data.json"),
        FileStatus::Modified,
        1,
        Vec::new(),
    );
    binary.is_binary = true;
    let mut too_large = file(None, Some("dump.js"), FileStatus::Added, 2, Vec::new());
    too_large.is_too_large = true;
    let renamed = file(Some("old.rs"), Some("new.rs"), FileStatus::Renamed, 3, Vec::new());
    let added = file(None, Some("new.ts"), FileStatus::Added, 4, Vec::new());
    let deleted = file(Some("gone.rs"), None, FileStatus::Deleted, 5, Vec::new());
    let mode_only = file(
        Some("tool.rs"),
        Some("tool.rs"),
        FileStatus::Modified,
        6,
        Vec::new(),
    );

    let normal = vec![
        binary,
        too_large,
        renamed,
        added,
        deleted,
        mode_only,
        file(
            Some("keep.py"),
            Some("keep.py"),
            FileStatus::Modified,
            7,
            vec![hunk(1, 1, "x")],
        ),
    ];
    let selected = select_auto_diff_files(&policy(), normal, Vec::new()).unwrap();
    assert_eq!(
        paths(&selected),
        vec![
            "data.json",
            "dump.js",
            "new.rs",
            "new.ts",
            "gone.rs",
            "tool.rs",
            "keep.py"
        ]
    );
}

#[test]
fn unmatched_substantive_non_modified_file_fails() {
    let normal = vec![file(
        None,
        Some("new.rs"),
        FileStatus::Added,
        1,
        vec![hunk(1, 1, "fn x() {}")],
    )];
    let err = select_auto_diff_files(&policy(), normal, Vec::new()).unwrap_err();
    assert!(
        matches!(err, TuicrError::VcsCommand(ref message) if message.contains("new.rs")),
        "unexpected error: {err:?}"
    );
    assert!(matches!(err, TuicrError::VcsCommand(ref message)
        if message == "auto whitespace selection could not match new.rs (A)"));
}

#[test]
fn materialize_diff_propagates_non_nochanges_errors() {
    let mode = DiffWhitespaceMode::Auto(policy());
    let err = materialize_diff(&mode, &mut DiffLoader::new(|comparison| {
        if comparison == WhitespaceComparison::IgnoreAll {
            Err(TuicrError::VcsCommand("boom".into()))
        } else {
            Ok(vec![file(
                Some("a.json"),
                Some("a.json"),
                FileStatus::Modified,
                1,
                vec![hunk(1, 1, "{")],
            )])
        }
    }))
    .unwrap_err();
    assert!(matches!(err, TuicrError::VcsCommand(message) if message == "boom"));
}

#[test]
fn materialize_diff_treats_only_nochanges_as_empty() {
    let mode = DiffWhitespaceMode::Auto(policy());
    let err = materialize_diff(&mode, &mut DiffLoader::new(|_| Err(TuicrError::NoChanges)))
        .unwrap_err();
    assert!(matches!(err, TuicrError::NoChanges));
}

#[test]
fn materialize_diff_single_pass_for_legacy_modes() {
    let calls: Cell<u32> = Cell::new(0);
    let load = |_: WhitespaceComparison| {
        calls.set(calls.get() + 1);
        Ok(vec![file(
            Some("a.py"),
            Some("a.py"),
            FileStatus::Modified,
            1,
            vec![hunk(1, 1, "x")],
        )])
    };
    materialize_diff(&DiffWhitespaceMode::Normal, &mut DiffLoader::new(load)).unwrap();
    assert_eq!(calls.get(), 1);

    calls.set(0);
    materialize_diff(&DiffWhitespaceMode::IgnoreAll, &mut DiffLoader::new(load)).unwrap();
    assert_eq!(calls.get(), 1);
}

#[test]
fn the_ignored_variant_is_loaded_only_where_it_is_needed() {
    let ignored_loads: Cell<u32> = Cell::new(0);
    let mode = DiffWhitespaceMode::Auto(policy());
    let mut loader = DiffLoader::new(|comparison: WhitespaceComparison| {
        if comparison.ignores_all() {
            ignored_loads.set(ignored_loads.get() + 1);
        }
        Ok(Vec::new())
    });
    let outcome = materialize_diff(&mode, &mut loader);
    assert!(matches!(outcome, Err(TuicrError::NoChanges)));
    assert_eq!(ignored_loads.get(), 0);
    assert!(!WhitespaceComparison::Normal.ignores_all());
}

#[test]
fn each_variant_is_loaded_once_and_the_normal_one_first() {
    let loads: RefCell<Vec<WhitespaceComparison>> = RefCell::new(Vec::new());
    let mut loader = DiffLoader::new(|comparison: WhitespaceComparison| {
        loads.borrow_mut().push(comparison);
        Ok(vec![file(
            Some("a.py"),
            Some("a.py"),
            FileStatus::Modified,
            1,
            vec![hunk(1, 1, "x")],
        )])
    });
    let files = materialize_diff(&DiffWhitespaceMode::Auto(policy()), &mut loader).unwrap();
    assert_eq!(files.len(), 1);
    assert_eq!(
        loads.take(),
        vec![WhitespaceComparison::Normal, WhitespaceComparison::IgnoreAll]
    );
}

#[test]
fn a_selection_that_leaves_nothing_is_no_change() {
    let mode = DiffWhitespaceMode::Auto(policy());
    let mut loader = DiffLoader::new(|comparison: WhitespaceComparison| {
        if comparison.ignores_all() {
            Err(TuicrError::NoChanges)
        } else {
            Ok(vec![file(
                Some("a.rs"),
                Some("a.rs"),
                FileStatus::Modified,
                1,
                vec![hunk(1, 1, "x")],
            )])
        }
    });
    let outcome = materialize_diff(&mode, &mut loader);
    assert!(matches!(outcome, Err(TuicrError::NoChanges)));
}

#[test]
fn other_errors_of_the_normal_variant_are_returned() {
    let mode = DiffWhitespaceMode::Auto(policy());
    let loads: Cell<u32> = Cell::new(0);
    let mut loader = DiffLoader::new(|_: WhitespaceComparison| {
        loads.set(loads.get() + 1);
        Err(TuicrError::NotARepository)
    });
    let outcome = materialize_diff(&mode, &mut loader);
    assert_eq!(loads.get(), 1);
    assert!(matches!(outcome, Err(TuicrError::NotARepository)));
}

#[test]
fn an_ignored_variant_with_one_identity_twice_is_refused() {
    let twice = vec![
        file(Some("a.rs"), Some("a.rs"), FileStatus::Modified, 1, Vec::new()),
        file(Some("a.rs"), Some("./a.rs"), FileStatus::Modified, 2, Vec::new()),
        file(Some("a.rs"), Some("a.rs/"), FileStatus::Modified, 3, Vec::new()),
    ];
    let err = select_auto_diff_files(&policy(), Vec::new(), twice).unwrap_err();
    assert!(matches!(err, TuicrError::VcsCommand(ref message)
        if message == "auto whitespace selection found duplicate ignored file a.rs/ (M)"));
}

#[test]
fn one_ignored_record_serves_one_file() {
    let normal = vec![
        file(Some("a.rs"), Some("a.rs"), FileStatus::Modified, 1, vec![hunk(1, 1, "x")]),
        file(Some("a.rs"), Some("a.rs"), FileStatus::Modified, 2, vec![hunk(1, 1, "x")]),
    ];
    let ignored =
        vec![file(Some("a.rs"), Some("a.rs"), FileStatus::Modified, 3, vec![hunk(2, 2, "x")])];
    let selected = select_auto_diff_files(&policy(), normal, ignored).unwrap();
    assert_eq!(selected.len(), 1);
    assert_eq!(selected[0].content_hash, 3);
}

#[test]
fn a_record_with_another_status_does_not_match() {
    let normal =
        vec![file(Some("a.rs"), Some("a.rs"), FileStatus::Renamed, 1, vec![hunk(1, 1, "x")])];
    let ignored =
        vec![file(Some("a.rs"), Some("a.rs"), FileStatus::Modified, 3, vec![hunk(2, 2, "x")])];
    let err = select_auto_diff_files(&policy(), normal, ignored).unwrap_err();
    assert!(matches!(err, TuicrError::VcsCommand(ref message)
        if message == "auto whitespace selection could not match a.rs (R)"));
}

#[test]
fn the_latest_override_decides() {
    let rust = file(None, Some("x.rs"), FileStatus::Added, 1, Vec::new());
    let policy = policy().with_overrides(vec![("rs".into(), false), ("rs".into(), true)]);
    assert!(policy.ignores_diff_file(&rust));
    let pathless = file(None, None, FileStatus::Added, 1, Vec::new());
    assert!(!policy.ignores_diff_file(&pathless));
}

#[test]
fn extensions_follow_the_last_path_component() {
    assert_eq!(comparison_extension(None, None), None);
    assert_eq!(comparison_extension(Some("a.py"), None), Some("py".into()));
    assert_eq!(comparison_extension(None, Some("dir.d/file")), None);
    assert_eq!(comparison_extension(None, Some("dir/file.c/")), Some("c".into()));
    assert_eq!(comparison_extension(None, Some("file.")), Some("".into()));
    assert_eq!(comparison_extension(None, Some("..")), None);
}
