use std::cell::{Cell, RefCell};
use std::collections::{HashMap, HashSet};

use tuicr::backend::{VcsInfo, VcsType};
use tuicr::batch::{parse_batched_files, BatchFetcher, FileBatch, BATCH_BOUNDARY};
use tuicr::contents::FetchSource;
use tuicr::error::TuicrError;
use tuicr::full_file::{
    apply_full_file_spans, apply_highlight_results, chunk_size, collect_highlight_jobs,
    enhance_with_full_file_highlight, highlight_content, highlight_jobs, SideHighlight,
    MAX_HIGHLIGHT_FILE_BYTES,
};
use tuicr::git::GitBackendPreference;
use tuicr::model::{
    DiffFile, DiffHunk, DiffLine, FileStatus, LineColoring, LineOrigin, LineSide, Rgb, Span,
    SpanStyle,
};
use tuicr::syntax::{color_hunk, DiffBackgrounds, HighlightedLines, SyntaxHighlighter};
use tuicr::vcs::{
    apply_container_full_file_highlight, container_file_paths, detect_vcs, slice_context_lines,
    tabify, DetectedBackend,
};
use tuicr::whitespace::DiffWhitespaceMode;

const DELETED: Rgb = Rgb { r: 45, g: 0, b: 0 };
const ADDED: Rgb = Rgb { r: 0, g: 35, b: 12 };

type Backend = DetectedBackend<String, String, String>;

fn backgrounds() -> DiffBackgrounds {
    DiffBackgrounds { deletion: DELETED, addition: ADDED }
}

/// Knows Rust and Vue. The first word of a line has a colour of its own, and every span says on
/// which line of the text it stands.
fn grammar(path: &str, lines: &Vec<String>) -> Option<HighlightedLines> {
    if !path.ends_with(".rs") && !path.ends_with(".vue") {
        return None;
    }
    let mut all = Vec::new();
    for (i, line) in lines.iter().enumerate() {
        let at = line.trim_start().find(' ').unwrap_or(0) + line.len() - line.trim_start().len();
        let span = |text: &str, r: u8| Span {
            style: SpanStyle { fg: Some(Rgb { r, g: i as u8, b: 0 }), bg: None },
            text: text.to_string(),
        };
        if line.is_empty() {
            all.push(None);
        } else {
            all.push(Some(vec![span(&line[..at], 1), span(&line[at..], 2)]));
        }
    }
    Some(all)
}

fn highlighter() -> SyntaxHighlighter<fn(&str, &Vec<String>) -> Option<HighlightedLines>> {
    SyntaxHighlighter { grammar, backgrounds: backgrounds() }
}

fn needs_full_file_highlight(path: &str) -> bool {
    path.ends_with(".vue")
}

#[test]
fn exports_are_accessible() {
    // Discovery is handed to detect_vcs; the rest of its signature is spelled out here.
    let detect: fn(GitBackendPreference, &DiffWhitespaceMode) -> Result<Backend, TuicrError> =
        |preference, mode| {
            let missing = |_: &DiffWhitespaceMode| Err(TuicrError::NotARepository);
            let git = |_: GitBackendPreference, _: &DiffWhitespaceMode| Ok("git".to_string());
            detect_vcs(&missing, &git, &missing, preference, mode)
        };
    let found = detect(GitBackendPreference::Libgit2, &DiffWhitespaceMode::Normal);
    assert!(matches!(found, Ok(DetectedBackend::Git(name)) if name == "git"));

    // VcsInfo can be constructed
    let info = VcsInfo {
        root_path: "/test".to_string(),
        head_commit: "abc".to_string(),
        branch_name: None,
        vcs_type: VcsType::Git,
    };
    assert_eq!(info.head_commit, "abc");
}

#[test]
fn detect_vcs_outside_repo_returns_error() {
    let none = |_: &DiffWhitespaceMode| Err::<&str, TuicrError>(TuicrError::NotARepository);
    let no_git = |_: GitBackendPreference, _: &DiffWhitespaceMode| {
        Err::<&str, TuicrError>(TuicrError::VcsCommand("no git here".to_string()))
    };
    let result = detect_vcs(
        &none,
        &no_git,
        &none,
        GitBackendPreference::Libgit2,
        &DiffWhitespaceMode::Normal,
    );
    match result {
        Ok(_) => panic!("nothing was there to be detected"),
        Err(TuicrError::NotARepository) => {}
        Err(e) => panic!("Unexpected error: {e:?}"),
    }
}

#[test]
fn systems_are_tried_in_order() {
    let tried: Cell<u32> = Cell::new(0);
    for (jj, git, hg, expected, tries) in [
        (true, true, true, "jj", 1),
        (false, true, true, "git", 2),
        (false, false, true, "hg", 3),
    ] {
        tried.set(0);
        let found = |yes: bool| {
            tried.set(tried.get() + 1);
            if yes {
                Ok(())
            } else {
                Err(TuicrError::NotARepository)
            }
        };
        let result = detect_vcs(
            &|_: &DiffWhitespaceMode| found(jj),
            &|preference: GitBackendPreference, _: &DiffWhitespaceMode| {
                assert_eq!(preference, GitBackendPreference::Cli);
                found(git)
            },
            &|_: &DiffWhitespaceMode| found(hg),
            GitBackendPreference::Cli,
            &DiffWhitespaceMode::IgnoreAll,
        );
        let name = match result.unwrap() {
            DetectedBackend::Jujutsu(()) => "jj",
            DetectedBackend::Git(()) => "git",
            DetectedBackend::Mercurial(()) => "hg",
        };
        assert_eq!(name, expected);
        assert_eq!(tried.get(), tries);
    }
}

#[test]
fn slice_context_lines_expands_tabs() {
    let content = "fn main() {\n\tprintln!(\"hi\");\n}";

    let lines = slice_context_lines(content, 2, 2);

    assert_eq!(lines.len(), 1);
    assert_eq!(lines[0].content, "    println!(\"hi\");");
}

#[test]
fn context_lines_stop_at_the_end_of_the_text() {
    let content = "a\nb\r\nc\n";
    let numbers = |start: u32, end: u32| -> Vec<(String, Option<u32>, Option<u32>)> {
        slice_context_lines(content, start, end)
            .into_iter()
            .map(|l| (l.content, l.old_lineno, l.new_lineno))
            .collect()
    };
    assert_eq!(
        numbers(2, 9),
        vec![
            ("b".to_string(), Some(2), Some(2)),
            ("c".to_string(), Some(3), Some(3)),
        ]
    );
    assert_eq!(numbers(1, 4294967295).len(), 3);
    assert_eq!(numbers(0, 3).len(), 0);
    assert_eq!(numbers(3, 2).len(), 0);
    assert_eq!(numbers(4, 9).len(), 0);
    assert_eq!(tabify("\ta\t"), "    a    ");
}

fn vue_diff_file(idx: usize, deleted_line: &str, added_line: &str, target_line: u32) -> DiffFile {
    let path = format!("Comp{idx}.vue");
    let hunk = DiffHunk {
        header: format!("@@ -{target_line} +{target_line} @@"),
        lines: vec![
            DiffLine {
                origin: LineOrigin::Deletion,
                content: deleted_line.to_string(),
                old_lineno: Some(target_line),
                new_lineno: None,
                coloring: LineColoring::Pending,
            },
            DiffLine {
                origin: LineOrigin::Addition,
                content: added_line.to_string(),
                old_lineno: None,
                new_lineno: Some(target_line),
                coloring: LineColoring::Pending,
            },
        ],
        old_start: target_line,
        old_count: 1,
        new_start: target_line,
        new_count: 1,
    };
    DiffFile {
        old_path: Some(path.clone()),
        new_path: Some(path),
        status: FileStatus::Modified,
        hunks: vec![hunk],
        is_binary: false,
        is_too_large: false,
        is_commit_message: false,
        content_hash: 0,
    }
}

fn make_vue_file(idx: usize) -> (DiffFile, String, String) {
    let old = "<template>\n  <div>{{ msg }}</div>\n</template>\n\n<script setup>\n\
               import { ref } from 'vue'\nconst msg = ref('hi')\nconst other = 1\n</script>\n";
    let new = "<template>\n  <div>{{ msg }}</div>\n</template>\n\n<script setup>\n\
               import { ref } from 'vue'\nconst msg = ref('hello')\nconst other = 1\n</script>\n";
    let file = vue_diff_file(idx, "const msg = ref('hi')", "const msg = ref('hello')", 7);
    (file, old.to_string(), new.to_string())
}

fn highlight_n_vue_files(n: usize) -> Vec<DiffFile> {
    let mut files = Vec::with_capacity(n);
    let mut content_map: HashMap<String, (String, String)> = HashMap::new();
    for i in 0..n {
        let (file, old, new) = make_vue_file(i);
        let path = file.new_path.clone().unwrap();
        content_map.insert(path, (old, new));
        files.push(file);
    }

    enhance_with_full_file_highlight(
        &mut files,
        &highlighter(),
        &needs_full_file_highlight,
        &mut FetchSource::new(
            |p: &str| content_map.get(p).map(|(o, _)| o.clone()),
            |p: &str| content_map.get(p).map(|(_, n)| n.clone()),
        ),
    );
    files
}

fn assert_all_lines_highlighted(files: &[DiffFile]) {
    for (i, file) in files.iter().enumerate() {
        for line in &file.hunks[0].lines {
            let spans = line.coloring.spans().unwrap_or_else(|| {
                panic!("file {i} line {:?} should have highlighted spans", line.content)
            });
            let unique_fgs: HashSet<(u8, u8, u8)> = spans
                .iter()
                .filter_map(|s| s.style.fg)
                .map(|c| (c.r, c.g, c.b))
                .collect();
            assert!(
                unique_fgs.len() > 1,
                "file {i} line {:?} should have multiple distinct fg colors, got {unique_fgs:?}",
                line.content
            );
        }
    }
}

#[test]
fn enhance_full_file_highlight_serial_path_one_file() {
    let files = highlight_n_vue_files(1);
    assert_all_lines_highlighted(&files);
}

#[test]
fn enhance_full_file_highlight_parallel_path_many_files() {
    let files = highlight_n_vue_files(12);
    assert_eq!(files.len(), 12);
    assert_all_lines_highlighted(&files);
}

#[test]
fn enhance_full_file_highlight_results_match_input_order() {
    // Each file's highlighted spans must land on that file's hunk lines,
    // not a neighbour's. Distinguishable by line content.
    let files = highlight_n_vue_files(6);
    for (i, file) in files.iter().enumerate() {
        let path = file.new_path.as_ref().unwrap();
        assert_eq!(path, &format!("Comp{i}.vue"));
        let added = file
            .hunks
            .iter()
            .flat_map(|h| &h.lines)
            .find(|l| l.origin == LineOrigin::Addition)
            .expect("addition line");
        assert!(added.coloring.spans().is_some(), "file {i} addition unhighlighted");
    }
}

fn text_of(line: &DiffLine) -> String {
    line.coloring.spans().unwrap().iter().map(|s| s.text.clone()).collect()
}

#[test]
fn lines_take_the_spans_at_their_line_number() {
    let files = highlight_n_vue_files(1);
    let lines = &files[0].hunks[0].lines;
    assert_eq!(text_of(&lines[0]), "const msg = ref('hi')");
    assert_eq!(text_of(&lines[1]), "const msg = ref('hello')");
    for (line, background) in [(&lines[0], DELETED), (&lines[1], ADDED)] {
        for span in line.coloring.spans().unwrap() {
            assert_eq!(span.style.bg, Some(background));
            assert_eq!(span.style.fg.unwrap().g, 6);
        }
    }
}

#[test]
fn lines_without_their_side_stay_pending() {
    let (file, _, new) = make_vue_file(0);
    let mut files = vec![file];
    enhance_with_full_file_highlight(
        &mut files,
        &highlighter(),
        &needs_full_file_highlight,
        &mut FetchSource::new(
            |_: &str| None::<String>,
            |_: &str| Some(new.clone()),
        ),
    );
    assert!(files[0].hunks[0].lines[0].coloring.is_pending());
    assert!(files[0].hunks[0].lines[1].coloring.spans().is_some());
}

#[test]
fn oversized_sides_are_left_to_the_hunk_pass() {
    let content = |bytes: usize| Some("é".repeat(bytes / 2) + &"x".repeat(bytes % 2));
    let h = highlighter();
    assert!(matches!(
        highlight_content(&h, "a.vue", &content(MAX_HIGHLIGHT_FILE_BYTES)),
        SideHighlight::Lines(_)
    ));
    assert!(matches!(
        highlight_content(&h, "a.vue", &content(MAX_HIGHLIGHT_FILE_BYTES + 1)),
        SideHighlight::Unavailable
    ));
    assert!(matches!(
        highlight_content(&h, "a.vue", &Some("a\0b".to_string())),
        SideHighlight::Nothing
    ));
    assert!(matches!(
        highlight_content(&h, "a.unknown", &Some("a".to_string())),
        SideHighlight::Nothing
    ));
    assert!(matches!(highlight_content(&h, "a.vue", &None), SideHighlight::Unavailable));

    let (file, old, _) = make_vue_file(0);
    let mut files = vec![file];
    let big = "x".repeat(MAX_HIGHLIGHT_FILE_BYTES + 1);
    enhance_with_full_file_highlight(
        &mut files,
        &h,
        &needs_full_file_highlight,
        &mut FetchSource::new(
            |_: &str| Some(old.clone()),
            |_: &str| Some(big.clone()),
        ),
    );
    assert!(files[0].hunks[0].lines[0].coloring.spans().is_some());
    assert!(files[0].hunks[0].lines[1].coloring.is_pending());
}

#[test]
fn lines_that_the_pass_gives_nothing_for_are_plain() {
    let (mut file, old, new) = make_vue_file(0);
    file.hunks[0].lines[0].old_lineno = Some(99);
    file.hunks[0].lines[1].new_lineno = Some(4);
    let mut files = vec![file];
    enhance_with_full_file_highlight(
        &mut files,
        &highlighter(),
        &needs_full_file_highlight,
        &mut FetchSource::new(
            |_: &str| Some(old.clone()),
            |_: &str| Some(new.clone()),
        ),
    );
    for line in &files[0].hunks[0].lines {
        assert!(matches!(line.coloring, LineColoring::Plain));
    }
}

#[test]
fn files_that_do_not_need_the_whole_file_are_left_alone() {
    let fetched: Cell<u32> = Cell::new(0);
    let fetch = |_: &str| {
        fetched.set(fetched.get() + 1);
        Some("x y\n".to_string())
    };
    let (mut rust, _, _) = make_vue_file(0);
    rust.old_path = Some("a.rs".to_string());
    rust.new_path = Some("a.rs".to_string());
    let (mut binary, _, _) = make_vue_file(1);
    binary.is_binary = true;
    let (mut large, _, _) = make_vue_file(2);
    large.is_too_large = true;
    let (mut empty, _, _) = make_vue_file(3);
    empty.hunks = Vec::new();
    let mut files = vec![rust, binary, large, empty];
    enhance_with_full_file_highlight(
        &mut files,
        &highlighter(),
        &needs_full_file_highlight,
        &mut FetchSource::new(fetch, fetch),
    );
    assert_eq!(fetched.get(), 0);
    assert!(files
        .iter()
        .flat_map(|f| &f.hunks)
        .flat_map(|h| &h.lines)
        .all(|l| l.coloring.is_pending()));
}

#[test]
fn each_side_is_fetched_once_and_in_order() {
    let mut files: Vec<DiffFile> = (0..4).map(|i| make_vue_file(i).0).collect();
    files[0].old_path = None;
    files[1].new_path = Some("a.rs".to_string());
    files[2].new_path = None;
    files[3].old_path = Some("Before.vue".to_string());
    let log: RefCell<Vec<String>> = RefCell::new(Vec::new());
    let fetch = |side: &str, path: &str| -> Option<String> {
        log.borrow_mut().push(format!("{side} {path}"));
        None
    };
    let mut source = FetchSource::new(|p: &str| fetch("old", p), |p: &str| fetch("new", p));
    enhance_with_full_file_highlight(
        &mut files,
        &highlighter(),
        &needs_full_file_highlight,
        &mut source,
    );
    assert_eq!(
        log.take(),
        vec!["new Comp0.vue", "old Comp2.vue", "old Before.vue", "new Comp3.vue"]
    );
}

#[test]
fn a_batch_that_lacks_a_file_leaves_its_side_to_the_hunk_pass() {
    let (file, old, _) = make_vue_file(0);
    let mut files = vec![file];
    let mut fetcher = BatchFetcher::new(|rev: &str, _: &Vec<String>| {
        let mut batch = FileBatch::new();
        if rev == "old" {
            batch.insert("./Comp0.vue".to_string(), "a b".to_string());
            batch.insert("Comp0.vue".to_string(), old.clone());
        }
        Ok(batch)
    });
    let read = |_: &str| -> Option<String> { panic!("the working tree is not read") };
    apply_container_full_file_highlight(
        "old",
        Some("new"),
        &mut files,
        &highlighter(),
        &needs_full_file_highlight,
        &mut fetcher,
        &read,
    )
    .unwrap();
    assert_eq!(text_of(&files[0].hunks[0].lines[0]), "const msg = ref('hi')");
    assert!(files[0].hunks[0].lines[1].coloring.is_pending());
}

#[test]
fn the_three_phases_can_be_run_apart() {
    let mut files: Vec<DiffFile> = (0..4).map(|i| make_vue_file(i).0).collect();
    let (_, old, new) = make_vue_file(0);
    let jobs = collect_highlight_jobs(
        &files,
        &|p: &str| p != "Comp1.vue",
        &mut FetchSource::new(
            |p: &str| if p == "Comp2.vue" { None } else { Some(old.clone()) },
            |p: &str| if p == "Comp2.vue" { None } else { Some(new.clone()) },
        ),
    );
    let indices: Vec<usize> = jobs.iter().map(|j| j.file_idx).collect();
    assert_eq!(indices, vec![0, 3]);
    assert_eq!(jobs[1].syntax_path, "Comp3.vue");
    let results = highlight_jobs(&jobs, &highlighter());
    apply_highlight_results(&mut files, &results, &backgrounds());
    let colored: Vec<bool> = files
        .iter()
        .map(|f| f.hunks[0].lines.iter().all(|l| l.coloring.spans().is_some()))
        .collect();
    assert_eq!(colored, vec![true, false, false, true]);

    let (mut file, _, _) = make_vue_file(0);
    apply_full_file_spans(
        &mut file,
        &backgrounds(),
        &SideHighlight::Nothing,
        &SideHighlight::Unavailable,
    );
    assert!(matches!(file.hunks[0].lines[0].coloring, LineColoring::Plain));
    assert!(file.hunks[0].lines[1].coloring.is_pending());
}

#[test]
fn jobs_are_shared_evenly() {
    assert_eq!(chunk_size(8, 0), None);
    assert_eq!(chunk_size(8, 1), None);
    assert_eq!(chunk_size(1, 12), None);
    assert_eq!(chunk_size(0, 12), None);
    assert_eq!(chunk_size(4, 12), Some(3));
    assert_eq!(chunk_size(8, 12), Some(2));
    assert_eq!(chunk_size(5, 12), Some(3));
    assert_eq!(chunk_size(64, 12), Some(1));
}

#[test]
fn container_paths_are_listed_once() {
    let mut files: Vec<DiffFile> = (0..3).map(|i| make_vue_file(i).0).collect();
    files[1].old_path = Some("Comp0.vue".to_string());
    files[2].old_path = None;
    let (mut rust, _, _) = make_vue_file(9);
    rust.new_path = Some("a.rs".to_string());
    files.push(rust);
    assert_eq!(
        container_file_paths(&files, LineSide::Old, &needs_full_file_highlight),
        vec!["Comp0.vue"]
    );
    assert_eq!(
        container_file_paths(&files, LineSide::New, &needs_full_file_highlight),
        vec!["Comp0.vue", "Comp1.vue", "Comp2.vue"]
    );
}

#[test]
fn batches_are_read_back() {
    let sep = format!("\n{BATCH_BOUNDARY}\n");
    let output = format!("{sep}a/b.vue\none\ntwo\n{sep}c.vue\n{sep}d.vue{sep}a//b.vue\nlatest");
    let batch = parse_batched_files(&output);
    assert_eq!(batch.get("a/b.vue").map(String::as_str), Some("latest"));
    assert_eq!(batch.get("./c.vue"), None);
    assert_eq!(batch.get("c.vue").map(String::as_str), Some(""));
    assert_eq!(batch.get("d.vue").map(String::as_str), Some(""));
    assert_eq!(batch.get("one"), None);
    assert!(parse_batched_files("").get("").is_none());

    let one = parse_batched_files(&format!("{sep}x.vue\n\nline\n"));
    assert_eq!(one.get("x.vue").map(String::as_str), Some("\nline\n"));
}

#[test]
fn container_files_are_colored_from_batches() {
    let (file, old, new) = make_vue_file(0);
    let calls: Cell<u32> = Cell::new(0);
    let fetch = |rev: &str, listed: &Vec<String>| {
        calls.set(calls.get() + 1);
        assert_eq!(listed, &vec!["Comp0.vue".to_string()]);
        let mut batch = FileBatch::new();
        match rev {
            "old" => batch.insert("Comp0.vue".to_string(), old.clone()),
            "new" => batch.insert("Comp0.vue".to_string(), new.clone()),
            other => return Err(TuicrError::VcsCommand(format!("no {other}"))),
        }
        Ok(batch)
    };
    let from_workdir: Cell<u32> = Cell::new(0);
    let read = |path: &str| {
        assert_eq!(path, "Comp0.vue");
        from_workdir.set(from_workdir.get() + 1);
        Some(new.clone())
    };
    for (new_rev, reads) in [(Some("new"), 0), (None, 1)] {
        from_workdir.set(0);
        let mut files = vec![file.clone()];
        apply_container_full_file_highlight(
            "old",
            new_rev,
            &mut files,
            &highlighter(),
            &needs_full_file_highlight,
            &mut BatchFetcher::new(fetch),
            &read,
        )
        .unwrap();
        assert_eq!(text_of(&files[0].hunks[0].lines[0]), "const msg = ref('hi')");
        assert_eq!(text_of(&files[0].hunks[0].lines[1]), "const msg = ref('hello')");
        assert_eq!(from_workdir.get(), reads);
    }
    let failures = [("gone", Some("new"), 1), ("gone", None, 1), ("old", Some("gone"), 2)];
    for (old_rev, new_rev, fetches) in failures {
        calls.set(0);
        let mut files = vec![file.clone()];
        let outcome = apply_container_full_file_highlight(
            old_rev,
            new_rev,
            &mut files,
            &highlighter(),
            &needs_full_file_highlight,
            &mut BatchFetcher::new(fetch),
            &read,
        );
        assert!(matches!(outcome, Err(TuicrError::VcsCommand(message)) if message == "no gone"));
        assert_eq!(calls.get(), fetches);
        assert!(files[0].hunks[0].lines.iter().all(|l| l.coloring.is_pending()));
    }
    calls.set(0);
    let mut nothing = vec![file.clone()];
    apply_container_full_file_highlight(
        "gone",
        None,
        &mut nothing,
        &highlighter(),
        &|_: &str| false,
        &mut BatchFetcher::new(fetch),
        &read,
    )
    .unwrap();
    assert_eq!(calls.get(), 0);
}

fn hunk_of(lines: &[(LineOrigin, &str)]) -> DiffHunk {
    DiffHunk {
        header: "@@ -1,3 +1,3 @@".to_string(),
        lines: lines
            .iter()
            .enumerate()
            .map(|(idx, (origin, content))| DiffLine {
                origin: *origin,
                content: (*content).to_string(),
                old_lineno: Some(idx as u32 + 1),
                new_lineno: Some(idx as u32 + 1),
                coloring: LineColoring::Pending,
            })
            .collect(),
        old_start: 1,
        old_count: lines.len() as u32,
        new_start: 1,
        new_count: lines.len() as u32,
    }
}

#[test]
fn should_mark_a_hunk_colored_even_when_no_grammar_matches() {
    // A file with no matching grammar still has to be marked done, or the
    // render-time pass sees `is_pending()` still true and reruns the same
    // split-and-resolve work on every frame the hunk is visible.
    let mut hunk = hunk_of(&[(LineOrigin::Context, "no grammar knows this")]);

    color_hunk(&mut hunk, "mystery.zzzzz", &highlighter());

    assert!(
        hunk.lines.iter().all(|l| !l.coloring.is_pending()),
        "every line must be marked done, or the render-time pass retries this hunk every frame"
    );
    assert!(
        hunk.lines[0].coloring.spans().is_none(),
        "no grammar matched, so there are no spans to show"
    );
}

fn signature(line: &DiffLine) -> String {
    match line.coloring.spans() {
        None => "<uncolored>".to_string(),
        Some(spans) => format!("{spans:?}"),
    }
}

#[test]
fn should_produce_the_same_spans_when_run_twice() {
    // The render-time pass runs every frame and skips hunks already marked
    // done, but a future change that clears the mark must not change what a
    // reader sees.
    let mut hunk = hunk_of(&[
        (LineOrigin::Context, "pub fn alpha(x: u32) -> u32 {"),
        (LineOrigin::Deletion, "    x + 1"),
        (LineOrigin::Addition, "    x * 2"),
    ]);

    color_hunk(&mut hunk, "sample.rs", &highlighter());
    let first: Vec<String> = hunk.lines.iter().map(signature).collect();

    color_hunk(&mut hunk, "sample.rs", &highlighter());
    let second: Vec<String> = hunk.lines.iter().map(signature).collect();

    assert_eq!(first, second, "coloring a hunk twice changed its spans");
    assert!(
        first.iter().all(|s| s != "<uncolored>"),
        "fixture should resolve a grammar; got {first:?}"
    );
}

#[test]
fn only_a_deletion_asks_for_the_old_side() {
    let asked: Cell<u32> = Cell::new(0);
    let h = SyntaxHighlighter {
        grammar: |path: &str, lines: &Vec<String>| {
            asked.set(asked.get() + 1);
            grammar(path, lines)
        },
        backgrounds: backgrounds(),
    };
    let mut hunk = hunk_of(&[(LineOrigin::Context, "a b"), (LineOrigin::Addition, "c d")]);
    color_hunk(&mut hunk, "sample.rs", &h);
    assert_eq!(asked.get(), 1);
    assert_eq!(hunk.lines[1].coloring.spans().unwrap()[0].style.fg.unwrap().g, 1);

    asked.set(0);
    let mut hunk = hunk_of(&[
        (LineOrigin::Addition, "c d"),
        (LineOrigin::Deletion, "e f"),
        (LineOrigin::Context, "a b"),
    ]);
    color_hunk(&mut hunk, "sample.rs", &h);
    assert_eq!(asked.get(), 2);
    // The deletion is the first line of the old side, the context the second of the new side.
    assert_eq!(hunk.lines[1].coloring.spans().unwrap()[0].style.fg.unwrap().g, 0);
    assert_eq!(hunk.lines[2].coloring.spans().unwrap()[0].style.fg.unwrap().g, 1);
    assert_eq!(hunk.lines[2].coloring.spans().unwrap()[0].style.bg, None);
}
