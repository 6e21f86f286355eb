use tuicr::coloring::{AnnotatedLine, App, DiffState, HunkSet};
use tuicr::diff_parser::parse_file_patches;
use tuicr::layout::{self, Area, DrawStep, InputMode, LayoutState};
use tuicr::model::{
    DiffFile, DiffHunk, DiffLine, FilePatch, FileStatus, LineColoring, LineOrigin, Rgb, Span,
    SpanStyle,
};
use tuicr::syntax::{color_hunk, DiffBackgrounds, HighlightedLines, SyntaxHighlighter};

const PLAIN: Rgb = Rgb { r: 211, g: 208, b: 200 };
const KEYWORD: Rgb = Rgb { r: 204, g: 153, b: 204 };
const FUNCTION: Rgb = Rgb { r: 102, g: 153, b: 204 };
const PARAMETER: Rgb = Rgb { r: 242, g: 119, b: 122 };
const NUMBER: Rgb = Rgb { r: 249, g: 145, b: 87 };

/// The tokens of the lines whose colours are checked; any other line is one token.
fn tokens(line: &str) -> Vec<(&str, Rgb)> {
    match line {
        "pub fn alpha(x: u32) -> u32 {" => vec![
            ("pub", KEYWORD),
            (" ", PLAIN),
            ("fn", KEYWORD),
            (" ", PLAIN),
            ("alpha", FUNCTION),
            ("(", PLAIN),
            ("x", PARAMETER),
            (":", PLAIN),
            (" ", PLAIN),
            ("u32", KEYWORD),
            (")", PLAIN),
            (" ", PLAIN),
            ("->", PLAIN),
            (" ", PLAIN),
            ("u32", KEYWORD),
            (" ", PLAIN),
            ("{", PLAIN),
        ],
        "    x + 1" => vec![("    x ", PLAIN), ("+", PLAIN), (" ", PLAIN), ("1", NUMBER)],
        "    x * 2" => vec![("    x ", PLAIN), ("*", PLAIN), (" ", PLAIN), ("2", NUMBER)],
        other => vec![(other, PLAIN)],
    }
}

fn grammar(path: &str, lines: &Vec<String>) -> Option<HighlightedLines> {
    if !path.ends_with(".rs") {
        return None;
    }
    let spans = lines
        .iter()
        .map(|line| {
            Some(
                tokens(line)
                    .into_iter()
                    .map(|(text, color)| Span {
                        style: SpanStyle { fg: Some(color), bg: None },
                        text: text.to_string(),
                    })
                    .collect(),
            )
        })
        .collect();
    Some(spans)
}

fn highlighter() -> SyntaxHighlighter<fn(&str, &Vec<String>) -> Option<HighlightedLines>> {
    SyntaxHighlighter {
        grammar,
        backgrounds: DiffBackgrounds {
            deletion: Rgb { r: 45, g: 0, b: 0 },
            addition: Rgb { r: 0, g: 35, b: 12 },
        },
    }
}

/// A file whose one hunk nothing has coloured yet, the state parsing leaves it in.
fn uncolored_file(path: &str, lines_per_file: usize) -> DiffFile {
    DiffFile {
        old_path: Some(path.to_string()),
        new_path: Some(path.to_string()),
        status: FileStatus::Modified,
        hunks: vec![DiffHunk {
            header: format!("@@ -1,{lines_per_file} +1,{lines_per_file} @@"),
            lines: (0..lines_per_file)
                .map(|n| DiffLine {
                    origin: LineOrigin::Context,
                    content: format!("let line_{n} = {n};"),
                    old_lineno: Some(n as u32 + 1),
                    new_lineno: Some(n as u32 + 1),
                    coloring: LineColoring::Pending,
                })
                .collect(),
            old_start: 1,
            old_count: lines_per_file as u32,
            new_start: 1,
            new_count: lines_per_file as u32,
        }],
        is_binary: false,
        is_too_large: false,
        is_commit_message: false,
        content_hash: 0,
    }
}

/// The rows that show files one below the other.
fn rows(files: &[DiffFile]) -> Vec<AnnotatedLine> {
    let mut rows = Vec::new();
    for (file_idx, file) in files.iter().enumerate() {
        rows.push(AnnotatedLine::FileHeader);
        for (hunk_idx, hunk) in file.hunks.iter().enumerate() {
            rows.push(AnnotatedLine::HunkHeader { file_idx, hunk_idx });
            for _ in &hunk.lines {
                rows.push(AnnotatedLine::DiffLine { file_idx, hunk_idx });
            }
        }
        rows.push(AnnotatedLine::Spacing);
    }
    rows
}

fn app_with(files: Vec<DiffFile>) -> App {
    App {
        line_annotations: rows(&files),
        diff_files: files,
        diff_state: DiffState { scroll_offset: 0 },
        colored_hunks: HunkSet::new(),
    }
}

/// Height of the terminal that frames are planned for.
const TEST_TERMINAL_HEIGHT: u16 = 24;

/// Plans a frame and takes its colouring steps.
fn draw(app: &mut App) {
    let state = LayoutState {
        input_mode: InputMode::Normal,
        command_return_mode: InputMode::Normal,
        overlay_return_mode: InputMode::Normal,
        searching_help: false,
        has_inline_commit_selector: false,
        review_commits: 0,
        show_file_list: true,
        comment_items: 0,
    };
    let frame = Area { x: 0, y: 0, width: 120, height: TEST_TERMINAL_HEIGHT };
    for step in layout::render(&state, frame).steps {
        if let DrawStep::ColorVisibleHunks(height) = step {
            app.color_visible_hunks(height as usize, &highlighter());
        }
    }
}

fn is_colored(app: &App, file_idx: usize) -> bool {
    app.diff_files[file_idx].hunks[0]
        .lines
        .iter()
        .any(|l| l.coloring.spans().is_some())
}

#[test]
fn should_color_the_hunks_on_screen_and_leave_distant_ones_alone() {
    let files = (0..40)
        .map(|i| uncolored_file(&format!("src/f{i}.rs"), 20))
        .collect();
    let mut app = app_with(files);

    draw(&mut app);

    assert!(is_colored(&app, 0), "the first file is on screen");
    assert!(!is_colored(&app, 39), "the last file is 800 rows away");
}

#[test]
fn should_not_revisit_a_hunk_no_grammar_can_color() {
    let mut app = app_with(vec![uncolored_file("notes.zzzzz", 5)]);

    assert_eq!(
        app.color_visible_hunks(24, &highlighter()),
        1,
        "first pass visits the hunk"
    );
    assert_eq!(app.color_visible_hunks(24, &highlighter()), 0, "second pass skips it");
}

#[test]
fn should_revisit_hunks_after_the_annotations_are_rebuilt() {
    // A rebuild follows every replacement of the diff, so hunk indices recorded
    // before it may name different hunks now.
    let mut app = app_with(vec![uncolored_file("notes.zzzzz", 5)]);
    app.color_visible_hunks(24, &highlighter());

    app.rebuild_annotations(rows(&app.diff_files.clone()));

    assert_eq!(app.color_visible_hunks(24, &highlighter()), 1);
}

/// One `HunkHeader` per index, so the expected result for any window `[start, end)`
/// is that range of `(index, 0)` pairs.
fn one_hunk_per_annotation(count: usize) -> Vec<AnnotatedLine> {
    (0..count)
        .map(|i| AnnotatedLine::HunkHeader { file_idx: i, hunk_idx: 0 })
        .collect()
}

#[test]
fn coloring_should_compute_the_visible_window_for_each_case() {
    // (name, annotation count, scroll offset, max rows, expected window).
    // Expectations are hand-derived: one screen of margin either side of the viewport.
    let cases: [(&str, usize, usize, usize, std::ops::Range<usize>); 6] = [
        ("offset zero", 10, 0, 3, 0..6),
        ("deep offset with a live backward margin", 100, 50, 10, 40..70),
        ("offset past the end clamps to the bottom", 20, 25, 5, 15..20),
        ("fewer annotations than one screen", 3, 0, 10, 0..3),
        ("no annotations", 0, 0, 10, 0..0),
        ("zero rows still covers one row either side", 10, 5, 0, 4..7),
    ];

    for (name, count, offset, rows, expected) in cases {
        let mut app = app_with(Vec::new());
        app.line_annotations = one_hunk_per_annotation(count);
        app.diff_state.scroll_offset = offset;

        let expected: Vec<(usize, usize)> = expected.map(|i| (i, 0)).collect();
        assert_eq!(app.visible_hunk_indices(rows), expected, "case: {name}");
    }
}

struct Case {
    name: &'static str,
    annotation_count: usize,
    scroll_offset: usize,
    max_rows: usize,
    expected: std::ops::Range<usize>,
}

#[test]
fn color_visible_hunks_tests_should_compute_the_visible_window_for_each_case() {
    let cases = [
        Case {
            name: "offset zero",
            annotation_count: 10,
            scroll_offset: 0,
            max_rows: 3,
            expected: 0..6,
        },
        Case {
            name: "offset deep enough in a long diff for the backward margin to be live",
            annotation_count: 100,
            scroll_offset: 50,
            max_rows: 10,
            expected: 40..70,
        },
        Case {
            name: "offset past the last annotation clamps to the bottom",
            annotation_count: 20,
            scroll_offset: 25,
            max_rows: 5,
            expected: 15..20,
        },
        Case {
            name: "annotation list shorter than one screen",
            annotation_count: 3,
            scroll_offset: 0,
            max_rows: 10,
            expected: 0..3,
        },
        Case {
            name: "empty annotation list",
            annotation_count: 0,
            scroll_offset: 0,
            max_rows: 10,
            expected: 0..0,
        },
        Case {
            name: "zero row count still covers one row's worth either side",
            annotation_count: 10,
            scroll_offset: 5,
            max_rows: 0,
            expected: 4..7,
        },
    ];

    for case in cases {
        let mut app = app_with(Vec::new());
        app.line_annotations = one_hunk_per_annotation(case.annotation_count);
        app.diff_state.scroll_offset = case.scroll_offset;

        let expected: Vec<(usize, usize)> = case.expected.map(|i| (i, 0)).collect();
        assert_eq!(
            app.visible_hunk_indices(case.max_rows),
            expected,
            "case: {}",
            case.name
        );
    }
}

fn color(rgb: Option<Rgb>) -> String {
    match rgb {
        Some(Rgb { r, g, b }) => format!("Some(Rgb({r}, {g}, {b}))"),
        None => "None".to_string(),
    }
}

fn span_signatures(hunk: &DiffHunk) -> Vec<String> {
    hunk.lines
        .iter()
        .map(|line| match line.coloring.spans() {
            None => "<uncolored>".to_string(),
            Some(spans) => spans
                .iter()
                .map(|s| format!("{:?}[{}/{}]", s.text, color(s.style.fg), color(s.style.bg)))
                .collect::<Vec<_>>()
                .join(" "),
        })
        .collect()
}

const PARSE_TIME_SPANS: [&str; 4] = [
    r#""pub"[Some(Rgb(204, 153, 204))/None] " "[Some(Rgb(211, 208, 200))/None] "fn"[Some(Rgb(204, 153, 204))/None] " "[Some(Rgb(211, 208, 200))/None] "alpha"[Some(Rgb(102, 153, 204))/None] "("[Some(Rgb(211, 208, 200))/None] "x"[Some(Rgb(242, 119, 122))/None] ":"[Some(Rgb(211, 208, 200))/None] " "[Some(Rgb(211, 208, 200))/None] "u32"[Some(Rgb(204, 153, 204))/None] ")"[Some(Rgb(211, 208, 200))/None] " "[Some(Rgb(211, 208, 200))/None] "->"[Some(Rgb(211, 208, 200))/None] " "[Some(Rgb(211, 208, 200))/None] "u32"[Some(Rgb(204, 153, 204))/None] " "[Some(Rgb(211, 208, 200))/None] "{"[Some(Rgb(211, 208, 200))/None]"#,
    r#""    x "[Some(Rgb(211, 208, 200))/Some(Rgb(45, 0, 0))] "+"[Some(Rgb(211, 208, 200))/Some(Rgb(45, 0, 0))] " "[Some(Rgb(211, 208, 200))/Some(Rgb(45, 0, 0))] "1"[Some(Rgb(249, 145, 87))/Some(Rgb(45, 0, 0))]"#,
    r#""    x "[Some(Rgb(211, 208, 200))/Some(Rgb(0, 35, 12))] "*"[Some(Rgb(211, 208, 200))/Some(Rgb(0, 35, 12))] " "[Some(Rgb(211, 208, 200))/Some(Rgb(0, 35, 12))] "2"[Some(Rgb(249, 145, 87))/Some(Rgb(0, 35, 12))]"#,
    r#""}"[Some(Rgb(211, 208, 200))/None]"#,
];

fn parse_sample(patch: &str) -> Vec<DiffFile> {
    parse_file_patches(
        vec![FilePatch::new(
            Some("sample.rs".to_string()),
            Some("sample.rs".to_string()),
            FileStatus::Modified,
            patch.to_string(),
        )],
        &|hunks: &Vec<DiffHunk>| hunks.len() as u64,
    )
    .expect("parse")
}

#[test]
fn should_leave_hunks_uncolored_after_the_shared_parser() {
    let files = parse_sample("@@ -1 +1 @@\n-fn a() {}\n+fn b() {}\n");

    assert!(!files.is_empty(), "shared parser: no files parsed");
    for file in &files {
        assert!(file
            .hunks
            .iter()
            .flat_map(|h| &h.lines)
            .all(|l| l.coloring.is_pending()));
    }
}

#[test]
fn should_color_a_hunk_exactly_as_parsing_did() {
    let patch = "@@ -1,3 +1,3 @@\n pub fn alpha(x: u32) -> u32 {\n-    x + 1\n+    x * 2\n }\n";
    let mut files = parse_sample(patch);
    let mut hunk = files.remove(0).hunks.remove(0);

    color_hunk(&mut hunk, "sample.rs", &highlighter());

    assert_eq!(span_signatures(&hunk), PARSE_TIME_SPANS);
}

/// Asserts every hunk-bearing row in `app.line_annotations[start..end]` is coloured, and returns
/// how many such rows it found.
fn assert_range_colored(app: &App, start: usize, end: usize) -> usize {
    let mut checked: usize = 0;
    for annotation in &app.line_annotations[start..end] {
        let Some((file_idx, hunk_idx)) = annotation.hunk_ref() else {
            continue;
        };
        let hunk = &app.diff_files[file_idx].hunks[hunk_idx];
        assert!(
            hunk.lines.iter().all(|l| !l.coloring.is_pending()),
            "hunk {hunk_idx} of file {file_idx} is on screen but was not colored"
        );
        checked += 1;
    }
    checked
}

#[test]
fn should_color_every_hunk_the_first_frame_shows() {
    let mut app = app_with(vec![uncolored_file("src/a.rs", 6), uncolored_file("src/b.rs", 6)]);
    assert!(
        app.diff_files
            .iter()
            .flat_map(|f| f.hunks.iter())
            .all(|h| h.lines.iter().all(|l| l.coloring.is_pending())),
        "fixture must start uncolored, or this test proves nothing"
    );

    draw(&mut app);

    let end = (TEST_TERMINAL_HEIGHT as usize).min(app.line_annotations.len());
    let checked = assert_range_colored(&app, 0, end);
    assert!(checked > 0, "no diff rows were visible, so the test asserted nothing");
}

/// A diff several screens tall, so the colouring window cannot cover all of it.
fn tall_diff(files: usize) -> Vec<DiffFile> {
    (0..files)
        .map(|i| DiffFile {
            old_path: None,
            new_path: Some(format!("src/file_{i}.rs")),
            status: FileStatus::Modified,
            hunks: vec![DiffHunk {
                header: format!("@@ -1,3 +1,3 @@ file {i}"),
                lines: (0..3)
                    .map(|n: u32| DiffLine {
                        origin: LineOrigin::Context,
                        content: format!("pub fn item_{i}_{n}() -> u32 {{ {n} }}"),
                        old_lineno: Some(n + 1),
                        new_lineno: Some(n + 1),
                        coloring: LineColoring::Pending,
                    })
                    .collect(),
                old_start: 1,
                old_count: 3,
                new_start: 1,
                new_count: 3,
            }],
            is_binary: false,
            is_too_large: false,
            is_commit_message: false,
            content_hash: 0,
        })
        .collect()
}

fn first_hunk_header(rows: &[AnnotatedLine]) -> Option<(usize, usize)> {
    rows.iter().find_map(|a| match a {
        AnnotatedLine::HunkHeader { file_idx, hunk_idx } => Some((*file_idx, *hunk_idx)),
        _ => None,
    })
}

#[test]
fn should_color_one_screen_beyond_the_viewport() {
    let mut app = app_with(tall_diff(60));
    draw(&mut app);

    let height = TEST_TERMINAL_HEIGHT as usize;
    let offset = app.diff_state.scroll_offset;
    let margin = &app.line_annotations[offset + height..offset + height * 2];
    let (file_idx, hunk_idx) = first_hunk_header(margin).expect("a hunk starts in the margin");

    assert!(app.diff_files[file_idx].hunks[hunk_idx]
        .lines
        .iter()
        .all(|l| !l.coloring.is_pending()));
}

#[test]
fn should_color_one_screen_behind_the_scroll_offset() {
    let mut app = app_with(tall_diff(80));

    let height = TEST_TERMINAL_HEIGHT as usize;
    let offset = (height * 3).min(app.line_annotations.len().saturating_sub(1));
    app.diff_state.scroll_offset = offset;

    draw(&mut app);

    let margin = &app.line_annotations[offset - height..offset];
    let (file_idx, hunk_idx) = first_hunk_header(margin).expect("a hunk starts in the margin");

    assert!(app.diff_files[file_idx].hunks[hunk_idx]
        .lines
        .iter()
        .all(|l| !l.coloring.is_pending()));
}

#[test]
fn should_leave_hunks_outside_the_viewport_uncolored() {
    let mut app = app_with(tall_diff(60));
    draw(&mut app);

    let total: usize = app.diff_files.iter().map(|f| f.hunks.len()).sum();
    let colored = app
        .diff_files
        .iter()
        .flat_map(|f| f.hunks.iter())
        .filter(|h| h.lines.iter().all(|l| !l.coloring.is_pending()))
        .count();

    assert!(
        colored < total,
        "all {total} hunks were colored for one frame, so nothing is being saved"
    );
}

#[test]
fn hunks_are_listed_once_although_other_rows_interrupt_them() {
    let mut app = app_with(Vec::new());
    app.line_annotations = vec![
        AnnotatedLine::HunkHeader { file_idx: 0, hunk_idx: 0 },
        AnnotatedLine::SideBySideLine { file_idx: 0, hunk_idx: 0 },
        AnnotatedLine::LineComment,
        AnnotatedLine::DiffLine { file_idx: 0, hunk_idx: 0 },
        AnnotatedLine::Expander,
        AnnotatedLine::HunkHeader { file_idx: 0, hunk_idx: 1 },
    ];
    assert_eq!(app.visible_hunk_indices(20), vec![(0, 0), (0, 1)]);
}

#[test]
fn a_visit_settles_pending_lines_and_keeps_the_others() {
    let mut app = app_with(vec![uncolored_file("a.rs", 3)]);
    let kept = Span {
        style: SpanStyle { fg: Some(NUMBER), bg: None },
        text: "kept".to_string(),
    };
    let lines = &mut app.diff_files[0].hunks[0].lines;
    lines[0].coloring = LineColoring::Plain;
    lines[1].coloring = LineColoring::Spans(vec![kept]);
    assert_eq!(app.color_visible_hunks(24, &highlighter()), 1);
    let lines = &app.diff_files[0].hunks[0].lines;
    assert!(matches!(lines[0].coloring, LineColoring::Plain));
    let spans = lines[1].coloring.spans().unwrap();
    assert_eq!(spans.len(), 1);
    assert_eq!(spans[0].text, "kept");
    let text: String = lines[2].coloring.spans().unwrap().iter().map(|s| s.text.clone()).collect();
    assert_eq!(text, lines[2].content);
    assert_eq!(app.color_visible_hunks(24, &highlighter()), 0);
}

#[test]
fn a_visit_without_a_grammar_settles_the_pending_lines() {
    let mut app = app_with(vec![uncolored_file("a.unknown", 2)]);
    app.diff_files[0].hunks[0].lines[0].coloring = LineColoring::Spans(Vec::new());
    assert_eq!(app.color_visible_hunks(24, &highlighter()), 1);
    let lines = &app.diff_files[0].hunks[0].lines;
    assert!(lines[0].coloring.spans().unwrap().is_empty());
    assert!(matches!(lines[1].coloring, LineColoring::Plain));
}

#[test]
fn a_settled_hunk_counts_as_visited_and_stays() {
    let mut app = app_with(vec![uncolored_file("a.rs", 2)]);
    for line in &mut app.diff_files[0].hunks[0].lines {
        line.coloring = LineColoring::Plain;
    }
    assert_eq!(app.color_visible_hunks(24, &highlighter()), 1);
    assert!(app.diff_files[0].hunks[0]
        .lines
        .iter()
        .all(|l| matches!(l.coloring, LineColoring::Plain)));
}

#[test]
fn colors_do_not_depend_on_what_a_line_had_before() {
    let patch = "@@ -1,3 +1,3 @@\n pub fn alpha(x: u32) -> u32 {\n-    x + 1\n+    x * 2\n }\n";
    let mut hunk = parse_sample(patch).remove(0).hunks.remove(0);
    hunk.lines[0].coloring = LineColoring::Plain;
    hunk.lines[2].coloring = LineColoring::Spans(Vec::new());
    color_hunk(&mut hunk, "sample.rs", &highlighter());
    assert_eq!(span_signatures(&hunk), PARSE_TIME_SPANS);
}

/// Stands for a renderer that scrolls to keep a comment box on a file on screen.
fn draw_comment_on(app: &mut App, file_idx: usize) {
    let rows = app.line_annotations.len();
    let shown = (0..rows).find(|&i| match app.line_annotations[i].hunk_ref() {
        Some((f, _)) => f == file_idx,
        None => false,
    });
    app.diff_state.scroll_offset = shown.expect("the file has a row");
}

/// Plans a frame, takes its colouring steps, draws a comment box, and takes the step that a
/// scroll asks for. Returns how often the diff was drawn.
fn draw_with_comment(app: &mut App, file_idx: usize) -> u32 {
    draw(app);
    let mut drawings: u32 = 0;
    loop {
        let offset = app.diff_state.scroll_offset;
        draw_comment_on(app, file_idx);
        drawings += 1;
        if !app.color_scrolled_view(offset, TEST_TERMINAL_HEIGHT as usize, &highlighter()) {
            return drawings;
        }
    }
}

#[test]
fn coloring_should_color_hunks_revealed_by_comment_input_auto_scroll() {
    let files = (0..80)
        .map(|i| uncolored_file(&format!("src/f{i}.rs"), 20))
        .collect();
    let mut app = app_with(files);
    draw(&mut app);
    let far_file: usize = 60;
    assert!(!is_colored(&app, far_file), "far file must start uncolored");

    assert_eq!(draw_with_comment(&mut app, far_file), 2);

    assert_ne!(app.diff_state.scroll_offset, 0, "the comment box must pull the viewport");
    assert!(is_colored(&app, far_file), "the file the viewport moved to is uncolored");
}

#[test]
fn app_layout_should_color_hunks_revealed_by_comment_input_auto_scroll() {
    let mut app = app_with(tall_diff(80));
    draw(&mut app);

    let far_file: usize = 60;
    assert!(
        app.diff_files[far_file]
            .hunks
            .iter()
            .all(|h| h.lines.iter().all(|l| l.coloring.is_pending())),
        "far file must start uncolored, or this test proves nothing"
    );
    assert_eq!(
        app.diff_state.scroll_offset, 0,
        "far file must start outside the viewport, or opening a comment there \
         would not need to auto-scroll"
    );

    draw_with_comment(&mut app, far_file);

    assert_ne!(
        app.diff_state.scroll_offset, 0,
        "comment auto-scroll did not move the viewport, so this test exercised \
         nothing"
    );

    let height = (TEST_TERMINAL_HEIGHT as usize).max(1);
    let start = app.diff_state.scroll_offset.min(app.line_annotations.len());
    let end = start.saturating_add(height).min(app.line_annotations.len());
    let checked = assert_range_colored(&app, start, end);
    assert!(checked > 0, "no diff rows were visible, so the test asserted nothing");
}

#[test]
fn a_view_that_was_not_scrolled_is_left_alone() {
    let mut app = app_with(vec![uncolored_file("a.rs", 2)]);
    assert!(!app.color_scrolled_view(0, 24, &highlighter()));
    assert!(app.diff_files[0].hunks[0].lines.iter().all(|l| l.coloring.is_pending()));
    assert!(app.color_scrolled_view(1, 24, &highlighter()));
    assert!(app.diff_files[0].hunks[0].lines.iter().all(|l| !l.coloring.is_pending()));
}

#[test]
fn rows_without_a_hunk_to_color_do_not_count() {
    let mut pathless = uncolored_file("a.rs", 2);
    pathless.old_path = None;
    pathless.new_path = None;
    let mut app = app_with(vec![pathless]);
    app.line_annotations = vec![
        AnnotatedLine::HunkHeader { file_idx: 0, hunk_idx: 0 },
        AnnotatedLine::HunkHeader { file_idx: 0, hunk_idx: 7 },
        AnnotatedLine::HunkHeader { file_idx: 9, hunk_idx: 0 },
    ];
    assert_eq!(app.color_visible_hunks(24, &highlighter()), 0);
    assert!(app.colored_hunks.contains((9, 0)));
    assert!(app.diff_files[0].hunks[0].lines[0].coloring.is_pending());
}
