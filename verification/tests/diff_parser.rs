use tuicr::diff_parser::parse_file_patches;
use tuicr::error::TuicrError;
use tuicr::git_patch::git_fixture_file_patches;
use tuicr::model::{
    DiffFile, DiffHunk, DiffLine, FilePatch, FileStatus, LineOrigin, Rgb, Span, SpanStyle,
};
use tuicr::syntax::{color_all_hunks, DiffBackgrounds, SyntaxHighlighter};

fn hash(hunks: &Vec<DiffHunk>) -> u64 {
    hunks.len() as u64
}

fn patch_of(old: &str, new: &str, status: FileStatus, patch: &str) -> FilePatch {
    FilePatch::new(
        Some(old.to_string()),
        Some(new.to_string()),
        status,
        patch.to_string(),
    )
}

fn parse(patch: &str) -> Result<Vec<DiffFile>, TuicrError> {
    parse_file_patches(
        vec![patch_of("file.txt", "file.txt", FileStatus::Modified, patch)],
        &hash,
    )
}

fn message(error: TuicrError) -> String {
    match error {
        TuicrError::VcsCommand(message) => message,
        other => panic!("unexpected error: {other:?}"),
    }
}

#[test]
fn returns_no_changes_for_empty_patch_set() {
    assert!(matches!(
        parse_file_patches(Vec::new(), &hash),
        Err(TuicrError::NoChanges)
    ));
}

#[test]
fn uses_structured_metadata_instead_of_display_headers() {
    let patch = r#"diff --git \"a/\\346\\227\\245.txt\" \"b/\\346\\227\\245.txt\"
--- \"a/\\346\\227\\245.txt\"
+++ \"b/\\346\\227\\245.txt\"
@@ -1 +1 @@
-old
+new
"#;
    let expected = "日.txt".to_string();
    let files = parse_file_patches(
        vec![patch_of(&expected, &expected, FileStatus::Modified, patch)],
        &hash,
    )
    .unwrap();

    assert_eq!(files[0].old_path.as_ref(), Some(&expected));
    assert_eq!(files[0].new_path.as_ref(), Some(&expected));
}

#[test]
fn keeps_deleted_lines_whose_content_looks_like_headers() {
    let files = parse("@@ -1,5 +1,2 @@\n----\n-title: hello\n----\n intro\n-old body\n+new body\n")
        .unwrap();
    let lines = &files[0].hunks[0].lines;

    assert_eq!(lines.len(), 6);
    assert_eq!(lines[0].content, "---");
    assert_eq!(lines[0].old_lineno, Some(1));
    assert_eq!(lines[3].old_lineno, Some(4));
    assert_eq!(lines[4].old_lineno, Some(5));
}

#[test]
fn keeps_added_lines_whose_content_starts_with_plus_signs() {
    let files = parse("@@ -1,2 +1,3 @@\n line\n-old\n+++i;\n+ tail\n").unwrap();
    let lines = &files[0].hunks[0].lines;

    assert_eq!(lines.len(), 4);
    assert_eq!(lines[2].content, "++i;");
    assert_eq!(lines[2].new_lineno, Some(2));
    assert_eq!(lines[3].new_lineno, Some(3));
}

#[test]
fn parses_multiple_hunks_by_declared_counts() {
    let files =
        parse("metadata\n@@ -1 +1 @@ first\n-old\n+new\n@@ -10,2 +10,2 @@ second\n a\n-b\n+c\n")
            .unwrap();

    assert_eq!(files[0].hunks.len(), 2);
    assert_eq!(files[0].hunks[1].lines[1].old_lineno, Some(11));
    assert_eq!(files[0].hunks[1].lines[2].new_lineno, Some(11));
}

#[test]
fn skips_no_newline_markers_without_consuming_a_side() {
    let files = parse(
        "@@ -1 +1 @@\n-old\n\\ No newline at end of file\n+new\n\\ No newline at end of file\n",
    )
    .unwrap();

    assert_eq!(files[0].hunks[0].lines.len(), 2);
}

#[test]
fn rejects_truncated_hunks_instead_of_stealing_the_next_header() {
    let error = parse("@@ -1,2 +1,2 @@\n a\n@@ -5 +5 @@\n-b\n+c\n").unwrap_err();
    assert!(message(error).contains("unprefixed body line"));
}

#[test]
fn rejects_malformed_ranges_instead_of_defaulting_to_line_one() {
    let error = parse("@@ -wat +1 @@\n-old\n+new\n").unwrap_err();
    assert!(message(error).contains("malformed hunk header"));
}

#[test]
fn rejects_body_lines_beyond_the_declared_counts() {
    let error = parse("@@ -1 +1 @@\n-old\n+new\n+extra\n").unwrap_err();
    assert!(message(error).contains("outside its declared hunk range"));
}

#[test]
fn rejects_line_ranges_that_would_overflow() {
    let error = parse("@@ -4294967295,2 +1 @@\n-a\n-b\n+c\n").unwrap_err();
    assert!(message(error).contains("overflows"));
}

#[test]
fn binary_and_too_large_files_do_not_parse_patch_text() {
    let mut binary = patch_of(
        "image.png",
        "image.png",
        FileStatus::Modified,
        "GIT binary patch\n@@ malformed",
    );
    binary.is_binary = true;
    let mut large = patch_of("large.txt", "large.txt", FileStatus::Modified, "@@ malformed");
    large.is_too_large = true;

    let files = parse_file_patches(vec![binary, large], &hash).unwrap();
    assert!(files[0].is_binary);
    assert!(files[0].hunks.is_empty());
    assert!(files[1].is_too_large);
    assert!(files[1].hunks.is_empty());
}

const PLAIN: Rgb = Rgb { r: 211, g: 208, b: 200 };
const KEYWORD: Rgb = Rgb { r: 204, g: 153, b: 204 };
const FUNCTION: Rgb = Rgb { r: 102, g: 153, b: 204 };
const PARAMETER: Rgb = Rgb { r: 242, g: 119, b: 122 };
const NUMBER: Rgb = Rgb { r: 249, g: 145, b: 87 };

/// The tokens of the lines whose colours are checked; any other line is one token.
fn tokens(line: &str) -> Vec<(&str, Rgb)> {
    match line {
        "pub fn alpha(x: u32) -> u32 {" => vec![
            ("pub", KEYWORD),
            (" ", PLAIN),
            ("fn", KEYWORD),
            (" ", PLAIN),
            ("alpha", FUNCTION),
            ("(", PLAIN),
            ("x", PARAMETER),
            (":", PLAIN),
            (" ", PLAIN),
            ("u32", KEYWORD),
            (")", PLAIN),
            (" ", PLAIN),
            ("->", PLAIN),
            (" ", PLAIN),
            ("u32", KEYWORD),
            (" ", PLAIN),
            ("{", PLAIN),
        ],
        "    x + 1" => vec![("    x ", PLAIN), ("+", PLAIN), (" ", PLAIN), ("1", NUMBER)],
        other => vec![(other, PLAIN)],
    }
}

fn grammar(path: &str, lines: &Vec<String>) -> Option<Vec<Option<Vec<Span>>>> {
    if !path.ends_with(".rs") {
        return None;
    }
    let spans = lines
        .iter()
        .map(|line| {
            Some(
                tokens(line)
                    .into_iter()
                    .map(|(text, color)| Span {
                        style: SpanStyle { fg: Some(color), bg: None },
                        text: text.to_string(),
                    })
                    .collect(),
            )
        })
        .collect();
    Some(spans)
}

fn color(rgb: Option<Rgb>) -> String {
    match rgb {
        Some(Rgb { r, g, b }) => format!("Rgb({r}, {g}, {b})"),
        None => "-".to_string(),
    }
}

fn span_signature(line: &DiffLine) -> String {
    match line.coloring.spans() {
        None => "<uncolored>".to_string(),
        Some(spans) => spans
            .iter()
            .map(|s| format!("{:?}[{}/{}]", s.text, color(s.style.fg), color(s.style.bg)))
            .collect::<Vec<_>>()
            .join(" "),
    }
}

#[test]
fn should_preserve_shared_parser_hunk_colors() {
    let body = "@@ -1,5 +1,6 @@\n \
                use std::collections::HashMap;\n \
                \n \
                pub fn alpha(x: u32) -> u32 {\n\
                -    x + 1\n\
                +    let total = x * 2;\n\
                +    total\n \
                }\n\
                @@ -10,3 +11,4 @@\n \
                pub fn gamma() -> bool {\n\
                -    true\n\
                +    let m: HashMap<u8, u8> = HashMap::new();\n\
                +    m.is_empty()\n \
                }\n";

    let mut files = parse_file_patches(
        vec![patch_of("sample.rs", "sample.rs", FileStatus::Modified, body)],
        &hash,
    )
    .expect("parse should succeed");
    let highlighter = SyntaxHighlighter {
        grammar,
        backgrounds: DiffBackgrounds {
            deletion: Rgb { r: 45, g: 0, b: 0 },
            addition: Rgb { r: 0, g: 35, b: 12 },
        },
    };
    color_all_hunks(&mut files, &highlighter);

    let hunks: usize = files.iter().map(|f| f.hunks.len()).sum();
    assert_eq!(
        hunks, 2,
        "fixture must produce two hunks so the per-hunk loop runs more than once; got {hunks}"
    );

    let signature_of = |origin: LineOrigin, content: &str| -> String {
        files
            .iter()
            .flat_map(|f| f.hunks.iter())
            .flat_map(|h| h.lines.iter())
            .find(|l| l.origin == origin && l.content == content)
            .map(span_signature)
            .unwrap_or_else(|| panic!("no {origin:?} line with content {content:?}"))
    };

    // A deletion, which is the only origin that reads the old-side sequence.
    let deletion = signature_of(LineOrigin::Deletion, "    x + 1");
    assert_ne!(deletion, "<uncolored>");
    assert_eq!(
        deletion,
        r#""    x "[Rgb(211, 208, 200)/Rgb(45, 0, 0)] "+"[Rgb(211, 208, 200)/Rgb(45, 0, 0)] " "[Rgb(211, 208, 200)/Rgb(45, 0, 0)] "1"[Rgb(249, 145, 87)/Rgb(45, 0, 0)]"#
    );

    let context = signature_of(LineOrigin::Context, "pub fn alpha(x: u32) -> u32 {");
    assert_ne!(context, "<uncolored>");
    assert_eq!(
        context,
        r#""pub"[Rgb(204, 153, 204)/-] " "[Rgb(211, 208, 200)/-] "fn"[Rgb(204, 153, 204)/-] " "[Rgb(211, 208, 200)/-] "alpha"[Rgb(102, 153, 204)/-] "("[Rgb(211, 208, 200)/-] "x"[Rgb(242, 119, 122)/-] ":"[Rgb(211, 208, 200)/-] " "[Rgb(211, 208, 200)/-] "u32"[Rgb(204, 153, 204)/-] ")"[Rgb(211, 208, 200)/-] " "[Rgb(211, 208, 200)/-] "->"[Rgb(211, 208, 200)/-] " "[Rgb(211, 208, 200)/-] "u32"[Rgb(204, 153, 204)/-] " "[Rgb(211, 208, 200)/-] "{"[Rgb(211, 208, 200)/-]"#
    );
}

// Exact messages, one for each way in which a patch can be wrong.

fn fails_with(patch: &str, detail: &str) {
    let error = parse(patch).unwrap_err();
    assert_eq!(message(error), format!("invalid unified diff for file.txt: {detail}"));
}

#[test]
fn every_parse_error_has_its_message() {
    fails_with("@@ -a +1 @@\n", "malformed hunk header `@@ -a +1 @@`");
    fails_with("@@ -1 +1\n", "malformed hunk header `@@ -1 +1`");
    fails_with("@@ -1 +1 +2 @@\n", "malformed hunk header `@@ -1 +1 +2 @@`");
    fails_with("@@ -1,4294967296 +1 @@\n", "malformed hunk header `@@ -1,4294967296 +1 @@`");
    fails_with(
        "@@ -1 +4294967295,2 @@\n",
        "hunk range overflows a 32-bit line number in `@@ -1 +4294967295,2 @@`",
    );
    fails_with(
        "@@ -1,3 +1,12 @@\n a\n",
        "hunk `@@ -1,3 +1,12 @@` ended early (missing 2 old and 11 new lines)",
    );
    fails_with(
        "@@ -1,2 +1 @@\n+a\n+b\n",
        "hunk `@@ -1,2 +1 @@` contains too many new-side lines",
    );
    fails_with(
        "@@ -1 +1,2 @@\n-a\n-b\n",
        "hunk `@@ -1 +1,2 @@` contains too many old-side lines",
    );
    fails_with(
        "@@ -1 +1,2 @@\n-a\n b\n",
        "hunk `@@ -1 +1,2 @@` contains too many context lines",
    );
    fails_with(
        "@@ -1 +1 @@\n\n",
        "hunk `@@ -1 +1 @@` contains an unprefixed body line ``",
    );
    fails_with("@@@ -1 +1 @@@\n", "unsupported or malformed hunk header `@@@ -1 +1 @@@`");
    fails_with(
        "@@ -1 +1 @@\n-a\n+b\n c\n",
        "body line appears outside its declared hunk range: ` c`",
    );
}

#[test]
fn a_patch_without_paths_is_an_error() {
    let patch = FilePatch::new(None, None, FileStatus::Modified, String::new());
    let error = parse_file_patches(vec![patch], &hash).unwrap_err();
    assert_eq!(
        message(error),
        "structured diff entry has neither an old nor a new path"
    );
}

#[test]
fn the_first_failing_patch_is_reported() {
    let good = patch_of("a.txt", "a.txt", FileStatus::Modified, "@@ -1 +1 @@\n-a\n+b\n");
    let bad = patch_of("b.txt", "b.txt", FileStatus::Modified, "@@ bad @@\n");
    let worse = patch_of("c.txt", "c.txt", FileStatus::Modified, "@@worse\n");
    let error = parse_file_patches(vec![good, bad, worse], &hash).unwrap_err();
    assert_eq!(
        message(error),
        "invalid unified diff for b.txt: malformed hunk header `@@ bad @@`"
    );
}

#[test]
fn patches_are_parsed_one_by_one_in_order() {
    let patches = || {
        vec![
            patch_of("a.txt", "a.txt", FileStatus::Modified, "@@ -1 +1 @@\n-a\n+b\n"),
            patch_of("b.txt", "c.txt", FileStatus::Renamed, "@@ -5,2 +5,2 @@\n x\n-y\n+z\n"),
            patch_of("d.txt", "d.txt", FileStatus::Modified, "@@ -2 +2 @@\n-e\n+f\n"),
        ]
    };
    let together = parse_file_patches(patches(), &hash).unwrap();
    let apart: Vec<_> = patches()
        .into_iter()
        .flat_map(|patch| parse_file_patches(vec![patch], &hash).unwrap())
        .collect();
    assert_eq!(together.len(), 3);
    assert_eq!(format!("{together:?}"), format!("{apart:?}"));
    assert_eq!(together[1].new_path.as_deref(), Some("c.txt"));
}

#[test]
fn a_range_may_end_at_the_largest_line_number() {
    let files = parse("@@ -4294967295 +4294967294,2 @@\n-a\n+b\n+c\n").unwrap();
    let lines = &files[0].hunks[0].lines;
    assert_eq!(lines[0].old_lineno, Some(4294967295));
    assert_eq!(lines[2].new_lineno, Some(4294967295));
}

#[test]
fn ranges_may_carry_plus_signs_and_counts_may_be_zero() {
    let files = parse("@@ -0,0 +1,+2 @@ fn main\n+\ta\r\n+b\n").unwrap();
    let hunk = &files[0].hunks[0];
    assert_eq!(hunk.header, "@@ -0,0 +1,+2 @@ fn main");
    assert_eq!((hunk.old_start, hunk.old_count), (0, 0));
    assert_eq!((hunk.new_start, hunk.new_count), (1, 2));
    assert_eq!(hunk.lines[0].content, "    a");
    assert_eq!(hunk.lines[1].content, "b");
    assert!(hunk.lines.iter().all(|l| l.coloring.is_pending()));
    assert_eq!(files[0].content_hash, 1);
    assert!(!files[0].is_commit_message);
}

#[test]
fn written_hunks_read_back_with_consecutive_numbers() {
    let files = parse("@@ -7,3 +9,3 @@\n a\n-b\n+c\n d\n@@ -20 +22 @@\n-e\n+f\n").unwrap();
    let numbers: Vec<(Option<u32>, Option<u32>)> = files[0]
        .hunks
        .iter()
        .flat_map(|h| h.lines.iter())
        .map(|l| (l.old_lineno, l.new_lineno))
        .collect();
    assert_eq!(
        numbers,
        vec![
            (Some(7), Some(9)),
            (Some(8), None),
            (None, Some(10)),
            (Some(9), Some(11)),
            (Some(20), None),
            (None, Some(22)),
        ]
    );
}

#[test]
fn fixture_patches_state_paths_and_status() {
    let blocks = vec![
        "diff --git a/x.rs b/x.rs\n@@ -1 +1 @@\n-a\n+b\n".to_string(),
        "diff --git a/n.rs b/n.rs\nnew file mode 100644\n@@ -0,0 +1 @@\n+b\n".to_string(),
        "diff --git a/d.rs b/d.rs\ndeleted file mode 100644\n@@ -1 +0,0 @@\n-b\n".to_string(),
        "diff --git a/o.rs b/p.rs\nrename from old.rs\nrename to new.rs\n".to_string(),
        "diff --git a/s.rs b/t.rs\ncopy from src.rs\ncopy to dst.rs\n".to_string(),
    ];
    let patches = git_fixture_file_patches(&blocks);
    let seen: Vec<(Option<&str>, Option<&str>, FileStatus)> = patches
        .iter()
        .map(|p| (p.old_path.as_deref(), p.new_path.as_deref(), p.status))
        .collect();
    assert_eq!(
        seen,
        vec![
            (Some("x.rs"), Some("x.rs"), FileStatus::Modified),
            (None, Some("n.rs"), FileStatus::Added),
            (Some("d.rs"), None, FileStatus::Deleted),
            (Some("old.rs"), Some("new.rs"), FileStatus::Renamed),
            (Some("src.rs"), Some("dst.rs"), FileStatus::Copied),
        ]
    );
    assert_eq!(patches[0].patch, blocks[0]);

    let files = parse_file_patches(patches, &hash).unwrap();
    assert_eq!(files[0].hunks.len(), 1);
    assert_eq!(files[3].hunks.len(), 0);
}
