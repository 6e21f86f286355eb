//! The diff model: files, hunks, lines and the colouring of a line.

use vstd::prelude::*;
use crate::text;

verus! {

/// Where a line of a hunk comes from.
#[derive(Debug, Clone, Copy, PartialEq, Eq, Structural)]
pub enum LineOrigin {
    Context,
    Addition,
    Deletion,
}

/// One side of a comparison.
#[derive(Debug, Clone, Copy, PartialEq, Eq, Structural)]
pub enum LineSide {
    Old,
    New,
}

/// What happened to a file.
#[derive(Debug, Clone, Copy, PartialEq, Eq, Structural)]
pub enum FileStatus {
    Added,
    Modified,
    Deleted,
    Renamed,
    Copied,
}

impl FileStatus {
    /// The letter that stands for a status.
    pub open spec fn letter(self) -> char {
        match self {
            FileStatus::Added => 'A',
            FileStatus::Modified => 'M',
            FileStatus::Deleted => 'D',
            FileStatus::Renamed => 'R',
            FileStatus::Copied => 'C',
        }
    }

    /// The letter that stands for this status.
    pub fn as_char(self) -> (res: char)
        ensures
            res == self.letter(),
    {
        match self {
            FileStatus::Added => 'A',
            FileStatus::Modified => 'M',
            FileStatus::Deleted => 'D',
            FileStatus::Renamed => 'R',
            FileStatus::Copied => 'C',
        }
    }
}

/// A colour of 24 bits.
#[derive(Debug, Clone, Copy, PartialEq, Eq, Structural)]
pub struct Rgb {
    pub r: u8,
    pub g: u8,
    pub b: u8,
}

/// The foreground and background of a span.
#[derive(Debug, Clone, Copy, PartialEq, Eq)]
pub struct SpanStyle {
    pub fg: Option<Rgb>,
    pub bg: Option<Rgb>,
}

/// A piece of a line, drawn in one style.
#[derive(Debug, Clone, PartialEq, Eq)]
pub struct Span {
    pub style: SpanStyle,
    pub text: String,
}

/// The view of a span.
pub struct SpanView {
    pub style: SpanStyle,
    pub text: Seq<char>,
}

impl View for Span {
    type V = SpanView;

    open spec fn view(&self) -> SpanView {
        SpanView { style: self.style, text: self.text@ }
    }
}

/// How far the colouring of a line has come.
#[derive(Debug, Clone, PartialEq, Eq)]
pub enum LineColoring {
    /// Nothing has coloured the line yet.
    Pending,
    /// The line was coloured and there is nothing to show.
    Plain,
    /// The line was coloured with these spans.
    Spans(Vec<Span>),
}

/// The view of a line's colouring.
pub enum ColoringView {
    Pending,
    Plain,
    Spans(Seq<SpanView>),
}

impl View for LineColoring {
    type V = ColoringView;

    open spec fn view(&self) -> ColoringView {
        match self {
            LineColoring::Pending => ColoringView::Pending,
            LineColoring::Plain => ColoringView::Plain,
            LineColoring::Spans(spans) => ColoringView::Spans(text::views(spans@)),
        }
    }
}

impl LineColoring {
    /// Whether nothing has coloured the line yet.
    pub fn is_pending(&self) -> (res: bool)
        ensures
            res == (self@ is Pending),
    {
        match self {
            LineColoring::Pending => true,
            _ => false,
        }
    }

    /// The spans of the line, if it has any.
    pub fn spans(&self) -> (res: Option<&Vec<Span>>)
        ensures
            match res {
                Some(spans) => *self == LineColoring::Spans(*spans),
                None => !(self@ is Spans),
            },
    {
        match self {
            LineColoring::Spans(spans) => Some(spans),
            _ => None,
        }
    }
}

/// A line of a hunk.
#[derive(Debug, Clone)]
pub struct DiffLine {
    pub origin: LineOrigin,
    pub content: String,
    pub old_lineno: Option<u32>,
    pub new_lineno: Option<u32>,
    pub coloring: LineColoring,
}

/// The view of a line.
pub struct LineView {
    pub origin: LineOrigin,
    pub content: Seq<char>,
    pub old_lineno: Option<u32>,
    pub new_lineno: Option<u32>,
    pub coloring: ColoringView,
}

impl View for DiffLine {
    type V = LineView;

    open spec fn view(&self) -> LineView {
        LineView {
            origin: self.origin,
            content: self.content@,
            old_lineno: self.old_lineno,
            new_lineno: self.new_lineno,
            coloring: self.coloring@,
        }
    }
}

/// A hunk: its header, the ranges that the header declares, and its lines.
#[derive(Debug, Clone)]
pub struct DiffHunk {
    pub header: String,
    pub lines: Vec<DiffLine>,
    pub old_start: u32,
    pub old_count: u32,
    pub new_start: u32,
    pub new_count: u32,
}

/// The view of a hunk.
pub struct HunkView {
    pub header: Seq<char>,
    pub lines: Seq<LineView>,
    pub old_start: u32,
    pub old_count: u32,
    pub new_start: u32,
    pub new_count: u32,
}

impl View for DiffHunk {
    type V = HunkView;

    open spec fn view(&self) -> HunkView {
        HunkView {
            header: self.header@,
            lines: text::views(self.lines@),
            old_start: self.old_start,
            old_count: self.old_count,
            new_start: self.new_start,
            new_count: self.new_count,
        }
    }
}

/// A changed file.
#[derive(Debug, Clone)]
pub struct DiffFile {
    pub old_path: Option<String>,
    pub new_path: Option<String>,
    pub status: FileStatus,
    pub hunks: Vec<DiffHunk>,
    pub is_binary: bool,
    pub is_too_large: bool,
    pub is_commit_message: bool,
    pub content_hash: u64,
}

/// The view of a file.
pub struct FileView {
    pub old_path: Option<Seq<char>>,
    pub new_path: Option<Seq<char>>,
    pub status: FileStatus,
    pub hunks: Seq<HunkView>,
    pub is_binary: bool,
    pub is_too_large: bool,
    pub is_commit_message: bool,
    pub content_hash: u64,
}

impl View for DiffFile {
    type V = FileView;

    open spec fn view(&self) -> FileView {
        FileView {
            old_path: text::opt_view(self.old_path),
            new_path: text::opt_view(self.new_path),
            status: self.status,
            hunks: text::views(self.hunks@),
            is_binary: self.is_binary,
            is_too_large: self.is_too_large,
            is_commit_message: self.is_commit_message,
            content_hash: self.content_hash,
        }
    }
}

/// The path that a change is shown under: the new one, or the old one where there is no new one.
pub open spec fn shown_path<T>(old_path: Option<T>, new_path: Option<T>) -> Option<T> {
    match new_path {
        Some(path) => Some(path),
        None => old_path,
    }
}

/// The path that a change is shown under.
pub fn shown_path_of<'a>(old_path: &'a Option<String>, new_path: &'a Option<String>) -> (res:
    Option<&'a String>)
    ensures
        match res {
            Some(path) => shown_path(*old_path, *new_path) == Some(*path),
            None => shown_path(*old_path, *new_path) is None,
        },
{
    match new_path {
        Some(path) => Some(path),
        None => match old_path {
            Some(path) => Some(path),
            None => None,
        },
    }
}

impl DiffFile {
    /// The path that the file is shown under.
    pub fn display_path(&self) -> (res: Option<&String>)
        ensures
            match res {
                Some(path) => shown_path(self.old_path, self.new_path) == Some(*path),
                None => shown_path(self.old_path, self.new_path) is None,
            },
    {
        shown_path_of(&self.old_path, &self.new_path)
    }
}

/// A file patch as a backend hands it over: where the file stands, what happened to it, and the
/// text of its hunks.
#[derive(Debug, Clone)]
pub struct FilePatch {
    pub old_path: Option<String>,
    pub new_path: Option<String>,
    pub status: FileStatus,
    pub patch: String,
    pub is_binary: bool,
    pub is_too_large: bool,
}

impl FilePatch {
    /// A patch of a text file.
    pub fn new(
        old_path: Option<String>,
        new_path: Option<String>,
        status: FileStatus,
        patch: String,
    ) -> (res: Self)
        ensures
            res == (FilePatch {
                old_path,
                new_path,
                status,
                patch,
                is_binary: false,
                is_too_large: false,
            }),
    {
        FilePatch { old_path, new_path, status, patch, is_binary: false, is_too_large: false }
    }

    /// The path that the patched file is shown under.
    pub fn display_path(&self) -> (res: Option<&String>)
        ensures
            match res {
                Some(path) => shown_path(self.old_path, self.new_path) == Some(*path),
                None => shown_path(self.old_path, self.new_path) is None,
            },
    {
        shown_path_of(&self.old_path, &self.new_path)
    }
}

} // verus!
