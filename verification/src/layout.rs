//! What a frame shows, and where.
//!
//! A frame is planned before it is drawn: the plan lists the panels in the order in which they
//! are drawn, each with its area. The areas come from ratatui, which divides an area by solving
//! constraints.

use ratatui::layout::{Constraint, Direction, Layout, Rect};
use vstd::prelude::*;

verus! {

/// The fewest rows that the file list keeps.
pub const FILE_LIST_MIN_HEIGHT: u16 = 4;

/// The fewest rows that the comment navigator takes.
pub const COMMENT_NAVIGATOR_MIN_HEIGHT: u16 = 4;

/// The most rows that the comment navigator takes.
pub const COMMENT_NAVIGATOR_MAX_HEIGHT: u16 = 12;

/// The most rows that the inline commit selector takes.
pub const COMMIT_SELECTOR_MAX_HEIGHT: u16 = 8;

/// What the confirm dialog asks.
pub const CONFIRM_PROMPT: &'static str = "Copy review to clipboard?";

/// A part of the screen.
#[derive(Debug, Clone, Copy, PartialEq, Eq, Structural)]
pub struct Area {
    pub x: u16,
    pub y: u16,
    pub width: u16,
    pub height: u16,
}

/// How an area is divided: into rows or into columns.
#[derive(Debug, Clone, Copy, PartialEq, Eq, Structural)]
pub enum Axis {
    Vertical,
    Horizontal,
}

/// The size that a part of a divided area asks for.
#[derive(Debug, Clone, Copy, PartialEq, Eq, Structural)]
pub enum Size {
    Length(u16),
    Min(u16),
    Percentage(u16),
}

/// A sum that stops at the largest coordinate.
pub open spec fn capped_sum(a: u16, b: u16) -> int {
    if a + b < u16::MAX {
        a + b
    } else {
        u16::MAX as int
    }
}

/// Whether a part lies in an area and spans it across the axis along which the area was divided.
pub open spec fn spans(axis: Axis, part: Area, area: Area) -> bool {
    match axis {
        Axis::Vertical => part.x == area.x && part.width == area.width && area.y <= part.y && part.y
            + part.height <= capped_sum(area.y, area.height),
        Axis::Horizontal => part.y == area.y && part.height == area.height && area.x <= part.x
            && part.x + part.width <= capped_sum(area.x, area.width),
    }
}

/// Where a part begins along an axis.
pub open spec fn start_of(axis: Axis, part: Area) -> int {
    match axis {
        Axis::Vertical => part.y as int,
        Axis::Horizontal => part.x as int,
    }
}

/// How long a part is along an axis.
pub open spec fn length_of(axis: Axis, part: Area) -> int {
    match axis {
        Axis::Vertical => part.height as int,
        Axis::Horizontal => part.width as int,
    }
}

/// How much of an area there is to divide along an axis: it stops at the largest coordinate.
pub open spec fn extent_of(axis: Axis, area: Area) -> int {
    match axis {
        Axis::Vertical => capped_sum(area.y, area.height) - area.y,
        Axis::Horizontal => capped_sum(area.x, area.width) - area.x,
    }
}

/// Whether all sizes are lengths, but for the minimum at `k`.
pub open spec fn is_only_minimum(sizes: Seq<Size>, k: int) -> bool {
    &&& 0 <= k < sizes.len()
    &&& sizes[k] matches Size::Min(n) && n <= i16::MAX
    &&& forall|i: int| 0 <= i < sizes.len() && i != k ==> #[trigger] sizes[i] is Length
}

/// The length that a part asks for at least.
pub open spec fn asked_length(size: Size) -> int {
    match size {
        Size::Length(n) => n as int,
        Size::Min(n) => n as int,
        Size::Percentage(_) => 0,
    }
}

/// The length that a part has when `slack` is left over: a minimum takes it all.
pub open spec fn granted_length(size: Size, slack: int) -> int {
    match size {
        Size::Min(n) => n + slack,
        other => asked_length(other),
    }
}

/// The length of the first `i` parts when `slack` is left over.
pub open spec fn granted_before(sizes: Seq<Size>, slack: int, i: int) -> int
    decreases i,
{
    if i <= 0 {
        0
    } else {
        granted_before(sizes, slack, i - 1) + granted_length(sizes[i - 1], slack)
    }
}

/// Whether the parts follow one another from the start of the area, each length as long as it
/// asks for, and the one minimum with what is left over.
pub open spec fn keeps_lengths(axis: Axis, sizes: Seq<Size>, area: Area, parts: Seq<Area>) -> bool {
    let slack = extent_of(axis, area) - granted_before(sizes, 0, sizes.len() as int);
    forall|i: int|
        0 <= i < parts.len() ==> start_of(axis, #[trigger] parts[i]) == start_of(axis, area)
            + granted_before(sizes, slack, i) && length_of(axis, parts[i]) == granted_length(
            sizes[i],
            slack,
        )
}

/// The share of a part, in hundredths.
pub open spec fn share_of(size: Size) -> int {
    match size {
        Size::Percentage(n) => n as int,
        _ => 0,
    }
}

/// The share of the first `i` parts, in hundredths.
pub open spec fn share_before(sizes: Seq<Size>, i: int) -> int
    decreases i,
{
    if i <= 0 {
        0
    } else {
        share_before(sizes, i - 1) + share_of(sizes[i - 1])
    }
}

/// A number of hundredths, rounded to a whole number.
pub open spec fn rounded(hundredths: int) -> int {
    (hundredths + 50) / 100
}

/// Whether the parts follow one another from the start of the area, and each boundary is where
/// the shares up to it end, rounded.
pub open spec fn keeps_shares(axis: Axis, sizes: Seq<Size>, area: Area, parts: Seq<Area>) -> bool {
    let extent = extent_of(axis, area);
    forall|i: int|
        0 <= i < parts.len() ==> start_of(axis, #[trigger] parts[i]) == start_of(axis, area)
            + rounded(share_before(sizes, i) * extent) && start_of(axis, parts[i]) + length_of(
            axis,
            parts[i],
        ) == start_of(axis, area) + rounded(share_before(sizes, i + 1) * extent)
}

/// Whether the first part takes the whole area and leaves the second nothing at its end.
pub open spec fn first_takes_all(axis: Axis, area: Area, parts: Seq<Area>) -> bool {
    let extent = extent_of(axis, area);
    &&& start_of(axis, parts[0]) == start_of(axis, area)
    &&& length_of(axis, parts[0]) == extent
    &&& start_of(axis, parts[1]) == start_of(axis, area) + extent
    &&& length_of(axis, parts[1]) == 0
}

/// Whether these can be the parts of a divided area: one for each size, each spanning the area.
/// Where one minimum stands among lengths and all of them fit, and where percentages add up to
/// the whole, the parts are exactly what the sizes ask for. A single length that does not fit
/// takes all from a minimum of nothing after it.
pub open spec fn is_division(axis: Axis, sizes: Seq<Size>, area: Area, parts: Seq<Area>) -> bool {
    &&& parts.len() == sizes.len()
    &&& forall|i: int| 0 <= i < parts.len() ==> spans(axis, #[trigger] parts[i], area)
    &&& (exists|k: int| is_only_minimum(sizes, k)) && granted_before(sizes, 0, sizes.len() as int)
        <= extent_of(axis, area) ==> keeps_lengths(axis, sizes, area, parts)
    &&& (forall|i: int| 0 <= i < sizes.len() ==> #[trigger] sizes[i] is Percentage) && share_before(
        sizes,
        sizes.len() as int,
    ) == 100 ==> keeps_shares(axis, sizes, area, parts)
    &&& sizes.len() == 2 && sizes[1] == Size::Min(0) && (sizes[0] matches Size::Length(n) && n
        > extent_of(axis, area)) ==> first_takes_all(axis, area, parts)
}

/// Divides an area with `ratatui::layout::Layout::split`, along an axis and with the given
/// constraints, everything else at its default.
///
/// Stated of it: there is one part for each constraint, every part has the position and the size
/// of the whole across the axis, and lies within the whole along it. Where one minimum (which
/// ratatui reads as a signed number of 16 bits) stands among lengths and all of them fit, every
/// length is kept and the minimum takes what is left over. Where there are only percentages and
/// they add up to the whole, every boundary is rounded to the nearest cell. One length that does
/// not fit, with a minimum of nothing after it, takes the whole. In these cases the parts follow
/// one another without gaps. Left unsaid is where parts begin and end along the axis in all other
/// cases, such as several lengths that do not fit: the constraints are then solved in
/// floating point by their strengths, over hash maps that are seeded anew in every process, and
/// ratatui calls the result indeterminate where they leave a choice.
#[verifier::external_body]
fn split_area(axis: Axis, sizes: &Vec<Size>, area: Area) -> (res: Vec<Area>)
    ensures
        is_division(axis, sizes@, area, res@),
{
    let direction = match axis {
        Axis::Vertical => Direction::Vertical,
        Axis::Horizontal => Direction::Horizontal,
    };
    let constraints = sizes.iter().map(|size| match size {
        Size::Length(n) => Constraint::Length(*n),
        Size::Min(n) => Constraint::Min(*n),
        Size::Percentage(n) => Constraint::Percentage(*n),
    });
    let layout = Layout::default().direction(direction).constraints(constraints);
    let Area { x, y, width, height } = area;
    let parts = layout.split(Rect { x, y, width, height });
    parts.iter().map(|r| Area { x: r.x, y: r.y, width: r.width, height: r.height }).collect()
}

/// Makes an area with `ratatui::layout::Rect::new`, which shortens it so that no edge lies past
/// the largest coordinate.
#[verifier::external_body]
fn new_area(x: u16, y: u16, width: u16, height: u16) -> (res: Area)
    ensures
        res.x == x,
        res.y == y,
        res.width == (if x + width <= u16::MAX {
            width as int
        } else {
            u16::MAX - x
        }),
        res.height == (if y + height <= u16::MAX {
            height as int
        } else {
            u16::MAX - y
        }),
{
    let rect = Rect::new(x, y, width, height);
    Area { x: rect.x, y: rect.y, width: rect.width, height: rect.height }
}

/// The row below an area, from `ratatui::layout::Rect::bottom`: the sum of its position and its
/// height, which stops at the largest coordinate.
#[verifier::external_body]
fn bottom_of(area: Area) -> (res: u16)
    ensures
        res == capped_sum(area.y, area.height),
{
    Rect { x: area.x, y: area.y, width: area.width, height: area.height }.bottom()
}

/// What the keys do at the moment.
#[derive(Debug, Clone, Copy, PartialEq, Eq, Structural)]
pub enum InputMode {
    Normal,
    MessageDetails,
    CommitSelect,
    Command,
    Search,
    Help,
    Comment,
    Confirm,
    Summary,
    SubmitResolver,
    SubmitConfirm,
    SubmitActionPicker,
}

/// What the layout of a frame depends on.
#[derive(Debug, Clone, Copy, PartialEq, Eq, Structural)]
pub struct LayoutState {
    pub input_mode: InputMode,
    /// Where a command leads back to.
    pub command_return_mode: InputMode,
    /// Where an overlay leads back to.
    pub overlay_return_mode: InputMode,
    /// Whether a search in the help is being typed.
    pub searching_help: bool,
    pub has_inline_commit_selector: bool,
    pub review_commits: usize,
    pub show_file_list: bool,
    pub comment_items: usize,
}

/// One step of drawing a frame.
#[derive(Debug, Clone, Copy, PartialEq, Eq)]
pub enum DrawStep {
    /// Colours the hunks around a viewport of so many rows.
    ColorVisibleHunks(u16),
    Background(Area),
    MessageDetails,
    CommitSelect,
    /// Forgets where the cursor of the comment input was.
    ForgetCursor,
    Header(Area),
    InlineCommitSelector(Area),
    FileList(Area),
    CommentNavigator(Area),
    Summary(Area),
    DiffView(Area),
    StatusBar(Area),
    CommandCompletion(Area),
    Help,
    /// The confirm dialog with what it asks.
    ConfirmDialog(&'static str),
    SubmitResolver,
    SubmitConfirm,
    SubmitActionPicker,
}

/// Where the panels of the main content are, for the mouse.
#[derive(Debug, Clone, Copy, PartialEq, Eq)]
pub struct PanelAreas {
    pub file_list: Option<Area>,
    pub comment_navigator: Option<Area>,
    pub diff: Area,
    /// Whether there is no inline commit selector, so that its area is forgotten.
    pub forgets_commit_list: bool,
    /// Whether there is no comment navigator, so that its inner area is forgotten.
    pub forgets_comment_navigator: bool,
}

impl LayoutState {
    /// Whether the help is shown: it stays visible while its search prompt is active.
    pub open spec fn shows_help(self) -> bool {
        self.input_mode == InputMode::Help || self.searching_help
    }

    /// Whether the commit selector fills the screen, on its own or below what covers it.
    pub open spec fn selects_commits(self) -> bool {
        ||| self.input_mode == InputMode::CommitSelect
        ||| self.input_mode == InputMode::Command && self.command_return_mode
            == InputMode::CommitSelect
        ||| self.shows_help() && self.overlay_return_mode == InputMode::CommitSelect
    }

    /// Whether the inline commit selector is shown.
    pub open spec fn shows_selector(self) -> bool {
        self.input_mode != InputMode::Summary && self.has_inline_commit_selector
    }

    fn is_help_shown(&self) -> (res: bool)
        ensures
            res == self.shows_help(),
    {
        self.input_mode == InputMode::Help || self.searching_help
    }

    /// Whether the commit selector fills the screen.
    pub fn is_selecting_commits(&self) -> (res: bool)
        ensures
            res == self.selects_commits(),
    {
        self.input_mode == InputMode::CommitSelect || (self.input_mode == InputMode::Command
            && self.command_return_mode == InputMode::CommitSelect) || (self.is_help_shown()
            && self.overlay_return_mode == InputMode::CommitSelect)
    }

    fn is_selector_shown(&self) -> (res: bool)
        ensures
            res == self.shows_selector(),
    {
        self.input_mode != InputMode::Summary && self.has_inline_commit_selector
    }
}

/// The last row of a frame.
pub open spec fn footer_of(frame: Area) -> Area {
    let bottom = capped_sum(frame.y, frame.height);
    let y = if bottom > 0 {
        bottom - 1
    } else {
        0
    };
    Area {
        x: frame.x,
        y: y as u16,
        width: (if frame.x + frame.width <= u16::MAX {
            frame.width as int
        } else {
            u16::MAX - frame.x
        }) as u16,
        height: if frame.height < 1 {
            0
        } else {
            1
        },
    }
}

/// The last row of a frame.
pub fn footer_area(frame: Area) -> (res: Area)
    ensures
        res == footer_of(frame),
{
    let bottom: u16 = bottom_of(frame);
    let y: u16 = if bottom > 0 {
        bottom - 1
    } else {
        0
    };
    let height: u16 = if frame.height < 1 {
        0
    } else {
        1
    };
    new_area(frame.x, y, frame.width, height)
}

/// The height of the inline commit selector: its items and two borders, capped.
pub open spec fn selector_rows(review_commits: usize) -> int {
    if review_commits + 2 < COMMIT_SELECTOR_MAX_HEIGHT {
        review_commits + 2
    } else {
        COMMIT_SELECTOR_MAX_HEIGHT as int
    }
}

/// The height of the inline commit selector.
pub fn commit_selector_height(review_commits: usize) -> (res: u16)
    ensures
        res == selector_rows(review_commits),
{
    let most: u16 = COMMIT_SELECTOR_MAX_HEIGHT - 2;
    if review_commits < most as usize {
        review_commits as u16 + 2
    } else {
        COMMIT_SELECTOR_MAX_HEIGHT
    }
}

/// Whether a column of this height has room for the file list and a comment navigator.
pub open spec fn has_navigator_room(height: u16) -> bool {
    height >= FILE_LIST_MIN_HEIGHT + COMMENT_NAVIGATOR_MIN_HEIGHT
}

/// The height of the comment navigator in a column, where it is shown: its items and two
/// borders, within its own limits and those of the file list above it.
pub open spec fn navigator_rows(comment_items: usize, height: u16) -> Option<int> {
    if comment_items == 0 || !has_navigator_room(height) {
        None
    } else {
        let available = height - FILE_LIST_MIN_HEIGHT;
        let most = if available < COMMENT_NAVIGATOR_MAX_HEIGHT {
            available
        } else {
            COMMENT_NAVIGATOR_MAX_HEIGHT as int
        };
        let desired = comment_items + 2;
        let capped = if desired < most {
            desired
        } else {
            most
        };
        Some(
            if capped > COMMENT_NAVIGATOR_MIN_HEIGHT {
                capped
            } else {
                COMMENT_NAVIGATOR_MIN_HEIGHT as int
            },
        )
    }
}

/// The height of the comment navigator in a column, where it is shown.
pub fn comment_navigator_height(comment_items: usize, height: u16) -> (res: Option<u16>)
    ensures
        match res {
            Some(rows) => navigator_rows(comment_items, height) == Some(rows as int),
            None => navigator_rows(comment_items, height) is None,
        },
{
    if comment_items == 0 || height < FILE_LIST_MIN_HEIGHT + COMMENT_NAVIGATOR_MIN_HEIGHT {
        return None;
    }
    let available: u16 = height - FILE_LIST_MIN_HEIGHT;
    let most: u16 = if available < COMMENT_NAVIGATOR_MAX_HEIGHT {
        available
    } else {
        COMMENT_NAVIGATOR_MAX_HEIGHT
    };
    let capped: u16 = if comment_items < (most - 2) as usize {
        comment_items as u16 + 2
    } else {
        most
    };
    Some(
        if capped > COMMENT_NAVIGATOR_MIN_HEIGHT {
            capped
        } else {
            COMMENT_NAVIGATOR_MIN_HEIGHT
        },
    )
}

/// The comment navigator keeps to its limits and leaves the file list its fewest rows.
pub proof fn law_navigator_leaves_room(comment_items: usize, height: u16)
    ensures
        navigator_rows(comment_items, height) matches Some(rows) ==> {
            &&& COMMENT_NAVIGATOR_MIN_HEIGHT <= rows <= COMMENT_NAVIGATOR_MAX_HEIGHT
            &&& rows + FILE_LIST_MIN_HEIGHT <= height
        },
{
}

/// The sizes into which a frame is divided: a header, the main content and a status bar.
pub open spec fn frame_sizes() -> Seq<Size> {
    seq![Size::Length(1), Size::Min(0), Size::Length(1)]
}

/// The sizes into which the main content is divided below an inline commit selector.
pub open spec fn selector_sizes(state: LayoutState) -> Seq<Size> {
    seq![Size::Length(selector_rows(state.review_commits) as u16), Size::Min(0)]
}

/// The sizes into which the content is divided beside the file list.
pub open spec fn column_sizes() -> Seq<Size> {
    seq![Size::Percentage(20), Size::Percentage(80)]
}

/// The sizes into which the left column is divided above a comment navigator.
pub open spec fn left_column_sizes(rows: int) -> Seq<Size> {
    seq![Size::Min(FILE_LIST_MIN_HEIGHT), Size::Length(rows as u16)]
}

/// How the main content is divided. A division that the state does not ask for is empty.
#[derive(Debug, Clone)]
pub struct ContentDivisions {
    /// The inline commit selector and the content below it.
    pub selector: Vec<Area>,
    /// The left column and the content beside it.
    pub columns: Vec<Area>,
    /// The file list and the comment navigator below it.
    pub left: Vec<Area>,
}

impl LayoutState {
    /// The part of the main content below the inline commit selector.
    pub open spec fn content_area(self, area: Area, divisions: ContentDivisions) -> Area {
        if self.shows_selector() {
            divisions.selector@[1]
        } else {
            area
        }
    }

    /// The height of the comment navigator, where it is shown.
    pub open spec fn navigator(self, divisions: ContentDivisions) -> Option<int> {
        if self.show_file_list {
            navigator_rows(self.comment_items, divisions.columns@[0].height)
        } else {
            None
        }
    }

    /// Whether the main content has all the divisions that the state asks for.
    pub open spec fn has_divisions(self, divisions: ContentDivisions) -> bool {
        &&& self.shows_selector() ==> divisions.selector@.len() == 2
        &&& self.show_file_list ==> divisions.columns@.len() == 2
        &&& self.navigator(divisions) is Some ==> divisions.left@.len() == 2
    }

    /// Whether these can be the divisions of the main content in an area.
    pub open spec fn divides(self, area: Area, divisions: ContentDivisions) -> bool {
        &&& self.shows_selector() ==> is_division(
            Axis::Vertical,
            selector_sizes(self),
            area,
            divisions.selector@,
        )
        &&& self.show_file_list ==> is_division(
            Axis::Horizontal,
            column_sizes(),
            self.content_area(area, divisions),
            divisions.columns@,
        )
        &&& self.navigator(divisions) matches Some(rows) ==> is_division(
            Axis::Vertical,
            left_column_sizes(rows),
            divisions.columns@[0],
            divisions.left@,
        )
    }

    /// The panel that shows the content of a review.
    pub open spec fn content_step(self, area: Area) -> DrawStep {
        if self.input_mode == InputMode::Summary {
            DrawStep::Summary(area)
        } else {
            DrawStep::DiffView(area)
        }
    }

    /// Where the content of a review is shown.
    pub open spec fn review_area(self, area: Area, divisions: ContentDivisions) -> Area {
        if self.show_file_list {
            divisions.columns@[1]
        } else {
            self.content_area(area, divisions)
        }
    }

    /// The steps that draw the main content.
    pub open spec fn content_steps(self, area: Area, divisions: ContentDivisions) -> Seq<DrawStep> {
        let selector = if self.shows_selector() {
            seq![DrawStep::InlineCommitSelector(divisions.selector@[0])]
        } else {
            Seq::empty()
        };
        let left = if !self.show_file_list {
            Seq::empty()
        } else if self.navigator(divisions) is Some {
            seq![
                DrawStep::FileList(divisions.left@[0]),
                DrawStep::CommentNavigator(divisions.left@[1]),
            ]
        } else {
            seq![DrawStep::FileList(divisions.columns@[0])]
        };
        selector + left + seq![self.content_step(self.review_area(area, divisions))]
    }

    /// Where the panels of the main content are.
    pub open spec fn panel_areas(self, area: Area, divisions: ContentDivisions) -> PanelAreas {
        let has_navigator = self.navigator(divisions) is Some;
        PanelAreas {
            file_list: if !self.show_file_list {
                None
            } else if has_navigator {
                Some(divisions.left@[0])
            } else {
                Some(divisions.columns@[0])
            },
            comment_navigator: if has_navigator {
                Some(divisions.left@[1])
            } else {
                None
            },
            diff: self.review_area(area, divisions),
            forgets_commit_list: !self.shows_selector(),
            forgets_comment_navigator: !has_navigator,
        }
    }
}

/// The panel that shows the content of a review.
pub fn render_content_view(state: &LayoutState, area: Area) -> (res: DrawStep)
    ensures
        res == state.content_step(area),
{
    if state.input_mode == InputMode::Summary {
        DrawStep::Summary(area)
    } else {
        DrawStep::DiffView(area)
    }
}

/// How the main content is drawn.
#[derive(Debug, Clone)]
pub struct ContentPlan {
    pub steps: Vec<DrawStep>,
    pub areas: PanelAreas,
}

/// Plans the main content of an area that has been divided.
pub fn plan_content(state: &LayoutState, area: Area, divisions: &ContentDivisions) -> (res:
    ContentPlan)
    requires
        state.has_divisions(*divisions),
    ensures
        res.steps@ == state.content_steps(area, *divisions),
        res.areas == state.panel_areas(area, *divisions),
{
    let mut steps: Vec<DrawStep> = Vec::new();
    let selector = state.is_selector_shown();
    let content_area = if selector {
        steps.push(DrawStep::InlineCommitSelector(divisions.selector[0]));
        divisions.selector[1]
    } else {
        area
    };
    let mut file_list: Option<Area> = None;
    let mut comment_navigator: Option<Area> = None;
    let mut diff = content_area;
    if state.show_file_list {
        let left = divisions.columns[0];
        match comment_navigator_height(state.comment_items, left.height) {
            Some(_) => {
                steps.push(DrawStep::FileList(divisions.left[0]));
                steps.push(DrawStep::CommentNavigator(divisions.left[1]));
                file_list = Some(divisions.left[0]);
                comment_navigator = Some(divisions.left[1]);
            },
            None => {
                steps.push(DrawStep::FileList(left));
                file_list = Some(left);
            },
        }
        diff = divisions.columns[1];
    }
    steps.push(render_content_view(state, diff));
    assert(steps@ =~= state.content_steps(area, *divisions));
    ContentPlan {
        steps,
        areas: PanelAreas {
            file_list,
            comment_navigator,
            diff,
            forgets_commit_list: !selector,
            forgets_comment_navigator: comment_navigator.is_none(),
        },
    }
}

/// Divides the main content as the state asks for.
fn divide_content(state: &LayoutState, area: Area) -> (res: ContentDivisions)
    ensures
        state.divides(area, res),
        state.has_divisions(res),
{
    let mut selector: Vec<Area> = Vec::new();
    let mut columns: Vec<Area> = Vec::new();
    let mut left: Vec<Area> = Vec::new();
    let mut content_area = area;
    if state.is_selector_shown() {
        let sizes: Vec<Size> = vec![
            Size::Length(commit_selector_height(state.review_commits)),
            Size::Min(0),
        ];
        assert(sizes@ =~= selector_sizes(*state));
        selector = split_area(Axis::Vertical, &sizes, area);
        content_area = selector[1];
        assert(spans(Axis::Vertical, selector@[1], area));
    }
    if state.show_file_list {
        let sizes: Vec<Size> = vec![Size::Percentage(20), Size::Percentage(80)];
        assert(sizes@ =~= column_sizes());
        columns = split_area(Axis::Horizontal, &sizes, content_area);
        assert(spans(Axis::Horizontal, columns@[0], content_area));
        if let Some(rows) = comment_navigator_height(state.comment_items, columns[0].height) {
            let sizes: Vec<Size> = vec![Size::Min(FILE_LIST_MIN_HEIGHT), Size::Length(rows)];
            assert(sizes@ =~= left_column_sizes(rows as int));
            left = split_area(Axis::Vertical, &sizes, columns[0]);
        }
    }
    ContentDivisions { selector, columns, left }
}

/// Plans the main content of a frame. The areas are those of some division of the area by the
/// sizes that the state asks for.
pub fn render_main_content(state: &LayoutState, area: Area) -> (res: ContentPlan)
    ensures
        exists|divisions: ContentDivisions| #[trigger]
            state.divides(area, divisions) && res.steps@ == state.content_steps(area, divisions)
                && res.areas == state.panel_areas(area, divisions),
{
    let divisions = divide_content(state, area);
    plan_content(state, area, &divisions)
}

/// How a frame is drawn.
#[derive(Debug, Clone)]
pub struct FramePlan {
    pub steps: Vec<DrawStep>,
    /// Where the panels of the main content are, where it is shown.
    pub areas: Option<PanelAreas>,
    /// The part of the frame between the header and the status bar, where it is shown.
    pub main_area: Option<Area>,
}

impl LayoutState {
    /// Whether the frame shows the main content.
    pub open spec fn shows_content(self) -> bool {
        self.input_mode != InputMode::MessageDetails && !self.selects_commits()
    }

    /// The steps that cover a frame with the help, where it is shown.
    pub open spec fn help_steps(self) -> Seq<DrawStep> {
        if self.shows_help() {
            seq![DrawStep::Help]
        } else {
            Seq::empty()
        }
    }

    /// The steps that draw the dialog of the input mode, where it has one.
    pub open spec fn dialog_steps(self) -> Seq<DrawStep> {
        match self.input_mode {
            InputMode::Confirm => seq![DrawStep::ConfirmDialog(CONFIRM_PROMPT)],
            InputMode::SubmitResolver => seq![DrawStep::SubmitResolver],
            InputMode::SubmitConfirm => seq![DrawStep::SubmitConfirm],
            InputMode::SubmitActionPicker => seq![DrawStep::SubmitActionPicker],
            _ => Seq::empty(),
        }
    }

    /// The steps that every frame begins with: what it shows is coloured before anything is
    /// drawn.
    pub open spec fn first_steps(self, frame: Area) -> Seq<DrawStep> {
        seq![DrawStep::ColorVisibleHunks(frame.height), DrawStep::Background(frame)]
    }

    /// The steps that draw a frame filled by the commit selector.
    pub open spec fn selector_steps(self, frame: Area) -> Seq<DrawStep> {
        let footer = footer_of(frame);
        let prompt = if self.input_mode == InputMode::Command || self.input_mode
            == InputMode::Search {
            seq![DrawStep::StatusBar(footer), DrawStep::CommandCompletion(footer)]
        } else {
            Seq::empty()
        };
        seq![DrawStep::CommitSelect] + prompt + self.help_steps()
    }

    /// The steps that draw a frame with the main content, which has been divided.
    pub open spec fn review_steps(self, rows: Seq<Area>, divisions: ContentDivisions) -> Seq<
        DrawStep,
    > {
        seq![DrawStep::ForgetCursor, DrawStep::Header(rows[0])] + self.content_steps(
            rows[1],
            divisions,
        ) + seq![DrawStep::StatusBar(rows[2]), DrawStep::CommandCompletion(rows[2])]
            + self.help_steps() + self.dialog_steps()
    }

    /// The steps that draw a frame.
    pub open spec fn frame_steps(
        self,
        frame: Area,
        rows: Seq<Area>,
        divisions: ContentDivisions,
    ) -> Seq<DrawStep> {
        if self.input_mode == InputMode::MessageDetails {
            self.first_steps(frame) + seq![DrawStep::MessageDetails]
        } else if self.selects_commits() {
            self.first_steps(frame) + self.selector_steps(frame)
        } else {
            self.first_steps(frame) + self.review_steps(rows, divisions)
        }
    }

    /// Whether a plan is the one for a frame that has been divided.
    pub open spec fn is_plan(
        self,
        frame: Area,
        rows: Seq<Area>,
        divisions: ContentDivisions,
        plan: FramePlan,
    ) -> bool {
        &&& plan.steps@ == self.frame_steps(frame, rows, divisions)
        &&& plan.areas == (if self.shows_content() {
            Some(self.panel_areas(rows[1], divisions))
        } else {
            None
        })
        &&& plan.main_area == (if self.shows_content() {
            Some(rows[1])
        } else {
            None
        })
    }
}

fn push_help(state: &LayoutState, steps: &mut Vec<DrawStep>)
    ensures
        final(steps)@ == old(steps)@ + state.help_steps(),
{
    let ghost before = steps@;
    if state.is_help_shown() {
        steps.push(DrawStep::Help);
    }
    assert(steps@ =~= before + state.help_steps());
}

fn push_dialog(state: &LayoutState, steps: &mut Vec<DrawStep>)
    ensures
        final(steps)@ == old(steps)@ + state.dialog_steps(),
{
    let ghost before = steps@;
    if state.input_mode == InputMode::Confirm {
        steps.push(DrawStep::ConfirmDialog(CONFIRM_PROMPT));
    }
    if state.input_mode == InputMode::SubmitResolver {
        steps.push(DrawStep::SubmitResolver);
    }
    if state.input_mode == InputMode::SubmitConfirm {
        steps.push(DrawStep::SubmitConfirm);
    }
    if state.input_mode == InputMode::SubmitActionPicker {
        steps.push(DrawStep::SubmitActionPicker);
    }
    assert(steps@ =~= before + state.dialog_steps());
}

fn push_all(steps: &mut Vec<DrawStep>, more: &Vec<DrawStep>)
    ensures
        final(steps)@ == old(steps)@ + more@,
{
    let ghost before = steps@;
    let mut i: usize = 0;
    while i < more.len()
        invariant
            i <= more@.len(),
            steps@ == before + more@.take(i as int),
        decreases more@.len() - i,
    {
        steps.push(more[i]);
        proof {
            assert(before + more@.take(i + 1) == (before + more@.take(i as int)).push(
                more@[i as int],
            ));
        }
        i = i + 1;
    }
    assert(more@.take(more@.len() as int) == more@);
}

/// Plans a frame that shows the main content and has been divided.
pub fn plan_review(
    state: &LayoutState,
    frame: Area,
    rows: &Vec<Area>,
    divisions: &ContentDivisions,
) -> (res: FramePlan)
    requires
        state.shows_content(),
        rows@.len() == 3,
        state.has_divisions(*divisions),
    ensures
        state.is_plan(frame, rows@, *divisions, res),
{
    let content = plan_content(state, rows[1], divisions);
    let mut steps: Vec<DrawStep> = vec![
        DrawStep::ColorVisibleHunks(frame.height),
        DrawStep::Background(frame),
        DrawStep::ForgetCursor,
        DrawStep::Header(rows[0]),
    ];
    push_all(&mut steps, &content.steps);
    steps.push(DrawStep::StatusBar(rows[2]));
    steps.push(DrawStep::CommandCompletion(rows[2]));
    push_help(state, &mut steps);
    push_dialog(state, &mut steps);
    assert(steps@ =~= state.frame_steps(frame, rows@, *divisions));
    FramePlan { steps, areas: Some(content.areas), main_area: Some(rows[1]) }
}

/// Plans a frame that shows no main content: the details of a message, or the commit selector.
pub fn plan_cover(state: &LayoutState, frame: Area) -> (res: FramePlan)
    requires
        !state.shows_content(),
    ensures
        forall|rows: Seq<Area>, divisions: ContentDivisions| #[trigger]
            state.is_plan(frame, rows, divisions, res),
{
    let mut steps: Vec<DrawStep> = vec![
        DrawStep::ColorVisibleHunks(frame.height),
        DrawStep::Background(frame),
    ];
    let ghost first = steps@;
    assert(first =~= state.first_steps(frame));
    if state.input_mode == InputMode::MessageDetails {
        steps.push(DrawStep::MessageDetails);
        assert(steps@ =~= first + seq![DrawStep::MessageDetails]);
    } else {
        steps.push(DrawStep::CommitSelect);
        let footer = footer_area(frame);
        if state.input_mode == InputMode::Command || state.input_mode == InputMode::Search {
            steps.push(DrawStep::StatusBar(footer));
            steps.push(DrawStep::CommandCompletion(footer));
        }
        push_help(state, &mut steps);
        assert(steps@ =~= first + state.selector_steps(frame));
    }
    FramePlan { steps, areas: None, main_area: None }
}

/// Plans a frame. Where it shows the main content, the areas are those of some division of the
/// frame by the sizes that the state asks for.
pub fn render(state: &LayoutState, frame: Area) -> (res: FramePlan)
    ensures
        exists|rows: Seq<Area>, divisions: ContentDivisions| #[trigger]
            state.is_plan(frame, rows, divisions, res) && (state.shows_content() ==> is_division(
                Axis::Vertical,
                frame_sizes(),
                frame,
                rows,
            ) && state.divides(rows[1], divisions)),
{
    if state.input_mode == InputMode::MessageDetails || state.is_selecting_commits() {
        let plan = plan_cover(state, frame);
        proof {
            let rows = Seq::<Area>::empty();
            let divisions = arbitrary::<ContentDivisions>();
            assert(state.is_plan(frame, rows, divisions, plan));
        }
        return plan;
    }
    let sizes: Vec<Size> = vec![Size::Length(1), Size::Min(0), Size::Length(1)];
    assert(sizes@ =~= frame_sizes());
    let rows = split_area(Axis::Vertical, &sizes, frame);
    assert(spans(Axis::Vertical, rows@[1], frame));
    let divisions = divide_content(state, rows[1]);
    let plan = plan_review(state, frame, &rows, &divisions);
    assert(state.is_plan(frame, rows@, divisions, plan));
    plan
}

/// Where the terminal cursor goes while a comment is typed: where the comment input put it, or
/// else inside the border of the diff, or of the main content where there is no diff.
pub open spec fn comment_cursor(
    placed: Option<(u16, u16)>,
    diff_area: Option<Area>,
    main_area: Area,
) -> (int, int) {
    match placed {
        Some((col, row)) => (col as int, row as int),
        None => match diff_area {
            Some(area) => (area.x + 1, area.y + 1),
            None => (main_area.x + 1, main_area.y + 1),
        },
    }
}

/// Where the terminal cursor goes once a frame is drawn. It is placed only while a comment is
/// typed, and then always, so that an input method does not open in a corner. A frame without
/// the main content leaves it alone.
pub fn cursor_position(
    state: &LayoutState,
    placed: Option<(u16, u16)>,
    diff_area: Option<Area>,
    main_area: Option<Area>,
) -> (res: Option<(u16, u16)>)
    requires
        state.input_mode == InputMode::Comment && main_area is Some ==> {
            let (col, row) = comment_cursor(placed, diff_area, main_area->0);
            col <= u16::MAX && row <= u16::MAX
        },
    ensures
        match res {
            Some((col, row)) => state.input_mode == InputMode::Comment && main_area is Some && (
            col as int, row as int) == comment_cursor(placed, diff_area, main_area->0),
            None => state.input_mode != InputMode::Comment || main_area is None,
        },
{
    if state.input_mode != InputMode::Comment {
        return None;
    }
    let main_area = match main_area {
        Some(area) => area,
        None => {
            return None;
        },
    };
    match placed {
        Some(position) => Some(position),
        None => match diff_area {
            Some(area) => Some((area.x + 1, area.y + 1)),
            None => Some((main_area.x + 1, main_area.y + 1)),
        },
    }
}

/// Every frame colours what it is about to show before it draws anything, for as many rows as the
/// frame has, and does so once.
pub proof fn law_coloring_comes_first(
    state: LayoutState,
    frame: Area,
    rows: Seq<Area>,
    divisions: ContentDivisions,
)
    ensures
        ({
            let steps = state.frame_steps(frame, rows, divisions);
            &&& steps.len() > 1
            &&& steps[0] == DrawStep::ColorVisibleHunks(frame.height)
            &&& steps[1] == DrawStep::Background(frame)
            &&& forall|i: int|
                0 < i < steps.len() ==> !(#[trigger] steps[i] is ColorVisibleHunks)
        }),
{
}

/// A frame with the main content shows either the summary or the diff, once, in the area that is
/// remembered for it.
pub proof fn law_content_is_shown_once(
    state: LayoutState,
    area: Area,
    divisions: ContentDivisions,
)
    ensures
        ({
            let steps = state.content_steps(area, divisions);
            &&& steps.last() == state.content_step(state.panel_areas(area, divisions).diff)
            &&& forall|i: int|
                0 <= i < steps.len() - 1 ==> !(#[trigger] steps[i] is Summary)
                    && !(steps[i] is DiffView)
        }),
{
}

/// The area that a step draws in, where it has one of its own.
pub open spec fn step_area(step: DrawStep) -> Option<Area> {
    match step {
        DrawStep::Background(area) => Some(area),
        DrawStep::Header(area) => Some(area),
        DrawStep::InlineCommitSelector(area) => Some(area),
        DrawStep::FileList(area) => Some(area),
        DrawStep::CommentNavigator(area) => Some(area),
        DrawStep::Summary(area) => Some(area),
        DrawStep::DiffView(area) => Some(area),
        DrawStep::StatusBar(area) => Some(area),
        DrawStep::CommandCompletion(area) => Some(area),
        _ => None,
    }
}

/// Whether a part lies in an area.
pub open spec fn lies_in(part: Area, area: Area) -> bool {
    &&& area.x <= part.x
    &&& area.y <= part.y
    &&& capped_sum(part.x, part.width) <= capped_sum(area.x, area.width)
    &&& capped_sum(part.y, part.height) <= capped_sum(area.y, area.height)
}

/// However a frame is divided, every panel of a review lies in it.
pub proof fn law_panels_lie_in_frame(
    state: LayoutState,
    frame: Area,
    rows: Seq<Area>,
    divisions: ContentDivisions,
    i: int,
)
    requires
        state.shows_content(),
        is_division(Axis::Vertical, frame_sizes(), frame, rows),
        state.divides(rows[1], divisions),
        0 <= i < state.frame_steps(frame, rows, divisions).len(),
    ensures
        step_area(state.frame_steps(frame, rows, divisions)[i]) matches Some(area) ==> lies_in(
            area,
            frame,
        ),
{
    assert(spans(Axis::Vertical, rows[0], frame));
    assert(spans(Axis::Vertical, rows[1], frame));
    assert(spans(Axis::Vertical, rows[2], frame));
    if state.shows_selector() {
        assert(spans(Axis::Vertical, divisions.selector@[0], rows[1]));
        assert(spans(Axis::Vertical, divisions.selector@[1], rows[1]));
    }
    let content = state.content_area(rows[1], divisions);
    if state.show_file_list {
        assert(spans(Axis::Horizontal, divisions.columns@[0], content));
        assert(spans(Axis::Horizontal, divisions.columns@[1], content));
    }
    if state.navigator(divisions) is Some {
        assert(spans(Axis::Vertical, divisions.left@[0], divisions.columns@[0]));
        assert(spans(Axis::Vertical, divisions.left@[1], divisions.columns@[0]));
    }
    let steps = state.content_steps(rows[1], divisions);
    assert forall|j: int| 0 <= j < steps.len() implies (step_area(#[trigger] steps[j]) matches Some(
        area,
    ) ==> lies_in(area, frame)) by {}
}

/// Whether no step draws the confirm dialog.
pub open spec fn asks_nothing(steps: Seq<DrawStep>) -> bool {
    forall|i: int| 0 <= i < steps.len() ==> !(#[trigger] steps[i] is ConfirmDialog)
}

proof fn lemma_asks_nothing(first: Seq<DrawStep>, second: Seq<DrawStep>)
    requires
        asks_nothing(first),
        asks_nothing(second),
    ensures
        asks_nothing(first + second),
{
    let both = first + second;
    assert forall|i: int| 0 <= i < both.len() implies !(#[trigger] both[i] is ConfirmDialog) by {
        if i < first.len() {
            assert(both[i] == first[i]);
        } else {
            assert(both[i] == second[i - first.len()]);
        }
    }
}

/// While a confirmation is asked for, a frame with the main content ends with the confirm dialog,
/// which asks whether to copy the review. Nothing else draws that dialog.
pub proof fn law_confirm_dialog_asks_its_question(
    state: LayoutState,
    frame: Area,
    rows: Seq<Area>,
    divisions: ContentDivisions,
)
    ensures
        ({
            let steps = state.frame_steps(frame, rows, divisions);
            if state.input_mode == InputMode::Confirm && state.shows_content() {
                &&& steps.len() > 0
                &&& steps.last() matches DrawStep::ConfirmDialog(prompt)
                &&& prompt@ == "Copy review to clipboard?"@
                &&& asks_nothing(steps.drop_last())
            } else {
                asks_nothing(steps)
            }
        }),
{
    let first = state.first_steps(frame);
    let steps = state.frame_steps(frame, rows, divisions);
    if state.input_mode == InputMode::MessageDetails {
        lemma_asks_nothing(first, seq![DrawStep::MessageDetails]);
    } else if state.selects_commits() {
        lemma_asks_nothing(first, state.selector_steps(frame));
    } else {
        let head = seq![DrawStep::ForgetCursor, DrawStep::Header(rows[0])];
        let content = state.content_steps(rows[1], divisions);
        let foot = seq![DrawStep::StatusBar(rows[2]), DrawStep::CommandCompletion(rows[2])];
        let help = state.help_steps();
        let dialog = state.dialog_steps();
        assert(asks_nothing(content)) by {
            assert(asks_nothing(seq![state.content_step(state.review_area(rows[1], divisions))]));
        }
        lemma_asks_nothing(head, content);
        lemma_asks_nothing(head + content, foot);
        lemma_asks_nothing(head + content + foot, help);
        let before = head + content + foot + help;
        lemma_asks_nothing(first, before);
        assert(steps =~= first + before + dialog);
        if state.input_mode == InputMode::Confirm {
            assert(steps.drop_last() =~= first + before);
        } else {
            lemma_asks_nothing(first + before, dialog);
        }
    }
}

/// A frame of two rows or more has its header in the first row, its status bar in the last, and
/// the main content in all rows between them.
pub proof fn law_frame_has_three_rows(frame: Area, rows: Seq<Area>)
    requires
        is_division(Axis::Vertical, frame_sizes(), frame, rows),
        extent_of(Axis::Vertical, frame) >= 2,
    ensures
        ({
            let extent = extent_of(Axis::Vertical, frame);
            &&& rows[0] == (Area { height: 1, ..frame })
            &&& rows[1] == (Area {
                y: (frame.y + 1) as u16,
                height: (extent - 2) as u16,
                ..frame
            })
            &&& rows[2] == (Area { y: (frame.y + extent - 1) as u16, height: 1, ..frame })
        }),
{
    let sizes = frame_sizes();
    assert(is_only_minimum(sizes, 1));
    reveal_with_fuel(granted_before, 4);
    assert(keeps_lengths(Axis::Vertical, sizes, frame, rows));
    assert(spans(Axis::Vertical, rows[0], frame));
    assert(spans(Axis::Vertical, rows[1], frame));
    assert(spans(Axis::Vertical, rows[2], frame));
}

/// The left column takes a fifth of the content, rounded, and the review all the rest.
pub proof fn law_columns_share_the_content(content: Area, columns: Seq<Area>)
    requires
        is_division(Axis::Horizontal, column_sizes(), content, columns),
    ensures
        ({
            let extent = extent_of(Axis::Horizontal, content);
            let left = rounded(20 * extent);
            &&& columns[0] == (Area { width: left as u16, ..content })
            &&& columns[1] == (Area {
                x: (content.x + left) as u16,
                width: (extent - left) as u16,
                ..content
            })
        }),
{
    let sizes = column_sizes();
    reveal_with_fuel(share_before, 3);
    assert(keeps_shares(Axis::Horizontal, sizes, content, columns));
    let extent = extent_of(Axis::Horizontal, content);
    assert(share_before(sizes, 0) == 0 && share_before(sizes, 1) == 20 && share_before(sizes, 2)
        == 100);
    assert(rounded(0 * extent) == 0 && rounded(100 * extent) == extent);
    assert(0 <= rounded(20 * extent) <= extent);
    assert(start_of(Axis::Horizontal, columns[0]) == content.x + rounded(
        share_before(sizes, 0) * extent,
    ));
    assert(start_of(Axis::Horizontal, columns[1]) == content.x + rounded(
        share_before(sizes, 1) * extent,
    ));
    assert(spans(Axis::Horizontal, columns[0], content));
    assert(spans(Axis::Horizontal, columns[1], content));
}

/// The comment navigator has the height that was planned for it, at the foot of its column, and
/// the file list above it has at least its fewest rows.
pub proof fn law_navigator_has_its_height(comment_items: usize, column: Area, left: Seq<Area>)
    requires
        capped_sum(column.y, column.height) == column.y + column.height,
        navigator_rows(comment_items, column.height) matches Some(rows) && is_division(
            Axis::Vertical,
            left_column_sizes(rows),
            column,
            left,
        ),
    ensures
        ({
            let rows = navigator_rows(comment_items, column.height)->0;
            &&& left[0] == (Area { height: (column.height - rows) as u16, ..column })
            &&& left[0].height >= FILE_LIST_MIN_HEIGHT
            &&& left[1] == (Area {
                y: (column.y + column.height - rows) as u16,
                height: rows as u16,
                ..column
            })
        }),
{
    let rows = navigator_rows(comment_items, column.height)->0;
    let sizes = left_column_sizes(rows);
    law_navigator_leaves_room(comment_items, column.height);
    assert(is_only_minimum(sizes, 0));
    reveal_with_fuel(granted_before, 3);
    assert(keeps_lengths(Axis::Vertical, sizes, column, left));
    assert(spans(Axis::Vertical, left[0], column));
    assert(spans(Axis::Vertical, left[1], column));
}

/// The inline commit selector has the height that was planned for it, or all there is, and the
/// content has the rest below it.
pub proof fn law_selector_has_its_height(state: LayoutState, area: Area, parts: Seq<Area>)
    requires
        is_division(Axis::Vertical, selector_sizes(state), area, parts),
    ensures
        ({
            let extent = extent_of(Axis::Vertical, area);
            let rows = if selector_rows(state.review_commits) < extent {
                selector_rows(state.review_commits)
            } else {
                extent
            };
            &&& parts.len() == 2
            &&& parts[0] == (Area { height: rows as u16, ..area })
            &&& parts[1] == (Area {
                y: (area.y + rows) as u16,
                height: (extent - rows) as u16,
                ..area
            })
        }),
{
    let sizes = selector_sizes(state);
    let extent = extent_of(Axis::Vertical, area);
    assert(is_only_minimum(sizes, 1));
    reveal_with_fuel(granted_before, 3);
    assert(spans(Axis::Vertical, parts[0], area));
    assert(spans(Axis::Vertical, parts[1], area));
    if selector_rows(state.review_commits) <= extent {
        assert(keeps_lengths(Axis::Vertical, sizes, area, parts));
    } else {
        assert(first_takes_all(Axis::Vertical, area, parts));
    }
}

/// The plan of the main content is determined: whatever divisions are found, its steps and areas
/// are the same. The area ends within the coordinates of the screen.
pub proof fn law_content_plan_is_determined(
    state: LayoutState,
    area: Area,
    divisions: ContentDivisions,
    others: ContentDivisions,
)
    requires
        area.y + area.height <= u16::MAX,
        state.divides(area, divisions),
        state.divides(area, others),
    ensures
        state.content_steps(area, others) == state.content_steps(area, divisions),
        state.panel_areas(area, others) == state.panel_areas(area, divisions),
{
    if state.shows_selector() {
        law_selector_has_its_height(state, area, divisions.selector@);
        law_selector_has_its_height(state, area, others.selector@);
    }
    let content = state.content_area(area, divisions);
    assert(state.content_area(area, others) == content);
    assert(content.y + content.height <= u16::MAX);
    if state.show_file_list {
        law_columns_share_the_content(content, divisions.columns@);
        law_columns_share_the_content(content, others.columns@);
        let column = divisions.columns@[0];
        assert(others.columns@[0] == column);
        if state.navigator(divisions) is Some {
            law_navigator_has_its_height(state.comment_items, column, divisions.left@);
            law_navigator_has_its_height(state.comment_items, column, others.left@);
        }
    }
}

} // verus!
