//! What a frame draws, in which order, and where every panel stands.

use vstd::prelude::*;
use crate::layout;
use crate::layout::{
    Area,
    Axis,
    ContentDivisions,
    DrawStep,
    FramePlan,
    InputMode,
    LayoutState,
    PanelAreas,
};

verus! {

/// Whether the commit selector fills the screen: while commits are selected, while a command is
/// typed that leads back there, and below the help that leads back there.
pub open spec fn is_choosing_commits(state: LayoutState) -> bool {
    ||| state.input_mode == InputMode::CommitSelect
    ||| state.input_mode == InputMode::Command && state.command_return_mode == InputMode::CommitSelect
    ||| (state.input_mode == InputMode::Help || state.searching_help) && state.overlay_return_mode
        == InputMode::CommitSelect
}

/// Whether a frame shows the review itself.
pub open spec fn is_reviewing(state: LayoutState) -> bool {
    state.input_mode != InputMode::MessageDetails && !is_choosing_commits(state)
}

/// Whether the inline commit selector stands above the review: it makes way for the summary.
pub open spec fn has_selector(state: LayoutState) -> bool {
    state.has_inline_commit_selector && state.input_mode != InputMode::Summary
}

/// Whether the comment navigator stands below the file list in a column of this height.
pub open spec fn has_navigator(state: LayoutState, height: u16) -> bool {
    state.show_file_list && state.comment_items > 0 && height >= 8
}

/// The order in which things are drawn.
pub open spec fn rank(step: DrawStep) -> int {
    match step {
        DrawStep::ColorVisibleHunks(_) => 0,
        DrawStep::Background(_) => 1,
        DrawStep::MessageDetails => 2,
        DrawStep::CommitSelect => 3,
        DrawStep::ForgetCursor => 4,
        DrawStep::Header(_) => 5,
        DrawStep::InlineCommitSelector(_) => 6,
        DrawStep::FileList(_) => 7,
        DrawStep::CommentNavigator(_) => 8,
        DrawStep::Summary(_) => 9,
        DrawStep::DiffView(_) => 10,
        DrawStep::StatusBar(_) => 11,
        DrawStep::CommandCompletion(_) => 12,
        DrawStep::Help => 13,
        DrawStep::ConfirmDialog(_) => 14,
        DrawStep::SubmitResolver => 15,
        DrawStep::SubmitConfirm => 16,
        DrawStep::SubmitActionPicker => 17,
    }
}

/// Whether steps stand in the order of drawing, each at most once.
pub open spec fn is_in_order(steps: Seq<DrawStep>) -> bool {
    forall|i: int, j: int|
        0 <= i < j < steps.len() ==> rank(#[trigger] steps[i]) < rank(#[trigger] steps[j])
}

/// Whether a frame asks for a step, with the areas that its plan remembers.
pub open spec fn is_asked_for(
    state: LayoutState,
    frame: Area,
    rows: Seq<Area>,
    selector: Area,
    footer: Area,
    areas: PanelAreas,
    step: DrawStep,
) -> bool {
    let reviewing = is_reviewing(state);
    let choosing = state.input_mode != InputMode::MessageDetails && is_choosing_commits(state);
    let typing = choosing && (state.input_mode == InputMode::Command || state.input_mode
        == InputMode::Search);
    match step {
        DrawStep::ColorVisibleHunks(height) => height == frame.height,
        DrawStep::Background(area) => area == frame,
        DrawStep::MessageDetails => state.input_mode == InputMode::MessageDetails,
        DrawStep::CommitSelect => choosing,
        DrawStep::ForgetCursor => reviewing,
        DrawStep::Header(area) => reviewing && area == rows[0],
        DrawStep::InlineCommitSelector(area) => reviewing && has_selector(state) && area
            == selector,
        DrawStep::FileList(area) => reviewing && areas.file_list == Some(area),
        DrawStep::CommentNavigator(area) => reviewing && areas.comment_navigator == Some(area),
        DrawStep::Summary(area) => reviewing && state.input_mode == InputMode::Summary && area
            == areas.diff,
        DrawStep::DiffView(area) => reviewing && state.input_mode != InputMode::Summary && area
            == areas.diff,
        DrawStep::StatusBar(area) => reviewing && area == rows[2] || typing && area == footer,
        DrawStep::CommandCompletion(area) => reviewing && area == rows[2] || typing && area
            == footer,
        DrawStep::Help => (reviewing || choosing) && (state.input_mode == InputMode::Help
            || state.searching_help),
        DrawStep::ConfirmDialog(_) => reviewing && state.input_mode == InputMode::Confirm,
        DrawStep::SubmitResolver => reviewing && state.input_mode == InputMode::SubmitResolver,
        DrawStep::SubmitConfirm => reviewing && state.input_mode == InputMode::SubmitConfirm,
        DrawStep::SubmitActionPicker => reviewing && state.input_mode
            == InputMode::SubmitActionPicker,
    }
}

/// Whether a step has its rank between two bounds.
spec fn is_between(steps: Seq<DrawStep>, low: int, high: int) -> bool {
    is_in_order(steps) && forall|i: int|
        0 <= i < steps.len() ==> low <= rank(#[trigger] steps[i]) <= high
}

proof fn lemma_joined(a: Seq<DrawStep>, b: Seq<DrawStep>, low: int, middle: int, high: int)
    requires
        is_between(a, low, middle),
        is_between(b, middle + 1, high),
        low <= middle <= high,
    ensures
        is_between(a + b, low, high),
        forall|step: DrawStep| #[trigger]
            (a + b).contains(step) <==> a.contains(step) || b.contains(step),
{
    let all = a + b;
    assert forall|i: int| 0 <= i < all.len() implies low <= rank(#[trigger] all[i]) <= high && (i
        < a.len() ==> all[i] == a[i] && rank(all[i]) <= middle) && (i >= a.len() ==> all[i] == b[i
        - a.len()] && rank(all[i]) > middle) by {
        if i < a.len() {
            assert(all[i] == a[i]);
        } else {
            assert(all[i] == b[i - a.len()]);
        }
    }
    assert forall|i: int, j: int| 0 <= i < j < all.len() implies rank(#[trigger] all[i]) < rank(
        #[trigger] all[j],
    ) by {
        if j < a.len() {
            assert(all[i] == a[i] && all[j] == a[j]);
        } else if i >= a.len() {
            assert(all[i] == b[i - a.len()] && all[j] == b[j - a.len()]);
        }
    }
    assert forall|step: DrawStep| #[trigger] all.contains(step) <==> a.contains(step) || b.contains(
        step,
    ) by {
        if a.contains(step) {
            let i = choose|i: int| 0 <= i < a.len() && a[i] == step;
            assert(all[i] == step);
        }
        if b.contains(step) {
            let i = choose|i: int| 0 <= i < b.len() && b[i] == step;
            assert(all[a.len() + i] == step);
        }
        if all.contains(step) {
            let i = choose|i: int| 0 <= i < all.len() && all[i] == step;
            if i < a.len() {
                assert(a[i] == step);
            } else {
                assert(b[i - a.len()] == step);
            }
        }
    }
}

proof fn lemma_one(one: Seq<DrawStep>, step: DrawStep)
    requires
        one == seq![step],
    ensures
        is_between(one, rank(step), rank(step)),
        forall|other: DrawStep| #[trigger] one.contains(other) <==> other == step,
{
    assert forall|other: DrawStep| #[trigger] one.contains(other) <==> other == step by {
        assert(one[0] == step);
    }
}

proof fn lemma_two(both: Seq<DrawStep>, first: DrawStep, second: DrawStep)
    requires
        both == seq![first, second],
        rank(first) < rank(second),
    ensures
        is_between(both, rank(first), rank(second)),
        forall|step: DrawStep| #[trigger]
            both.contains(step) <==> step == first || step == second,
{
    assert forall|step: DrawStep| #[trigger] both.contains(step) <==> step == first || step
        == second by {
        assert(both[0] == first);
        assert(both[1] == second);
    }
}

proof fn lemma_none()
    ensures
        forall|low: int, high: int| #[trigger] is_between(Seq::<DrawStep>::empty(), low, high),
        forall|step: DrawStep| !#[trigger] Seq::<DrawStep>::empty().contains(step),
{
}

proof fn lemma_wider(steps: Seq<DrawStep>, low: int, high: int, lower: int, higher: int)
    requires
        is_between(steps, low, high),
        lower <= low,
        high <= higher,
    ensures
        is_between(steps, lower, higher),
{
}

#[verifier::rlimit(40)]
proof fn lemma_content(state: LayoutState, area: Area, divisions: ContentDivisions)
    ensures
        ({
            let steps = state.content_steps(area, divisions);
            let areas = state.panel_areas(area, divisions);
            &&& is_between(steps, 6, 10)
            &&& forall|step: DrawStep| #[trigger]
                steps.contains(step) <==> match step {
                    DrawStep::InlineCommitSelector(part) => has_selector(state) && part
                        == divisions.selector@[0],
                    DrawStep::FileList(part) => areas.file_list == Some(part),
                    DrawStep::CommentNavigator(part) => areas.comment_navigator == Some(part),
                    DrawStep::Summary(part) => state.input_mode == InputMode::Summary && part
                        == areas.diff,
                    DrawStep::DiffView(part) => state.input_mode != InputMode::Summary && part
                        == areas.diff,
                    _ => false,
                }
        }),
{
    let areas = state.panel_areas(area, divisions);
    let navigator = state.navigator(divisions) is Some;
    let selector = if state.shows_selector() {
        seq![DrawStep::InlineCommitSelector(divisions.selector@[0])]
    } else {
        Seq::empty()
    };
    let left = if !state.show_file_list {
        Seq::empty()
    } else if navigator {
        seq![
            DrawStep::FileList(divisions.left@[0]),
            DrawStep::CommentNavigator(divisions.left@[1]),
        ]
    } else {
        seq![DrawStep::FileList(divisions.columns@[0])]
    };
    let shown = state.content_step(state.review_area(area, divisions));
    lemma_none();
    if state.shows_selector() {
        lemma_one(selector, DrawStep::InlineCommitSelector(divisions.selector@[0]));
    }
    if state.show_file_list && navigator {
        lemma_two(
            left,
            DrawStep::FileList(divisions.left@[0]),
            DrawStep::CommentNavigator(divisions.left@[1]),
        );
    } else if state.show_file_list {
        lemma_one(left, DrawStep::FileList(divisions.columns@[0]));
        lemma_wider(left, 7, 7, 7, 8);
    }
    lemma_one(seq![shown], shown);
    assert(is_between(selector, 6, 6));
    assert(is_between(left, 7, 8));
    lemma_wider(seq![shown], rank(shown), rank(shown), 9, 10);
    lemma_joined(selector, left, 6, 6, 8);
    lemma_joined(selector + left, seq![shown], 6, 8, 10);
}

/// Whether these steps are what a frame asks for, in the order of drawing.
pub open spec fn is_drawn(
    state: LayoutState,
    frame: Area,
    rows: Seq<Area>,
    selector: Area,
    footer: Area,
    areas: PanelAreas,
    steps: Seq<DrawStep>,
) -> bool {
    &&& is_in_order(steps)
    &&& forall|step: DrawStep|
        !(step is ConfirmDialog) ==> (#[trigger] steps.contains(step) <==> is_asked_for(
            state,
            frame,
            rows,
            selector,
            footer,
            areas,
            step,
        ))
}

#[verifier::rlimit(40)]
proof fn lemma_cover(
    state: LayoutState,
    frame: Area,
    rows: Seq<Area>,
    divisions: ContentDivisions,
    areas: PanelAreas,
)
    requires
        !state.shows_content(),
    ensures
        is_drawn(
            state,
            frame,
            rows,
            divisions.selector@[0],
            layout::footer_of(frame),
            areas,
            state.frame_steps(frame, rows, divisions),
        ),
{
    let footer = layout::footer_of(frame);
    let first = state.first_steps(frame);
    let help = state.help_steps();
    lemma_none();
    lemma_two(first, DrawStep::ColorVisibleHunks(frame.height), DrawStep::Background(frame));
    if state.input_mode == InputMode::MessageDetails {
        lemma_one(seq![DrawStep::MessageDetails], DrawStep::MessageDetails);
        lemma_joined(first, seq![DrawStep::MessageDetails], 0, 1, 2);
    } else {
        let select = seq![DrawStep::CommitSelect];
        let prompt = if state.input_mode == InputMode::Command || state.input_mode
            == InputMode::Search {
            seq![DrawStep::StatusBar(footer), DrawStep::CommandCompletion(footer)]
        } else {
            Seq::empty()
        };
        if state.shows_help() {
            lemma_one(help, DrawStep::Help);
        }
        if state.input_mode == InputMode::Command || state.input_mode == InputMode::Search {
            lemma_two(prompt, DrawStep::StatusBar(footer), DrawStep::CommandCompletion(footer));
        }
        lemma_one(select, DrawStep::CommitSelect);
        lemma_wider(prompt, 11, 12, 4, 12);
        lemma_wider(select, 3, 3, 2, 3);
        lemma_joined(select, prompt, 2, 3, 12);
        lemma_joined(select + prompt, help, 2, 12, 13);
        lemma_joined(first, select + prompt + help, 0, 1, 13);
    }
}

/// Whether a step is drawn around the main content.
spec fn is_around(state: LayoutState, rows: Seq<Area>, step: DrawStep) -> bool {
    match step {
        DrawStep::ForgetCursor => true,
        DrawStep::Header(area) => area == rows[0],
        DrawStep::StatusBar(area) => area == rows[2],
        DrawStep::CommandCompletion(area) => area == rows[2],
        DrawStep::Help => state.shows_help(),
        DrawStep::SubmitResolver => state.input_mode == InputMode::SubmitResolver,
        DrawStep::SubmitConfirm => state.input_mode == InputMode::SubmitConfirm,
        DrawStep::SubmitActionPicker => state.input_mode == InputMode::SubmitActionPicker,
        _ => false,
    }
}

#[verifier::rlimit(40)]
proof fn lemma_around(
    state: LayoutState,
    rows: Seq<Area>,
    content: Seq<DrawStep>,
    steps: Seq<DrawStep>,
)
    requires
        is_between(content, 6, 10),
        steps == seq![DrawStep::ForgetCursor, DrawStep::Header(rows[0])] + content
            + seq![DrawStep::StatusBar(rows[2]), DrawStep::CommandCompletion(rows[2])]
            + state.help_steps() + state.dialog_steps(),
    ensures
        is_between(steps, 2, 17),
        forall|step: DrawStep|
            !(step is ConfirmDialog) ==> (#[trigger] steps.contains(step) <==> content.contains(
                step,
            ) || is_around(state, rows, step)),
{
    let help = state.help_steps();
    let dialog = state.dialog_steps();
    let head = seq![DrawStep::ForgetCursor, DrawStep::Header(rows[0])];
    let foot = seq![DrawStep::StatusBar(rows[2]), DrawStep::CommandCompletion(rows[2])];
    lemma_none();
    if state.shows_help() {
        lemma_one(help, DrawStep::Help);
    }
    lemma_two(head, DrawStep::ForgetCursor, DrawStep::Header(rows[0]));
    lemma_two(foot, DrawStep::StatusBar(rows[2]), DrawStep::CommandCompletion(rows[2]));
    if dialog.len() > 0 {
        lemma_one(dialog, dialog[0]);
        lemma_wider(dialog, rank(dialog[0]), rank(dialog[0]), 14, 17);
    }
    lemma_wider(head, 4, 5, 2, 5);
    lemma_joined(head, content, 2, 5, 10);
    lemma_joined(head + content, foot, 2, 10, 12);
    lemma_joined(head + content + foot, help, 2, 12, 13);
    lemma_joined(head + content + foot + help, dialog, 2, 13, 17);
}

/// A frame draws what its state asks for, each thing once and in the order of drawing. In
/// particular the summary is drawn in the place of the diff exactly while it is read, whatever else
/// is shown, and the diff at all other times.
#[verifier::rlimit(40)]
pub proof fn law_frames_draw_what_is_asked_for(
    state: LayoutState,
    frame: Area,
    rows: Seq<Area>,
    divisions: ContentDivisions,
    plan: FramePlan,
)
    requires
        state.is_plan(frame, rows, divisions, plan),
    ensures
        is_drawn(
            state,
            frame,
            rows,
            divisions.selector@[0],
            layout::footer_of(frame),
            plan.areas->0,
            plan.steps@,
        ),
        plan.areas is Some == is_reviewing(state),
        plan.main_area == (if is_reviewing(state) {
            Some(rows[1])
        } else {
            None
        }),
{
    let steps = plan.steps@;
    assert(is_reviewing(state) == state.shows_content());
    if state.shows_content() {
        let first = state.first_steps(frame);
        let rest = state.review_steps(rows, divisions);
        let areas = state.panel_areas(rows[1], divisions);
        lemma_two(first, DrawStep::ColorVisibleHunks(frame.height), DrawStep::Background(frame));
        lemma_content(state, rows[1], divisions);
        lemma_around(state, rows, state.content_steps(rows[1], divisions), rest);
        lemma_joined(first, rest, 0, 1, 17);
        assert(steps == first + rest);
    } else {
        lemma_cover(state, frame, rows, divisions, plan.areas->0);
    }
}

/// While a confirmation is asked for, a frame with the review ends with the confirm dialog and its
/// question. No other frame draws that dialog.
pub proof fn law_confirmation_is_asked_for_last(
    state: LayoutState,
    frame: Area,
    rows: Seq<Area>,
    divisions: ContentDivisions,
    plan: FramePlan,
    i: int,
)
    requires
        state.is_plan(frame, rows, divisions, plan),
        0 <= i < plan.steps@.len(),
    ensures
        plan.steps@[i] is ConfirmDialog == (is_reviewing(state) && state.input_mode
            == InputMode::Confirm && i == plan.steps@.len() - 1),
        plan.steps@[i] matches DrawStep::ConfirmDialog(prompt) ==> prompt@
            == "Copy review to clipboard?"@,
        plan.steps@.last() is ConfirmDialog == (is_reviewing(state) && state.input_mode
            == InputMode::Confirm),
{
    let steps = plan.steps@;
    layout::law_confirm_dialog_asks_its_question(state, frame, rows, divisions);
    assert(is_reviewing(state) == state.shows_content());
    assert(steps[steps.len() - 1] == steps.last());
    if i < steps.len() - 1 {
        assert(steps.drop_last()[i] == steps[i]);
    }
}

/// The panels of a review: which there are, and which area each of them has.
pub proof fn law_panels_stand_in_their_parts(
    state: LayoutState,
    area: Area,
    divisions: ContentDivisions,
)
    ensures
        ({
            let areas = state.panel_areas(area, divisions);
            let navigated = has_navigator(state, divisions.columns@[0].height);
            &&& areas.diff == (if state.show_file_list {
                divisions.columns@[1]
            } else if has_selector(state) {
                divisions.selector@[1]
            } else {
                area
            })
            &&& areas.file_list == (if !state.show_file_list {
                None
            } else if navigated {
                Some(divisions.left@[0])
            } else {
                Some(divisions.columns@[0])
            })
            &&& areas.comment_navigator == (if navigated {
                Some(divisions.left@[1])
            } else {
                None
            })
            &&& areas.forgets_commit_list == !has_selector(state)
            &&& areas.forgets_comment_navigator == !navigated
        }),
{
}

/// The inline commit selector has a row for each commit and two borders, but no more than eight
/// rows.
pub proof fn law_selector_grows_to_eight_rows(review_commits: usize)
    ensures
        layout::selector_rows(review_commits) == (if review_commits <= 6 {
            review_commits + 2
        } else {
            8
        }),
{
}

/// The comment navigator has a row for each comment and two borders, but no fewer than four rows
/// and no more than twelve, and leaves the file list above it four rows. Without comments, or where
/// there is no room for both, there is none.
pub proof fn law_navigator_grows_to_twelve_rows(comment_items: usize, height: u16)
    ensures
        layout::navigator_rows(comment_items, height) is Some == (comment_items > 0 && height >= 8),
        layout::navigator_rows(comment_items, height) matches Some(rows) ==> {
            &&& 4 <= rows <= 12
            &&& rows <= height - 4
            &&& rows == 4 || rows <= comment_items + 2
            &&& rows == 12 || rows == height - 4 || rows >= comment_items + 2
        },
{
}

/// Whether an area ends within the coordinates of the screen.
pub open spec fn is_on_screen(area: Area) -> bool {
    area.x + area.width <= 65535 && area.y + area.height <= 65535
}

/// The smaller of two numbers.
pub open spec fn smaller(a: int, b: int) -> int {
    if a <= b {
        a
    } else {
        b
    }
}

/// Where the panels of a review stand in an area on the screen. The inline commit selector is at
/// the top; below it the file list takes a fifth of the width, rounded to the nearest column, with
/// the comment navigator at its foot, and the review has all the rest.
#[verifier::rlimit(40)]
pub proof fn law_panels_have_their_places(
    state: LayoutState,
    area: Area,
    divisions: ContentDivisions,
)
    requires
        is_on_screen(area),
        state.divides(area, divisions),
    ensures
        ({
            let areas = state.panel_areas(area, divisions);
            let above = if has_selector(state) {
                smaller(smaller(state.review_commits + 2, 8), area.height as int)
            } else {
                0
            };
            let top = area.y + above;
            let height = area.height - above;
            let left = if state.show_file_list {
                (area.width + 2) / 5
            } else {
                0
            };
            let navigated = has_navigator(state, height as u16);
            let below = layout::navigator_rows(state.comment_items, height as u16)->0;
            &&& areas.diff == (Area {
                x: (area.x + left) as u16,
                y: top as u16,
                width: (area.width - left) as u16,
                height: height as u16,
            })
            &&& has_selector(state) ==> divisions.selector@[0] == (Area {
                height: above as u16,
                ..area
            })
            &&& areas.file_list is Some == state.show_file_list
            &&& areas.file_list matches Some(list) ==> list == (Area {
                x: area.x,
                y: top as u16,
                width: left as u16,
                height: (if navigated {
                    height - below
                } else {
                    height
                }) as u16,
            })
            &&& areas.comment_navigator is Some == navigated
            &&& areas.comment_navigator matches Some(navigator) ==> navigator == (Area {
                x: area.x,
                y: (top + height - below) as u16,
                width: left as u16,
                height: below as u16,
            })
        }),
{
    if has_selector(state) {
        layout::law_selector_has_its_height(state, area, divisions.selector@);
    }
    let content = state.content_area(area, divisions);
    if state.show_file_list {
        layout::law_columns_share_the_content(content, divisions.columns@);
        let width = content.width as int;
        assert(layout::extent_of(Axis::Horizontal, content) == width);
        assert(layout::rounded(20 * width) == (width + 2) / 5) by (nonlinear_arith)
            requires
                layout::rounded(20 * width) == (20 * width + 50) / 100,
        ;
        if state.navigator(divisions) is Some {
            layout::law_navigator_has_its_height(
                state.comment_items,
                divisions.columns@[0],
                divisions.left@,
            );
        }
    }
}

/// A frame on the screen with two rows or more has its header in the first row and its status bar
/// in the last, and the main content between them.
pub proof fn law_header_and_status_bar_frame_the_content(frame: Area, rows: Seq<Area>)
    requires
        is_on_screen(frame),
        frame.height >= 2,
        layout::is_division(Axis::Vertical, layout::frame_sizes(), frame, rows),
    ensures
        rows[0] == (Area { height: 1, ..frame }),
        rows[1] == (Area { y: (frame.y + 1) as u16, height: (frame.height - 2) as u16, ..frame }),
        rows[2] == (Area { y: (frame.y + frame.height - 1) as u16, height: 1, ..frame }),
{
    layout::law_frame_has_three_rows(frame, rows);
}

/// The footer of a frame on the screen is its last row; a frame without rows has an empty one.
pub proof fn law_footer_is_the_last_row(frame: Area)
    requires
        is_on_screen(frame),
    ensures
        ({
            let footer = layout::footer_of(frame);
            &&& footer.x == frame.x && footer.width == frame.width
            &&& frame.height > 0 ==> footer.height == 1 && footer.y + 1 == frame.y + frame.height
            &&& frame.height == 0 ==> footer.height == 0
        }),
{
}

/// While a comment is typed the cursor is where the comment input put it, or one cell inside the
/// corner of the diff, or of the main content where there is no diff.
pub proof fn law_cursor_is_in_the_comment(
    placed: Option<(u16, u16)>,
    diff_area: Option<Area>,
    main_area: Area,
)
    ensures
        ({
            let (col, row) = layout::comment_cursor(placed, diff_area, main_area);
            let corner = if diff_area is Some {
                diff_area->0
            } else {
                main_area
            };
            match placed {
                Some((placed_col, placed_row)) => col == placed_col && row == placed_row,
                None => col == corner.x + 1 && row == corner.y + 1,
            }
        }),
{
}

} // verus!
