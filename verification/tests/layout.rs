use tuicr::layout::{
    comment_navigator_height, commit_selector_height, cursor_position, footer_area, plan_content,
    plan_review, render, render_main_content, Area, ContentDivisions, DrawStep, FramePlan, CONFIRM_PROMPT,
    InputMode, LayoutState, PanelAreas,
};

const FRAME: Area = Area { x: 0, y: 0, width: 100, height: 30 };

fn area(x: u16, y: u16, width: u16, height: u16) -> Area {
    Area { x, y, width, height }
}

fn state(input_mode: InputMode) -> LayoutState {
    LayoutState {
        input_mode,
        command_return_mode: InputMode::Normal,
        overlay_return_mode: InputMode::Normal,
        searching_help: false,
        has_inline_commit_selector: false,
        review_commits: 0,
        show_file_list: false,
        comment_items: 0,
    }
}

#[test]
fn a_plain_review_has_three_rows() {
    let plan = render(&state(InputMode::Normal), FRAME);
    assert_eq!(
        plan.steps,
        vec![
            DrawStep::ColorVisibleHunks(30),
            DrawStep::Background(FRAME),
            DrawStep::ForgetCursor,
            DrawStep::Header(area(0, 0, 100, 1)),
            DrawStep::DiffView(area(0, 1, 100, 28)),
            DrawStep::StatusBar(area(0, 29, 100, 1)),
            DrawStep::CommandCompletion(area(0, 29, 100, 1)),
        ]
    );
    assert_eq!(plan.main_area, Some(area(0, 1, 100, 28)));
    assert_eq!(
        plan.areas,
        Some(PanelAreas {
            file_list: None,
            comment_navigator: None,
            diff: area(0, 1, 100, 28),
            forgets_commit_list: true,
            forgets_comment_navigator: true,
        })
    );
}

#[test]
fn the_file_list_shares_its_column_with_the_navigator() {
    let mut state = state(InputMode::Normal);
    state.show_file_list = true;
    state.comment_items = 5;
    state.has_inline_commit_selector = true;
    state.review_commits = 3;
    let content = render_main_content(&state, area(0, 1, 100, 28));
    assert_eq!(
        content.steps,
        vec![
            DrawStep::InlineCommitSelector(area(0, 1, 100, 5)),
            DrawStep::FileList(area(0, 6, 20, 16)),
            DrawStep::CommentNavigator(area(0, 22, 20, 7)),
            DrawStep::DiffView(area(20, 6, 80, 23)),
        ]
    );
    assert_eq!(content.areas.file_list, Some(area(0, 6, 20, 16)));
    assert_eq!(content.areas.comment_navigator, Some(area(0, 22, 20, 7)));
    assert_eq!(content.areas.diff, area(20, 6, 80, 23));
    assert!(!content.areas.forgets_commit_list);
    assert!(!content.areas.forgets_comment_navigator);
}

#[test]
fn areas_are_divided_where_they_stand() {
    let mut state = state(InputMode::Normal);
    state.show_file_list = true;
    let content = render_main_content(&state, area(7, 3, 50, 6));
    assert_eq!(
        content.steps,
        vec![
            DrawStep::FileList(area(7, 3, 10, 6)),
            DrawStep::DiffView(area(17, 3, 40, 6)),
        ]
    );
}

#[test]
fn a_summary_hides_the_commit_selector() {
    let mut state = state(InputMode::Summary);
    state.has_inline_commit_selector = true;
    state.review_commits = 3;
    let content = render_main_content(&state, area(0, 1, 100, 28));
    assert_eq!(content.steps, vec![DrawStep::Summary(area(0, 1, 100, 28))]);
    assert!(content.areas.forgets_commit_list);
}

#[test]
fn plans_follow_the_divisions_they_are_given() {
    let mut state = state(InputMode::Confirm);
    state.show_file_list = true;
    state.comment_items = 1;
    state.has_inline_commit_selector = true;
    let divisions = ContentDivisions {
        selector: vec![area(1, 1, 1, 1), area(2, 2, 2, 2)],
        columns: vec![area(3, 3, 3, 8), area(4, 4, 4, 4)],
        left: vec![area(5, 5, 5, 5), area(6, 6, 6, 6)],
    };
    let content = plan_content(&state, area(9, 9, 9, 9), &divisions);
    assert_eq!(
        content.steps,
        vec![
            DrawStep::InlineCommitSelector(area(1, 1, 1, 1)),
            DrawStep::FileList(area(5, 5, 5, 5)),
            DrawStep::CommentNavigator(area(6, 6, 6, 6)),
            DrawStep::DiffView(area(4, 4, 4, 4)),
        ]
    );
    let rows = vec![area(0, 0, 9, 1), area(9, 9, 9, 9), area(0, 8, 9, 1)];
    let plan = plan_review(&state, FRAME, &rows, &divisions);
    assert_eq!(plan.steps[3], DrawStep::Header(rows[0]));
    assert_eq!(plan.steps[4..8], content.steps[..]);
    assert_eq!(
        plan.steps[8..],
        [
            DrawStep::StatusBar(rows[2]),
            DrawStep::CommandCompletion(rows[2]),
            DrawStep::ConfirmDialog(CONFIRM_PROMPT),
        ]
    );
    assert_eq!(plan.main_area, Some(rows[1]));
}

fn after_the_status_bar(plan: &FramePlan) -> Vec<DrawStep> {
    let at = plan
        .steps
        .iter()
        .position(|s| matches!(s, DrawStep::CommandCompletion(_)))
        .unwrap();
    plan.steps[at + 1..].to_vec()
}

#[test]
fn the_confirm_dialog_asks_its_question() {
    let asked = |state: &LayoutState| -> Vec<String> {
        let steps = render(state, FRAME).steps;
        steps
            .iter()
            .filter_map(|s| match s {
                DrawStep::ConfirmDialog(prompt) => Some(prompt.to_string()),
                _ => None,
            })
            .collect()
    };
    let mut confirm = state(InputMode::Confirm);
    assert_eq!(asked(&confirm), vec!["Copy review to clipboard?"]);
    assert!(asked(&state(InputMode::SubmitConfirm)).is_empty());
    confirm.searching_help = true;
    confirm.overlay_return_mode = InputMode::CommitSelect;
    assert!(asked(&confirm).is_empty());
}

#[test]
fn dialogs_are_drawn_last() {
    for (mode, expected) in [
        (InputMode::Normal, vec![]),
        (InputMode::Comment, vec![]),
        (InputMode::Command, vec![]),
        (InputMode::Help, vec![DrawStep::Help]),
        (InputMode::Confirm, vec![DrawStep::ConfirmDialog(CONFIRM_PROMPT)]),
        (InputMode::SubmitResolver, vec![DrawStep::SubmitResolver]),
        (InputMode::SubmitConfirm, vec![DrawStep::SubmitConfirm]),
        (InputMode::SubmitActionPicker, vec![DrawStep::SubmitActionPicker]),
    ] {
        assert_eq!(after_the_status_bar(&render(&state(mode), FRAME)), expected, "{mode:?}");
    }
    let mut searching = state(InputMode::Search);
    searching.searching_help = true;
    assert_eq!(after_the_status_bar(&render(&searching, FRAME)), vec![DrawStep::Help]);
}

#[test]
fn message_details_cover_everything() {
    let plan = render(&state(InputMode::MessageDetails), FRAME);
    assert_eq!(
        plan.steps,
        vec![
            DrawStep::ColorVisibleHunks(30),
            DrawStep::Background(FRAME),
            DrawStep::MessageDetails,
        ]
    );
    assert_eq!(plan.areas, None);
    assert_eq!(plan.main_area, None);
}

#[test]
fn the_commit_selector_fills_the_screen_below_what_covers_it() {
    let footer = area(0, 29, 100, 1);
    let steps = |state: &LayoutState| render(state, FRAME).steps[2..].to_vec();

    assert_eq!(steps(&state(InputMode::CommitSelect)), vec![DrawStep::CommitSelect]);

    let mut command = state(InputMode::Command);
    command.command_return_mode = InputMode::CommitSelect;
    assert_eq!(
        steps(&command),
        vec![
            DrawStep::CommitSelect,
            DrawStep::StatusBar(footer),
            DrawStep::CommandCompletion(footer),
        ]
    );

    let mut help = state(InputMode::Help);
    help.overlay_return_mode = InputMode::CommitSelect;
    assert_eq!(steps(&help), vec![DrawStep::CommitSelect, DrawStep::Help]);

    let mut search = state(InputMode::Search);
    search.searching_help = true;
    search.overlay_return_mode = InputMode::CommitSelect;
    assert_eq!(
        steps(&search),
        vec![
            DrawStep::CommitSelect,
            DrawStep::StatusBar(footer),
            DrawStep::CommandCompletion(footer),
            DrawStep::Help,
        ]
    );
    assert!(search.is_selecting_commits());

    let mut elsewhere = state(InputMode::Normal);
    elsewhere.command_return_mode = InputMode::CommitSelect;
    elsewhere.overlay_return_mode = InputMode::CommitSelect;
    assert!(!elsewhere.is_selecting_commits());
}

#[test]
fn the_footer_is_the_last_row() {
    assert_eq!(footer_area(area(3, 4, 10, 6)), area(3, 9, 10, 1));
    assert_eq!(footer_area(area(3, 4, 10, 0)), area(3, 3, 10, 0));
    assert_eq!(footer_area(area(0, 0, 10, 0)), area(0, 0, 10, 0));
    // The far edges stop at the largest coordinate.
    assert_eq!(footer_area(area(65530, 65530, 10, 10)), area(65530, 65534, 5, 1));
}

#[test]
fn the_commit_selector_grows_up_to_a_limit() {
    assert_eq!(commit_selector_height(0), 2);
    assert_eq!(commit_selector_height(5), 7);
    assert_eq!(commit_selector_height(6), 8);
    assert_eq!(commit_selector_height(600), 8);
    assert_eq!(commit_selector_height(65536), 8);
    assert_eq!(commit_selector_height(usize::MAX), 8);
}

#[test]
fn the_navigator_keeps_to_its_limits() {
    assert_eq!(comment_navigator_height(0, 30), None);
    assert_eq!(comment_navigator_height(3, 7), None);
    assert_eq!(comment_navigator_height(1, 8), Some(4));
    assert_eq!(comment_navigator_height(9, 8), Some(4));
    assert_eq!(comment_navigator_height(3, 30), Some(5));
    assert_eq!(comment_navigator_height(9, 12), Some(8));
    assert_eq!(comment_navigator_height(99, 30), Some(12));
    for many in [65533, 65534, 65535, 65536, 65537, usize::MAX] {
        assert_eq!(comment_navigator_height(many, 30), Some(12));
        assert_eq!(comment_navigator_height(many, 11), Some(7));
        assert_eq!(comment_navigator_height(many, 7), None);
    }
}

#[test]
fn the_cursor_falls_back_to_the_content() {
    let comment = state(InputMode::Comment);
    let diff = Some(area(20, 6, 80, 23));
    let main = Some(area(0, 1, 100, 28));
    assert_eq!(cursor_position(&comment, Some((5, 7)), diff, main), Some((5, 7)));
    assert_eq!(cursor_position(&comment, None, diff, main), Some((21, 7)));
    assert_eq!(cursor_position(&comment, None, None, main), Some((1, 2)));
    assert_eq!(cursor_position(&comment, Some((5, 7)), diff, None), None);
    assert_eq!(cursor_position(&state(InputMode::Normal), Some((5, 7)), diff, main), None);
}

#[test]
fn columns_share_every_width() {
    let mut state = state(InputMode::Normal);
    state.show_file_list = true;
    for (x, y) in [(0, 0), (3, 5), (65400, 65500)] {
        for width in 0..=300u16 {
            let extent = width.min(65535 - x);
            let left = (extent * 20 + 50) / 100;
            let content = render_main_content(&state, area(x, y, width, 7));
            assert_eq!(
                content.steps,
                vec![
                    DrawStep::FileList(area(x, y, left, 7)),
                    DrawStep::DiffView(area(x + left, y, extent - left, 7)),
                ],
                "{width} columns at {x}"
            );
        }
    }
}

#[test]
fn rows_share_every_height() {
    for y in [0, 9, 65500] {
        for height in 2..=200u16 {
            let extent = height.min(65535 - y);
            let frame = area(2, y, 40, height);
            let steps = render(&state(InputMode::Normal), frame).steps;
            assert_eq!(
                steps[3..6],
                [
                    DrawStep::Header(area(2, y, 40, 1)),
                    DrawStep::DiffView(area(2, y + 1, 40, extent - 2)),
                    DrawStep::StatusBar(area(2, y + extent - 1, 40, 1)),
                ],
                "{height} rows at {y}"
            );
        }
    }
}

#[test]
fn the_left_column_keeps_the_navigator_height() {
    let mut state = state(InputMode::Normal);
    state.show_file_list = true;
    for items in [1, 2, 3, 7, 10, 40] {
        state.comment_items = items;
        for height in 8..=60u16 {
            let rows = comment_navigator_height(items, height).unwrap();
            let content = render_main_content(&state, area(0, 4, 100, height));
            assert_eq!(
                content.steps[..2],
                [
                    DrawStep::FileList(area(0, 4, 20, height - rows)),
                    DrawStep::CommentNavigator(area(0, 4 + height - rows, 20, rows)),
                ],
                "{items} items in {height} rows"
            );
        }
    }
}

#[test]
fn the_commit_selector_keeps_its_height() {
    let mut state = state(InputMode::Normal);
    state.has_inline_commit_selector = true;
    for commits in 0..9 {
        state.review_commits = commits;
        let rows = commit_selector_height(commits);
        for height in rows..=40u16 {
            let content = render_main_content(&state, area(1, 1, 50, height));
            assert_eq!(
                content.steps,
                vec![
                    DrawStep::InlineCommitSelector(area(1, 1, 50, rows)),
                    DrawStep::DiffView(area(1, 1 + rows, 50, height - rows)),
                ]
            );
        }
        for height in 0..rows {
            let content = render_main_content(&state, area(1, 1, 50, height));
            assert_eq!(
                content.steps,
                vec![
                    DrawStep::InlineCommitSelector(area(1, 1, 50, height)),
                    DrawStep::DiffView(area(1, 1 + height, 50, 0)),
                ]
            );
        }
    }
}

#[test]
fn panels_lie_in_every_small_frame() {
    let mut state = state(InputMode::Normal);
    state.show_file_list = true;
    state.comment_items = 9;
    state.has_inline_commit_selector = true;
    state.review_commits = 9;
    for height in 0..=20u16 {
        for width in 0..=12u16 {
            let frame = area(5, 6, width, height);
            for step in render(&state, frame).steps {
                let part = match step {
                    DrawStep::Header(part)
                    | DrawStep::InlineCommitSelector(part)
                    | DrawStep::FileList(part)
                    | DrawStep::CommentNavigator(part)
                    | DrawStep::DiffView(part)
                    | DrawStep::StatusBar(part)
                    | DrawStep::CommandCompletion(part) => part,
                    _ => continue,
                };
                assert!(part.x >= 5 && part.y >= 6, "{step:?} in {frame:?}");
                assert!(part.x + part.width <= 5 + width, "{step:?} in {frame:?}");
                assert!(part.y + part.height <= 6 + height, "{step:?} in {frame:?}");
            }
        }
    }
}
