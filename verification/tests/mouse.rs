//! The mouse: selecting and copying text, clicks and the wheel.

use rit::app::cells::{slice_by_cells, word_cells_at};
use rit::app::mouse::{MouseButton, MouseEvent, MouseEventKind, WHEEL_STEP};
use rit::app::{App, Focus, LogRow, Rect, WorkingTreeRow};
use rit::model::{
    DiffDocument, DiffFlags, DiffLine, DiffLineKind, DiffStats, DiffTarget, FileStat,
};

/// Header 1 line, two files → diffstat renders as 5 lines
/// (separator + 2 rows + totals + blank), body offset = 6.
fn doc() -> DiffDocument {
    DiffDocument {
        target: DiffTarget::WorkingTree,
        header: vec![DiffLine::new(DiffLineKind::CommitHeader, "Working tree")],
        body: vec![
            DiffLine::new(DiffLineKind::HunkHeader, "@@ -1,2 +1,2 @@"),
            DiffLine::new(DiffLineKind::Del, "old line"),
            DiffLine::new(DiffLineKind::Add, "new line"),
            DiffLine::new(DiffLineKind::Context, "context line"),
        ],
        files: vec![
            FileStat { path: "a.rs".into(), additions: 1, deletions: 1 },
            FileStat { path: "b.rs".into(), additions: 0, deletions: 0 },
        ],
        stats: DiffStats { files: 2, insertions: 1, deletions: 1 },
        flags: DiffFlags::default(),
        untracked_anchor: None,
        sections: Vec::new(),
    }
}

/// App with the diff pane open on `doc()` and both pane rects laid
/// out side by side: log columns 0..40, diff columns 40..80.
fn app_with_diff() -> App {
    let mut app = App::new();
    app.diff.open = true;
    app.diff.target = Some(DiffTarget::WorkingTree);
    app.diff.document = Some(doc());
    app.panes.log = Some(Rect::new(1, 2, 38, 20));
    app.panes.diff = Some(Rect::new(41, 2, 38, 20));
    app
}

fn mouse(kind: MouseEventKind, column: u16, row: u16) -> MouseEvent {
    MouseEvent { kind, column, row }
}

#[test]
fn selection_text_strips_gutter_and_rebuilds_diffstat() {
    let app = app_with_diff();
    // Whole document: header line, 5 diffstat lines, 4 body lines.
    let text = app.diff_selection_text((0, 0), (9, usize::MAX - 1));
    let lines: Vec<&str> = text.lines().collect();
    assert_eq!(lines.len(), 10);
    assert_eq!(lines[0], "Working tree");
    assert_eq!(lines[1], "---");
    assert!(lines[2].starts_with(" a.rs"), "diffstat row: {:?}", lines[2]);
    // Body lines come back without the +/-/space prefix.
    assert_eq!(lines[7], "old line");
    assert_eq!(lines[8], "new line");
    assert_eq!(lines[9], "context line");
}

#[test]
fn drag_in_diff_pane_selects_lines_and_release_reports_copy() {
    let mut app = app_with_diff();
    // Press on the pane's first row (virtual line 0), drag down two
    // rows and right past every line's text.
    app.handle_mouse(mouse(MouseEventKind::Down(MouseButton::Left), 45, 2));
    app.handle_mouse(mouse(MouseEventKind::Drag(MouseButton::Left), 78, 4));
    assert!(matches!(app.focus, Focus::Diff));
    let sel = app.diff.selection.as_ref().expect("selection active");
    assert_eq!(sel.range(), ((0, 4), (2, 37)));
    app.handle_mouse(mouse(MouseEventKind::Up(MouseButton::Left), 78, 4));
    let sel = app.diff.selection.as_ref().expect("selection survives release");
    assert!(!sel.dragging);
    assert_eq!(app.yank_message.as_ref().map(|y| y.text.as_str()), Some("Copied 3 lines"));
}

#[test]
fn drag_maps_rows_through_scroll_and_clamps_to_document() {
    let mut app = app_with_diff();
    app.diff.scroll = 4;
    app.handle_mouse(mouse(MouseEventKind::Down(MouseButton::Left), 45, 3));
    // Row 3 is one below the pane top → virtual line 4 + 1 = 5.
    assert_eq!(app.diff.selection.as_ref().unwrap().anchor, (5, 4));
    // Dragging way past the last document line clamps to total-1 (9).
    app.handle_mouse(mouse(MouseEventKind::Drag(MouseButton::Left), 45, 15));
    assert_eq!(app.diff.selection.as_ref().unwrap().line_range(), (5, 9));
}

#[test]
fn drag_within_line_selects_a_subsection() {
    let mut app = app_with_diff();
    // Virtual line 7 ("old line", Del) draws at row 9; its content
    // starts at cell 6 (5-cell number gutter + the `-` prefix), so
    // cells 6..=8 cover exactly "old". Pane x = 41 → columns 47..=49.
    app.handle_mouse(mouse(MouseEventKind::Down(MouseButton::Left), 47, 9));
    app.handle_mouse(mouse(MouseEventKind::Drag(MouseButton::Left), 49, 9));
    app.handle_mouse(mouse(MouseEventKind::Up(MouseButton::Left), 49, 9));
    assert_eq!(app.diff_selection_text((7, 6), (7, 8)), "old");
    assert_eq!(app.yank_message.as_ref().map(|y| y.text.as_str()), Some("Copied 3 chars"));
}

#[test]
fn leftward_drag_orders_cells_like_a_terminal() {
    let mut app = app_with_diff();
    app.handle_mouse(mouse(MouseEventKind::Down(MouseButton::Left), 49, 9));
    app.handle_mouse(mouse(MouseEventKind::Drag(MouseButton::Left), 47, 9));
    assert_eq!(app.diff.selection.as_ref().unwrap().range(), ((7, 6), (7, 8)));
}

#[test]
fn multi_line_selection_cuts_only_the_end_lines() {
    let app = app_with_diff();
    // From 'd' of "old line" (line 7, cell 8) to 'w' of "new line"
    // (line 8, cell 8): partial first and last line.
    assert_eq!(app.diff_selection_text((7, 8), (8, 8)), "d line\nnew");
}

#[test]
fn click_maps_cells_through_horizontal_scroll() {
    let mut app = app_with_diff();
    app.diff.horizontal_scroll = 4;
    app.handle_mouse(mouse(MouseEventKind::Down(MouseButton::Left), 43, 9));
    assert_eq!(app.diff.selection.as_ref().unwrap().anchor, (7, 6));
}

#[test]
fn double_click_selects_word_and_copies_it() {
    let mut app = app_with_diff();
    // "old line" (virtual 7, row 9): "old" spans cells 6..=8.
    // Click twice on the 'l' (cell 7 → column 48).
    app.handle_mouse(mouse(MouseEventKind::Down(MouseButton::Left), 48, 9));
    app.handle_mouse(mouse(MouseEventKind::Up(MouseButton::Left), 48, 9));
    assert!(app.diff.selection.is_none(), "first click is a plain click");
    app.handle_mouse(mouse(MouseEventKind::Down(MouseButton::Left), 48, 9));
    let sel = app.diff.selection.as_ref().expect("double-click selects the word");
    assert_eq!(sel.range(), ((7, 6), (7, 8)));
    app.handle_mouse(mouse(MouseEventKind::Up(MouseButton::Left), 48, 9));
    assert_eq!(app.yank_message.as_ref().map(|y| y.text.as_str()), Some("Copied 3 chars"));
}

#[test]
fn triple_click_selects_the_whole_line() {
    let mut app = app_with_diff();
    // Three clicks on the 'l' of "old line" (virtual 7, row 9):
    // the line spans cells 0..=13 (offset 6 + 8 content cells).
    for _ in 0..2 {
        app.handle_mouse(mouse(MouseEventKind::Down(MouseButton::Left), 48, 9));
        app.handle_mouse(mouse(MouseEventKind::Up(MouseButton::Left), 48, 9));
    }
    app.handle_mouse(mouse(MouseEventKind::Down(MouseButton::Left), 48, 9));
    let sel = app.diff.selection.as_ref().expect("triple-click selects the line");
    assert_eq!(sel.range(), ((7, 0), (7, 13)));
    app.handle_mouse(mouse(MouseEventKind::Up(MouseButton::Left), 48, 9));
    assert_eq!(app.diff_selection_text((7, 0), (7, 13)), "old line");
    assert_eq!(app.yank_message.as_ref().map(|y| y.text.as_str()), Some("Copied 8 chars"));
}

#[test]
fn double_click_in_the_gutter_stays_a_plain_click() {
    let mut app = app_with_diff();
    // Column 43 → cell 2, inside the line-number gutter.
    for _ in 0..2 {
        app.handle_mouse(mouse(MouseEventKind::Down(MouseButton::Left), 43, 9));
        app.handle_mouse(mouse(MouseEventKind::Up(MouseButton::Left), 43, 9));
    }
    assert!(app.diff.selection.is_none());
    assert!(app.yank_message.is_none());
}

#[test]
fn word_cells_at_classifies_runs() {
    // "old line" rendered at offset 6: word, space, word.
    assert_eq!(word_cells_at("old line", 6, 7), Some((6, 8)));
    assert_eq!(word_cells_at("old line", 6, 9), Some((9, 9)));
    assert_eq!(word_cells_at("old line", 6, 10), Some((10, 13)));
    assert_eq!(word_cells_at("old line", 6, 5), None, "gutter cell");
    assert_eq!(word_cells_at("old line", 6, 14), None, "past end of line");
    // Joiners glue paths together; punctuation is its own run.
    assert_eq!(word_cells_at("see src/app/mouse.rs now", 0, 8), Some((4, 19)));
    assert_eq!(word_cells_at("a — b", 0, 2), Some((2, 2)));
    // A click on either half of a wide char selects its whole run.
    assert_eq!(word_cells_at("日本 語", 0, 3), Some((0, 3)));
}

#[test]
fn slice_by_cells_handles_offset_wide_and_zero_width() {
    // Gutter offset: content starts at cell 6.
    assert_eq!(slice_by_cells("abc", 6, 0, Some(7)), "a");
    assert_eq!(slice_by_cells("abc", 6, 0, None), "abc");
    assert_eq!(slice_by_cells("abc", 0, 5, None), "");
    // A boundary through the middle of a wide char selects it whole.
    assert_eq!(slice_by_cells("日本語", 0, 1, Some(3)), "日本");
    assert_eq!(slice_by_cells("日本語", 0, 2, Some(4)), "本");
    // Combining marks travel with their base char.
    assert_eq!(slice_by_cells("e\u{301}x", 0, 0, Some(1)), "e\u{301}");
}

#[test]
fn plain_click_focuses_diff_without_copying() {
    let mut app = app_with_diff();
    app.handle_mouse(mouse(MouseEventKind::Down(MouseButton::Left), 45, 2));
    app.handle_mouse(mouse(MouseEventKind::Up(MouseButton::Left), 45, 2));
    assert!(matches!(app.focus, Focus::Diff));
    assert!(app.diff.selection.is_none(), "click alone must not leave a selection");
    assert!(app.yank_message.is_none(), "click alone must not copy");
}

#[test]
fn click_in_log_pane_selects_the_clicked_row() {
    let mut app = app_with_diff();
    app.focus = Focus::Diff;
    // Rows beyond the working-tree row so a click can land on index 2.
    app.log
        .rows
        .push(LogRow::WorkingTree(WorkingTreeRow { author: "a".into(), dirty: None }));
    app.log
        .rows
        .push(LogRow::WorkingTree(WorkingTreeRow { author: "b".into(), dirty: None }));
    app.handle_mouse(mouse(MouseEventKind::Down(MouseButton::Left), 5, 4));
    assert!(matches!(app.focus, Focus::Log));
    assert_eq!(app.log.selected, 2);
}

#[test]
fn wheel_scrolls_the_pane_under_the_pointer() {
    let mut app = app_with_diff();
    app.handle_mouse(mouse(MouseEventKind::ScrollDown, 45, 5));
    assert_eq!(app.diff.scroll, WHEEL_STEP);
    app.handle_mouse(mouse(MouseEventKind::ScrollUp, 45, 5));
    assert_eq!(app.diff.scroll, 0);
    // Outside both panes: nothing moves.
    app.handle_mouse(mouse(MouseEventKind::ScrollDown, 45, 40));
    assert_eq!(app.diff.scroll, 0);
}

#[test]
fn a_word_ends_with_the_last_cell_it_takes_up() {
    assert_eq!(word_cells_at("—\u{301} b", 0, 0), Some((0, 0)));
    assert_eq!(word_cells_at("—\u{301} b", 0, 1), Some((1, 1)));
    assert_eq!(word_cells_at("e\u{301}te\u{301}", 2, 3), Some((3, 4)), "a mark is no letter");
}

#[test]
fn every_cell_of_a_word_gives_the_whole_word() {
    let text = "fn 日本_x(a.b) ";
    let end = 4 + 15;
    for cell in 0..30 {
        let word = word_cells_at(text, 4, cell);
        assert_eq!(word.is_some(), (4..end).contains(&cell), "cell {cell}");
        if let Some((first, last)) = word {
            assert!(first <= cell && cell <= last);
            for other in first..=last {
                assert_eq!(word_cells_at(text, 4, other), Some((first, last)));
            }
        }
    }
    assert_eq!(word_cells_at(text, 4, 8), Some((7, 12)));
}

#[test]
fn a_line_is_cut_without_loss() {
    let text = "let x = 1;";
    for start in 0..16 {
        for mid in start..18 {
            let front = slice_by_cells(text, 3, start, Some(mid));
            let back = slice_by_cells(text, 3, mid, None);
            assert_eq!(front + &back, slice_by_cells(text, 3, start, None));
        }
    }
    for start in 0..=3 {
        assert_eq!(slice_by_cells(text, 3, start, None), text);
    }
}
