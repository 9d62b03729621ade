//! What holds of the viewer whatever comes: searches, cursors, views and copies.

use rit::app::cells::{cells_of, end_cell};
use rit::app::clipboard::{base64, osc52_sequence};
use rit::app::files::step_wrapping;
use rit::app::input::{KeyCode, KeyEvent, KeyModifiers};
use rit::app::messages::can_apply;
use rit::app::mouse::{MouseButton, MouseEvent, MouseEventKind};
use rit::app::search::{commit_matches, cycle, jump_first_at_or_after};
use rit::app::state::{cell_in_selection, step_clamped};
use rit::app::{App, AuthorMode, DateMode, DiffSelection, Focus, LogRow, Rect, SearchState};
use rit::git::{BlameAt, GitMsg, GitReq, HistoryMsg, InspectMsg, InspectReq};
use rit::model::{
    BlameDocument, BlameLine, CommitRecord, CommitSearchText, DiffDocument, DiffFlags, DiffLine,
    DiffLineKind, DiffStats, DiffTarget, FileSection, FileStat, ObjectId, StatusDocument,
};

fn oid(n: u8) -> ObjectId {
    ObjectId::from_slice(&[n; 20]).expect("twenty bytes")
}

fn commit(n: u8, summary: &str) -> CommitRecord {
    CommitRecord {
        id: oid(n),
        short_id: oid(n).to_short_hex(),
        authored_unix_secs: 0,
        authored_relative: "1d ago".to_string(),
        author: "Ann".to_string(),
        summary: summary.to_string(),
        refs: Vec::new(),
        graph: String::new(),
        search: CommitSearchText {
            author_lower: "ann".to_string(),
            summary_lower: summary.to_lowercase(),
            refs_lower: String::new(),
        },
    }
}

fn app_with(summaries: &[&str]) -> App {
    let mut app = App::new();
    send_commits(&mut app, 1, summaries);
    app
}

fn send_commits(app: &mut App, first: u8, summaries: &[&str]) {
    let commits = summaries.iter().enumerate().map(|(i, s)| commit(first + i as u8, s)).collect();
    let generation = app.walk_gen;
    app.apply_msg(GitMsg::History(HistoryMsg::Commits { generation, commits }));
}

fn press(app: &mut App, code: KeyCode) {
    app.handle_input(KeyEvent::new(code, KeyModifiers::Plain));
}

fn type_text(app: &mut App, text: &str) {
    for c in text.chars() {
        press(app, KeyCode::Char(c));
    }
}

fn document(target: DiffTarget, body: &[&str]) -> DiffDocument {
    DiffDocument {
        target,
        header: vec![DiffLine::new(DiffLineKind::CommitHeader, "Head Line")],
        body: body.iter().map(|t| DiffLine::new(DiffLineKind::Context, t)).collect(),
        files: vec![FileStat { path: "a.rs".to_string(), additions: 1, deletions: 0 }],
        stats: DiffStats { files: 1, insertions: 1, deletions: 0 },
        flags: DiffFlags::default(),
        untracked_anchor: None,
        sections: vec![FileSection { path: "a.rs".to_string(), body_start: 0 }],
    }
}

/// The viewer with the diff of its first commit open.
fn app_with_diff(body: &[&str]) -> App {
    let mut app = app_with(&["one", "two"]);
    press(&mut app, KeyCode::Char('j'));
    press(&mut app, KeyCode::Enter);
    let seq = app.diff_seq;
    let document = document(DiffTarget::Commit(oid(1)), body);
    app.apply_msg(GitMsg::Inspect(InspectMsg::DiffLoaded { seq, document }));
    app
}

fn assert_sound(app: &App) {
    assert!(matches!(app.log.rows[0], LogRow::WorkingTree(_)));
    assert!(app.log.rows[1..].iter().all(|r| matches!(r, LogRow::Commit(_))));
    assert!(app.log.selected < app.log.rows.len());
    let matches = &app.search.state.matches;
    assert!(matches.iter().all(|m| *m < app.log.rows.len()));
    assert!(matches.windows(2).all(|w| w[0] < w[1]));
}

#[test]
fn the_viewer_stays_sound_under_keys_messages_and_clicks() {
    let mut app = app_with(&["fix a", "add b", "fix c"]);
    app.panes.log = Some(Rect::new(1, 1, 30, 10));
    assert_sound(&app);
    for text in ["/fix", "G", "gjjjjjj", "kkkkkkk"] {
        type_text(&mut app, text);
        assert_sound(&app);
        press(&mut app, KeyCode::Enter);
        assert_sound(&app);
        press(&mut app, KeyCode::Char('n'));
        press(&mut app, KeyCode::Esc);
        press(&mut app, KeyCode::Esc);
        assert_sound(&app);
    }
    type_text(&mut app, "/fix");
    send_commits(&mut app, 10, &["fix d", "none"]);
    assert_eq!(app.search.state.matches, [1, 3, 4]);
    assert_sound(&app);
    press(&mut app, KeyCode::Esc);
    for row in 0..12 {
        let kind = MouseEventKind::Down(MouseButton::Left);
        app.handle_mouse(MouseEvent { kind, column: 5, row });
        assert_sound(&app);
    }
    app.handle_input(KeyEvent::new(KeyCode::Char('R'), KeyModifiers::Shift));
    assert_eq!(app.log.rows.len(), 1);
    assert_eq!(app.commits_len(), 0);
    assert_sound(&app);
}

#[test]
fn narrowing_finds_what_a_scan_would() {
    let mut typed = app_with(&["alpha", "alps", "beta", "Alpine"]);
    type_text(&mut typed, "/alp");
    assert_eq!(typed.search.state.matches, [1, 2, 4]);
    type_text(&mut typed, "i");
    assert_eq!(typed.search.state.matches, [4]);
    let mut at_once = app_with(&["alpha", "alps", "beta", "Alpine"]);
    at_once.search.state.query = "alpi".to_string();
    at_once.update_commit_matches();
    assert_eq!(at_once.search.state.matches, typed.search.state.matches);
    press(&mut typed, KeyCode::Backspace);
    assert_eq!(typed.search.state.matches, [1, 2, 4]);
}

#[test]
fn commits_match_by_summary_author_or_ref() {
    let mut c = commit(1, "Some Text");
    assert!(commit_matches(&c, "e te"));
    assert!(commit_matches(&c, "ann"));
    assert!(!commit_matches(&c, "v1"));
    c.search.refs_lower = "v1 main".to_string();
    assert!(commit_matches(&c, "v1"));
    assert!(!commit_matches(&c, "Text"), "queries are in lower case");
}

#[test]
fn forward_and_back_leads_to_the_same_match() {
    let matches = [3, 7, 9];
    let mut current = 2;
    assert_eq!(cycle(&matches, &mut current, 1), Some(3));
    assert_eq!(cycle(&matches, &mut current, -1), Some(9));
    assert_eq!(cycle(&matches, &mut current, -7), Some(7));
    assert_eq!(cycle(&matches, &mut current, 7), Some(9));
    assert_eq!(cycle(&[], &mut current, 1), None);
    assert_eq!(jump_first_at_or_after(&matches, &mut current, 4), Some(7));
    assert_eq!(current, 1);
    assert_eq!(jump_first_at_or_after(&matches, &mut current, 10), Some(3));
    assert_eq!(jump_first_at_or_after(&[], &mut current, 0), None);
}

#[test]
fn a_search_state_counts_from_one() {
    let mut state = SearchState::new();
    assert_eq!((state.display_index(), state.current_pos()), (0, None));
    state.matches = vec![4, 8];
    state.query = "x".to_string();
    assert_eq!((state.display_index(), state.current_pos()), (1, Some(4)));
    assert_eq!(state.advance(1), Some(8));
    assert_eq!(state.display_index(), 2);
    assert_eq!(state.snapshot().matches_len, 2);
    state.clear();
    assert!(state.query.is_empty() && state.matches.is_empty());
}

#[test]
fn the_query_goes_with_the_focus() {
    let mut app = app_with_diff(&["first", "needle here", "last"]);
    press(&mut app, KeyCode::Tab);
    assert_eq!(app.focus, Focus::Log);
    type_text(&mut app, "/needle");
    press(&mut app, KeyCode::Enter);
    press(&mut app, KeyCode::Tab);
    assert_eq!(app.diff.search.query, "needle");
    assert_eq!(app.diff.search.matches, [6]);
    assert!(app.search.state.query.is_empty());
    press(&mut app, KeyCode::Tab);
    assert_eq!(app.search.state.query, "needle");
    assert!(app.diff.search.query.is_empty());
}

#[test]
fn diff_searches_ignore_case_in_header_and_body() {
    let mut app = app_with_diff(&["HEAD again", "ÉTÉ", "x"]);
    type_text(&mut app, "/head");
    assert_eq!(app.diff.search.matches, [0, 5]);
    press(&mut app, KeyCode::Esc);
    type_text(&mut app, "/été");
    assert_eq!(app.diff.search.matches, [6]);
}

#[test]
fn steps_wrap_or_stop_at_the_ends() {
    assert_eq!(step_wrapping(3, 2, 1), 0);
    assert_eq!(step_wrapping(3, 0, -1), 2);
    assert_eq!(step_wrapping(3, step_wrapping(3, 0, -1), 1), 0);
    assert_eq!(step_clamped(2, 5, 4), 4);
    assert_eq!(step_clamped(2, -5, 4), 0);
    assert_eq!(step_clamped(2, isize::MAX, usize::MAX), 2 + isize::MAX as usize);
}

#[test]
fn closing_the_single_file_view_restores_the_diff() {
    let lines: Vec<String> = (0..50).map(|i| format!("l{i}")).collect();
    let body: Vec<&str> = lines.iter().map(|l| l.as_str()).collect();
    let mut app = app_with_diff(&body);
    app.diff.view_height = 5;
    app.diff_scroll_down(12);
    press(&mut app, KeyCode::Char('l'));
    let before = (app.diff.scroll, app.diff.horizontal_scroll);
    press(&mut app, KeyCode::Char('o'));
    let seq = app.diff_seq;
    let document = document(DiffTarget::Commit(oid(1)), &["only"]);
    app.apply_msg(GitMsg::Inspect(InspectMsg::FileDiffLoaded { seq, document }));
    assert_eq!(app.diff.document.as_ref().map(|d| d.body.len()), Some(1));
    press(&mut app, KeyCode::Char('q'));
    assert_eq!(app.diff.document.as_ref().map(|d| d.body.len()), Some(50));
    assert_eq!((app.diff.scroll, app.diff.horizontal_scroll), before);
    assert!(app.diff.file_view_return.is_none());
}

#[test]
fn the_untracked_files_come_once() {
    let mut app = App::new();
    press(&mut app, KeyCode::Enter);
    let seq = app.diff_seq;
    let mut doc = document(DiffTarget::WorkingTree, &["(scanning)", "file line"]);
    doc.untracked_anchor = Some(0);
    doc.sections[0].body_start = 1;
    app.apply_msg(GitMsg::Inspect(InspectMsg::DiffLoaded { seq, document: doc }));
    let target = DiffTarget::WorkingTree;
    for _ in 0..2 {
        let paths = vec!["x".to_string(), "y".to_string()];
        let update = InspectMsg::UntrackedFilesUpdate { target, seq, paths };
        app.apply_msg(GitMsg::Inspect(update));
        let doc = app.diff.document.as_ref().expect("a document");
        let texts: Vec<&str> = doc.body.iter().map(|l| l.text.as_str()).collect();
        assert_eq!(texts, ["?? x", "?? y", "file line"]);
        assert_eq!(doc.body[doc.sections[0].body_start].text, "file line");
        assert_eq!(doc.untracked_anchor, None);
    }
}

#[test]
fn searches_follow_the_document() {
    let mut app = app_with_diff(&["Alpha"]);
    type_text(&mut app, "/alpha");
    press(&mut app, KeyCode::Enter);
    assert_eq!(app.diff.search.matches.len(), 1);
    let seq = app.diff_seq;
    let document = document(DiffTarget::Commit(oid(1)), &["beta", "ALPHA one", "alpha two"]);
    app.apply_msg(GitMsg::Inspect(InspectMsg::DiffLoaded { seq, document }));
    assert_eq!(app.diff.search.matches, [6, 7]);
}

#[test]
fn stale_replies_change_nothing() {
    let mut app = app_with_diff(&["x"]);
    let stale = app.diff_seq + 1;
    let document = document(DiffTarget::Commit(oid(1)), &["y", "z"]);
    app.apply_msg(GitMsg::Inspect(InspectMsg::DiffLoaded { seq: stale, document }));
    assert_eq!(app.diff.document.as_ref().map(|d| d.body.len()), Some(1));
    let blame = InspectMsg::BlameLoaded { seq: 9, result: Err("late".to_string()) };
    app.apply_msg(GitMsg::Inspect(blame));
    assert_eq!(app.blame.error, None);
}

fn blame_doc(n: usize) -> BlameDocument {
    let line = |i: usize| BlameLine {
        commit_id: oid(1),
        commit_short: oid(1).to_short_hex(),
        author: "Ann".to_string(),
        authored_relative: "1d ago".to_string(),
        line_no: i as u32 + 1,
        text: format!("l{i}"),
        source_path: None,
    };
    BlameDocument { path: "f".to_string(), at: oid(2), lines: (0..n).map(line).collect() }
}

#[test]
fn a_failed_blame_keeps_the_view() {
    let mut app = App::new();
    app.open_blame("f".to_string(), BlameAt::Head);
    let seq = app.blame_seq;
    let loaded = InspectMsg::BlameLoaded { seq, result: Ok(blame_doc(4)) };
    app.apply_msg(GitMsg::Inspect(loaded));
    press(&mut app, KeyCode::Char('j'));
    press(&mut app, KeyCode::Char(','));
    let failed =
        InspectMsg::BlameLoaded { seq: app.blame_seq, result: Err("no parent".to_string()) };
    app.apply_msg(GitMsg::Inspect(failed));
    assert_eq!(app.blame.selected, 1);
    assert_eq!(app.blame.document.as_ref().map(|d| d.lines.len()), Some(4));
    assert_eq!(app.blame.error.as_deref(), Some("no parent"));
    assert!(app.blame.history.is_empty() && app.blame.pending_return.is_none());
}

#[test]
fn yanking_copies_the_whole_hash() {
    let mut app = app_with(&["one"]);
    app.set_clock(500);
    press(&mut app, KeyCode::Char('y'));
    assert_eq!(app.take_clipboard(), None, "the working tree has no hash");
    press(&mut app, KeyCode::Char('j'));
    press(&mut app, KeyCode::Char('y'));
    assert_eq!(app.take_clipboard(), Some(oid(1).to_hex()));
    assert_eq!(app.take_clipboard(), None);
    assert_eq!(app.yank_message.as_ref().map(|y| y.text.as_str()), Some("Copied: 010101010101"));
    assert_eq!(app.yank_wakeup(), Some(2000));
    app.set_clock(2499);
    app.expire_yank();
    assert_eq!(app.yank_wakeup(), Some(1));
    app.set_clock(2500);
    app.expire_yank();
    assert_eq!(app.yank_wakeup(), None);
}

#[test]
fn display_modes_come_round() {
    assert_eq!(DateMode::Relative.next(), DateMode::Absolute);
    assert_eq!(DateMode::Relative.next().next().next(), DateMode::Relative);
    assert_eq!(AuthorMode::Full.next().next().next(), AuthorMode::Full);
    assert_eq!((DateMode::Relative.col_width(), DateMode::Off.col_width()), (8, 0));
    assert_eq!(AuthorMode::Off.col_width(), 0);
    assert!(AuthorMode::Full.col_width() > AuthorMode::Abbrev.col_width());
}

#[test]
fn the_log_cursor_stays_in_view() {
    let names: Vec<String> = (0..30).map(|i| format!("c{i}")).collect();
    let summaries: Vec<&str> = names.iter().map(|n| n.as_str()).collect();
    let mut app = app_with(&summaries);
    app.log.view_height = 7;
    for n in [1, 10, 50] {
        app.move_log_down(n);
        assert!(app.log.scroll <= app.log.selected);
        assert!(app.log.selected < app.log.scroll + 7);
    }
    assert_eq!(app.log.selected, 30);
    app.move_log_up(29);
    assert_eq!((app.log.selected, app.log.scroll), (1, 1));
    app.jump_log_bottom();
    assert_eq!((app.log.selected, app.log.scroll), (30, 24));
    app.jump_log_top();
    assert_eq!((app.log.selected, app.log.scroll), (0, 0));
}

#[test]
fn a_lost_worker_is_told_once() {
    let mut app = App::new();
    app.worker_gone();
    assert_eq!(app.error.as_deref(), Some("git worker disconnected"));
    app.error = Some("earlier".to_string());
    app.worker_gone();
    assert_eq!(app.error.as_deref(), Some("earlier"));
}

#[test]
fn the_status_view_is_asked_for_once() {
    let mut app = App::new();
    press(&mut app, KeyCode::Char('s'));
    assert!(matches!(
        app.take_requests().as_slice(),
        [GitReq::Inspect(InspectReq::LoadStatus)]
    ));
    let lines = vec![DiffLine::new(DiffLineKind::Good, "clean")];
    app.apply_msg(GitMsg::Inspect(InspectMsg::StatusLoaded(StatusDocument { lines })));
    press(&mut app, KeyCode::Char('q'));
    press(&mut app, KeyCode::Char('s'));
    assert!(app.status.open);
    assert!(app.take_requests().is_empty(), "the document is there already");
}

#[test]
fn a_selection_reads_the_same_from_both_ends() {
    let app = app_with_diff(&["alpha beta", "gamma"]);
    let there =
        DiffSelection { anchor: (5, 2), cursor: (6, 4), dragging: true, moved: true };
    let back = DiffSelection { anchor: (6, 4), cursor: (5, 2), dragging: true, moved: true };
    assert_eq!(there.range(), back.range());
    assert_eq!(there.line_range(), (5, 6));
    let (lo, hi) = there.range();
    let text = app.diff_selection_text(lo, hi);
    let (lo, hi) = back.range();
    assert_eq!(app.diff_selection_text(lo, hi), text);
    assert_eq!(there.cells_on_line(4), None);
    assert_eq!(there.cells_on_line(5).map(|c| c.0), Some(2));
    assert_eq!(there.cells_on_line(6).map(|c| c.0), Some(0));
}

#[test]
fn cells_are_as_wide_as_the_terminal_shows_them() {
    assert_eq!(cells_of('a'), 1);
    assert_eq!(cells_of('\u{4e2d}'), 2);
    assert_eq!(cells_of('\u{301}'), 0);
    assert_eq!(cells_of('\t'), 0);
    assert_eq!(end_cell("a\u{4e2d}b", 3), 7);
    assert!(cell_in_selection(2, 1, 2, Some(3)));
    assert!(!cell_in_selection(3, 1, 2, Some(3)));
    assert!(cell_in_selection(9, 1, 2, None));
}

#[test]
fn base64_groups_are_four_characters_long() {
    for n in 0..20usize {
        let data: Vec<u8> = (0..n as u8).map(|b| b.wrapping_mul(37)).collect();
        assert_eq!(base64(&data).len(), (n + 2) / 3 * 4);
    }
    assert_eq!(base64(&[0xff, 0xfe, 0xfd]), "//79");
    assert_eq!(osc52_sequence("hi"), "\u{1b}]52;c;aGk=\u{7}");
}

#[test]
fn messages_are_checked_before_they_are_applied() {
    let loaded = |anchor: Option<usize>| {
        let mut document = document(DiffTarget::WorkingTree, &["a", "b"]);
        document.untracked_anchor = anchor;
        GitMsg::Inspect(InspectMsg::DiffLoaded { seq: 1, document })
    };
    assert!(can_apply(&loaded(None)));
    assert!(can_apply(&loaded(Some(1))));
    assert!(!can_apply(&loaded(Some(2))));
    assert!(can_apply(&GitMsg::History(HistoryMsg::WalkDone { generation: 0 })));
}

#[test]
fn no_matches_are_added_from_rows_that_are_not_there() {
    let mut app = app_with(&["fix one", "fix two"]);
    press(&mut app, KeyCode::Char('/'));
    type_text(&mut app, "fix");
    let before = app.search.state.matches.clone();
    app.extend_commit_matches(app.log.rows.len() + 5);
    assert_eq!(app.search.state.matches, before);
}
