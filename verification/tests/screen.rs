//! What is drawn: bars, panes, views and where they lie.

use rit::app::input::{KeyCode, KeyEvent, KeyModifiers};
use rit::app::{
    App, AuthorMode, BlameState, DateMode, DiffSelection, DisplayOptions, Focus, LogRow, Rect,
    RefsState, SearchState, StagedRow, StatusState, YankFeedback,
};
use rit::git::{GitMsg, HistoryMsg, InspectMsg};
use rit::model::{
    BlameDocument, BlameLine, CommitRecord, CommitSearchText, DiffDocument, DiffFlags, DiffLine,
    DiffLineKind, DiffStats, DiffTarget, FileStat, ObjectId, RefEntry, RefKind, RefLabel,
    StatusDocument,
};
use rit::ui::bars::{mode_accent, mode_of, search_status_line, status_bar_spans, title_text, Mode};
use rit::ui::diff_view::{diff_title, truncation_tag};
use rit::ui::diffstat::{append_diffstat, bar_len_for};
use rit::ui::help::{help_lines, popup_area};
use rit::ui::highlight::highlight_matches_in_span;
use rit::ui::layout::{
    areas_of, arrange, bars_split, inside_borders, panes_split, use_vertical_split, Direction, Part,
    Shown,
};
use rit::ui::log_view::{
    commit_spans, date_cell, date_cell_at, log_lines, pseudo_row_scaffold, row_text,
};
use rit::ui::style::{diff_line_to_ratatui, pane_frame, style_for, Color, Span, Style, StyledLine};

fn oid(n: u8) -> ObjectId {
    ObjectId::from_slice(&[n; 20]).expect("twenty bytes")
}

fn commit(n: u8, author: &str, summary: &str) -> CommitRecord {
    CommitRecord {
        id: oid(n),
        short_id: oid(n).to_short_hex(),
        authored_unix_secs: 0,
        authored_relative: "2d ago".to_string(),
        author: author.to_string(),
        summary: summary.to_string(),
        refs: Vec::new(),
        graph: String::new(),
        search: CommitSearchText {
            author_lower: author.to_lowercase(),
            summary_lower: summary.to_lowercase(),
            refs_lower: String::new(),
        },
    }
}

fn display(date: DateMode, author: AuthorMode, full_hash: bool) -> DisplayOptions {
    DisplayOptions { date, author, full_hash }
}

fn joined(spans: &[Span]) -> String {
    spans.iter().map(|s| s.content.as_str()).collect()
}

fn texts(lines: &[StyledLine]) -> Vec<String> {
    lines.iter().map(|l| joined(&l.spans)).collect()
}

fn mark() -> Style {
    Style::bg_fg(Color::Yellow, Color::Black)
}

fn marked_pieces(text: &str, query: &str) -> Vec<(String, bool)> {
    let mut out = Vec::new();
    let span = Span { content: text.to_string(), style: Style::fg(Color::Green) };
    highlight_matches_in_span(&mut out, span, query, mark());
    out.into_iter().map(|s| (s.content, s.style == mark())).collect()
}

#[test]
fn matches_are_marked_and_nothing_is_lost() {
    let piece = |t: &str, m: bool| (t.to_string(), m);
    assert_eq!(
        marked_pieces("Fix the fix", "fix"),
        [piece("Fix", true), piece(" the ", false), piece("fix", true)]
    );
    assert_eq!(marked_pieces("nothing", "fix"), [piece("nothing", false)]);
    assert_eq!(marked_pieces("any", ""), [piece("any", false)]);
    assert_eq!(
        marked_pieces("aÉTÉb", "été"),
        [piece("a", false), piece("ÉTÉ", true), piece("b", false)]
    );
    for text in ["İstanbul FIX", "ẞ fix", "ΑΣ fix Σ"] {
        let pieces: String = marked_pieces(text, "fix").into_iter().map(|p| p.0).collect();
        assert_eq!(pieces, text);
    }
}

#[test]
fn bars_are_in_proportion_and_never_too_long() {
    assert_eq!(bar_len_for(1, 2, 20), 10);
    assert_eq!(bar_len_for(1, 3, 20), 7);
    assert_eq!(bar_len_for(0, 3, 20), 0);
    assert_eq!(bar_len_for(5, 0, 20), 0);
    assert_eq!(bar_len_for(usize::MAX, 1, 20), 20);
}

#[test]
fn the_diffstat_lists_every_file() {
    let stat = |path: &str, additions: usize, deletions: usize| FileStat {
        path: path.to_string(),
        additions,
        deletions,
    };
    let files = vec![stat("long/name.rs", 30, 10), stat("b", 1, 0), stat("none", 0, 0)];
    let stats = DiffStats { files: 3, insertions: 31, deletions: 10 };
    let mut out = Vec::new();
    append_diffstat(&mut out, &files, &stats, Some(1), Some(&vec![0, 1]));
    assert_eq!(
        texts(&out),
        [
            "---",
            " long/name.rs |   40 +++++++++++++++-----",
            " b            |    1 +",
            " none         |    0 ",
            " 3 files changed, 31 insertions(+), 10 deletions(-)",
            "",
        ]
    );
    assert_eq!(out[2].style.bg, Some(Color::DarkGray), "the picked file");
    assert_eq!(out[1].style.bg, None);
    assert_eq!(out[3].spans[0].style, style_for(DiffLineKind::Faint), "left out by the filter");
    assert_eq!(out[1].spans[0].style, style_for(DiffLineKind::Diffstat));
}

#[test]
fn one_of_each_is_not_plural() {
    let files = vec![FileStat { path: "a".to_string(), additions: 1, deletions: 1 }];
    let stats = DiffStats { files: 1, insertions: 1, deletions: 1 };
    let mut out = Vec::new();
    append_diffstat(&mut out, &files, &stats, None, None);
    assert_eq!(texts(&out)[2], " 1 file changed, 1 insertion(+), 1 deletion(-)");
    assert_eq!(texts(&out)[1], " a |    2 ++++++++++----------");
}

#[test]
fn diff_lines_show_their_marks() {
    let shown = |kind: DiffLineKind| joined(&diff_line_to_ratatui(&DiffLine::new(kind, "x")).spans);
    assert_eq!(shown(DiffLineKind::Add), "+x");
    assert_eq!(shown(DiffLineKind::Del), "-x");
    assert_eq!(shown(DiffLineKind::Context), " x");
    assert_eq!(shown(DiffLineKind::FileHeader), "x");
    assert_eq!(style_for(DiffLineKind::Add), Style::fg(Color::Green));
    assert_eq!(style_for(DiffLineKind::SectionTitle), Style::bold_fg(Color::Yellow));
    assert_eq!(style_for(DiffLineKind::Meta), Style::new());
}

#[test]
fn commit_rows_follow_the_display_options() {
    let mut c = commit(1, "Ann Something Very Long", "Do it");
    c.graph = "* |".to_string();
    c.refs = vec![RefLabel { name: "main".to_string(), kind: RefKind::LocalBranch }];
    let all = display(DateMode::Relative, AuthorMode::Full, false);
    let date = date_cell_at(all, "2d ago", None);
    assert_eq!(
        joined(&commit_spans(&c, all, date, "", mark())),
        "* | 0101010 2d ago   Ann Something Very L [main] Do it"
    );
    let bare = display(DateMode::Off, AuthorMode::Off, true);
    let date = date_cell_at(bare, "2d ago", None);
    assert_eq!(
        joined(&commit_spans(&c, bare, date, "", mark())),
        format!("* | {} [main] Do it", oid(1).to_hex())
    );
    let short = display(DateMode::Off, AuthorMode::Abbrev, false);
    let spans = commit_spans(&c, short, None, "do", mark());
    assert_eq!(joined(&spans), "* | 0101010 Ann Someth [main] Do it");
    assert!(spans.iter().any(|s| s.content == "Do" && s.style == mark()));
}

#[test]
fn dates_are_relative_absolute_or_off() {
    let mode = |date| display(date, AuthorMode::Full, false);
    assert_eq!(date_cell_at(mode(DateMode::Relative), "2d ago", None).as_deref(), Some("2d ago  "));
    assert_eq!(date_cell_at(mode(DateMode::Off), "2d ago", None), None);
    let time = Some("2026-07-03 14:05".to_string());
    assert_eq!(
        date_cell_at(mode(DateMode::Absolute), "2d ago", time).as_deref(),
        Some("2026-07-03 14:05")
    );
    assert_eq!(
        date_cell_at(mode(DateMode::Absolute), "2d ago", None).as_deref(),
        Some("?               ")
    );
    let local = date_cell(mode(DateMode::Absolute), 1_700_000_000, "x").expect("a cell");
    assert!(local.starts_with("2023-11-1"), "{local}");
    assert_eq!(
        date_cell(mode(DateMode::Absolute), i64::MAX, "x").as_deref(),
        Some("?               ")
    );
}

#[test]
fn pseudo_rows_say_what_they_stand_for() {
    let all = display(DateMode::Relative, AuthorMode::Abbrev, false);
    assert_eq!(joined(&pseudo_row_scaffold("Ann", all)), "0000000 now      Ann        ");
    let full = display(DateMode::Off, AuthorMode::Off, true);
    assert_eq!(joined(&pseudo_row_scaffold("Ann", full)), format!("{} ", "0".repeat(40)));
    let staged = LogRow::Staged(StagedRow { author: "Ann".to_string() });
    assert!(joined(&row_text(&staged, all, "", mark())).ends_with("Staged changes"));
    let mut app = App::new();
    let label = |app: &App| joined(&row_text(&app.log.rows[0], app.display, "", mark()));
    assert!(label(&app).ends_with("Not Committed Yet"));
    for (dirty, text) in [(true, "Uncommitted changes"), (false, "Working tree clean")] {
        let author = "Ann".to_string();
        app.apply_msg(GitMsg::Inspect(InspectMsg::WorkingTreeMeta {
            author,
            dirty: Some(dirty),
            staged: None,
        }));
        assert!(label(&app).ends_with(text));
    }
}

fn app_with_log() -> App {
    let mut app = App::new();
    let commits = (1..=6).map(|n| commit(n, "Ann", &format!("change {n}"))).collect();
    let generation = app.walk_gen;
    app.apply_msg(GitMsg::History(HistoryMsg::Commits { generation, commits }));
    app
}

#[test]
fn the_log_shows_a_window_with_its_cursor() {
    let mut app = app_with_log();
    app.log.scroll = 2;
    app.log.selected = 3;
    let lines = log_lines(&app, 3, true);
    let ends: Vec<bool> = texts(&lines)
        .iter()
        .zip(["change 2", "change 3", "change 4"])
        .map(|(t, end)| t.ends_with(end))
        .collect();
    assert_eq!(ends, [true; 3]);
    assert_eq!(lines[1].style.bg, Some(Color::DarkGray));
    assert_eq!(log_lines(&app, 3, false)[1].style.bg, Some(Color::Rgb(45, 45, 45)));
    assert_eq!(lines[0].style, Style::new());
    assert_eq!(log_lines(&app, 100, true).len(), 5);
    app.error = Some("broken".to_string());
    assert_eq!(texts(&log_lines(&app, 3, true)), ["broken"]);
    app.error = None;
    app.log.rows.clear();
    assert_eq!(texts(&log_lines(&app, 3, true)), ["Loading commits..."]);
    app.walk_done = true;
    assert_eq!(texts(&log_lines(&app, 3, true)), ["No commits found"]);
}

fn diff_document() -> DiffDocument {
    DiffDocument {
        target: DiffTarget::Commit(oid(1)),
        header: vec![DiffLine::new(DiffLineKind::CommitHeader, "commit 1")],
        body: vec![
            DiffLine::new(DiffLineKind::Add, "new text"),
            DiffLine::new(DiffLineKind::Del, "old text"),
        ],
        files: vec![FileStat { path: "a".to_string(), additions: 1, deletions: 1 }],
        stats: DiffStats { files: 1, insertions: 1, deletions: 1 },
        flags: DiffFlags::default(),
        untracked_anchor: None,
        sections: Vec::new(),
    }
}

#[test]
fn the_diff_pane_shows_header_diffstat_and_body() {
    let mut app = App::new();
    assert_eq!(texts(&app.diff.lines_shown(5, true)), ["Select a commit to view diff"]);
    assert_eq!(texts(&app.diff.lines_shown(5, false)), ["No diff available"]);
    app.diff.loading = true;
    assert_eq!(texts(&app.diff.lines_shown(5, false)), ["Loading diff..."]);
    app.diff.document = Some(diff_document());
    assert_eq!(
        texts(&app.diff.lines_shown(100, false)),
        [
            "   1 commit 1",
            "   2 ---",
            "   3  a |    2 ++++++++++----------",
            "   4  1 file changed, 1 insertion(+), 1 deletion(-)",
            "   5 ",
            "   6 +new text",
            "   7 -old text",
        ]
    );
    app.diff.show_line_numbers = false;
    app.diff.scroll = 5;
    assert_eq!(texts(&app.diff.lines_shown(1, false)), ["+new text"]);
    app.diff.show_hunks = false;
    assert_eq!(texts(&app.diff.lines_shown(9, false)), [""]);
}

#[test]
fn selected_cells_have_a_background_of_their_own() {
    let mut app = App::new();
    app.diff.document = Some(diff_document());
    app.diff.show_line_numbers = false;
    app.diff.selection =
        Some(DiffSelection { anchor: (5, 1), cursor: (5, 3), dragging: false, moved: true });
    let lines = app.diff.lines_shown(100, false);
    let selected: Vec<&str> = lines
        .iter()
        .flat_map(|l| l.spans.iter())
        .filter(|s| s.style.bg == Some(Color::Rgb(40, 65, 110)))
        .map(|s| s.content.as_str())
        .collect();
    assert_eq!(selected, ["new"]);
    assert_eq!(app.diff_selection_text((5, 1), (5, 3)), "new");
}

#[test]
fn the_diff_title_tells_what_is_shown() {
    let mut app = app_with_log();
    assert_eq!(diff_title(&app), " Diff ");
    app.diff.target = Some(DiffTarget::WorkingTree);
    assert_eq!(diff_title(&app), " Diff: Working Tree ");
    app.diff.target = Some(DiffTarget::Staged);
    assert_eq!(diff_title(&app), " Diff: Staged ");
    app.diff.target = Some(DiffTarget::Commit(oid(1)));
    app.log.selected = 1;
    app.path_filter = Some("src".to_string());
    assert_eq!(diff_title(&app), " Diff: 0101010  [only src] ");
    app.diff.document = Some(diff_document());
    app.diff.show_hunks = false;
    assert_eq!(
        diff_title(&app),
        " Diff: 0101010  1 file changed  +1  -1  [summary]  [only src] "
    );
    app.handle_input(KeyEvent::new(KeyCode::Char('x'), KeyModifiers::Plain));
    app.diff.show_hunks = true;
    app.diff.show_file_view(diff_document());
    assert_eq!(diff_title(&app), " Diff: 0101010  —  a  +1  -1  [file] ");
}

#[test]
fn truncation_is_told_with_its_reasons() {
    let flags = |truncated, skipped_binary_files, skipped_large_files| DiffFlags {
        truncated,
        skipped_binary_files,
        skipped_large_files,
    };
    assert_eq!(truncation_tag(&flags(false, 1, 1)), "");
    assert_eq!(truncation_tag(&flags(true, 0, 0)), "  [truncated]");
    assert_eq!(truncation_tag(&flags(true, 2, 0)), "  [truncated: 2 binary]");
    assert_eq!(truncation_tag(&flags(true, 2, 1)), "  [truncated: 2 binary, 1 large]");
    assert_eq!(truncation_tag(&flags(true, 0, 1)), "  [truncated: 1 large]");
}

#[test]
fn the_status_bar_names_the_mode_and_what_can_be_done() {
    let mut app = app_with_log();
    let bar = |app: &App| joined(&status_bar_spans(app));
    assert!(bar(&app).starts_with(" LOG  6+ commits  q:quit"));
    app.walk_done = true;
    assert!(bar(&app).starts_with(" LOG  6 commits  q:quit"));
    app.yank_message = Some(YankFeedback { text: "Copied: x".to_string(), shown_at: 0 });
    assert_eq!(bar(&app), " LOG  ✓ Copied: x");
    app.yank_message = None;
    app.search.state.active = true;
    app.search.state.query = "ab".to_string();
    app.search.state.matches = vec![1, 2];
    assert_eq!(bar(&app), " SEARCH  [1/2] /ab█");
    app.search.state.active = false;
    assert_eq!(bar(&app), " LOG  [1/2] n:next  N:prev  Esc:clear search  Enter:open-diff");
    app.diff.open = true;
    app.focus = Focus::Diff;
    app.diff.search.query = "q".to_string();
    assert_eq!(bar(&app), " DIFF  [0/0] n:next  N:prev  Esc:clear diff search");
    assert!(search_status_line(SearchState::new().snapshot(), "x").is_none());
}

#[test]
fn the_mode_is_what_keys_go_to() {
    let mut app = App::new();
    assert_eq!(mode_of(&app), Mode::Log);
    app.focus = Focus::Diff;
    assert_eq!(mode_of(&app), Mode::Diff);
    app.blame.open = true;
    assert_eq!(mode_of(&app), Mode::Blame);
    app.refs.open = true;
    assert_eq!(mode_of(&app), Mode::Refs);
    app.status.open = true;
    assert_eq!(mode_of(&app), Mode::Status);
    app.diff.file_picker = Some(0);
    assert_eq!(mode_of(&app), Mode::Pick);
    app.diff.search.active = true;
    assert_eq!(mode_of(&app), Mode::Search);
    app.show_help = true;
    assert_eq!(mode_of(&app), Mode::Help);
    assert_eq!(mode_accent(Mode::Help), Color::White);
    assert_eq!(mode_accent(Mode::Search), Color::Yellow);
}

#[test]
fn the_title_bar_names_repository_and_branch() {
    let mut app = App::new();
    assert_eq!(title_text(&app), " rit  unknown  [HEAD] ");
    app.repo_name = "~/rit".to_string();
    app.branch_name = "main".to_string();
    assert_eq!(title_text(&app), " rit  ~/rit  [main] ");
}

#[test]
fn the_status_view_shows_a_window() {
    let lines: Vec<DiffLine> =
        (0..5).map(|i| DiffLine::new(DiffLineKind::Faint, &format!("l{i}"))).collect();
    let mut status = StatusState { open: true, document: None, scroll: 0, loading: true };
    assert_eq!(status.view_title(), " Status [loading...] ");
    assert!(status.lines_shown(3).is_empty());
    status.loading = false;
    status.document = Some(StatusDocument { lines });
    status.scroll = 3;
    assert_eq!(status.view_title(), " Status ");
    assert_eq!(texts(&status.lines_shown(3)), ["l3", "l4"]);
    status.scroll = 99;
    assert_eq!(texts(&status.lines_shown(3)), ["l4"]);
}

#[test]
fn the_refs_view_shows_names_ages_and_summaries() {
    let mut refs = RefsState::new();
    assert_eq!(texts(&refs.lines_shown(3)), ["No branches or tags found"]);
    refs.loading = true;
    assert_eq!(texts(&refs.lines_shown(3)), ["Loading refs..."]);
    assert_eq!(refs.view_title(), " Refs [loading...] ");
    refs.entries = vec![RefEntry {
        name: "a-branch-whose-name-is-longer-than-its-column".to_string(),
        kind: RefKind::LocalBranch,
        target: oid(1),
        summary: "Sum".to_string(),
        authored_relative: "3d ago".to_string(),
    }];
    let lines = refs.lines_shown(3);
    assert_eq!(texts(&lines), ["a-branch-whose-name-is-longer-th 3d ago   Sum"]);
    assert_eq!(lines[0].style.bg, Some(Color::DarkGray));
}

#[test]
fn the_blame_view_annotates_every_line() {
    let mut blame = BlameState::new();
    assert_eq!(blame.view_title(), " Blame [loading...] ");
    assert_eq!(texts(&blame.lines_shown(3)), ["Annotating..."]);
    let line = |n: u32| BlameLine {
        commit_id: oid(1),
        commit_short: "0101010".to_string(),
        author: "A Long Author Name".to_string(),
        authored_relative: "4d ago".to_string(),
        line_no: n,
        text: format!("code {n}"),
        source_path: None,
    };
    blame.document =
        Some(BlameDocument { path: "f.rs".to_string(), at: oid(2), lines: Vec::new() });
    assert_eq!(texts(&blame.lines_shown(3)), ["(empty file)"]);
    blame.document = Some(BlameDocument {
        path: "f.rs".to_string(),
        at: oid(2),
        lines: (1..=10).map(line).collect(),
    });
    assert_eq!(blame.view_title(), " Blame f.rs @ 0202020 ");
    assert_eq!(
        texts(&blame.lines_shown(2)),
        [
            "0101010 4d ago   A Long Autho  1 │ code 1",
            "0101010 4d ago   A Long Autho  2 │ code 2",
        ]
    );
    blame.error = Some("gone".to_string());
    assert_eq!(texts(&blame.lines_shown(2)), ["Error: gone"]);
}

#[test]
fn the_help_lies_in_the_middle_of_the_screen() {
    assert_eq!(popup_area(Rect::new(0, 0, 100, 80)), Rect::new(24, 12, 52, 55));
    assert_eq!(popup_area(Rect::new(0, 0, 30, 20)), Rect::new(2, 2, 26, 16));
    assert_eq!(popup_area(Rect::new(0, 0, 3, 3)), Rect::new(1, 1, 0, 0));
    let lines = texts(&help_lines());
    assert_eq!(lines[0], "Navigation");
    assert_eq!(lines[1], "  j / ↓          Move down");
    assert_eq!(lines.last().map(|l| l.as_str()), Some("  ? / q / Esc    Close this help"));
    assert!(lines.iter().any(|l| l.starts_with("  rit blame <path>")));
}

#[test]
fn wide_screens_are_split_side_by_side() {
    assert!(use_vertical_split(161, 200));
    assert!(!use_vertical_split(80, 24));
    assert!(!use_vertical_split(92, 24));
    assert!(use_vertical_split(93, 24));
    assert!(use_vertical_split(1, 0));
}

#[test]
fn the_screen_is_divided_into_bars_and_panes() {
    let areas = areas_of(Rect::new(0, 0, 80, 24), false);
    assert_eq!(areas.title, Rect::new(0, 0, 80, 1));
    assert_eq!(areas.main, Rect::new(0, 1, 80, 22));
    assert_eq!(areas.status, Rect::new(0, 23, 80, 1));
    assert_eq!(areas.log, areas.main);
    assert_eq!(areas.diff, None);
    let stacked = areas_of(Rect::new(0, 0, 80, 24), true);
    assert_eq!(stacked.log, Rect::new(0, 1, 80, 13));
    assert_eq!(stacked.diff, Some(Rect::new(0, 14, 80, 9)));
    let wide = areas_of(Rect::new(0, 0, 200, 42), true);
    assert_eq!(wide.log, Rect::new(0, 1, 100, 40));
    assert_eq!(wide.diff, Some(Rect::new(100, 1, 100, 40)));
}

fn assert_divided(size: Rect) {
    let Rect { x, y, width, height } = size;
    let areas = areas_of(size, true);
    assert_eq!(areas.title, Rect::new(x, y, width, 1));
    assert_eq!(areas.main, Rect::new(x, y + 1, width, height - 2));
    assert_eq!(areas.status, Rect::new(x, y + height - 1, width, 1));
    let main = areas.main;
    let diff = areas.diff.expect("a diff pane");
    if use_vertical_split(width, height) {
        let half = (50 * width + 50) / 100;
        assert_eq!(areas.log, Rect::new(x, y + 1, half, main.height));
        assert_eq!(diff, Rect::new(x + half, y + 1, width - half, main.height));
    } else {
        let upper = (60 * main.height + 50) / 100;
        assert_eq!(areas.log, Rect::new(x, y + 1, width, upper));
        assert_eq!(diff, Rect::new(x, y + 1 + upper, width, main.height - upper));
    }
}

#[test]
fn screens_of_every_height_are_divided() {
    for height in 2..=160 {
        for width in [0, 7, 80, 160, 241] {
            assert_divided(Rect::new(0, 0, width, height));
        }
        assert_divided(Rect::new(5, 3, 81, height));
    }
}

#[test]
fn screens_of_every_width_are_divided() {
    for width in 0..=420 {
        for height in [2, 3, 25, 61] {
            assert_divided(Rect::new(0, 0, width, height));
        }
        assert_divided(Rect::new(9, 1, width, 24));
    }
}

#[test]
fn parts_of_a_low_screen_do_not_overlap() {
    for height in 0..2 {
        let areas = areas_of(Rect::new(0, 4, 80, height), false);
        let parts = [areas.title, areas.main, areas.status];
        assert!(parts.iter().all(|p| p.y >= 4 && p.y + p.height <= 4 + height));
        assert!(parts.windows(2).all(|p| p[0].y + p[0].height <= p[1].y));
        assert_eq!(areas.log, areas.main);
    }
}

#[test]
fn a_screen_is_split_by_bars_and_shares() {
    assert_eq!(bars_split(), [Part::Length(1), Part::Min(0), Part::Length(1)]);
    let half = vec![Part::Percentage(50), Part::Percentage(50)];
    assert_eq!(panes_split(Rect::new(0, 0, 200, 42)), (Direction::Horizontal, half));
    let upper = vec![Part::Percentage(60), Part::Percentage(40)];
    assert_eq!(panes_split(Rect::new(0, 0, 80, 24)), (Direction::Vertical, upper));
    let bars: Vec<Rect> = (0..3).map(|i| Rect::new(0, i, 9, 1)).collect();
    let panes: Vec<Rect> = (5..7).map(|i| Rect::new(i, 0, 1, 9)).collect();
    let areas = arrange(&bars, Some(&panes));
    assert_eq!((areas.title, areas.main, areas.status), (bars[0], bars[1], bars[2]));
    assert_eq!((areas.log, areas.diff), (panes[0], Some(panes[1])));
    let areas = arrange(&bars, None);
    assert_eq!((areas.log, areas.diff), (bars[1], None));
}

#[test]
fn the_focused_pane_stands_out() {
    let focused = pane_frame(true, Color::Cyan);
    assert_eq!(focused.border, Style::fg(Color::Cyan));
    assert_eq!(focused.title, Style::bold_fg(Color::Cyan));
    assert!(focused.thick);
    let other = pane_frame(false, Color::Cyan);
    assert_eq!(other.border, Style::fg(Color::DarkGray));
    assert_eq!(other.title, Style::fg(Color::DarkGray));
    assert!(!other.thick);
}

#[test]
fn an_open_view_hides_the_panes() {
    let mut app = app_with_log();
    assert_eq!(app.view_shown(), Shown::Panes);
    app.blame.open = true;
    assert_eq!(app.view_shown(), Shown::Blame);
    app.refs.open = true;
    assert_eq!(app.view_shown(), Shown::Refs);
    app.status.open = true;
    assert_eq!(app.view_shown(), Shown::Status);
}

#[test]
fn panes_know_what_lies_inside_their_borders() {
    assert_eq!(inside_borders(Rect::new(5, 6, 10, 8)), Rect::new(6, 7, 8, 6));
    assert_eq!(inside_borders(Rect::new(5, 6, 1, 0)), Rect::new(6, 6, 0, 0));
    let mut app = app_with_log();
    app.diff.open = true;
    app.log.selected = 6;
    let areas = areas_of(Rect::new(0, 0, 80, 12), true);
    app.place(areas);
    assert_eq!(app.panes.log, Some(inside_borders(areas.log)));
    assert_eq!(app.log.view_height, usize::from(areas.log.height) - 2);
    assert!(app.log.selected < app.log.scroll + app.log.view_height);
    app.refs.open = true;
    app.place(areas);
    assert_eq!(app.panes.log, None);
    assert_eq!(app.refs.view_height, 8);
}
