//! The viewer's state: messages of the worker, keys and navigation.

use rit::app::input::{KeyCode, KeyEvent, KeyModifiers};
use rit::app::{App, AuthorMode, DateMode, Focus, LogRow};
use rit::git::refs::RefsMap;
use rit::git::{BlameAt, GitReq, HistoryMsg, HistoryReq, InspectMsg, InspectReq};
use rit::model::{
    BlameDocument, BlameLine, CommitRecord, CommitSearchText, DiffDocument, DiffFlags, DiffLine,
    DiffLineKind, DiffStats, DiffTarget, FileSection, FileStat, ObjectId, RefEntry, RefKind,
    RefLabel,
};
use std::sync::Arc;

fn next_request(app: &mut App) -> Option<GitReq> {
    let mut requests = app.take_requests();
    if requests.is_empty() {
        return None;
    }
    let first = requests.remove(0);
    app.outbox = requests;
    Some(first)
}

fn oid(n: u8) -> ObjectId {
    let mut raw = [0u8; 20];
    raw[0] = n;
    ObjectId::from_slice(&raw).expect("twenty bytes")
}

fn commit_record(n: u8, summary: &str, author: &str) -> CommitRecord {
    CommitRecord {
        id: oid(n),
        short_id: format!("{n:07x}"),
        authored_unix_secs: 0,
        authored_relative: "1d ago".into(),
        author: author.into(),
        summary: summary.to_string(),
        refs: Vec::new(),
        graph: "".into(),
        search: CommitSearchText {
            author_lower: author.to_lowercase(),
            summary_lower: summary.to_lowercase(),
            refs_lower: "".into(),
        },
    }
}

fn working_tree_doc_with_anchor() -> DiffDocument {
    DiffDocument {
        target: DiffTarget::WorkingTree,
        header: vec![DiffLine::new(DiffLineKind::CommitHeader, "Working tree")],
        body: vec![
            DiffLine::new(DiffLineKind::SectionTitle, "Untracked files"),
            DiffLine::new(DiffLineKind::Faint, "(scanning for untracked files…)"),
        ],
        files: Vec::new(),
        stats: DiffStats { files: 0, insertions: 0, deletions: 0 },
        flags: DiffFlags::default(),
        untracked_anchor: Some(1),
        sections: Vec::new(),
    }
}

fn key(code: KeyCode, mods: KeyModifiers) -> KeyEvent {
    KeyEvent::new(code, mods)
}

fn commit_doc_with_sections() -> DiffDocument {
    DiffDocument {
        target: DiffTarget::Commit(oid(7)),
        header: vec![DiffLine::new(DiffLineKind::CommitHeader, "commit 7")],
        body: (0..40).map(|i| DiffLine::new(DiffLineKind::Context, &format!("line {i}"))).collect(),
        files: vec![
            FileStat { path: "a.rs".into(), additions: 1, deletions: 0 },
            FileStat { path: "b.rs".into(), additions: 2, deletions: 1 },
            FileStat { path: "capped.rs".into(), additions: 0, deletions: 0 },
        ],
        stats: DiffStats { files: 3, insertions: 3, deletions: 1 },
        flags: DiffFlags::default(),
        untracked_anchor: None,
        sections: vec![
            FileSection { path: "a.rs".into(), body_start: 0 },
            FileSection { path: "b.rs".into(), body_start: 15 },
        ],
    }
}

fn single_file_doc(path: &str) -> DiffDocument {
    DiffDocument {
        target: DiffTarget::Commit(oid(7)),
        header: Vec::new(),
        body: vec![DiffLine::new(DiffLineKind::Context, "full file")],
        files: vec![FileStat { path: path.into(), additions: 2, deletions: 1 }],
        stats: DiffStats { files: 1, insertions: 2, deletions: 1 },
        flags: DiffFlags::default(),
        untracked_anchor: None,
        sections: vec![FileSection { path: path.into(), body_start: 0 }],
    }
}

// --- generation gating ---

#[test]
fn commits_with_stale_generation_are_dropped() {
    let mut app = App::new();
    assert_eq!(app.walk_gen, 0);
    app.apply_history_msg(HistoryMsg::Commits { generation: 1, commits: vec![commit_record(1, "x", "a")] });
    assert_eq!(app.log.rows.len(), 1, "stale batch must not append rows");

    app.apply_history_msg(HistoryMsg::Commits { generation: 0, commits: vec![commit_record(1, "x", "a")] });
    assert_eq!(app.log.rows.len(), 2, "current-generation batch appends");
}

#[test]
fn walk_done_with_stale_generation_is_dropped() {
    let mut app = App::new();
    app.apply_history_msg(HistoryMsg::WalkDone { generation: 3 });
    assert!(!app.walk_done);
    app.apply_history_msg(HistoryMsg::WalkDone { generation: 0 });
    assert!(app.walk_done);
}

#[test]
fn reload_carries_bumped_generation_to_worker() {
    let mut app = App::new();
    app.reload();
    assert_eq!(app.walk_gen, 1);
    let mut saw_reload = false;
    for req in app.take_requests() {
        if let GitReq::History(HistoryReq::Reload { generation, root }) = req {
            assert_eq!(generation, app.walk_gen);
            assert!(root.is_none(), "plain reload keeps the walk root");
            saw_reload = true;
        }
    }
    assert!(saw_reload);
}

// --- RefsLoaded backfill ---

#[test]
fn refs_loaded_backfills_only_the_first_batch_prefix() {
    let mut app = App::new();
    // Two commits: rows [WT, c1, c2]; only c1 predates refs.
    app.apply_history_msg(HistoryMsg::Commits {
        generation: 0,
        commits: vec![commit_record(1, "first", "a"), commit_record(2, "second", "b")],
    });

    let mut map = RefsMap::new();
    map.add_label(oid(1), RefLabel { name: "v1.0".into(), kind: RefKind::Tag }, false);
    map.add_label(oid(2), RefLabel { name: "main".into(), kind: RefKind::LocalBranch }, false);

    app.apply_history_msg(HistoryMsg::RefsLoaded { generation: 0, refs_map: Arc::new(map), first_batch_rows: 1 });

    let LogRow::Commit(c1) = &app.log.rows[1] else { panic!("row 1 should be a commit") };
    assert_eq!(c1.refs.len(), 1, "prefix commit gets its labels backfilled");
    assert!(c1.search.refs_lower.contains("v1.0"), "search projection refreshed with the labels");

    let LogRow::Commit(c2) = &app.log.rows[2] else { panic!("row 2 should be a commit") };
    assert!(c2.refs.is_empty(), "rows past first_batch_rows were built with refs live and are not touched");
}

#[test]
fn refs_loaded_with_stale_generation_is_dropped() {
    let mut app = App::new();
    app.apply_history_msg(HistoryMsg::Commits { generation: 0, commits: vec![commit_record(1, "first", "a")] });
    let mut map = RefsMap::new();
    map.add_label(oid(1), RefLabel { name: "v1.0".into(), kind: RefKind::Tag }, false);
    app.apply_history_msg(HistoryMsg::RefsLoaded { generation: 7, refs_map: Arc::new(map), first_batch_rows: 1 });
    let LogRow::Commit(c1) = &app.log.rows[1] else { panic!("row 1 should be a commit") };
    assert!(c1.refs.is_empty());
}

// --- DiffLoaded / untracked splice sequencing ---

#[test]
fn diff_loaded_with_stale_seq_is_dropped() {
    let mut app = App::new();
    app.diff.open = true;
    app.diff.target = Some(DiffTarget::WorkingTree);
    app.diff_seq = 2;

    app.apply_inspect_msg(InspectMsg::DiffLoaded { seq: 1, document: working_tree_doc_with_anchor() });
    assert!(app.diff.document.is_none(), "stale-seq document dropped");

    app.apply_inspect_msg(InspectMsg::DiffLoaded { seq: 2, document: working_tree_doc_with_anchor() });
    assert!(app.diff.document.is_some(), "current-seq document applied");
}

#[test]
fn untracked_update_with_fresh_seq_splices_paths() {
    let mut app = App::new();
    app.diff.open = true;
    app.diff.target = Some(DiffTarget::WorkingTree);
    app.diff_seq = 3;
    app.diff.document = Some(working_tree_doc_with_anchor());

    app.apply_untracked_update(DiffTarget::WorkingTree, 3, vec!["new.txt".to_string()]);

    let doc = app.diff.document.as_ref().expect("doc present");
    assert!(doc.untracked_anchor.is_none(), "anchor consumed");
    assert!(doc.body.iter().any(|l| l.text == "?? new.txt"), "untracked path spliced in");
    assert!(!doc.body.iter().any(|l| l.text.contains("scanning")), "placeholder replaced");
}

#[test]
fn untracked_update_with_stale_seq_leaves_anchor_for_fresh_result() {
    let mut app = App::new();
    app.diff.open = true;
    app.diff.target = Some(DiffTarget::WorkingTree);
    // A newer LoadDiff (seq 4) is in flight; the scan spawned by the
    // older seq-3 request reports late.
    app.diff_seq = 4;
    app.diff.document = Some(working_tree_doc_with_anchor());

    app.apply_untracked_update(DiffTarget::WorkingTree, 3, vec!["stale.txt".to_string()]);

    let doc = app.diff.document.as_ref().expect("doc present");
    assert!(doc.untracked_anchor.is_some(), "stale scan must not consume the fresh document's anchor");
    assert!(!doc.body.iter().any(|l| l.text.contains("stale.txt")));

    // The fresh scan's result still lands.
    app.apply_untracked_update(DiffTarget::WorkingTree, 4, vec!["fresh.txt".to_string()]);
    let doc = app.diff.document.as_ref().expect("doc present");
    assert!(doc.untracked_anchor.is_none());
    assert!(doc.body.iter().any(|l| l.text == "?? fresh.txt"));
}

#[test]
fn untracked_update_clean_tree_emits_clean_line() {
    let mut app = App::new();
    app.diff.open = true;
    app.diff.target = Some(DiffTarget::WorkingTree);
    app.diff_seq = 1;
    app.diff.document = Some(working_tree_doc_with_anchor());

    app.apply_untracked_update(DiffTarget::WorkingTree, 1, Vec::new());

    let doc = app.diff.document.as_ref().expect("doc present");
    assert!(doc.body.iter().any(|l| l.text.contains("working tree clean")), "clean message emitted");
}

#[test]
fn fetch_diff_bumps_seq_and_sends_matching_request() {
    let mut app = App::new();
    app.log.rows.push(LogRow::Commit(commit_record(1, "x", "a")));
    app.log.selected = 1;
    app.diff.open = true;

    app.fetch_diff_for_selected();

    assert_eq!(app.diff_seq, 1);
    let req = next_request(&mut app).expect("request sent");
    match req {
        GitReq::Inspect(InspectReq::LoadDiff { target, seq, scoped }) => {
            assert_eq!(seq, app.diff_seq);
            assert_eq!(target, DiffTarget::Commit(oid(1)));
            assert!(scoped, "diffs are scoped by default");
        }
        _ => panic!("expected LoadDiff"),
    }
}

#[test]
fn f_toggles_diff_scope_and_rerequests() {
    let mut app = App::new();
    app.path_filter = Some("src".to_string());
    app.log.rows.push(LogRow::Commit(commit_record(1, "one", "alice")));
    app.log.selected = 1;
    app.diff.open = true;
    app.fetch_diff_for_selected();
    _ = next_request(&mut app).expect("initial LoadDiff");

    app.handle_input(key(KeyCode::Char('f'), KeyModifiers::Plain));
    assert!(!app.diff.scoped, "f flips scoping off");
    match next_request(&mut app).expect("toggle re-requests the same target") {
        GitReq::Inspect(InspectReq::LoadDiff { target, seq, scoped }) => {
            assert_eq!(target, DiffTarget::Commit(oid(1)));
            assert_eq!(seq, app.diff_seq, "toggle must bump the seq so the old document is superseded");
            assert!(!scoped);
        }
        _ => panic!("expected LoadDiff"),
    }
}

#[test]
fn f_is_noop_without_path_filter() {
    let mut app = App::new();
    app.log.rows.push(LogRow::Commit(commit_record(1, "one", "alice")));
    app.log.selected = 1;
    app.diff.open = true;
    app.fetch_diff_for_selected();
    _ = next_request(&mut app).expect("initial LoadDiff");

    app.handle_input(key(KeyCode::Char('f'), KeyModifiers::Plain));
    assert!(app.diff.scoped, "no pathspec, nothing to toggle");
    assert!(next_request(&mut app).is_none(), "no re-request without a pathspec");
}

// --- input routing ---

#[test]
fn ctrl_c_quits_from_every_mode() {
    let ctrl_c = key(KeyCode::Char('c'), KeyModifiers::Control);
    for setup in [
        (|_a: &mut App| {}) as fn(&mut App),
        |a| a.show_help = true,
        |a| a.status.open = true,
        |a| a.search.state.active = true,
        |a| a.diff.search.active = true,
    ] {
        let mut app = App::new();
        setup(&mut app);
        app.handle_input(ctrl_c);
        assert!(app.should_quit, "Ctrl+C must quit regardless of mode");
    }
}

#[test]
fn search_mode_captures_chars_instead_of_navigating() {
    let mut app = App::new();
    app.log.rows.push(LogRow::Commit(commit_record(1, "fix things", "a")));
    app.search.state.active = true;

    app.handle_input(key(KeyCode::Char('j'), KeyModifiers::Plain));

    assert_eq!(app.search.state.query, "j", "chars go into the query while search input is active");
    assert_eq!(app.log.selected, 0, "no navigation happened");
}

#[test]
fn help_intercepts_keys_and_closes_on_q() {
    let mut app = App::new();
    app.log.rows.push(LogRow::Commit(commit_record(1, "x", "a")));
    app.show_help = true;

    app.handle_input(key(KeyCode::Char('j'), KeyModifiers::Plain));
    assert_eq!(app.log.selected, 0, "keys don't leak through the help popup");

    app.handle_input(key(KeyCode::Char('q'), KeyModifiers::Plain));
    assert!(!app.show_help, "q closes help");
    assert!(!app.should_quit, "q in help does not quit the app");
}

#[test]
fn diff_jump_file_moves_between_section_starts() {
    let mut app = App::new();
    app.diff.open = true;
    app.focus = Focus::Diff;
    app.diff.view_height = 5;
    let mut doc = working_tree_doc_with_anchor();
    doc.untracked_anchor = None;
    // header has 1 line, no diffstat (files empty) → offset = 1.
    doc.body = (0..40).map(|i| DiffLine::new(DiffLineKind::Context, &format!("line {i}"))).collect();
    doc.sections = vec![
        FileSection { path: "a.txt".into(), body_start: 0 },
        FileSection { path: "b.txt".into(), body_start: 10 },
        FileSection { path: "c.txt".into(), body_start: 30 },
    ];
    app.diff.document = Some(doc);

    app.diff_jump_file(1);
    assert_eq!(app.diff.scroll, 1, "] from top lands on the first section (offset by header)");
    app.diff_jump_file(1);
    assert_eq!(app.diff.scroll, 11);
    app.diff_jump_file(-1);
    assert_eq!(app.diff.scroll, 1);
    app.diff_jump_file(-1);
    assert_eq!(app.diff.scroll, 0, "[ above the first section goes to the top");

    // Jump past the end clamps to max scroll.
    app.diff.scroll = 12;
    app.diff_jump_file(1);
    let max = app.diff.total_visible_lines() - app.diff.view_height;
    assert_eq!(app.diff.scroll, 31.min(max));
}

#[test]
fn o_isolates_the_viewport_file_and_q_restores_the_multi_file_view() {
    let mut app = App::new();
    app.diff.open = true;
    app.focus = Focus::Diff;
    app.diff.target = Some(DiffTarget::Commit(oid(7)));
    app.diff.view_height = 5;
    app.diff.document = Some(commit_doc_with_sections());
    // Body offset is 7 (see the doc helper); scroll 23 puts b.rs
    // (body_start 15 → virtual 22) at the viewport top.
    app.diff.scroll = 23;

    app.handle_input(key(KeyCode::Char('o'), KeyModifiers::Plain));
    let seq = app.diff_seq;
    match next_request(&mut app).expect("LoadFileDiff sent") {
        GitReq::Inspect(InspectReq::LoadFileDiff { target, path, seq: s }) => {
            assert_eq!(target, DiffTarget::Commit(oid(7)));
            assert_eq!(path, "b.rs", "o targets the file under the viewport, same rule as b");
            assert_eq!(s, seq);
        }
        _ => panic!("expected LoadFileDiff"),
    }

    app.apply_inspect_msg(InspectMsg::FileDiffLoaded { seq, document: single_file_doc("b.rs") });
    assert!(app.diff.file_view_return.is_some(), "multi-file view stashed for q");
    assert_eq!(app.diff.scroll, 0, "stub body has no +/- lines, so the view opens at the top");
    assert_eq!(app.diff.document.as_ref().map(|d| d.files.len()), Some(1));

    // First q pops back to the multi-file view at the old viewport.
    app.handle_input(key(KeyCode::Char('q'), KeyModifiers::Plain));
    assert!(app.diff.open, "first q only closes the file view");
    assert!(app.diff.file_view_return.is_none());
    assert_eq!(app.diff.document.as_ref().map(|d| d.files.len()), Some(3));
    assert_eq!(app.diff.scroll, 23, "viewport restored");

    // Second q closes the pane as before.
    app.handle_input(key(KeyCode::Char('q'), KeyModifiers::Plain));
    assert!(!app.diff.open);
}

#[test]
fn file_view_opens_scrolled_to_the_first_change() {
    let mut app = App::new();
    app.diff.open = true;
    app.diff.target = Some(DiffTarget::Commit(oid(7)));
    app.diff.view_height = 10;

    let mut doc = single_file_doc("b.rs");
    doc.body = (0..20)
        .map(|i| DiffLine::new(DiffLineKind::Context, &format!("line {i}")))
        .chain(std::iter::once(DiffLine::new(DiffLineKind::Add, "added")))
        .chain((21..30).map(|i| DiffLine::new(DiffLineKind::Context, &format!("line {i}"))))
        .collect();
    app.apply_inspect_msg(InspectMsg::FileDiffLoaded { seq: app.diff_seq, document: doc });

    // Empty header + 4-line diffstat block put the Add (body index
    // 20) at virtual line 24; minus 3 lines of lead context = 21.
    assert_eq!(app.diff.scroll, 21);
}

#[test]
fn file_view_first_change_near_the_top_clamps_to_zero() {
    let mut app = App::new();
    app.diff.open = true;
    app.diff.target = Some(DiffTarget::Commit(oid(7)));
    app.diff.view_height = 10;

    let mut doc = single_file_doc("b.rs");
    doc.header = Vec::new();
    doc.files = Vec::new(); // no diffstat block
    doc.body = vec![DiffLine::new(DiffLineKind::Add, "added first line")];
    app.apply_inspect_msg(InspectMsg::FileDiffLoaded { seq: app.diff_seq, document: doc });

    assert_eq!(app.diff.scroll, 0, "lead context saturates at the top of the document");
}

#[test]
fn file_diff_loaded_with_stale_seq_is_dropped() {
    let mut app = App::new();
    app.diff.open = true;
    app.diff.target = Some(DiffTarget::Commit(oid(7)));
    app.diff_seq = 5;
    app.diff.document = Some(commit_doc_with_sections());

    app.apply_inspect_msg(InspectMsg::FileDiffLoaded { seq: 4, document: single_file_doc("b.rs") });

    assert!(app.diff.file_view_return.is_none());
    assert_eq!(app.diff.document.as_ref().map(|d| d.files.len()), Some(3), "stale reply dropped");
}

#[test]
fn picker_enter_jumps_to_the_selected_files_section() {
    let mut app = App::new();
    app.diff.open = true;
    app.focus = Focus::Diff;
    app.diff.target = Some(DiffTarget::Commit(oid(7)));
    app.diff.view_height = 10;
    app.diff.document = Some(commit_doc_with_sections());

    app.handle_input(key(KeyCode::Char('t'), KeyModifiers::Plain));
    assert_eq!(app.diff.file_picker, Some(0), "picker starts at the viewport file");

    app.handle_input(key(KeyCode::Char('j'), KeyModifiers::Plain));
    assert_eq!(app.diff.file_picker, Some(1));

    app.handle_input(key(KeyCode::Enter, KeyModifiers::Plain));
    assert!(app.diff.file_picker.is_none(), "Enter exits picker mode");
    assert_eq!(app.diff.scroll, 22, "jumped to b.rs: offset 7 + body_start 15");
}

#[test]
fn picker_jk_wraps_around_the_ends() {
    let mut app = App::new();
    app.diff.open = true;
    app.focus = Focus::Diff;
    app.diff.target = Some(DiffTarget::Commit(oid(7)));
    app.diff.view_height = 10;
    app.diff.document = Some(commit_doc_with_sections());

    app.handle_input(key(KeyCode::Char('t'), KeyModifiers::Plain));
    assert_eq!(app.diff.file_picker, Some(0));

    app.handle_input(key(KeyCode::Char('k'), KeyModifiers::Plain));
    assert_eq!(app.diff.file_picker, Some(2), "k at the top wraps to the last file");
    app.handle_input(key(KeyCode::Char('j'), KeyModifiers::Plain));
    assert_eq!(app.diff.file_picker, Some(0), "j at the bottom wraps back to the first");

    // Large jumps still clamp instead of wrapping.
    app.handle_input(key(KeyCode::Char('G'), KeyModifiers::Shift));
    app.handle_input(key(KeyCode::Char('G'), KeyModifiers::Shift));
    assert_eq!(app.diff.file_picker, Some(2), "repeated G pins to the last file");
}

#[test]
fn picker_filter_narrows_movement_to_matching_files() {
    let mut app = App::new();
    app.diff.open = true;
    app.focus = Focus::Diff;
    app.diff.target = Some(DiffTarget::Commit(oid(7)));
    app.diff.view_height = 10;
    app.diff.document = Some(commit_doc_with_sections());

    app.handle_input(key(KeyCode::Char('t'), KeyModifiers::Plain));
    app.handle_input(key(KeyCode::Char('/'), KeyModifiers::Plain));
    assert!(app.diff.picker_filter.active, "/ enters filter input");

    // "a" matches a.rs and capped.rs but not b.rs.
    app.handle_input(key(KeyCode::Char('a'), KeyModifiers::Plain));
    assert_eq!(app.diff.picker_filter.matches, vec![0, 2]);
    assert_eq!(app.diff.file_picker, Some(0), "cursor snaps to the first match at-or-after it");

    app.handle_input(key(KeyCode::Enter, KeyModifiers::Plain));
    assert!(!app.diff.picker_filter.active, "Enter keeps the filter and returns to navigation");
    assert_eq!(app.diff.file_picker, Some(0));

    app.handle_input(key(KeyCode::Char('j'), KeyModifiers::Plain));
    assert_eq!(app.diff.file_picker, Some(2), "j skips the non-matching b.rs");
    app.handle_input(key(KeyCode::Char('j'), KeyModifiers::Plain));
    assert_eq!(app.diff.file_picker, Some(0), "movement wraps within the matches");

    // Esc peels the filter first, then the picker.
    app.handle_input(key(KeyCode::Esc, KeyModifiers::Plain));
    assert!(app.diff.file_picker.is_some(), "first Esc only clears the filter");
    assert!(app.diff.picker_filter.query.is_empty());
    app.handle_input(key(KeyCode::Esc, KeyModifiers::Plain));
    assert!(app.diff.file_picker.is_none(), "second Esc closes the picker");
}

#[test]
fn picker_filter_enter_jumps_and_clears_the_filter() {
    let mut app = App::new();
    app.diff.open = true;
    app.focus = Focus::Diff;
    app.diff.target = Some(DiffTarget::Commit(oid(7)));
    app.diff.view_height = 10;
    app.diff.document = Some(commit_doc_with_sections());

    app.handle_input(key(KeyCode::Char('t'), KeyModifiers::Plain));
    app.handle_input(key(KeyCode::Char('/'), KeyModifiers::Plain));
    app.handle_input(key(KeyCode::Char('b'), KeyModifiers::Plain));
    assert_eq!(app.diff.file_picker, Some(1), "typing jumps the cursor onto b.rs");

    app.handle_input(key(KeyCode::Enter, KeyModifiers::Plain));
    app.handle_input(key(KeyCode::Enter, KeyModifiers::Plain));
    assert!(app.diff.file_picker.is_none());
    assert!(app.diff.picker_filter.query.is_empty(), "activation drops the filter with the picker");
    assert_eq!(app.diff.scroll, 22, "jumped to b.rs: offset 7 + body_start 15");
}

#[test]
fn picker_falls_through_to_file_view_when_no_section_exists() {
    let mut app = App::new();
    app.diff.open = true;
    app.focus = Focus::Diff;
    app.diff.target = Some(DiffTarget::Commit(oid(7)));
    app.diff.view_height = 10;
    app.diff.document = Some(commit_doc_with_sections());

    app.handle_input(key(KeyCode::Char('t'), KeyModifiers::Plain));
    app.handle_input(key(KeyCode::Char('G'), KeyModifiers::Shift));
    assert_eq!(app.diff.file_picker, Some(2), "G lands on the last file");

    // capped.rs has no body section — Enter opens the single-file
    // view instead of jumping nowhere.
    app.handle_input(key(KeyCode::Enter, KeyModifiers::Plain));
    assert!(app.diff.file_picker.is_none());
    assert!(matches!(
        next_request(&mut app),
        Some(GitReq::Inspect(InspectReq::LoadFileDiff { path, .. })) if path == "capped.rs"
    ));
}

#[test]
fn picker_o_requests_the_selected_file_view() {
    let mut app = App::new();
    app.diff.open = true;
    app.focus = Focus::Diff;
    app.diff.target = Some(DiffTarget::Commit(oid(7)));
    app.diff.view_height = 10;
    app.diff.document = Some(commit_doc_with_sections());

    app.handle_input(key(KeyCode::Char('t'), KeyModifiers::Plain));
    app.handle_input(key(KeyCode::Char('j'), KeyModifiers::Plain));
    app.handle_input(key(KeyCode::Char('o'), KeyModifiers::Plain));

    assert!(app.diff.file_picker.is_none());
    assert!(matches!(
        next_request(&mut app),
        Some(GitReq::Inspect(InspectReq::LoadFileDiff { path, .. })) if path == "b.rs"
    ));
}

#[test]
fn untracked_splice_shifts_later_section_starts() {
    let mut app = App::new();
    app.diff.open = true;
    app.diff.target = Some(DiffTarget::WorkingTree);
    app.diff_seq = 1;
    let mut doc = working_tree_doc_with_anchor(); // anchor at body index 1
    doc.sections = vec![
        FileSection { path: "before.txt".into(), body_start: 0 },
        FileSection { path: "after.txt".into(), body_start: 2 },
    ];
    app.diff.document = Some(doc);

    // Three untracked paths replace the 1-line placeholder: delta +2.
    app.apply_untracked_update(
        DiffTarget::WorkingTree,
        1,
        vec!["u1".to_string(), "u2".to_string(), "u3".to_string()],
    );

    let doc = app.diff.document.as_ref().expect("doc");
    assert_eq!(doc.sections[0].body_start, 0, "sections before the anchor stay put");
    assert_eq!(doc.sections[1].body_start, 4, "sections after the anchor shift by the splice delta");
}

#[test]
fn refs_view_opens_requests_and_enter_reroots() {
    let mut app = App::new();

    app.handle_input(key(KeyCode::Char('r'), KeyModifiers::Plain));
    assert!(app.refs.open && app.refs.loading);
    assert!(
        matches!(next_request(&mut app), Some(GitReq::Inspect(InspectReq::LoadRefs))),
        "opening the refs view requests a fresh listing"
    );

    app.apply_inspect_msg(InspectMsg::RefsListLoaded(vec![
        RefEntry {
            name: "main".into(),
            kind: RefKind::LocalBranch,
            target: oid(1),
            summary: "tip".into(),
            authored_relative: "1d ago".into(),
        },
        RefEntry {
            name: "v1.0".into(),
            kind: RefKind::Tag,
            target: oid(2),
            summary: "release".into(),
            authored_relative: "9d ago".into(),
        },
    ]));
    assert!(!app.refs.loading);
    assert_eq!(app.refs.entries.len(), 2);

    // Navigate to the tag and activate it.
    app.handle_input(key(KeyCode::Char('j'), KeyModifiers::Plain));
    assert_eq!(app.refs.selected, 1);
    let gen_before = app.walk_gen;
    app.handle_input(key(KeyCode::Enter, KeyModifiers::Plain));

    assert!(!app.refs.open, "enter closes the refs view");
    assert_eq!(app.branch_name, "v1.0");
    assert_eq!(app.walk_gen, gen_before + 1);
    let mut saw_reroot = false;
    for req in app.take_requests() {
        if let GitReq::History(HistoryReq::Reload { generation, root }) = req {
            assert_eq!(generation, app.walk_gen);
            assert_eq!(root, Some(oid(2)), "reload is rooted at the selected ref's commit");
            saw_reroot = true;
        }
    }
    assert!(saw_reroot);
}

#[test]
fn refs_move_clamps_and_scrolls() {
    let mut app = App::new();
    app.refs.entries = (0..10u8)
        .map(|i| RefEntry {
            name: format!("branch-{i}").into(),
            kind: RefKind::LocalBranch,
            target: oid(i),
            summary: String::new(),
            authored_relative: "".into(),
        })
        .collect();
    app.refs.view_height = 3;

    app.refs_move(-5);
    assert_eq!(app.refs.selected, 0, "clamped at top");
    app.refs_move(isize::MAX);
    assert_eq!(app.refs.selected, 9, "G clamps to last entry");
    assert_eq!(app.refs.scroll, 7, "selection kept visible in a 3-row pane");
    app.refs_move(-9);
    assert_eq!(app.refs.selected, 0);
    assert_eq!(app.refs.scroll, 0);
}

fn blame_doc(path: &str, at: ObjectId, commits: &[u8]) -> BlameDocument {
    BlameDocument {
        path: path.to_string(),
        at,
        lines: commits
            .iter()
            .enumerate()
            .map(|(i, &c)| BlameLine {
                commit_id: oid(c),
                commit_short: format!("{c:07x}"),
                author: "a".into(),
                authored_relative: "1d ago".into(),
                line_no: i as u32 + 1,
                text: format!("line {i}"),
                source_path: None,
            })
            .collect(),
    }
}

#[test]
fn blame_loaded_gates_on_seq_and_resets_cursor() {
    let mut app = App::new();
    app.blame.open = true;
    app.blame.loading = true;
    app.blame_seq = 2;

    app.apply_inspect_msg(InspectMsg::BlameLoaded { seq: 1, result: Ok(blame_doc("f", oid(9), &[1])) });
    assert!(app.blame.document.is_none(), "stale-seq blame dropped");
    assert!(app.blame.loading, "still waiting for the current request");

    app.apply_inspect_msg(InspectMsg::BlameLoaded { seq: 2, result: Ok(blame_doc("f", oid(9), &[1, 2])) });
    assert!(!app.blame.loading);
    assert_eq!(app.blame.document.as_ref().map(|d| d.lines.len()), Some(2));
}

#[test]
fn blame_enter_opens_the_lines_commit_diff() {
    let mut app = App::new();
    app.log.rows.push(LogRow::Commit(commit_record(5, "target", "a")));
    app.blame.open = true;
    app.blame.document = Some(blame_doc("f", oid(9), &[4, 5]));
    app.blame.selected = 1;

    app.blame_open_commit();

    assert!(!app.blame.open, "enter leaves the blame view");
    assert_eq!(app.log.selected, 1, "the commit is selected in the log when indexed");
    assert!(app.diff.open);
    assert_eq!(app.diff.target, Some(DiffTarget::Commit(oid(5))));
    assert!(matches!(
        next_request(&mut app),
        Some(GitReq::Inspect(InspectReq::LoadDiff { target: DiffTarget::Commit(id), .. })) if id == oid(5)
    ));
}

#[test]
fn reblame_history_commits_only_on_success() {
    let mut app = App::new();
    app.blame.open = true;
    app.blame.document = Some(blame_doc("f.txt", oid(9), &[4]));

    app.blame_reblame_at_parent();
    assert!(app.blame.history.is_empty(), "push is staged, not committed");
    assert!(matches!(
        next_request(&mut app),
        Some(GitReq::Inspect(InspectReq::LoadBlame { at: BlameAt::ParentOfCommit(id), .. })) if id == oid(4)
    ));

    // Failure (e.g. root commit): staged entry discarded.
    app.apply_inspect_msg(InspectMsg::BlameLoaded { seq: app.blame_seq, result: Err("no parent".into()) });
    assert!(app.blame.history.is_empty());
    assert!(app.blame.error.is_some());
    assert!(app.blame.document.is_some(), "previous document stays visible under the error");

    // Success: staged entry lands on the Backspace trail.
    app.blame_reblame_at_parent();
    app.apply_inspect_msg(InspectMsg::BlameLoaded {
        seq: app.blame_seq,
        result: Ok(blame_doc("f.txt", oid(3), &[3])),
    });
    assert_eq!(app.blame.history.len(), 1);
    assert_eq!(app.blame.history[0].at, oid(9));
    assert_eq!(app.blame.history[0].path, "f.txt");

    // Backspace requests the recorded origin.
    app.blame_back();
    let mut saw = false;
    for req in app.take_requests() {
        if let GitReq::Inspect(InspectReq::LoadBlame { at: BlameAt::Commit(id), path, .. }) = req {
            assert_eq!(id, oid(9));
            assert_eq!(path, "f.txt");
            saw = true;
        }
    }
    assert!(saw);
    assert!(app.blame.history.is_empty());
}

#[test]
fn blame_from_diff_pane_picks_section_under_viewport() {
    let mut app = App::new();
    app.diff.open = true;
    app.focus = Focus::Diff;
    let mut doc = working_tree_doc_with_anchor();
    doc.target = DiffTarget::Commit(oid(7));
    doc.untracked_anchor = None;
    doc.body = (0..30).map(|i| DiffLine::new(DiffLineKind::Context, &format!("l{i}"))).collect();
    doc.sections = vec![
        FileSection { path: "first.rs".into(), body_start: 0 },
        FileSection { path: "second.rs".into(), body_start: 15 },
    ];
    app.diff.target = Some(DiffTarget::Commit(oid(7)));
    app.diff.document = Some(doc);
    // header len 1, no diffstat → viewport top at virtual line 20 =
    // body index 19 → inside second.rs's section.
    app.diff.scroll = 20;

    app.blame_from_diff_pane();

    assert!(app.blame.open);
    assert!(matches!(
        next_request(&mut app),
        Some(GitReq::Inspect(InspectReq::LoadBlame { at: BlameAt::Commit(id), path, .. }))
            if id == oid(7) && path == "second.rs"
    ));
}

#[test]
fn display_toggles_cycle_modes() {
    let mut app = App::new();
    app.handle_input(key(KeyCode::Char('D'), KeyModifiers::Shift));
    assert!(matches!(app.display.date, DateMode::Absolute));
    app.handle_input(key(KeyCode::Char('D'), KeyModifiers::Shift));
    assert!(matches!(app.display.date, DateMode::Off));
    app.handle_input(key(KeyCode::Char('D'), KeyModifiers::Shift));
    assert!(matches!(app.display.date, DateMode::Relative));

    app.handle_input(key(KeyCode::Char('A'), KeyModifiers::Shift));
    assert!(matches!(app.display.author, AuthorMode::Abbrev));

    app.handle_input(key(KeyCode::Char('X'), KeyModifiers::Shift));
    assert!(app.display.full_hash);
    app.handle_input(key(KeyCode::Char('X'), KeyModifiers::Shift));
    assert!(!app.display.full_hash);
}

#[test]
fn status_mode_routes_keys_to_status_handler() {
    let mut app = App::new();
    app.status.open = true;
    app.handle_input(key(KeyCode::Char('q'), KeyModifiers::Plain));
    assert!(!app.status.open, "q closes the status view");
    assert!(!app.should_quit);
}
