//! The status of the working tree, item by item.

use rit::git::diff::{file_addition_output, ChangeKind};
use rit::git::status::{
    collect_untracked_paths, compute_staged_diff, compute_staged_file_diff, compute_status,
    compute_working_tree_diff, item_is_change, item_is_staged, render_short_status,
    render_staged, render_unstaged, staged_past, sweep_status, unstaged_past, IndexChange,
    ShortStatus, StagedRender, StatusItem, UnstagedRender, WorktreeStatus,
    UNTRACKED_PENDING_PLACEHOLDER,
};
use rit::model::{DiffLine, DiffLineKind, DiffTarget, ObjectId};

fn oid(n: u8) -> ObjectId {
    ObjectId::from_slice(&[n; 20]).expect("twenty bytes")
}

fn staged(path: &str, change: IndexChange) -> StatusItem {
    StatusItem::Staged { path: path.to_string(), change }
}

fn worktree(path: &str, status: WorktreeStatus) -> StatusItem {
    StatusItem::Worktree { path: path.to_string(), status, index_id: oid(9) }
}

fn texts(lines: &[DiffLine]) -> Vec<&str> {
    lines.iter().map(|l| l.text.as_str()).collect()
}

fn added(n: u8) -> IndexChange {
    IndexChange::Addition { id: oid(n) }
}

#[test]
fn items_are_marked_in_the_two_columns() {
    let copied = IndexChange::Rewrite { source_id: oid(1), id: oid(2), copy: true };
    let renamed = IndexChange::Rewrite { source_id: oid(1), id: oid(2), copy: false };
    let sweep = sweep_status(vec![
        staged("a", added(1)),
        staged("d", IndexChange::Deletion { id: oid(1) }),
        staged("m", IndexChange::Modification { previous_id: oid(1), id: oid(2) }),
        staged("r", renamed),
        staged("c", copied),
        worktree("m", WorktreeStatus::Modification),
        worktree("gone", WorktreeStatus::Removed),
        worktree("kind", WorktreeStatus::TypeChange),
        worktree("sub", WorktreeStatus::SubmoduleModification),
        worktree("clash", WorktreeStatus::Conflict),
        worktree("soon", WorktreeStatus::IntentToAdd),
        worktree("same", WorktreeStatus::NeedsUpdate),
        StatusItem::Directory { path: "new".to_string(), untracked: true },
        StatusItem::Directory { path: "ignored".to_string(), untracked: false },
        StatusItem::Rewrite,
    ]);
    let marks: Vec<(String, char, char)> =
        sweep.short.entries.iter().map(|e| (e.path.clone(), e.staged, e.unstaged)).collect();
    let mark = |path: &str| marks.iter().find(|m| m.0 == path).map(|m| (m.1, m.2));
    assert_eq!(mark("a"), Some(('A', ' ')));
    assert_eq!(mark("d"), Some(('D', ' ')));
    assert_eq!(mark("m"), Some(('M', 'M')));
    assert_eq!(mark("r"), Some(('R', ' ')));
    assert_eq!(mark("c"), Some(('C', ' ')));
    assert_eq!(mark("gone"), Some((' ', 'D')));
    assert_eq!(mark("kind"), Some((' ', 'M')));
    assert_eq!(mark("sub"), Some((' ', 'M')));
    assert_eq!(mark("clash"), Some((' ', 'U')));
    assert_eq!(mark("soon"), Some((' ', 'A')));
    assert_eq!(mark("same"), None);
    assert_eq!(mark("new"), Some(('?', '?')));
    assert_eq!(mark("ignored"), None);
    let paths: Vec<&String> = marks.iter().map(|m| &m.0).collect();
    let mut sorted = paths.clone();
    sorted.sort();
    assert_eq!(paths, sorted, "entries are in order of their paths");
}

#[test]
fn only_what_differs_counts_as_a_change() {
    assert!(item_is_change(&staged("a", added(1))));
    assert!(item_is_change(&worktree("a", WorktreeStatus::Conflict)));
    assert!(!item_is_change(&worktree("a", WorktreeStatus::NeedsUpdate)));
    assert!(item_is_change(&StatusItem::Directory { path: "a".to_string(), untracked: true }));
    assert!(!item_is_change(&StatusItem::Directory { path: "a".to_string(), untracked: false }));
    assert!(item_is_change(&StatusItem::Rewrite));
    assert!(item_is_staged(&staged("a", added(1))));
    assert!(!item_is_staged(&worktree("a", WorktreeStatus::Modification)));
}

#[test]
fn marks_of_one_path_share_an_entry() {
    let mut short = ShortStatus::new();
    short.set_unstaged("b".to_string(), 'M');
    short.set_staged("a".to_string(), 'A');
    short.set_staged("b".to_string(), 'D');
    short.add_untracked("c".to_string());
    let lines = render_short_status(&short, true);
    assert_eq!(texts(&lines), ["A  a", "DM b", "?? c"]);
    let kinds: Vec<DiffLineKind> = lines.iter().map(|l| l.kind).collect();
    assert_eq!(kinds[0], DiffLineKind::StatusOurs);
    assert_eq!(kinds[1], DiffLineKind::Faint);
    assert_eq!(kinds[2], DiffLineKind::StatusTheirs);
}

#[test]
fn a_clean_tree_says_so_unless_a_scan_is_pending() {
    let short = ShortStatus::new();
    let lines = render_short_status(&short, false);
    assert_eq!(texts(&lines), ["Nothing to commit, working tree clean"]);
    assert_eq!(lines[0].kind, DiffLineKind::Good);
    assert!(render_short_status(&short, true).is_empty());
}

#[test]
fn staged_and_unstaged_blobs_are_rendered_as_they_can_be_read() {
    let kind = ChangeKind::Modification { previous_oid: oid(1), oid: oid(2) };
    let item = StagedRender { path: "x".to_string(), kind };
    assert!(render_staged(&item, None, Some(b"a")).is_none());
    let out = render_staged(&item, Some(b"a\n"), Some(b"a\nb\n")).expect("an output");
    assert_eq!((out.additions, out.deletions), (1, 0));
    let item = UnstagedRender { path: "x".to_string(), index_id: oid(1), removed: false };
    let out = render_unstaged(&item, Some(b"a\n"), b"b\n").expect("an output");
    assert_eq!((out.additions, out.deletions), (1, 1));
    assert!(render_unstaged(&item, None, b"b\n").is_none());
    let item = UnstagedRender { path: "x".to_string(), index_id: oid(1), removed: true };
    let out = render_unstaged(&item, Some(b"a\nb\n"), b"").expect("an output");
    assert_eq!((out.additions, out.deletions), (0, 2));
}

#[test]
fn the_placeholder_stands_at_its_anchor() {
    let sweep = sweep_status(vec![staged("a", added(1)), worktree("b", WorktreeStatus::Removed)]);
    let doc = compute_working_tree_diff(
        DiffTarget::WorkingTree,
        Ok(&sweep.short),
        vec![file_addition_output("a", b"x\n")],
        Vec::new(),
        Vec::new(),
        vec!["b".to_string()],
    );
    let anchor = doc.untracked_anchor.expect("an anchor");
    assert_eq!(doc.body[anchor].text, UNTRACKED_PENDING_PLACEHOLDER);
    assert_eq!(doc.body[anchor].kind, DiffLineKind::Faint);
    assert_eq!(doc.stats.files, 2);
    assert_eq!(doc.body[doc.sections[0].body_start].text, "diff --git a/a b/a");
}

#[test]
fn the_working_tree_lists_staged_files_before_unstaged_ones() {
    let kind = ChangeKind::Addition { oid: oid(1) };
    let staged: Vec<StagedRender> =
        (0..3).map(|i| StagedRender { path: format!("s{i}"), kind }).collect();
    let unstaged: Vec<UnstagedRender> = (0..4)
        .map(|i| UnstagedRender { path: format!("u{i}"), index_id: oid(1), removed: false })
        .collect();
    assert_eq!(staged_past(&staged, 2), ["s2"]);
    assert!(staged_past(&staged, 3).is_empty());
    assert_eq!(unstaged_past(&unstaged, 2), ["u2", "u3"]);
    let staged_outputs = staged[..2]
        .iter()
        .filter_map(|s| render_staged(s, None, Some(b"a\n")))
        .collect();
    let unstaged_outputs = unstaged[..2]
        .iter()
        .filter_map(|u| render_unstaged(u, (u.path != "u0").then_some(b"a\n".as_slice()), b"b\n"))
        .collect();
    let doc = compute_working_tree_diff(
        DiffTarget::WorkingTree,
        Err("none"),
        staged_outputs,
        staged_past(&staged, 2),
        unstaged_outputs,
        unstaged_past(&unstaged, 2),
    );
    let paths: Vec<&str> = doc.files.iter().map(|f| f.path.as_str()).collect();
    assert_eq!(paths, ["s0", "s1", "s2", "u1", "u2", "u3"]);
}

#[test]
fn a_failed_status_query_is_shown() {
    let doc = compute_status(Err("no index"), Vec::new(), Vec::new(), Vec::new(), Vec::new());
    assert!(doc.lines.iter().any(|l| l.text == "Status query failed: no index"));
}

#[test]
fn the_staged_diff_shows_staged_files_alone() {
    let outputs = vec![file_addition_output("a", b"x\n")];
    let doc = compute_staged_diff(DiffTarget::Staged, outputs, vec!["more".to_string()]);
    assert_eq!(doc.target, DiffTarget::Staged);
    assert!(doc.untracked_anchor.is_none());
    let paths: Vec<&str> = doc.files.iter().map(|f| f.path.as_str()).collect();
    assert_eq!(paths, ["a", "more"]);
}

#[test]
fn a_staged_file_is_compared_with_the_last_commit() {
    let doc = compute_staged_file_diff("x", Some(b"a\n"), Some(b"a\nb\n"));
    assert_eq!(doc.target, DiffTarget::Staged);
    assert_eq!((doc.stats.insertions, doc.stats.deletions), (1, 0));
    let doc = compute_staged_file_diff("x", None, None);
    assert_eq!(doc.header[0].text, "Error: x: not in HEAD and not in the index");
    let doc = compute_staged_file_diff("x", None, Some(b"a\n"));
    assert_eq!(doc.body[1].text, "new file");
    let doc = compute_staged_file_diff("x", Some(b"a\n"), None);
    assert_eq!(doc.body[1].text, "deleted file");
}

#[test]
fn untracked_paths_are_sorted() {
    let item = |path: &str, untracked: bool| StatusItem::Directory {
        path: path.to_string(),
        untracked,
    };
    let items = vec![item("b", true), item("x", false), item("a", true), StatusItem::Rewrite];
    assert_eq!(collect_untracked_paths(items), ["a", "b"]);
}
