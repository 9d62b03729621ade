//! The working tree: its diff, the status view and the untracked files.

use rit::git::diff::FileDiffOutput;
use rit::git::meta::{quick_has_staged, quick_is_dirty};
use rit::git::status::{
    collect_untracked_paths, compute_status, compute_working_tree_diff,
    compute_worktree_file_diff, render_staged, render_unstaged, sweep_status, IndexChange,
    StatusItem, WorktreeStatus, UNTRACKED_PENDING_PLACEHOLDER,
};
use rit::model::{DiffDocument, DiffLineKind, DiffTarget, ObjectId, StatusDocument};

fn oid(n: u8) -> ObjectId {
    let mut raw = [0u8; 20];
    raw[0] = n;
    ObjectId::from_slice(&raw).expect("twenty bytes")
}

/// A file's contents in the last commit, in the index and on disk.
struct Contents {
    path: &'static str,
    head: &'static str,
    index: &'static str,
    disk: &'static str,
}

fn items(files: &[Contents], untracked: &[&str]) -> Vec<StatusItem> {
    let mut out = Vec::new();
    for (i, f) in files.iter().enumerate() {
        let head_id = oid(2 * i as u8 + 1);
        let index_id = oid(2 * i as u8 + 2);
        if f.head != f.index {
            out.push(StatusItem::Staged {
                path: f.path.to_string(),
                change: IndexChange::Modification { previous_id: head_id, id: index_id },
            });
        }
        if f.index != f.disk {
            out.push(StatusItem::Worktree {
                path: f.path.to_string(),
                status: WorktreeStatus::Modification,
                index_id,
            });
        }
    }
    for path in untracked {
        out.push(StatusItem::Directory { path: path.to_string(), untracked: true });
    }
    out
}

fn outputs(files: &[Contents]) -> (Vec<FileDiffOutput>, Vec<FileDiffOutput>) {
    let sweep = sweep_status(items(files, &[]));
    let find = |path: &str| files.iter().find(|f| f.path == path).expect("tracked");
    let staged = sweep
        .staged
        .iter()
        .filter_map(|s| {
            let f = find(&s.path);
            render_staged(s, Some(f.head.as_bytes()), Some(f.index.as_bytes()))
        })
        .collect();
    let unstaged = sweep
        .unstaged
        .iter()
        .filter_map(|u| {
            let f = find(&u.path);
            render_unstaged(u, Some(f.index.as_bytes()), f.disk.as_bytes())
        })
        .collect();
    (staged, unstaged)
}

fn working_tree_diff(files: &[Contents]) -> DiffDocument {
    let sweep = sweep_status(items(files, &[]));
    let (staged, unstaged) = outputs(files);
    compute_working_tree_diff(
        DiffTarget::WorkingTree,
        Ok(&sweep.short),
        staged,
        Vec::new(),
        unstaged,
        Vec::new(),
    )
}

fn status(files: &[Contents], untracked: &[&str]) -> StatusDocument {
    let sweep = sweep_status(items(files, untracked));
    let (staged, unstaged) = outputs(files);
    compute_status(Ok(&sweep.short), staged, Vec::new(), unstaged, Vec::new())
}

#[test]
fn worktree_file_diff_shows_full_context_against_head() {
    let base: String = (0..10).map(|i| format!("row{i}\n")).collect();
    let mut changed: Vec<String> = (0..10).map(|i| format!("row{i}\n")).collect();
    changed[5] = "EDITED\n".to_string();

    let doc = compute_worktree_file_diff("a.txt", Some(base.as_bytes()), Some(changed.concat().as_bytes()));
    assert_eq!(doc.stats.files, 1);
    assert!(doc.body.iter().any(|l| matches!(l.kind, DiffLineKind::Add) && l.text == "EDITED"));
    assert!(
        doc.body.iter().any(|l| matches!(l.kind, DiffLineKind::Context) && l.text == "row0"),
        "context spans the whole file"
    );
    assert!(doc.body.iter().any(|l| matches!(l.kind, DiffLineKind::Context) && l.text == "row9"));
}

#[test]
fn worktree_file_diff_handles_untracked_and_missing_paths() {
    let doc = compute_worktree_file_diff("new.txt", None, Some(b"fresh\n"));
    assert!(doc.body.iter().any(|l| matches!(l.kind, DiffLineKind::Add) && l.text == "fresh"));

    let doc = compute_worktree_file_diff("missing.txt", None, None);
    assert!(doc.header.iter().any(|l| l.text.starts_with("Error:")));
}

#[test]
fn working_tree_diff_renders_staged_and_unstaged_sections() {
    let doc = working_tree_diff(&[
        Contents {
            path: "staged.txt",
            head: "one\ntwo\nthree\n",
            index: "one\nTWO\nthree\nfour\n",
            disk: "one\nTWO\nthree\nfour\n",
        },
        Contents {
            path: "unstaged.txt",
            head: "alpha\nbeta\n",
            index: "alpha\nbeta\n",
            disk: "alpha\nBETA\n",
        },
    ]);

    let body_text: String = doc.body.iter().map(|l| l.text.as_str()).collect::<Vec<_>>().join("\n");
    assert!(body_text.contains("── Staged"), "staged section title present");
    assert!(body_text.contains("diff --git a/staged.txt b/staged.txt"));
    let has_four_add = doc.body.iter().any(|l| matches!(l.kind, DiffLineKind::Add) && l.text == "four");
    assert!(has_four_add, "staged diff contains Add line 'four'");
    assert!(body_text.contains("── Unstaged"), "unstaged section title present");
    assert!(body_text.contains("diff --git a/unstaged.txt b/unstaged.txt"));
    let has_beta_add = doc.body.iter().any(|l| matches!(l.kind, DiffLineKind::Add) && l.text == "BETA");
    assert!(has_beta_add, "unstaged diff contains Add line 'BETA'");

    let paths: Vec<&str> = doc.files.iter().map(|f| f.path.as_str()).collect();
    assert!(paths.contains(&"staged.txt"));
    assert!(paths.contains(&"unstaged.txt"));
    assert!(doc.stats.files >= 2);
    assert!(doc.stats.insertions > 0);

    let anchor = doc.untracked_anchor.expect("working-tree diff defers untracked walk");
    assert_eq!(doc.body[anchor].text, UNTRACKED_PENDING_PLACEHOLDER);
    assert!(
        !doc.body.iter().any(|l| l.text.starts_with("?? ")),
        "no untracked rows on the diff critical path"
    );
}

#[test]
fn working_tree_diff_empty_sections_show_placeholder_text() {
    let doc = working_tree_diff(&[Contents { path: "a.txt", head: "hi\n", index: "hi\n", disk: "hi\n" }]);
    let body_text: String = doc.body.iter().map(|l| l.text.as_str()).collect::<Vec<_>>().join("\n");

    assert!(body_text.contains(UNTRACKED_PENDING_PLACEHOLDER));
    assert!(body_text.contains("(no staged changes)"));
    assert!(body_text.contains("(no unstaged changes)"));
    assert!(doc.untracked_anchor.is_some(), "anchor reserved for the pending untracked walk");
    assert_eq!(doc.stats.files, 0);
    assert_eq!(doc.stats.insertions, 0);
    assert_eq!(doc.stats.deletions, 0);
}

#[test]
fn collect_untracked_paths_returns_only_untracked_entries() {
    let files =
        [Contents { path: "tracked.txt", head: "hi\n", index: "hi\n", disk: "hi\nthere\n" }];
    let paths = collect_untracked_paths(items(&files, &["untracked_b.txt", "untracked_a.txt"]));
    assert_eq!(paths, vec!["untracked_a.txt".to_string(), "untracked_b.txt".to_string()]);
}

#[test]
fn compute_status_includes_untracked_inline() {
    let files = [Contents { path: "tracked.txt", head: "hi\n", index: "hi\n", disk: "hi\n" }];
    let doc = status(&files, &["new_untracked.txt"]);
    let body_text: String = doc.lines.iter().map(|l| l.text.as_str()).collect::<Vec<_>>().join("\n");
    assert!(body_text.contains("?? new_untracked.txt"));
    assert!(
        !body_text.contains(UNTRACKED_PENDING_PLACEHOLDER),
        "status pane should not emit the async placeholder"
    );
}

#[test]
fn quick_is_dirty_reports_clean_then_dirty() {
    let dirty = |files: &[Contents], untracked: &[&str]| {
        quick_is_dirty(Some(&items(files, untracked)))
    };
    let clean = [Contents { path: "tracked.txt", head: "hi\n", index: "hi\n", disk: "hi\n" }];
    assert_eq!(dirty(&clean, &[]), Some(false), "freshly committed worktree should be clean");

    let edited =
        [Contents { path: "tracked.txt", head: "hi\n", index: "hi\n", disk: "hi\nthere\n" }];
    assert_eq!(dirty(&edited, &[]), Some(true), "tracked-file mod should flip to dirty");

    assert_eq!(dirty(&clean, &[]), Some(false), "after commit, back to clean");
    assert_eq!(
        dirty(&clean, &["new_untracked.txt"]),
        Some(true),
        "untracked file should count as dirty"
    );
    let touched = vec![StatusItem::Worktree {
        path: "tracked.txt".to_string(),
        status: WorktreeStatus::NeedsUpdate,
        index_id: oid(1),
    }];
    assert_eq!(quick_is_dirty(Some(&touched)), Some(false), "a stale stat alone is no change");
    assert_eq!(quick_is_dirty(None), None, "a failed query tells nothing");
}

#[test]
fn quick_has_staged_tracks_index_vs_head_only() {
    let staged = |files: &[Contents], untracked: &[&str]| {
        quick_has_staged(Some(&items(files, untracked)))
    };
    let clean = [Contents { path: "tracked.txt", head: "hi\n", index: "hi\n", disk: "hi\n" }];
    assert_eq!(staged(&clean, &[]), Some(false));
    let edited =
        [Contents { path: "tracked.txt", head: "hi\n", index: "hi\n", disk: "hi\nthere\n" }];
    assert_eq!(
        staged(&edited, &["untracked.txt"]),
        Some(false),
        "worktree-only changes are not staged"
    );
    let added =
        [Contents { path: "tracked.txt", head: "hi\n", index: "hi\nthere\n", disk: "hi\nthere\n" }];
    assert_eq!(staged(&added, &[]), Some(true), "git add flips to staged");
    let unborn = vec![StatusItem::Staged {
        path: "tracked.txt".to_string(),
        change: IndexChange::Addition { id: oid(1) },
    }];
    assert_eq!(quick_has_staged(Some(&unborn)), Some(true), "staged add on unborn HEAD counts");
    assert_eq!(quick_has_staged(None), None);
}
