//! The history walk, refs, blame and the worker's requests.

use rit::git::blame::{compute_blame, resolve_suspect, AnnotatedRun, BlameRun};
use rit::git::diff::{ChangeKind, ChangeRecord};
use rit::git::graph::GraphState;
use rit::git::meta::relative_time;
use rit::git::refs::{load_ref_entries, PeeledRef, RefsMap};
use rit::git::walk::{
    build_commit_info, build_pathspec_search, commit_touches_pathspec, literal_commit_touches,
    literal_path, PathMatcher, SweepStep, WalkFound, Walker,
};
use rit::git::worker::{coalesce_requests, resolve_positional};
use rit::git::{BlameAt, GitReq, HistoryMsg, HistoryReq, InspectReq};
use rit::model::{BlameDocument, DiffTarget, ObjectId, PathFilter, RefKind};
use std::collections::BTreeMap;
use std::sync::Arc;

fn oid(n: u8) -> ObjectId {
    let mut raw = [0u8; 20];
    raw[0] = n;
    ObjectId::from_slice(&raw).expect("twenty bytes")
}

fn commit_data_as(message: &str, author: &str, email: &str) -> Vec<u8> {
    format!(
        "tree {}\nauthor {author} <{email}> 1700000000 +0000\ncommitter {author} <{email}> 1700000000 +0000\n\n{message}\n",
        oid(200).to_hex(),
    )
    .into_bytes()
}

fn commit_data(message: &str) -> Vec<u8> {
    commit_data_as(message, "Test User", "test@example.com")
}

/// A line of commits, oldest first. A file's contents stand for its blob.
struct History {
    commits: Vec<(&'static str, BTreeMap<&'static str, &'static str>)>,
}

impl History {
    fn new() -> History {
        History { commits: Vec::new() }
    }

    fn commit(&mut self, message: &'static str, path: &'static str, contents: Option<&'static str>) {
        let mut files = match self.commits.last() {
            Some((_, files)) => files.clone(),
            None => BTreeMap::new(),
        };
        match contents {
            Some(c) => files.insert(path, c),
            None => files.remove(path),
        };
        self.commits.push((message, files));
    }

    fn id(&self, i: usize) -> ObjectId {
        oid(i as u8 + 1)
    }

    /// The id of what stands at `path` in a commit: of the file, or of all that lies under it.
    fn entry(&self, i: usize, path: &str) -> Option<ObjectId> {
        let mut raw = [0u8; 20];
        let mut found = false;
        for (file, contents) in &self.commits[i].1 {
            if *file == path || file.starts_with(&format!("{path}/")) {
                found = true;
                for (k, b) in file.bytes().chain(contents.bytes()).enumerate() {
                    raw[k % 20] = raw[k % 20].wrapping_mul(31).wrapping_add(b);
                }
            }
        }
        if found { ObjectId::from_slice(&raw) } else { None }
    }

    fn changes(&self, i: usize) -> Vec<ChangeRecord> {
        let empty = BTreeMap::new();
        let before = if i == 0 { &empty } else { &self.commits[i - 1].1 };
        let after = &self.commits[i].1;
        let mut out = Vec::new();
        for (path, contents) in after {
            if before.get(path) != Some(contents) {
                let kind = ChangeKind::Addition { oid: oid(1) };
                out.push(ChangeRecord { kind, is_blob: true, path: path.as_bytes().to_vec() });
            }
        }
        for path in before.keys() {
            if !after.contains_key(path) {
                let kind = ChangeKind::Deletion { oid: oid(1) };
                out.push(ChangeRecord { kind, is_blob: true, path: path.as_bytes().to_vec() });
            }
        }
        out
    }

    fn touches(&self, i: usize, matcher: &PathMatcher) -> bool {
        match matcher {
            PathMatcher::Literal(path) => {
                let parent = if i == 0 { None } else { self.entry(i - 1, path) };
                literal_commit_touches(self.entry(i, path), parent)
            }
            PathMatcher::Spec(search) => commit_touches_pathspec(&self.changes(i), search),
        }
    }

    /// The summaries of a walk back from the newest commit, or from commit `start`.
    fn walk(&self, filter: Option<&str>, start: Option<usize>) -> Vec<String> {
        let filter = filter.map(PathFilter::new);
        let mut walker =
            Walker::new(filter.as_ref(), true, 0, false, Arc::new(RefsMap::new())).expect("walker");
        let mut sweep = walker.load_more(100);
        let mut next = start.map_or(self.commits.len(), |s| s + 1);
        loop {
            match walker.next_step(&sweep) {
                SweepStep::Finish => break,
                SweepStep::Poll => sweep.polled(false),
                SweepStep::Next => {
                    let found = if next == 0 {
                        WalkFound::End
                    } else {
                        next -= 1;
                        let touched = match &walker.path_matcher {
                            Some(m) => self.touches(next, m),
                            None => true,
                        };
                        if touched {
                            WalkFound::Commit {
                                id: self.id(next),
                                parents: if next == 0 { Vec::new() } else { vec![self.id(next - 1)] },
                                data: Some(commit_data(self.commits[next].0)),
                            }
                        } else {
                            WalkFound::Untouched
                        }
                    };
                    walker.advance(&mut sweep, found);
                }
            }
        }
        let mut summaries = Vec::new();
        for msg in walker.finish(sweep).0 {
            if let HistoryMsg::Commits { commits, .. } = msg {
                summaries.extend(commits.into_iter().map(|c| c.summary));
            }
        }
        summaries
    }
}

fn pathspec_matches(spec: &str, path: &str) -> bool {
    build_pathspec_search(&PathFilter::new(spec)).expect("parse").matches(path.as_bytes())
}

#[test]
fn pathspec_directory_matches_files_under_it() {
    assert!(pathspec_matches("src/ui", "src/ui/log_view.rs"));
    assert!(pathspec_matches("src/ui", "src/ui/mod.rs"));
}

#[test]
fn pathspec_directory_rejects_siblings() {
    assert!(!pathspec_matches("src/ui", "src/app.rs"));
    assert!(!pathspec_matches("src/ui", "Cargo.toml"));
}

#[test]
fn pathspec_glob_matches_extension() {
    assert!(pathspec_matches("*.rs", "src/main.rs"));
    assert!(pathspec_matches("*.rs", "src/ui/log_view.rs"));
    assert!(!pathspec_matches("*.rs", "Cargo.toml"));
}

#[test]
fn walker_pathspec_filters_to_matching_commits() {
    let mut history = History::new();
    history.commit("modify foo", "src/foo.rs", Some("fn a() {}\n"));
    history.commit("modify bar", "src/bar.rs", Some("fn b() {}\n"));
    history.commit("modify doc", "docs/intro.md", Some("hello\n"));

    let summaries = history.walk(Some("src"), None);
    assert_eq!(summaries, vec!["modify bar".to_string(), "modify foo".to_string()]);
}

#[test]
fn walker_pathspec_nested_directory_includes_only_descendants() {
    let mut history = History::new();
    history.commit("modify api/foo", "src/api/foo.rs", Some("fn a() {}\n"));
    history.commit("modify cli/bar", "src/cli/bar.rs", Some("fn b() {}\n"));
    history.commit("modify api/baz", "src/api/baz.rs", Some("fn c() {}\n"));

    let summaries = history.walk(Some("src/api"), None);
    assert!(summaries.iter().any(|s| s == "modify api/foo"));
    assert!(summaries.iter().any(|s| s == "modify api/baz"));
    assert!(
        !summaries.iter().any(|s| s == "modify cli/bar"),
        "cli commit leaked through src/api spec: {summaries:?}",
    );
}

#[test]
fn literal_path_classification() {
    // Plain files and directories are literal; a trailing slash is trimmed.
    assert!(literal_path("src/foo.rs").is_some());
    assert!(literal_path("src").is_some());
    assert!(literal_path("src/").is_some());
    // Globs, magic signatures, negation, and non-normal components fall back.
    assert!(literal_path("*.rs").is_none());
    assert!(literal_path("src/*.rs").is_none());
    assert!(literal_path("a[bc].rs").is_none());
    assert!(literal_path(":!target").is_none());
    assert!(literal_path("!foo").is_none());
    assert!(literal_path("../up").is_none());
    assert!(literal_path("").is_none());
}

#[test]
fn walker_literal_file_filters_to_touching_commits() {
    let mut history = History::new();
    history.commit("add foo", "src/foo.rs", Some("fn a() {}\n"));
    history.commit("add bar", "src/bar.rs", Some("fn b() {}\n"));
    history.commit("edit foo", "src/foo.rs", Some("fn a() { x }\n"));

    let summaries = history.walk(Some("src/foo.rs"), None);
    assert_eq!(summaries, vec!["edit foo".to_string(), "add foo".to_string()]);
}

#[test]
fn walker_literal_file_catches_add_and_delete() {
    let mut history = History::new();
    history.commit("unrelated", "keep.txt", Some("x\n"));
    history.commit("add gone", "gone.txt", Some("here\n"));
    history.commit("delete gone", "gone.txt", None);

    let summaries = history.walk(Some("gone.txt"), None);
    assert_eq!(summaries, vec!["delete gone".to_string(), "add gone".to_string()]);
}

#[test]
fn walker_glob_pathspec_falls_back_and_filters() {
    let mut history = History::new();
    history.commit("rust file", "a.rs", Some("fn a() {}\n"));
    history.commit("md file", "b.md", Some("hello\n"));
    history.commit("another rust", "c.rs", Some("fn c() {}\n"));

    let summaries = history.walk(Some("*.md"), None);
    assert_eq!(summaries, vec!["md file".to_string()]);
}

#[test]
fn walker_start_id_walks_from_named_commit_only() {
    let mut history = History::new();
    history.commit("first", "a.txt", Some("1\n"));
    history.commit("second", "a.txt", Some("2\n"));
    history.commit("third", "a.txt", Some("3\n"));

    let summaries = history.walk(None, Some(1));
    assert_eq!(summaries, vec!["second".to_string(), "first".to_string()]);
}

#[test]
fn build_commit_info_preserves_full_author_for_search() {
    let long_name = "Christopher van Rooijen-Aalbersberg-Smith";
    let data = commit_data_as("first", long_name, "long@example.com");
    let info = build_commit_info(oid(1), &[], &data, &RefsMap::new(), &mut None::<GraphState>)
        .expect("commit info");

    assert_eq!(
        info.author.as_str(),
        long_name,
        "author field should hold the full name, not the truncated form"
    );
    assert!(info.search.author_lower.contains("rooijen"));
    assert!(info.search.author_lower.contains("smith"));
}

#[test]
fn load_ref_entries_lists_branches_and_peeled_tags_sorted() {
    let head = oid(1);
    let data = commit_data("first commit");
    let listed: Vec<PeeledRef> =
        ["refs/tags/v1.0", "refs/tags/lightweight", "refs/heads/main", "refs/heads/feature"]
            .iter()
            .map(|name| PeeledRef {
                full_name: name.to_string(),
                target: head,
                data: data.clone(),
            })
            .collect();

    let entries = load_ref_entries(&listed);
    let names: Vec<&str> = entries.iter().map(|e| e.name.as_str()).collect();
    assert_eq!(
        names,
        vec!["feature", "main", "lightweight", "v1.0"],
        "branches first, then tags, name order"
    );

    for e in &entries {
        assert_eq!(e.target, head, "every ref (incl. annotated tag) peels to the commit");
        assert_eq!(e.summary, "first commit");
    }
    assert_eq!(entries[0].kind, RefKind::LocalBranch);
    assert_eq!(entries[3].kind, RefKind::Tag);
}

fn blame(path: &str, at: ObjectId, runs: &[(ObjectId, u32, &[&str])]) -> BlameDocument {
    let runs: Vec<AnnotatedRun> = runs
        .iter()
        .map(|(id, start, texts)| AnnotatedRun {
            run: BlameRun {
                commit_id: *id,
                source_file_name: None,
                start: *start,
                lines: texts.iter().map(|t| t.as_bytes().to_vec()).collect(),
            },
            data: Some(commit_data("a commit")),
        })
        .collect();
    compute_blame(path, at, &runs)
}

#[test]
fn blame_attributes_lines_to_their_commits() {
    let first = oid(1);
    let head = oid(2);
    let at = resolve_suspect(BlameAt::Head, Ok(head), Ok(None)).expect("head");
    let doc = blame("f.txt", at, &[(head, 1, &["BETA\n", "gamma\n"]), (first, 0, &["alpha\n"])]);
    assert_eq!(doc.lines.len(), 3);
    assert_eq!(doc.lines[0].text, "alpha");
    assert_eq!(doc.lines[1].text, "BETA");
    assert_eq!(doc.lines[2].text, "gamma");
    assert_eq!(doc.lines[0].line_no, 1);
    assert_eq!(doc.lines[2].line_no, 3);

    assert_eq!(doc.lines[1].commit_id, head, "modified line belongs to the second commit");
    assert_eq!(doc.lines[2].commit_id, head, "added line belongs to the second commit");
    assert_ne!(doc.lines[0].commit_id, head, "unchanged line still belongs to the first commit");
    assert_eq!(doc.lines[0].author.as_str(), "Test User");
}

#[test]
fn reblame_at_parent_sees_the_older_content() {
    let first = oid(1);
    let head = oid(2);
    let at = resolve_suspect(BlameAt::ParentOfCommit(head), Ok(head), Ok(Some(first)))
        .expect("blame at parent");
    let doc = blame("f.txt", at, &[(first, 0, &["alpha\n", "beta\n"])]);
    assert_eq!(doc.lines.len(), 2);
    assert_eq!(doc.lines[1].text, "beta", "parent revision has the pre-change content");
    assert_ne!(doc.at, head, "document records the parent as its suspect");
}

#[test]
fn parent_of_root_commit_is_an_error() {
    let head = oid(1);
    let err = resolve_suspect(BlameAt::ParentOfCommit(head), Ok(head), Ok(None))
        .expect_err("root has no parent");
    assert!(err.contains("no parent"), "error is display-ready: {err}");
}

#[test]
fn coalesce_keeps_only_newest_load_diff() {
    let a = oid(1);
    let b = oid(2);
    let mut batch = vec![
        GitReq::Inspect(InspectReq::LoadDiff { target: DiffTarget::WorkingTree, seq: 1, scoped: false }),
        GitReq::Inspect(InspectReq::LoadStatus),
        GitReq::Inspect(InspectReq::LoadDiff { target: DiffTarget::Commit(a), seq: 2, scoped: false }),
        GitReq::History(HistoryReq::Reload { generation: 1, root: None }),
        GitReq::Inspect(InspectReq::LoadDiff { target: DiffTarget::Commit(b), seq: 3, scoped: false }),
    ];
    coalesce_requests(&mut batch);
    assert_eq!(batch.len(), 3, "two superseded LoadDiffs dropped");
    assert!(matches!(batch[0], GitReq::Inspect(InspectReq::LoadStatus)));
    assert!(matches!(batch[1], GitReq::History(HistoryReq::Reload { .. })));
    assert!(
        matches!(batch[2], GitReq::Inspect(InspectReq::LoadDiff { target: DiffTarget::Commit(id), seq: 3, .. }) if id == b)
    );
}

#[test]
fn coalesce_no_load_diff_is_noop() {
    let mut batch = vec![
        GitReq::History(HistoryReq::Reload { generation: 1, root: None }),
        GitReq::Inspect(InspectReq::LoadStatus),
    ];
    coalesce_requests(&mut batch);
    assert_eq!(batch.len(), 2);
}

#[test]
fn relative_time_clamps_future_dated_to_now() {
    let far_future = chrono::Utc::now().timestamp() + 86400 * 365 * 10;
    assert_eq!(relative_time(far_future).as_str(), "now");
}

#[test]
fn relative_time_recent_past_renders_relative() {
    let recent = chrono::Utc::now().timestamp() - 120;
    assert_eq!(relative_time(recent).as_str(), "2m ago");
}

#[test]
fn resolve_positional_recognizes_full_hash() {
    let head = oid(1);
    let (start, path_filter) = resolve_positional(Some(head.to_hex()), Some(head));
    assert_eq!(start, Some(head));
    assert!(path_filter.is_none());
}

#[test]
fn resolve_positional_recognizes_short_hash() {
    let head = oid(1);
    let (start, path_filter) = resolve_positional(Some(head.to_short_hex()), Some(head));
    assert_eq!(start, Some(head));
    assert!(path_filter.is_none());
}

#[test]
fn resolve_positional_falls_back_to_pathspec() {
    let (start, path_filter) = resolve_positional(Some("src/foo.rs".to_string()), None);
    assert!(start.is_none());
    assert_eq!(path_filter.as_ref().map(|p| p.as_str()), Some("src/foo.rs"));
}

#[test]
fn resolve_positional_none_means_no_filter() {
    let (start, path_filter) = resolve_positional(None, None);
    assert!(start.is_none());
    assert!(path_filter.is_none());
}
