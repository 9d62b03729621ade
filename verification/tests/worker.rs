//! The worker's decisions: requests, batches, the walk, refs and blame.

use rit::git::blame::{blame_document, commit_meta, push_blame_run, resolve_suspect, BlameRun};
use rit::git::commit::{first_listed_parent, first_parent};
use rit::git::diff::{empty_error_document, ChangeKind, ChangeRecord};
use rit::git::refs::{author_seconds, classify_ref, load_refs, ref_entry, RawRef, RefsMap};
use rit::git::walk::{
    build_commit_info, build_pathspec_search, commit_touches_pathspec, labels_for,
    refs_lower_from_refs, scope_records, PathMatcher, Sweep, SweepStep, WalkFound, Walker,
};
use rit::git::worker::{
    coalesce_requests, needs_untracked_walk, startup_messages, walk_start, worker_error,
    DrainStep, WorkerAction, WorkerState, INITIAL_BATCH, PAGE_BATCH,
};
use rit::git::{BlameAt, GitMsg, GitReq, HistoryMsg, HistoryReq, InspectMsg, InspectReq};
use rit::model::{DiffTarget, ObjectId, PathFilter, RefKind, RefLabel, RepoInfo};
use std::sync::Arc;

fn oid(n: u8) -> ObjectId {
    ObjectId::from_slice(&[n; 20]).expect("twenty bytes")
}

fn commit_data(author: &str, message: &str) -> Vec<u8> {
    format!(
        "tree {}\nauthor {author} <a@x.org> 1000 +0000\ncommitter C <c@x.org> 2000 +0000\n\n{message}\n",
        oid(1).to_hex(),
    )
    .into_bytes()
}

fn label(name: &str, kind: RefKind) -> RefLabel {
    RefLabel { name: name.to_string(), kind }
}

#[test]
fn requests_become_actions() {
    let mut state = WorkerState::new(None, true, true);
    let load = |target| GitReq::Inspect(InspectReq::LoadDiff { target, seq: 4, scoped: true });
    assert!(matches!(
        state.process_request(load(DiffTarget::Commit(oid(1)))),
        WorkerAction::CommitDiff { id, seq: 4, scoped: true } if id == oid(1)
    ));
    assert!(matches!(
        state.process_request(load(DiffTarget::WorkingTree)),
        WorkerAction::WorkingTreeDiff { seq: 4 }
    ));
    assert!(matches!(
        state.process_request(load(DiffTarget::Staged)),
        WorkerAction::StagedDiff { seq: 4 }
    ));
    let file = |target| {
        let path = "x".to_string();
        GitReq::Inspect(InspectReq::LoadFileDiff { target, path, seq: 5 })
    };
    assert!(matches!(
        state.process_request(file(DiffTarget::Commit(oid(2)))),
        WorkerAction::CommitFileDiff { id, path, seq: 5 } if id == oid(2) && path == "x"
    ));
    assert!(matches!(
        state.process_request(file(DiffTarget::WorkingTree)),
        WorkerAction::WorktreeFileDiff { seq: 5, .. }
    ));
    assert!(matches!(
        state.process_request(file(DiffTarget::Staged)),
        WorkerAction::StagedFileDiff { seq: 5, .. }
    ));
    assert!(matches!(
        state.process_request(GitReq::Inspect(InspectReq::LoadStatus)),
        WorkerAction::Status
    ));
    assert!(matches!(
        state.process_request(GitReq::Inspect(InspectReq::LoadRefs)),
        WorkerAction::ListRefs
    ));
    assert!(matches!(
        state.process_request(GitReq::Inspect(InspectReq::RefreshWorkingTreeMeta)),
        WorkerAction::DirtyCheck
    ));
    let blame = InspectReq::LoadBlame { path: "x".to_string(), at: BlameAt::Head, seq: 6 };
    assert!(matches!(
        state.process_request(GitReq::Inspect(blame)),
        WorkerAction::Blame { at: BlameAt::Head, seq: 6, .. }
    ));
}

#[test]
fn a_scope_without_a_filter_is_dropped() {
    let mut state = WorkerState::new(None, true, false);
    let target = DiffTarget::Commit(oid(1));
    let req = GitReq::Inspect(InspectReq::LoadDiff { target, seq: 1, scoped: true });
    assert!(matches!(
        state.process_request(req),
        WorkerAction::CommitDiff { scoped: false, .. }
    ));
}

#[test]
fn a_reload_keeps_the_root_unless_it_names_another() {
    let mut state = WorkerState::new(Some(oid(1)), true, false);
    let reload = |root| GitReq::History(HistoryReq::Reload { generation: 3, root });
    assert!(matches!(
        state.process_request(reload(None)),
        WorkerAction::Restart { generation: 3, root: Some(r) } if r == oid(1)
    ));
    assert!(matches!(
        state.process_request(reload(Some(oid(2)))),
        WorkerAction::Restart { generation: 3, root: Some(r) } if r == oid(2)
    ));
    assert_eq!(state.walk_root, Some(oid(2)));
}

#[test]
fn the_first_batch_is_small_and_brings_the_refs() {
    let mut state = WorkerState::new(None, true, false);
    assert_eq!(state.next_batch(), Some(INITIAL_BATCH));
    assert!(state.batch_done(false), "the refs follow the first batch");
    assert_eq!(state.next_batch(), Some(PAGE_BATCH));
    assert!(!state.batch_done(true));
    assert_eq!(state.next_batch(), None);
    state.restarted(true);
    assert_eq!(state.next_batch(), Some(PAGE_BATCH));
    state.restarted(false);
    assert_eq!(state.next_batch(), None);
}

#[test]
fn the_worker_waits_only_when_nothing_is_left() {
    let mut state = WorkerState::new(None, true, false);
    assert!(matches!(state.after_drain(0, true), DrainStep::Exit));
    assert!(matches!(state.after_drain(0, false), DrainStep::Serve));
    state.batch_done(true);
    assert!(matches!(state.after_drain(0, false), DrainStep::Wait));
    assert!(matches!(state.after_drain(1, false), DrainStep::Serve));
}

#[test]
fn one_diff_request_is_left_and_it_is_the_newest() {
    let load = |seq| {
        let target = DiffTarget::WorkingTree;
        GitReq::Inspect(InspectReq::LoadDiff { target, seq, scoped: false })
    };
    let mut batch = vec![load(1), GitReq::Inspect(InspectReq::LoadRefs), load(2), load(3)];
    coalesce_requests(&mut batch);
    assert_eq!(batch.len(), 2);
    assert!(matches!(batch[0], GitReq::Inspect(InspectReq::LoadRefs)));
    assert!(matches!(batch[1], GitReq::Inspect(InspectReq::LoadDiff { seq: 3, .. })));
}

#[test]
fn the_walk_starts_at_its_root_or_at_the_checked_out_commit() {
    assert_eq!(walk_start(Some(oid(1)), Some(oid(2))), Some(oid(1)));
    assert_eq!(walk_start(None, Some(oid(2))), Some(oid(2)));
    assert_eq!(walk_start(None, None), None);
}

#[test]
fn the_worker_says_who_it_is_first() {
    let info = RepoInfo { name: "~/r".to_string(), branch: "main".to_string(), path_filter: None };
    let msgs = startup_messages(info, "Ann".to_string());
    assert_eq!(msgs.len(), 2);
    assert!(
        matches!(&msgs[0], GitMsg::History(HistoryMsg::RepoInfo(i)) if i.name == "~/r")
    );
    assert!(matches!(
        &msgs[1],
        GitMsg::Inspect(InspectMsg::WorkingTreeMeta { author, dirty: None, staged: None })
            if author == "Ann"
    ));
    assert!(matches!(
        worker_error("git worker died", "oops"),
        GitMsg::History(HistoryMsg::Error(e)) if e == "git worker died: oops"
    ));
}

#[test]
fn only_a_working_tree_diff_with_a_placeholder_asks_for_the_untracked_files() {
    let mut doc = empty_error_document(DiffTarget::WorkingTree, "x");
    assert!(!needs_untracked_walk(DiffTarget::WorkingTree, &doc));
    doc.untracked_anchor = Some(0);
    assert!(needs_untracked_walk(DiffTarget::WorkingTree, &doc));
    assert!(!needs_untracked_walk(DiffTarget::Staged, &doc));
}

fn walker(filter: Option<&str>) -> Walker {
    let filter = filter.map(PathFilter::new);
    Walker::new(filter.as_ref(), true, 7, false, Arc::new(RefsMap::new())).expect("a walker")
}

/// Examines `found`, one after the other, with a look at the queue before each.
fn examine(walker: &mut Walker, sweep: &mut Sweep, found: Vec<WalkFound>) {
    for one in found {
        assert_eq!(walker.next_step(sweep), SweepStep::Poll);
        sweep.polled(false);
        assert_eq!(walker.next_step(sweep), SweepStep::Next);
        walker.advance(sweep, one);
    }
}

fn commit_found(n: u8) -> WalkFound {
    let data = Some(commit_data("Ann", &format!("commit {n}")));
    WalkFound::Commit { id: oid(n), parents: Vec::new(), data }
}

fn sent_ids(msgs: &[HistoryMsg]) -> Vec<ObjectId> {
    msgs.iter()
        .flat_map(|m| match m {
            HistoryMsg::Commits { commits, .. } => commits.iter().map(|c| c.id).collect(),
            _ => Vec::new(),
        })
        .collect()
}

#[test]
fn a_sweep_looks_for_requests_before_every_commit() {
    let mut walker = walker(None);
    let mut sweep = walker.load_more(1000);
    let mut examined = 0;
    let mut polls = 0;
    loop {
        match walker.next_step(&sweep) {
            SweepStep::Finish => break,
            SweepStep::Poll => {
                polls += 1;
                sweep.polled(polls == 3);
            }
            SweepStep::Next => {
                examined += 1;
                walker.advance(&mut sweep, WalkFound::Untouched);
            }
        }
    }
    assert_eq!(polls, 3);
    assert_eq!(examined, 2);
    assert!(!walker.done, "the rest comes with the next call");
}

#[test]
fn a_request_stops_the_sweep_after_the_commit_at_hand() {
    let mut walker = walker(None);
    let mut sweep = walker.load_more(100);
    examine(&mut walker, &mut sweep, vec![commit_found(1)]);
    assert_eq!(walker.next_step(&sweep), SweepStep::Poll);
    sweep.polled(true);
    assert_eq!(walker.next_step(&sweep), SweepStep::Finish);
    let (msgs, emitted) = walker.finish(sweep);
    assert_eq!(emitted, 1);
    assert_eq!(msgs.len(), 1, "commits, and no end of the walk");
    assert_eq!(sent_ids(&msgs), [oid(1)]);
}

#[test]
fn sweeps_send_every_commit_once_and_in_order() {
    let mut walker = walker(None);
    let mut sweep = walker.load_more(3);
    let found = vec![commit_found(1), WalkFound::Untouched, commit_found(2)];
    examine(&mut walker, &mut sweep, found);
    assert_eq!(walker.next_step(&sweep), SweepStep::Finish, "as many as were asked for");
    let (msgs, emitted) = walker.finish(sweep);
    assert_eq!((sent_ids(&msgs), emitted), (vec![oid(1), oid(2)], 2));

    let mut sweep = walker.load_more(0);
    examine(&mut walker, &mut sweep, vec![commit_found(3)]);
    assert_eq!(walker.next_step(&sweep), SweepStep::Finish, "at least one");
    assert_eq!(sent_ids(&walker.finish(sweep).0), [oid(3)]);

    let mut sweep = walker.load_more(5);
    examine(&mut walker, &mut sweep, vec![WalkFound::Untouched, WalkFound::End]);
    assert_eq!(walker.next_step(&sweep), SweepStep::Finish);
    let (msgs, emitted) = walker.finish(sweep);
    assert_eq!(emitted, 0);
    assert!(matches!(msgs[..], [HistoryMsg::WalkDone { generation: 7 }]));
}

#[test]
fn the_end_of_the_walk_is_told_under_its_generation() {
    let mut walker = walker(None);
    let mut sweep = walker.load_more(10);
    let data = Some(commit_data("Ann", "one"));
    let parents = vec![oid(2)];
    let one = WalkFound::Commit { id: oid(3), parents, data };
    examine(&mut walker, &mut sweep, vec![one, WalkFound::Unreadable, WalkFound::End]);
    assert!(walker.done);
    let (msgs, emitted) = walker.finish(sweep);
    assert_eq!(emitted, 1);
    assert!(matches!(
        &msgs[0],
        HistoryMsg::Commits { generation: 7, commits } if commits[0].summary == "one"
    ));
    assert!(matches!(msgs[1], HistoryMsg::WalkDone { generation: 7 }));
    assert_eq!(msgs.len(), 2);
}

#[test]
fn path_filters_are_read_as_paths_or_pathspecs() {
    assert!(matches!(
        walker(Some("src/")).path_matcher,
        Some(PathMatcher::Literal(p)) if p == "src"
    ));
    assert!(matches!(walker(Some("*.rs")).path_matcher, Some(PathMatcher::Spec(_))));
    assert!(walker(None).path_matcher.is_none());
    assert!(build_pathspec_search(&PathFilter::new(":(unknown)x")).is_err());
    let bad = PathFilter::new(":(unknown)x");
    assert!(Walker::new(Some(&bad), true, 0, false, Arc::new(RefsMap::new())).is_err());
    let search = build_pathspec_search(&PathFilter::new("src/*.rs")).expect("a pathspec");
    assert!(search.matches(b"src/a.rs"));
    assert!(!search.matches(b"src/a.txt"));
    assert!(!search.matches(b"lib/a.rs"));
}

#[test]
fn exclusion_pathspecs_leave_files_out() {
    let search = build_pathspec_search(&PathFilter::new(":!target")).expect("a pathspec");
    assert!(!search.matches(b"target"));
    assert!(!search.matches(b"target/debug/rit"));
    assert!(search.matches(b"src/main.rs"));
    let change = |path: &str| ChangeRecord {
        kind: ChangeKind::Addition { oid: oid(1) },
        is_blob: true,
        path: path.as_bytes().to_vec(),
    };
    assert!(!commit_touches_pathspec(&vec![change("target/a")], &search));
    let both = vec![change("target/a"), change("src/a"), change("target/b")];
    assert!(commit_touches_pathspec(&both, &search));
    let (kept, hidden) = scope_records(&both, &search);
    assert_eq!(kept.len(), 1);
    assert_eq!(kept[0].path, b"src/a");
    assert_eq!(hidden, 2);
}

#[test]
fn a_label_map_knows_whether_it_is_in_order() {
    let mut map = RefsMap::new();
    assert!(map.is_ordered());
    map.add_label(oid(5), label("a", RefKind::Tag), false);
    map.add_label(oid(4), label("b", RefKind::Tag), false);
    map.add_label(oid(6), label("c", RefKind::Tag), false);
    assert!(map.is_ordered());
    map.entries.swap(1, 2);
    assert!(!map.is_ordered());
    map.entries.swap(1, 2);
    map.entries[1].id = oid(4);
    assert!(!map.is_ordered(), "no id occurs twice");
}

#[test]
fn refs_are_classified_by_where_they_lie() {
    let kind = |full: &str| classify_ref(full).map(|l| (l.name, l.kind));
    assert_eq!(kind("HEAD"), Some(("HEAD".to_string(), RefKind::Head)));
    assert_eq!(kind("refs/heads/a/b"), Some(("a/b".to_string(), RefKind::LocalBranch)));
    assert_eq!(kind("refs/remotes/o/m"), Some(("o/m".to_string(), RefKind::RemoteBranch)));
    assert_eq!(kind("refs/tags/v1"), Some(("v1".to_string(), RefKind::Tag)));
    assert_eq!(kind("refs/stash"), None);
}

#[test]
fn labels_are_found_by_the_commit_they_point_at() {
    let raw = |name: &str, n: Option<u8>| RawRef {
        full_name: name.to_string(),
        target: n.map(oid),
    };
    let refs = vec![
        raw("refs/heads/main", Some(2)),
        raw("refs/remotes/origin/HEAD", None),
        raw("refs/tags/v1", Some(1)),
        raw("refs/notes/x", Some(1)),
        raw("refs/tags/v2", Some(2)),
    ];
    let map = load_refs(refs, Some(oid(2)));
    let names = |n: u8| -> Vec<String> {
        labels_for(&map, oid(n)).into_iter().map(|l| l.name).collect()
    };
    assert_eq!(names(1), ["v1"]);
    assert_eq!(names(2), ["HEAD", "main", "v2"]);
    assert!(names(3).is_empty());
    assert!(map.get(oid(3)).is_none());

    let mut map = RefsMap::new();
    map.add_label(oid(5), label("a", RefKind::Tag), false);
    map.add_label(oid(5), label("b", RefKind::Tag), false);
    map.add_label(oid(4), label("c", RefKind::Tag), true);
    map.add_label(oid(5), label("HEAD", RefKind::Head), true);
    assert_eq!(map.entries[0].id, oid(4));
    let names: Vec<&str> =
        map.get(oid(5)).expect("labels").iter().map(|l| l.name.as_str()).collect();
    assert_eq!(names, ["HEAD", "a", "b"]);
}

#[test]
fn a_commit_record_holds_lowercased_search_texts() {
    let mut map = RefsMap::new();
    map.add_label(oid(3), label("V1-RC", RefKind::Tag), false);
    map.add_label(oid(3), label("Main", RefKind::LocalBranch), false);
    let data = commit_data("ÉLISE B", "Fix: The THING\n\nbody");
    let record = build_commit_info(oid(3), &[], &data, &map, &mut None).expect("a record");
    assert_eq!(record.author, "ÉLISE B");
    assert_eq!(record.summary, "Fix: The THING");
    assert_eq!(record.short_id, "0303030");
    assert_eq!(record.authored_unix_secs, 1000);
    assert_eq!(record.search.author_lower, "élise b");
    assert_eq!(record.search.summary_lower, "fix: the thing");
    assert_eq!(record.search.refs_lower, "v1-rc main");
    assert_eq!(record.graph, "");
    assert!(build_commit_info(oid(3), &[], b"broken", &map, &mut None).is_none());
    assert_eq!(refs_lower_from_refs(&Vec::new()), "");
}

#[test]
fn ref_entries_tell_what_they_point_at() {
    let data = commit_data("Ann", "Title here  \n\nbody");
    let entry = ref_entry("refs/tags/v1", oid(1), &data).expect("an entry");
    assert_eq!((entry.name.as_str(), entry.kind), ("v1", RefKind::Tag));
    assert_eq!(entry.summary, "Title here");
    assert!(entry.authored_relative.ends_with("y ago"));
    assert!(ref_entry("HEAD", oid(1), &data).is_none());
    assert!(ref_entry("refs/notes/x", oid(1), &data).is_none());
    let unread = ref_entry("refs/heads/x", oid(1), b"broken").expect("an entry");
    assert_eq!((unread.summary.as_str(), unread.authored_relative.as_str()), ("", ""));
    assert_eq!(author_seconds(&data), 1000);
    assert_eq!(author_seconds(b"broken"), 0);
}

#[test]
fn a_blame_names_its_commit_or_says_why_not() {
    let none = || Err("gone".to_string());
    assert_eq!(resolve_suspect(BlameAt::Head, Ok(oid(1)), Ok(None)), Ok(oid(1)));
    assert_eq!(
        resolve_suspect(BlameAt::Head, none(), Ok(None)),
        Err("cannot resolve HEAD: gone".to_string())
    );
    assert_eq!(resolve_suspect(BlameAt::Commit(oid(2)), none(), Ok(None)), Ok(oid(2)));
    let at = BlameAt::ParentOfCommit(oid(3));
    assert_eq!(resolve_suspect(at, none(), Ok(Some(oid(4)))), Ok(oid(4)));
    assert_eq!(
        resolve_suspect(at, none(), Ok(None)),
        Err("commit 0303030 has no parent".to_string())
    );
    assert_eq!(
        resolve_suspect(at, none(), Err("unreadable".to_string())),
        Err("unreadable".to_string())
    );
}

#[test]
fn blame_lines_are_numbered_from_one_and_sorted() {
    let meta = commit_meta(oid(1), Some(&commit_data("Ann", "x")));
    assert_eq!((meta.short.as_str(), meta.author.as_str()), ("0101010", "Ann"));
    let unknown = commit_meta(oid(2), None);
    assert_eq!(unknown.author, "?");
    let mut lines = Vec::new();
    let run = |start: u32, texts: &[&str], from: Option<&str>| BlameRun {
        commit_id: oid(1),
        source_file_name: from.map(|f| f.as_bytes().to_vec()),
        start,
        lines: texts.iter().map(|t| t.as_bytes().to_vec()).collect(),
    };
    push_blame_run(&mut lines, "f", &run(2, &["c\r\n", "d"], Some("old")), &meta);
    push_blame_run(&mut lines, "f", &run(0, &["a\n", "b\n\n"], Some("f")), &unknown);
    let doc = blame_document("f", oid(1), lines);
    let rows: Vec<(u32, &str)> = doc.lines.iter().map(|l| (l.line_no, l.text.as_str())).collect();
    assert_eq!(rows, [(1, "a"), (2, "b"), (3, "c"), (4, "d")]);
    assert_eq!(doc.lines[0].source_path, None);
    assert_eq!(doc.lines[2].source_path.as_deref(), Some("old"));
}

fn commit_with_parents(parents: &[ObjectId], rest: &str) -> Vec<u8> {
    let parents: String = parents.iter().map(|p| format!("parent {}\n", p.to_hex())).collect();
    format!("tree {}\n{parents}{rest}", oid(1).to_hex()).into_bytes()
}

#[test]
fn a_commit_is_compared_with_its_first_parent() {
    let rest = "author A <a@x.org> 1 +0000\ncommitter C <c@x.org> 2 +0000\n\nmessage\n";
    let merge = commit_with_parents(&[oid(7), oid(8)], rest);
    assert_eq!(first_parent(&merge), Ok(Some(oid(7))));
    assert_eq!(first_listed_parent(&merge), Ok(Some(oid(7))));
    let root = commit_with_parents(&[], rest);
    assert_eq!(first_parent(&root), Ok(None));
    assert_eq!(first_listed_parent(&root), Ok(None));
}

#[test]
fn a_broken_commit_has_no_diff_but_may_be_blamed_past() {
    let broken = commit_with_parents(&[oid(7)], "nonsense\n");
    assert!(first_parent(&broken).is_err());
    assert_eq!(first_listed_parent(&broken), Ok(Some(oid(7))));
    assert!(first_parent(b"").is_err());
    assert_eq!(first_listed_parent(b""), Ok(None));
}

#[test]
fn thinning_out_twice_changes_nothing() {
    let diff = |n: u8, seq: u64| {
        let target = DiffTarget::Commit(oid(n));
        GitReq::Inspect(InspectReq::LoadDiff { target, seq, scoped: true })
    };
    let mut batch = vec![diff(1, 1), GitReq::Inspect(InspectReq::LoadStatus), diff(2, 2)];
    coalesce_requests(&mut batch);
    assert_eq!(batch.len(), 2);
    coalesce_requests(&mut batch);
    assert_eq!(batch.len(), 2);
    assert!(matches!(batch[1], GitReq::Inspect(InspectReq::LoadDiff { seq: 2, .. })));
}
