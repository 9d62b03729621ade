//! Diffs: hunk headers, file sections, the single-file view and the guardrails.

use rit::git::commit::{compute_commit_diff, CommitChanges};
use rit::git::diff::{
    classify_skip, compute_file_diff, file_full_context_output, find_record,
    render_file_modification, render_record, ChangeKind, ChangeRecord, DiffSink, FileChange,
    FileDiffOutput, SkipReason,
};
use rit::git::walk::{build_pathspec_search, scope_records};
use rit::git::MAX_INLINE_DIFF_BYTES;
use rit::model::{DiffDocument, DiffLineKind, ObjectId, PathFilter};

fn oid(n: u8) -> ObjectId {
    let mut raw = [0u8; 20];
    raw[0] = n;
    ObjectId::from_slice(&raw).expect("twenty bytes")
}

fn commit_data(message: &str) -> Vec<u8> {
    format!(
        "tree {}\nauthor Test User <test@example.com> 1700000000 +0000\ncommitter Test User <test@example.com> 1700000000 +0000\n\n{message}\n",
        oid(200).to_hex(),
    )
    .into_bytes()
}

/// A commit's change of one file, with its contents before and after.
struct Change {
    path: &'static str,
    before: Option<String>,
    after: Option<String>,
}

fn record(i: usize, change: &Change) -> ChangeRecord {
    let old_id = oid(2 * i as u8 + 1);
    let new_id = oid(2 * i as u8 + 2);
    let kind = match (&change.before, &change.after) {
        (None, _) => ChangeKind::Addition { oid: new_id },
        (Some(_), None) => ChangeKind::Deletion { oid: old_id },
        (Some(_), Some(_)) => ChangeKind::Modification { previous_oid: old_id, oid: new_id },
    };
    ChangeRecord { kind, is_blob: true, path: change.path.as_bytes().to_vec() }
}

fn commit_diff(changes: &[Change], spec: Option<&str>) -> DiffDocument {
    let id = oid(100);
    let records: Vec<ChangeRecord> =
        changes.iter().enumerate().map(|(i, c)| record(i, c)).collect();
    let (kept, scoped_out) = match spec {
        Some(spec) => {
            let search = build_pathspec_search(&PathFilter::new(spec)).expect("spec");
            scope_records(&records, &search)
        }
        None => (records, 0),
    };
    let outputs: Vec<FileDiffOutput> = kept
        .iter()
        .filter_map(|r| {
            let change = changes.iter().find(|c| c.path.as_bytes() == r.path.as_slice())?;
            render_record(
                r,
                change.before.as_ref().map(|s| s.as_bytes()),
                change.after.as_ref().map(|s| s.as_bytes()),
            )
        })
        .collect();
    let made = CommitChanges { records: kept, outputs, scoped_out };
    compute_commit_diff(id, Ok(commit_data("a commit")), Ok(made))
}

fn file_diff(changes: &[Change], path: &str) -> DiffDocument {
    let id = oid(100);
    let records: Vec<ChangeRecord> =
        changes.iter().enumerate().map(|(i, c)| record(i, c)).collect();
    let bytes = |side: &Option<String>| side.clone().unwrap_or_default().into_bytes();
    let change = find_record(&records, path).map(|i| FileChange {
        kind: records[i].kind,
        old_bytes: bytes(&changes[i].before),
        new_bytes: bytes(&changes[i].after),
    });
    compute_file_diff(id, path, change)
}

fn headers_for(before: &[u8], after: &[u8]) -> Vec<String> {
    let mut sink = DiffSink::new();
    render_file_modification(&mut sink, "x.txt", before, after);
    sink.lines
        .into_iter()
        .filter_map(|l| if matches!(l.kind, DiffLineKind::HunkHeader) { Some(l.text) } else { None })
        .collect()
}

#[test]
fn header_for_single_replace_in_middle() {
    let headers = headers_for(b"a\nb\nc\nd\ne\n", b"a\nb\nX\nd\ne\n");
    assert_eq!(headers, vec!["@@ -1,5 +1,5 @@".to_string()]);
}

#[test]
fn header_for_pure_insertion_at_end() {
    let headers = headers_for(b"a\nb\n", b"a\nb\nc\nd\n");
    assert_eq!(headers, vec!["@@ -1,2 +1,4 @@".to_string()]);
}

#[test]
fn header_with_two_disjoint_groups() {
    let old: String = (0..30).map(|i| format!("line{i}\n")).collect();
    let mut new_lines: Vec<String> = (0..30).map(|i| format!("line{i}\n")).collect();
    new_lines[2] = "CHANGED\n".to_string();
    new_lines[27] = "CHANGED\n".to_string();
    let new: String = new_lines.concat();
    let headers = headers_for(old.as_bytes(), new.as_bytes());
    assert_eq!(headers, vec!["@@ -1,6 +1,6 @@".to_string(), "@@ -25,6 +25,6 @@".to_string()]);
}

#[test]
fn header_uses_zero_start_for_empty_old_range() {
    let headers = headers_for(b"", b"x\ny\n");
    assert_eq!(headers, vec!["@@ -0,0 +1,2 @@".to_string()]);
}

#[test]
fn header_uses_zero_start_for_empty_new_range() {
    let headers = headers_for(b"x\ny\n", b"");
    assert_eq!(headers, vec!["@@ -1,2 +0,0 @@".to_string()]);
}

#[test]
fn modification_emits_add_and_del_lines_at_expected_kinds() {
    let mut sink = DiffSink::new();
    render_file_modification(&mut sink, "x.txt", b"a\nb\nc\n", b"a\nB\nc\n");
    assert_eq!(sink.sections.len(), 1);
    assert_eq!(sink.sections[0].path, "x.txt");
    assert_eq!(sink.sections[0].body_start, 0);
    let adds: Vec<&str> = sink
        .lines
        .iter()
        .filter_map(|l| if matches!(l.kind, DiffLineKind::Add) { Some(l.text.as_str()) } else { None })
        .collect();
    let dels: Vec<&str> = sink
        .lines
        .iter()
        .filter_map(|l| if matches!(l.kind, DiffLineKind::Del) { Some(l.text.as_str()) } else { None })
        .collect();
    assert_eq!(adds, vec!["B"]);
    assert_eq!(dels, vec!["b"]);
    assert_eq!(sink.stats.insertions, 1);
    assert_eq!(sink.stats.deletions, 1);
    assert_eq!(sink.files.len(), 1);
}

#[test]
fn scoped_commit_diff_renders_only_matching_files() {
    let changes = [
        Change { path: "docs/b.md", before: None, after: Some("hello\n".to_string()) },
        Change { path: "src/a.rs", before: None, after: Some("fn a() {}\n".to_string()) },
    ];
    let full = commit_diff(&changes, None);
    assert_eq!(full.stats.files, 2, "unscoped diff renders every file");
    assert!(!full.body.iter().any(|l| l.text.contains("outside the path filter")));

    let scoped = commit_diff(&changes, Some("src"));
    assert_eq!(scoped.stats.files, 1);
    assert_eq!(scoped.files[0].path, "src/a.rs");
    assert_eq!(scoped.sections.len(), 1, "hidden files must not leave sections behind");
    assert!(
        scoped.body.iter().any(|l| l.text.contains("1 changed file outside the path filter")),
        "scoped diff should note the hidden file",
    );
}

#[test]
fn scoped_commit_diff_with_all_files_matching_adds_no_note() {
    let changes =
        [Change { path: "src/a.rs", before: None, after: Some("fn a() {}\n".to_string()) }];
    let scoped = commit_diff(&changes, Some("src"));
    assert_eq!(scoped.stats.files, 1);
    assert!(!scoped.body.iter().any(|l| l.text.contains("outside the path filter")));
}

#[test]
fn full_context_emits_every_line_without_hunk_headers() {
    let old: String = (0..30).map(|i| format!("line{i}\n")).collect();
    let mut new_lines: Vec<String> = (0..30).map(|i| format!("line{i}\n")).collect();
    new_lines[15] = "CHANGED\n".to_string();
    let new: String = new_lines.concat();

    let out = file_full_context_output("x.txt", old.as_bytes(), new.as_bytes(), None);

    assert!(out.skip_reason.is_none());
    assert_eq!(out.additions, 1);
    assert_eq!(out.deletions, 1);
    assert!(
        !out.lines.iter().any(|l| matches!(l.kind, DiffLineKind::HunkHeader)),
        "full-context output is the whole file — no hunk headers"
    );
    let context = out.lines.iter().filter(|l| matches!(l.kind, DiffLineKind::Context)).count();
    assert_eq!(context, 29, "every unchanged line is present as context");
    assert!(out.lines.iter().any(|l| l.text == "line0"), "lines far outside ±3 context are included");
    assert!(out.lines.iter().any(|l| l.text == "line29"));
}

#[test]
fn full_context_renders_files_past_the_inline_cap() {
    let big = vec![b'a'; MAX_INLINE_DIFF_BYTES + 1];
    assert!(
        matches!(classify_skip(&big, b""), Some(SkipReason::Oversize)),
        "inline path suppresses this file"
    );

    let out = file_full_context_output("big.txt", &big, b"", Some("deleted file"));
    assert!(out.skip_reason.is_none(), "single-file view renders past the inline byte cap");
    assert_eq!(out.deletions, 1, "the blob is one giant line");
}

#[test]
fn compute_file_diff_isolates_one_file_with_full_context() {
    let base: String = (0..12).map(|i| format!("alpha{i}\n")).collect();
    let mut changed: Vec<String> = (0..12).map(|i| format!("alpha{i}\n")).collect();
    changed[6] = "BETA\n".to_string();
    let changes = [
        Change {
            path: "docs/b.md",
            before: Some("hello\n".to_string()),
            after: Some("hello world\n".to_string()),
        },
        Change { path: "src/a.rs", before: Some(base), after: Some(changed.concat()) },
    ];

    let doc = file_diff(&changes, "src/a.rs");
    assert_eq!(doc.stats.files, 1);
    assert_eq!(doc.files[0].path, "src/a.rs");
    assert_eq!(doc.sections.len(), 1);
    assert!(doc.body.iter().any(|l| matches!(l.kind, DiffLineKind::Add) && l.text == "BETA"));
    assert!(
        doc.body.iter().any(|l| matches!(l.kind, DiffLineKind::Context) && l.text == "alpha0"),
        "context spans the whole file, not ±3 lines around the change"
    );
    assert!(doc.body.iter().any(|l| matches!(l.kind, DiffLineKind::Context) && l.text == "alpha11"));
    assert!(!doc.body.iter().any(|l| l.text.contains("b.md")), "the other changed file stays out");
}

#[test]
fn compute_file_diff_unknown_path_yields_error_document() {
    let changes = [Change { path: "a.txt", before: None, after: Some("x\n".to_string()) }];
    let doc = file_diff(&changes, "nope.rs");
    assert!(doc.header.iter().any(|l| l.text.starts_with("Error:")));
    assert!(doc.body.is_empty());
}

#[test]
fn classify_skip_flags_binary_by_nul_byte() {
    assert!(matches!(classify_skip(b"hello\0world", b"new"), Some(SkipReason::Binary)));
    assert!(matches!(classify_skip(b"old", b"\x00binary"), Some(SkipReason::Binary)));
}

#[test]
fn classify_skip_flags_oversize() {
    let big = vec![b'a'; MAX_INLINE_DIFF_BYTES + 1];
    assert!(matches!(classify_skip(&big, b""), Some(SkipReason::Oversize)));
    assert!(matches!(classify_skip(b"", &big), Some(SkipReason::Oversize)));
}

#[test]
fn classify_skip_passes_normal_text_pair() {
    assert!(classify_skip(b"hello\n", b"world\n").is_none());
    let at_cap = vec![b'a'; MAX_INLINE_DIFF_BYTES];
    assert!(classify_skip(&at_cap, b"").is_none());
}

#[test]
fn classify_skip_binary_wins_over_size() {
    let mut big_binary = vec![b'a'; MAX_INLINE_DIFF_BYTES + 1];
    big_binary[0] = 0;
    assert!(matches!(classify_skip(&big_binary, b""), Some(SkipReason::Binary)));
}
