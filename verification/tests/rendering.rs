//! How commits and files are rendered, and the limits of a diff.

use rit::git::commit::{commit_object_header, compute_commit_diff, CommitChanges};
use rit::git::diff::{
    classify_skip_with_cap, commit_document, compute_file_diff, document_or_error,
    empty_error_document, file_addition_output, file_deletion_output, file_document,
    file_full_context_output, file_modification_output, find_record, fold_outputs,
    inline_headroom,
    merge_file_output_into_sink, render_change, render_diff_records, render_file_addition,
    render_file_deletion, render_record, ChangeKind, ChangeRecord, DiffSink, FileDiffOutput,
    SkipReason,
};
use rit::git::hunks::{render_full_context_into, render_unified_into};
use rit::git::{MAX_FILE_VIEW_DIFF_BYTES, MAX_INLINE_DIFF_FILES, MAX_INLINE_DIFF_LINES};
use rit::model::{DiffLine, DiffLineKind, DiffTarget, ObjectId};

fn oid(n: u8) -> ObjectId {
    ObjectId::from_slice(&[n; 20]).expect("twenty bytes")
}

fn shown(lines: &[DiffLine]) -> Vec<String> {
    lines
        .iter()
        .map(|l| {
            let mark = match l.kind {
                DiffLineKind::Add => "+",
                DiffLineKind::Del => "-",
                DiffLineKind::Context => " ",
                _ => "",
            };
            format!("{mark}{}", l.text)
        })
        .collect()
}

/// The lines of one side of a diff: the old one without what was added, or the new one
/// without what was removed.
fn side(lines: &[DiffLine], without: DiffLineKind) -> Vec<String> {
    lines
        .iter()
        .filter(|l| {
            matches!(l.kind, DiffLineKind::Add | DiffLineKind::Del | DiffLineKind::Context)
                && l.kind != without
        })
        .map(|l| l.text.clone())
        .collect()
}

fn commit_bytes(author_line: &str) -> Vec<u8> {
    format!(
        "tree {}\nparent {}\nauthor {author_line}\ncommitter Bo <bo@x.org> 86400 +0000\n\n{}",
        oid(1).to_hex(),
        oid(2).to_hex(),
        "A title\n\nfirst\n\nlast\n",
    )
    .into_bytes()
}

#[test]
fn a_commit_header_tells_who_and_when() {
    let header = commit_object_header(oid(9), &commit_bytes("Ann B <ann@x.org> 0 +0200"))
        .expect("readable commit");
    assert_eq!(
        shown(&header),
        [
            format!("commit {}", oid(9).to_hex()),
            "Author:     Ann B <ann@x.org>".to_string(),
            "AuthorDate: Thu Jan  1 00:00:00 1970 +0000".to_string(),
            "Commit:     Bo <bo@x.org>".to_string(),
            "CommitDate: Fri Jan  2 00:00:00 1970 +0000".to_string(),
            String::new(),
            "    A title".to_string(),
            "    first".to_string(),
            "    ".to_string(),
            "    last".to_string(),
            String::new(),
        ]
    );
    let kinds: Vec<DiffLineKind> = header.iter().map(|l| l.kind).collect();
    assert_eq!(kinds[0], DiffLineKind::CommitHeader);
    assert_eq!(kinds[1..5], [DiffLineKind::Meta; 4]);
    assert_eq!(kinds[5], DiffLineKind::Blank);
    assert_eq!(kinds[6], DiffLineKind::Message);
}

#[test]
fn an_unreadable_commit_has_no_header() {
    assert!(commit_object_header(oid(9), b"no commit").is_err());
    assert!(commit_object_header(oid(9), &commit_bytes("nobody")).is_err());
}

#[test]
fn an_added_file_shows_every_line_as_added() {
    let out = file_addition_output("a b.txt", b"one\r\ntwo");
    assert_eq!(
        shown(&out.lines),
        [
            "diff --git a/a b.txt b/a b.txt",
            "new file",
            "--- /dev/null",
            "+++ b/a b.txt",
            "+one",
            "+two",
        ]
    );
    assert_eq!((out.additions, out.deletions), (2, 0));
    assert_eq!(out.skip_reason, None);
}

#[test]
fn a_deleted_file_shows_every_line_as_removed() {
    let out = file_deletion_output("x", b"one\ntwo\n");
    assert_eq!(
        shown(&out.lines),
        ["diff --git a/x b/x", "deleted file", "--- a/x", "+++ /dev/null", "-one", "-two"]
    );
    assert_eq!((out.additions, out.deletions), (0, 2));
}

#[test]
fn a_modified_file_shows_its_hunks() {
    let out = file_modification_output("x", b"a\nb\nc\n", b"a\nB\nc\nd\n");
    assert_eq!(
        shown(&out.lines),
        [
            "diff --git a/x b/x",
            "--- a/x",
            "+++ b/x",
            "@@ -1,3 +1,4 @@",
            " a",
            "-b",
            "+B",
            " c",
            "+d",
        ]
    );
    assert_eq!((out.additions, out.deletions), (2, 1));
}

#[test]
fn bytes_that_are_no_text_are_replaced() {
    let out = file_addition_output("x", b"caf\xe9\n");
    assert_eq!(out.lines.last().expect("a line").text, "caf\u{fffd}");
    let out = file_modification_output("x", b"a\n", b"\xff\n");
    assert_eq!(out.lines.last().expect("a line").text, "\u{fffd}");
}

#[test]
fn hunks_apart_by_more_than_their_contexts_get_headers_of_their_own() {
    let old: String = (0..20).map(|i| format!("{i}\n")).collect();
    let with = |a: usize, b: usize| -> String {
        (0..20).map(|i| if i == a || i == b { "X\n".to_string() } else { format!("{i}\n") }).collect()
    };
    let headers = |new: String| -> Vec<String> {
        let mut lines = Vec::new();
        render_unified_into(&mut lines, old.as_bytes(), new.as_bytes());
        shown(&lines).into_iter().filter(|l| l.starts_with("@@")).collect()
    };
    assert_eq!(headers(with(5, 12)), ["@@ -3,14 +3,14 @@"]);
    assert_eq!(headers(with(5, 13)), ["@@ -3,7 +3,7 @@", "@@ -11,7 +11,7 @@"]);
}

#[test]
fn the_single_file_view_holds_both_files() {
    let old = "a\nb\nc\nd\ne\nf\ng\nh\ni\nj\n";
    let new = "a\nc\nd\nX\ne\nf\ng\nh\ni\nJ\n";
    let mut lines = Vec::new();
    let counts = render_full_context_into(&mut lines, old.as_bytes(), new.as_bytes());
    assert_eq!(counts, (2, 2));
    assert_eq!(side(&lines, DiffLineKind::Add), old.lines().collect::<Vec<_>>());
    assert_eq!(side(&lines, DiffLineKind::Del), new.lines().collect::<Vec<_>>());
}

#[test]
fn a_group_of_hunks_holds_as_many_lines_as_its_header_says() {
    let mut lines = Vec::new();
    render_unified_into(&mut lines, b"1\n2\n3\n4\n5\n6\n7\n8\n", b"1\n2\n3\n4\n5\nX\nY\n7\n8\n");
    assert_eq!(lines[0].text, "@@ -3,6 +3,7 @@");
    assert_eq!(side(&lines, DiffLineKind::Add), ["3", "4", "5", "6", "7", "8"]);
    assert_eq!(side(&lines, DiffLineKind::Del), ["3", "4", "5", "X", "Y", "7", "8"]);
}

#[test]
fn equal_files_differ_nowhere() {
    let text = b"a\nb\nb\n\nc";
    let mut lines = Vec::new();
    assert_eq!(render_unified_into(&mut lines, text, text), (0, 0));
    assert!(lines.is_empty());
    assert_eq!(render_full_context_into(&mut lines, text, text), (0, 0));
    assert_eq!(shown(&lines).len(), 5);
    assert!(lines.iter().all(|l| l.kind == DiffLineKind::Context));
    let out = file_modification_output("x", text, text);
    assert_eq!((out.lines.len(), out.additions, out.deletions), (3, 0, 0));
}

#[test]
fn files_that_are_not_shown_say_why() {
    let out = file_addition_output("x", b"a\0b");
    assert_eq!(out.lines.last().expect("a line").text, "Binary file — diff suppressed");
    assert_eq!(out.skip_reason, Some(SkipReason::Binary));

    let big = vec![b'x'; 300 * 1024];
    let out = file_modification_output("x", b"", &big);
    assert_eq!(
        out.lines.last().expect("a line").text,
        "Large file (300 KiB) — diff suppressed (>256 KiB; o opens the full file)"
    );
    assert_eq!(out.skip_reason, Some(SkipReason::Oversize));
    assert_eq!((out.additions, out.deletions), (0, 0));

    let huge = vec![b'x'; MAX_FILE_VIEW_DIFF_BYTES + 1024];
    let out = file_full_context_output("x", b"", &huge, None);
    assert_eq!(
        out.lines.last().expect("a line").text,
        "Large file (8193 KiB) — exceeds even the single-file cap (>8192 KiB)"
    );
    assert_eq!(classify_skip_with_cap(b"abc", b"", 2), Some(SkipReason::Oversize));
    assert_eq!(classify_skip_with_cap(b"abc", b"", 3), None);
}

fn small_output(path: &str) -> FileDiffOutput {
    file_addition_output(path, b"one\n")
}

#[test]
fn a_diff_counts_every_file_and_notes_once_that_it_is_full() {
    let mut sink = DiffSink::new();
    let outputs: Vec<FileDiffOutput> =
        (0..MAX_INLINE_DIFF_FILES).map(|i| small_output(&format!("f{i}"))).collect();
    let skipped: Vec<String> = (0..3).map(|i| format!("s{i}")).collect();
    let first_lines = 5 * MAX_INLINE_DIFF_FILES;
    fold_outputs(&mut sink, outputs, skipped);
    assert_eq!(sink.files.len(), MAX_INLINE_DIFF_FILES + 3);
    assert_eq!(sink.stats.files, MAX_INLINE_DIFF_FILES + 3);
    assert_eq!(sink.stats.insertions, MAX_INLINE_DIFF_FILES);
    assert_eq!(sink.sections.len(), MAX_INLINE_DIFF_FILES);
    assert_eq!(sink.lines.len(), first_lines + 1);
    assert_eq!(
        sink.lines[first_lines].text,
        "… 200 files changed; remaining file diffs suppressed (>200 files; t lists them, o opens one)"
    );
    assert!(sink.flags.truncated);
    assert!(sink.guardrail_exceeded());
    assert_eq!(sink.lines.len(), first_lines + 1, "the note comes once");
    for section in &sink.sections {
        let title = format!("diff --git a/{p} b/{p}", p = section.path);
        assert_eq!(sink.lines[section.body_start].text, title);
    }
}

#[test]
fn a_long_diff_lists_the_rest_of_its_files() {
    let long: String = (0..MAX_INLINE_DIFF_LINES).map(|i| format!("{i}\n")).collect();
    let mut sink = DiffSink::new();
    render_file_addition(&mut sink, "long", long.as_bytes());
    let before = sink.lines.len();
    fold_outputs(&mut sink, vec![small_output("rest")], Vec::new());
    assert_eq!(sink.lines.len(), before + 1);
    assert_eq!(
        sink.lines[before].text,
        "… diff truncated at 20000 lines; remaining files summarised (t lists files, o opens one)"
    );
    assert_eq!(sink.files[1].path, "rest");
    assert_eq!((sink.files[1].additions, sink.files[1].deletions), (0, 0));
    assert_eq!(sink.sections.len(), 1);
}

#[test]
fn merging_a_file_adds_its_counts_and_flags() {
    let mut sink = DiffSink::new();
    assert!(!sink.guardrail_exceeded());
    merge_file_output_into_sink(&mut sink, file_addition_output("bin", b"\0"));
    render_file_deletion(&mut sink, "gone", b"a\nb\n");
    sink.account_skipped_file("skipped".to_string());
    assert_eq!(sink.flags.skipped_binary_files, 1);
    assert_eq!(sink.flags.skipped_large_files, 0);
    assert!(sink.flags.truncated);
    assert_eq!(sink.stats.files, 3);
    assert_eq!(sink.stats.deletions, 2);
    assert_eq!(sink.sections[1].body_start, 5);
    let paths: Vec<&str> = sink.files.iter().map(|f| f.path.as_str()).collect();
    assert_eq!(paths, ["bin", "gone", "skipped"]);
}

#[test]
fn the_file_limit_leaves_room_for_what_is_left_of_it() {
    assert_eq!(inline_headroom(0, 10), 10);
    assert_eq!(inline_headroom(0, 500), MAX_INLINE_DIFF_FILES);
    assert_eq!(inline_headroom(150, 500), 50);
    assert_eq!(inline_headroom(300, 5), 0);
}

fn tree_record() -> ChangeRecord {
    let kind = ChangeKind::Modification { previous_oid: oid(1), oid: oid(2) };
    ChangeRecord { kind, is_blob: false, path: b"src".to_vec() }
}

fn blob_record(path: &str) -> ChangeRecord {
    let kind = ChangeKind::Modification { previous_oid: oid(1), oid: oid(2) };
    ChangeRecord { kind, is_blob: true, path: path.as_bytes().to_vec() }
}

#[test]
fn only_blobs_that_can_be_read_are_rendered() {
    assert!(render_record(&tree_record(), Some(b"a"), Some(b"b")).is_none());
    assert!(render_record(&blob_record("x"), None, Some(b"b")).is_none());
    assert!(render_record(&blob_record("x"), Some(b"a"), None).is_none());
    let out = render_record(&blob_record("x"), Some(b"a\n"), Some(b"b\n")).expect("an output");
    assert_eq!((out.path.as_str(), out.additions, out.deletions), ("x", 1, 1));
    let added = ChangeKind::Addition { oid: oid(1) };
    assert!(render_change("x", added, None, None).is_none());
    assert_eq!(render_change("x", added, None, Some(b"a")).expect("an output").additions, 1);
    let deleted = ChangeKind::Deletion { oid: oid(1) };
    assert_eq!(render_change("x", deleted, Some(b"a"), None).expect("an output").deletions, 1);
}

#[test]
fn a_commit_lists_the_files_it_can_read_and_then_the_rest() {
    let mut records: Vec<ChangeRecord> =
        (0..MAX_INLINE_DIFF_FILES + 1).map(|i| blob_record(&format!("f{i}"))).collect();
    records[0] = tree_record();
    let contents = |i: usize| if i == 2 { None } else { Some(b"a\n".as_slice()) };
    let outputs: Vec<FileDiffOutput> = (0..inline_headroom(0, records.len()))
        .filter_map(|i| render_record(&records[i], contents(i), Some(b"b\n")))
        .collect();
    let all: Vec<String> = outputs.iter().flat_map(|o| shown(&o.lines)).collect();
    let doc = commit_document(oid(1), Vec::new(), &records, outputs, 0);
    let paths: Vec<&str> = doc.files.iter().map(|f| f.path.as_str()).collect();
    assert_eq!(paths.len(), MAX_INLINE_DIFF_FILES - 1);
    assert_eq!(paths[..3], ["f1", "f3", "f4"]);
    assert_eq!(paths.last(), Some(&"f200"));
    assert_eq!(shown(&doc.body)[..all.len()], all, "each file is shown in full");
}

#[test]
fn records_past_the_file_limit_are_listed() {
    let records: Vec<ChangeRecord> =
        (0..MAX_INLINE_DIFF_FILES + 2).map(|i| blob_record(&format!("f{i}"))).collect();
    let outputs = (0..MAX_INLINE_DIFF_FILES).map(|i| small_output(&format!("f{i}"))).collect();
    let mut sink = DiffSink::new();
    render_diff_records(&records, outputs, &mut sink);
    assert_eq!(sink.files.len(), MAX_INLINE_DIFF_FILES + 2);
    assert_eq!(sink.files.last().expect("a file").path, "f201");
}

#[test]
fn a_commit_document_says_how_many_files_the_filter_hides() {
    let note = |hidden: usize| -> Option<String> {
        let records = vec![blob_record("f")];
        let doc = commit_document(oid(1), Vec::new(), &records, vec![small_output("f")], hidden);
        assert_eq!(doc.target, DiffTarget::Commit(oid(1)));
        doc.body.get(5).map(|l| l.text.clone())
    };
    assert_eq!(note(0), None);
    assert_eq!(
        note(1).as_deref(),
        Some("… 1 changed file outside the path filter hidden (f shows the full diff)")
    );
    assert_eq!(
        note(2).as_deref(),
        Some("… 2 changed files outside the path filter hidden (f shows the full diff)")
    );
}

#[test]
fn one_file_of_a_commit_is_found_by_its_path() {
    let records = vec![tree_record(), blob_record("a"), blob_record("src")];
    assert_eq!(find_record(&records, "src"), Ok(2));
    assert_eq!(find_record(&records, "b"), Err("b was not changed in this commit".to_string()));
    let doc = file_document(oid(1), "a", records[1].kind, b"x\ny\n", b"x\nz\n");
    assert_eq!(shown(&doc.body)[1..], ["--- a/a", "+++ b/a", " x", "-y", "+z"]);
    assert!(doc.header.is_empty());
    assert_eq!(doc.stats.files, 1);
}

#[test]
fn a_commit_diff_says_what_went_wrong_first() {
    let none = || Err("no changes".to_string());
    let made = || {
        let records = vec![blob_record("f")];
        Ok(CommitChanges { records, outputs: vec![small_output("f")], scoped_out: 0 })
    };
    let good = commit_bytes("Ann B <ann@x.org> 0 +0200");
    let doc = compute_commit_diff(oid(9), Err("unreadable".to_string()), none());
    assert_eq!(doc.header[0].text, "Error: unreadable");
    let doc = compute_commit_diff(oid(9), Ok(b"no commit".to_vec()), made());
    assert!(doc.header[0].text.starts_with("Error: ") && doc.body.is_empty());
    let doc = compute_commit_diff(oid(9), Ok(good.clone()), none());
    assert_eq!(doc.header[0].text, "Error: no changes");
    let doc = compute_commit_diff(oid(9), Ok(good), made());
    assert_eq!(doc.header[0].text, format!("commit {}", oid(9).to_hex()));
    assert_eq!(doc.files[0].path, "f");
    let doc = compute_file_diff(oid(9), "f", Err("gone".to_string()));
    assert_eq!(doc.header[0].text, "Error: gone");
}

#[test]
fn errors_become_documents() {
    let doc = empty_error_document(DiffTarget::Staged, "no such thing");
    assert_eq!(doc.header[0].text, "Error: no such thing");
    assert_eq!(doc.header[0].kind, DiffLineKind::Faint);
    assert!(doc.body.is_empty());
    let doc = document_or_error(DiffTarget::WorkingTree, Err("gone".to_string()));
    assert_eq!(doc.target, DiffTarget::WorkingTree);
    assert_eq!(doc.header[0].text, "Error: gone");
}

#[test]
fn sections_rise_and_totals_add_up() {
    let mut sink = DiffSink::new();
    let outputs = vec![
        file_addition_output("a", b"1\n2\n"),
        file_modification_output("b", b"1\n2\n", b"1\n3\n"),
        file_deletion_output("c", b"1\n"),
    ];
    fold_outputs(&mut sink, outputs, vec!["d".to_string()]);
    assert!(sink.sections.windows(2).all(|s| s[0].body_start < s[1].body_start));
    assert!(sink.sections.iter().all(|s| s.body_start < sink.lines.len()));
    assert_eq!(sink.stats.insertions, 3);
    assert_eq!(sink.stats.insertions, sink.files.iter().map(|f| f.additions).sum::<usize>());
    assert_eq!(sink.stats.deletions, 2);
    assert_eq!(sink.stats.deletions, sink.files.iter().map(|f| f.deletions).sum::<usize>());
}
