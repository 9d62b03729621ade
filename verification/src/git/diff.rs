//! Diff rendering: what one changed file shows, and how the files of a commit
//! or of the working tree are folded into one document under the guardrails.

use crate::git::hunks::{
    added, byte_lines, count_kind, from_its_file, full_context_lines, is_line_diff,
    law_a_diff_accounts_for_the_difference_in_length, law_full_context_is_the_file,
    law_lines_come_from_their_file, lemma_counts_fit,
    lemma_count_concat, lemma_count_full, lemma_count_le, lemma_count_unified,
    lemma_lines_in_bytes, lemma_sides_concat, line_hunks, new_side, old_side,
    render_full_context_into, render_unified_into, token_texts, unified_lines,
};
use crate::git::{
    MAX_FILE_VIEW_DIFF_BYTES, MAX_INLINE_DIFF_BYTES, MAX_INLINE_DIFF_FILES, MAX_INLINE_DIFF_LINES,
};
use crate::model::{
    line, DiffDocument, DiffFlags, DiffLine, DiffLineKind, DiffStats, DiffTarget, DocumentModel,
    FileSection, FileStat, FileStatModel, LineModel, ObjectId, SectionModel,
};
use crate::text::{decimal, push_decimal, same_text, split_lines, text_lines};
use vstd::prelude::*;
use vstd::string::StringExecFns;
use vstd::utf8::{decode_utf8, valid_utf8};

verus! {

/// Why a file's inline diff was left out.
#[derive(Clone, Copy, PartialEq, Eq, Structural, Debug)]
pub enum SkipReason {
    Binary,
    Oversize,
}

/// Whether a file is summarised instead of shown: it is binary if either side holds a zero
/// byte, and oversize if either side has more than `cap` bytes.
pub open spec fn skip_reason(old_bytes: Seq<u8>, new_bytes: Seq<u8>, cap: int) -> Option<
    SkipReason,
> {
    if old_bytes.contains(0) || new_bytes.contains(0) {
        Some(SkipReason::Binary)
    } else if old_bytes.len() > cap || new_bytes.len() > cap {
        Some(SkipReason::Oversize)
    } else {
        None
    }
}

fn has_zero_byte(bytes: &[u8]) -> (r: bool)
    ensures
        r == bytes@.contains(0),
{
    let mut i: usize = 0;
    while i < bytes.len()
        invariant
            i <= bytes@.len(),
            forall|j: int| 0 <= j < i ==> bytes@[j] != 0,
        decreases bytes@.len() - i,
    {
        if bytes[i] == 0 {
            return true;
        }
        i += 1;
    }
    false
}

/// Decides whether a file is summarised under the inline cap. Either side may be empty.
pub fn classify_skip(old_bytes: &[u8], new_bytes: &[u8]) -> (r: Option<SkipReason>)
    ensures
        r == skip_reason(old_bytes@, new_bytes@, MAX_INLINE_DIFF_BYTES as int),
{
    classify_skip_with_cap(old_bytes, new_bytes, MAX_INLINE_DIFF_BYTES)
}

/// `classify_skip` with the byte cap that the caller chooses.
pub fn classify_skip_with_cap(old_bytes: &[u8], new_bytes: &[u8], max_bytes: usize) -> (r: Option<
    SkipReason,
>)
    ensures
        r == skip_reason(old_bytes@, new_bytes@, max_bytes as int),
{
    if has_zero_byte(old_bytes) || has_zero_byte(new_bytes) {
        return Some(SkipReason::Binary);
    }
    if old_bytes.len() > max_bytes || new_bytes.len() > max_bytes {
        return Some(SkipReason::Oversize);
    }
    None
}

/// What `bstr`'s `to_str_lossy` makes of `bytes`.
pub uninterp spec fn byte_text(bytes: Seq<u8>) -> Seq<char>;

/// `ByteSlice::to_str_lossy` of the `bstr` crate, as `gix` re-exports it: the text in
/// `bytes`, with a replacement character where they are no UTF-8. On valid UTF-8 it is the
/// decoded text.
#[verifier::external_body]
pub(crate) fn byte_string(bytes: &[u8]) -> (r: String)
    ensures
        r@ == byte_text(bytes@),
        valid_utf8(bytes@) ==> r@ == decode_utf8(bytes@),
{
    gix::bstr::ByteSlice::to_str_lossy(bytes).into_owned()
}

/// The lines that name a file, in front of its changes.
pub open spec fn file_headers(path: Seq<char>, meta: Option<Seq<char>>) -> Seq<LineModel> {
    let title = seq![line(DiffLineKind::FileHeader, "diff --git a/"@ + path + " b/"@ + path)];
    let mode = match meta {
        Some(m) => seq![line(DiffLineKind::FileMeta, m)],
        None => Seq::empty(),
    };
    let old_marker = if meta == Some("new file"@) {
        "--- /dev/null"@
    } else {
        "--- a/"@ + path
    };
    let new_marker = if meta != Some("new file"@) && meta == Some("deleted file"@) {
        "+++ /dev/null"@
    } else {
        "+++ b/"@ + path
    };
    title + mode + seq![
        line(DiffLineKind::OldMarker, old_marker),
        line(DiffLineKind::NewMarker, new_marker),
    ]
}

/// `prefix` followed by `rest`.
fn joined(prefix: &str, rest: &str) -> (r: String)
    ensures
        r@ == prefix@ + rest@,
{
    let mut out: String = prefix.to_owned();
    out.append(rest);
    out
}

fn push_file_headers(lines: &mut Vec<DiffLine>, path: &str, mode_meta: Option<&str>)
    ensures
        final(lines).deep_view() == old(lines).deep_view() + file_headers(
            path@,
            match mode_meta {
                Some(m) => Some(m@),
                None => None,
            },
        ),
        mode_meta is Some ==> final(lines)@.len() == old(lines)@.len() + 4,
{
    let ghost before = lines.deep_view();
    let mut title: String = joined("diff --git a/", path);
    title.append(" b/");
    title.append(path);
    lines.push(DiffLine { kind: DiffLineKind::FileHeader, text: title });
    let mut is_new: bool = false;
    let mut is_deleted: bool = false;
    if let Some(m) = mode_meta {
        lines.push(DiffLine::new(DiffLineKind::FileMeta, m));
        is_new = same_text(m, "new file");
        is_deleted = !is_new && same_text(m, "deleted file");
    }
    let old_marker: String = if is_new {
        "--- /dev/null".to_owned()
    } else {
        joined("--- a/", path)
    };
    let new_marker: String = if is_deleted {
        "+++ /dev/null".to_owned()
    } else {
        joined("+++ b/", path)
    };
    lines.push(DiffLine { kind: DiffLineKind::OldMarker, text: old_marker });
    lines.push(DiffLine { kind: DiffLineKind::NewMarker, text: new_marker });
    proof {
        let meta = match mode_meta {
            Some(m) => Some(m@),
            None => None,
        };
        assert(lines.deep_view() =~= before + file_headers(path@, meta));
    }
}

/// The line that stands for a file left out under the inline cap; `biggest` is the size of
/// its larger side in bytes.
pub open spec fn skip_summary(reason: SkipReason, biggest: nat) -> Seq<char> {
    match reason {
        SkipReason::Binary => "Binary file — diff suppressed"@,
        SkipReason::Oversize => "Large file ("@ + decimal(biggest / 1024)
            + " KiB) — diff suppressed (>"@ + decimal((MAX_INLINE_DIFF_BYTES / 1024) as nat)
            + " KiB; o opens the full file)"@,
    }
}

/// The line that stands for a file left out of the single-file view.
pub open spec fn file_view_skip(reason: SkipReason, biggest: nat) -> Seq<char> {
    match reason {
        SkipReason::Binary => "Binary file — diff suppressed"@,
        SkipReason::Oversize => "Large file ("@ + decimal(biggest / 1024)
            + " KiB) — exceeds even the single-file cap (>"@ + decimal(
            (MAX_FILE_VIEW_DIFF_BYTES / 1024) as nat,
        ) + " KiB)"@,
    }
}

fn skip_summary_text(reason: SkipReason, biggest_side_bytes: usize) -> (r: String)
    ensures
        r@ == skip_summary(reason, biggest_side_bytes as nat),
{
    match reason {
        SkipReason::Binary => "Binary file — diff suppressed".to_owned(),
        SkipReason::Oversize => {
            let mut out: String = "Large file (".to_owned();
            push_decimal(&mut out, (biggest_side_bytes / 1024) as u64);
            out.append(" KiB) — diff suppressed (>");
            push_decimal(&mut out, (MAX_INLINE_DIFF_BYTES / 1024) as u64);
            out.append(" KiB; o opens the full file)");
            out
        },
    }
}

fn file_view_skip_text(reason: SkipReason, biggest_side_bytes: usize) -> (r: String)
    ensures
        r@ == file_view_skip(reason, biggest_side_bytes as nat),
{
    match reason {
        SkipReason::Binary => "Binary file — diff suppressed".to_owned(),
        SkipReason::Oversize => {
            let mut out: String = "Large file (".to_owned();
            push_decimal(&mut out, (biggest_side_bytes / 1024) as u64);
            out.append(" KiB) — exceeds even the single-file cap (>");
            push_decimal(&mut out, (MAX_FILE_VIEW_DIFF_BYTES / 1024) as u64);
            out.append(" KiB)");
            out
        },
    }
}

/// What one changed file adds to a diff.
#[derive(Debug)]
pub struct FileDiffOutput {
    pub path: String,
    pub lines: Vec<DiffLine>,
    pub additions: usize,
    pub deletions: usize,
    /// Why the file's changes are left out, if they are.
    pub skip_reason: Option<SkipReason>,
}

/// What a `FileDiffOutput` says.
#[verifier::ext_equal]
pub struct OutputModel {
    pub path: Seq<char>,
    pub lines: Seq<LineModel>,
    pub additions: usize,
    pub deletions: usize,
    pub skip_reason: Option<SkipReason>,
}

impl OutputModel {
    /// There are lines, and the counts are those of the added and deleted ones.
    pub open spec fn wf(self) -> bool {
        &&& self.lines.len() > 0
        &&& self.additions == count_kind(self.lines, DiffLineKind::Add)
        &&& self.deletions == count_kind(self.lines, DiffLineKind::Del)
    }
}

/// The output for `path` with `lines`, which counts the added and deleted ones.
pub open spec fn output_of(
    path: Seq<char>,
    lines: Seq<LineModel>,
    skip_reason: Option<SkipReason>,
) -> OutputModel {
    OutputModel {
        path,
        lines,
        additions: count_kind(lines, DiffLineKind::Add) as usize,
        deletions: count_kind(lines, DiffLineKind::Del) as usize,
        skip_reason,
    }
}

impl View for FileDiffOutput {
    type V = OutputModel;

    open spec fn view(&self) -> OutputModel {
        OutputModel {
            path: self.path@,
            lines: self.lines.deep_view(),
            additions: self.additions,
            deletions: self.deletions,
            skip_reason: self.skip_reason,
        }
    }
}

impl DeepView for FileDiffOutput {
    type V = OutputModel;

    open spec fn deep_view(&self) -> OutputModel {
        self@
    }
}

/// One line of kind `kind` for each of `texts`.
pub open spec fn lines_of_kind(kind: DiffLineKind, texts: Seq<Seq<char>>) -> Seq<LineModel> {
    texts.map_values(|t: Seq<char>| line(kind, t))
}

/// The size of the larger of two files.
pub open spec fn biggest(old_bytes: Seq<u8>, new_bytes: Seq<u8>) -> nat {
    if old_bytes.len() >= new_bytes.len() {
        old_bytes.len()
    } else {
        new_bytes.len()
    }
}

/// The lines of a file that was added with the bytes `new_bytes`.
pub open spec fn addition_lines(path: Seq<char>, new_bytes: Seq<u8>) -> Seq<LineModel> {
    file_headers(path, Some("new file"@)) + match skip_reason(
        Seq::empty(),
        new_bytes,
        MAX_INLINE_DIFF_BYTES as int,
    ) {
        Some(reason) => seq![line(DiffLineKind::Faint, skip_summary(reason, new_bytes.len()))],
        None => lines_of_kind(DiffLineKind::Add, text_lines(byte_text(new_bytes))),
    }
}

/// The lines of a file that was deleted and had the bytes `old_bytes`.
pub open spec fn deletion_lines(path: Seq<char>, old_bytes: Seq<u8>) -> Seq<LineModel> {
    file_headers(path, Some("deleted file"@)) + match skip_reason(
        old_bytes,
        Seq::empty(),
        MAX_INLINE_DIFF_BYTES as int,
    ) {
        Some(reason) => seq![line(DiffLineKind::Faint, skip_summary(reason, old_bytes.len()))],
        None => lines_of_kind(DiffLineKind::Del, text_lines(byte_text(old_bytes))),
    }
}

/// The lines of a file whose bytes changed.
pub open spec fn modification_lines(
    path: Seq<char>,
    old_bytes: Seq<u8>,
    new_bytes: Seq<u8>,
) -> Seq<LineModel> {
    file_headers(path, None) + match skip_reason(
        old_bytes,
        new_bytes,
        MAX_INLINE_DIFF_BYTES as int,
    ) {
        Some(reason) => seq![
            line(DiffLineKind::Faint, skip_summary(reason, biggest(old_bytes, new_bytes))),
        ],
        None => unified_lines(
            byte_lines(old_bytes),
            byte_lines(new_bytes),
            line_hunks(old_bytes, new_bytes),
            0,
        ),
    }
}

/// The lines of the single-file view.
pub open spec fn file_view_lines(
    path: Seq<char>,
    old_bytes: Seq<u8>,
    new_bytes: Seq<u8>,
    meta: Option<Seq<char>>,
) -> Seq<LineModel> {
    file_headers(path, meta) + match skip_reason(
        old_bytes,
        new_bytes,
        MAX_FILE_VIEW_DIFF_BYTES as int,
    ) {
        Some(reason) => seq![
            line(DiffLineKind::Faint, file_view_skip(reason, biggest(old_bytes, new_bytes))),
        ],
        None => full_context_lines(
            byte_lines(old_bytes),
            byte_lines(new_bytes),
            line_hunks(old_bytes, new_bytes),
        ),
    }
}

/// Where neither side is too big for `cap` or binary, the hunks between them are a line diff.
pub open spec fn is_diffed(old_bytes: Seq<u8>, new_bytes: Seq<u8>, cap: int) -> bool {
    skip_reason(old_bytes, new_bytes, cap) is None ==> is_line_diff(old_bytes, new_bytes)
}

proof fn lemma_no_changes_in_headers(path: Seq<char>, meta: Option<Seq<char>>)
    ensures
        count_kind(file_headers(path, meta), DiffLineKind::Add) == 0,
        count_kind(file_headers(path, meta), DiffLineKind::Del) == 0,
{
    reveal_with_fuel(count_kind, 5);
}

proof fn lemma_count_single(l: LineModel, kind: DiffLineKind)
    ensures
        count_kind(seq![l], kind) == if l.kind == kind {
            1nat
        } else {
            0nat
        },
{
    reveal_with_fuel(count_kind, 2);
    assert(seq![l].drop_last() =~= Seq::empty());
}

proof fn lemma_count_of_kind(kind: DiffLineKind, texts: Seq<Seq<char>>, other: DiffLineKind)
    ensures
        count_kind(lines_of_kind(kind, texts), other) == if kind == other {
            texts.len()
        } else {
            0
        },
    decreases texts.len(),
{
    if texts.len() > 0 {
        lemma_count_of_kind(kind, texts.drop_last(), other);
        assert(lines_of_kind(kind, texts).drop_last() =~= lines_of_kind(kind, texts.drop_last()));
    }
}

/// Appends one line of kind `kind` for each of `texts`.
fn push_lines_of_kind(lines: &mut Vec<DiffLine>, kind: DiffLineKind, texts: Vec<String>)
    ensures
        final(lines).deep_view() == old(lines).deep_view() + lines_of_kind(
            kind,
            texts.deep_view(),
        ),
{
    let mut i: usize = 0;
    let ghost all = texts.deep_view();
    assert(lines_of_kind(kind, all.take(0)) =~= Seq::empty());
    while i < texts.len()
        invariant
            i <= texts@.len(),
            all == texts.deep_view(),
            lines.deep_view() == old(lines).deep_view() + lines_of_kind(kind, all.take(i as int)),
        decreases texts@.len() - i,
    {
        let ghost before = lines.deep_view();
        lines.push(DiffLine { kind, text: texts[i].clone() });
        proof {
            assert(lines.deep_view() =~= before.push(line(kind, all[i as int])));
            assert(lines_of_kind(kind, all.take(i + 1)) =~= lines_of_kind(
                kind,
                all.take(i as int),
            ).push(line(kind, all[i as int])));
        }
        i += 1;
    }
    assert(all.take(i as int) =~= all);
}

/// A file that was added.
pub fn file_addition_output(path: &str, new_bytes: &[u8]) -> (r: FileDiffOutput)
    ensures
        r@.wf(),
        r@ == output_of(
            path@,
            addition_lines(path@, new_bytes@),
            skip_reason(Seq::empty(), new_bytes@, MAX_INLINE_DIFF_BYTES as int),
        ),
{
    let mut lines: Vec<DiffLine> = Vec::new();
    assert(lines.deep_view() =~= Seq::empty());
    push_file_headers(&mut lines, path, Some("new file"));
    let ghost head = file_headers(path@, Some("new file"@));
    assert(lines.deep_view() =~= head);
    let empty: Vec<u8> = Vec::new();
    let skip: Option<SkipReason> = classify_skip(empty.as_slice(), new_bytes);
    assert(empty@ =~= Seq::empty());
    let mut additions: usize = 0;
    match skip {
        Some(reason) => {
            let text: String = skip_summary_text(reason, new_bytes.len());
            let ghost note = line(DiffLineKind::Faint, text@);
            lines.push(DiffLine { kind: DiffLineKind::Faint, text });
            assert(lines.deep_view() =~= head + seq![note]);
            proof {
                lemma_count_single(note, DiffLineKind::Add);
                lemma_count_single(note, DiffLineKind::Del);
                lemma_count_concat(head, seq![note], DiffLineKind::Add);
                lemma_count_concat(head, seq![note], DiffLineKind::Del);
            }
        },
        None => {
            let text: String = byte_string(new_bytes);
            let texts: Vec<String> = split_lines(text.as_str());
            additions = texts.len();
            let ghost body = lines_of_kind(DiffLineKind::Add, texts.deep_view());
            push_lines_of_kind(&mut lines, DiffLineKind::Add, texts);
            proof {
                lemma_count_of_kind(DiffLineKind::Add, texts.deep_view(), DiffLineKind::Add);
                lemma_count_of_kind(DiffLineKind::Add, texts.deep_view(), DiffLineKind::Del);
                lemma_count_concat(head, body, DiffLineKind::Add);
                lemma_count_concat(head, body, DiffLineKind::Del);
            }
        },
    }
    proof {
        lemma_no_changes_in_headers(path@, Some("new file"@));
    }
    FileDiffOutput { path: path.to_owned(), lines, additions, deletions: 0, skip_reason: skip }
}

/// A file that was deleted.
pub fn file_deletion_output(path: &str, old_bytes: &[u8]) -> (r: FileDiffOutput)
    ensures
        r@.wf(),
        r@ == output_of(
            path@,
            deletion_lines(path@, old_bytes@),
            skip_reason(old_bytes@, Seq::empty(), MAX_INLINE_DIFF_BYTES as int),
        ),
{
    let mut lines: Vec<DiffLine> = Vec::new();
    assert(lines.deep_view() =~= Seq::empty());
    push_file_headers(&mut lines, path, Some("deleted file"));
    let ghost head = file_headers(path@, Some("deleted file"@));
    assert(lines.deep_view() =~= head);
    let empty: Vec<u8> = Vec::new();
    let skip: Option<SkipReason> = classify_skip(old_bytes, empty.as_slice());
    assert(empty@ =~= Seq::empty());
    let mut deletions: usize = 0;
    match skip {
        Some(reason) => {
            let text: String = skip_summary_text(reason, old_bytes.len());
            let ghost note = line(DiffLineKind::Faint, text@);
            lines.push(DiffLine { kind: DiffLineKind::Faint, text });
            assert(lines.deep_view() =~= head + seq![note]);
            proof {
                lemma_count_single(note, DiffLineKind::Add);
                lemma_count_single(note, DiffLineKind::Del);
                lemma_count_concat(head, seq![note], DiffLineKind::Add);
                lemma_count_concat(head, seq![note], DiffLineKind::Del);
            }
        },
        None => {
            let text: String = byte_string(old_bytes);
            let texts: Vec<String> = split_lines(text.as_str());
            deletions = texts.len();
            let ghost body = lines_of_kind(DiffLineKind::Del, texts.deep_view());
            push_lines_of_kind(&mut lines, DiffLineKind::Del, texts);
            proof {
                lemma_count_of_kind(DiffLineKind::Del, texts.deep_view(), DiffLineKind::Add);
                lemma_count_of_kind(DiffLineKind::Del, texts.deep_view(), DiffLineKind::Del);
                lemma_count_concat(head, body, DiffLineKind::Add);
                lemma_count_concat(head, body, DiffLineKind::Del);
            }
        },
    }
    proof {
        lemma_no_changes_in_headers(path@, Some("deleted file"@));
    }
    FileDiffOutput { path: path.to_owned(), lines, additions: 0, deletions, skip_reason: skip }
}

/// A file whose bytes changed, shown as a unified diff.
pub fn file_modification_output(path: &str, old_bytes: &[u8], new_bytes: &[u8]) -> (r:
    FileDiffOutput)
    ensures
        r@.wf(),
        r@ == output_of(
            path@,
            modification_lines(path@, old_bytes@, new_bytes@),
            skip_reason(old_bytes@, new_bytes@, MAX_INLINE_DIFF_BYTES as int),
        ),
        is_diffed(old_bytes@, new_bytes@, MAX_INLINE_DIFF_BYTES as int),
{
    let mut lines: Vec<DiffLine> = Vec::new();
    assert(lines.deep_view() =~= Seq::empty());
    push_file_headers(&mut lines, path, None);
    let ghost head = file_headers(path@, None);
    assert(lines.deep_view() =~= head);
    let skip: Option<SkipReason> = classify_skip(old_bytes, new_bytes);
    let mut counts: (usize, usize) = (0, 0);
    match skip {
        Some(reason) => {
            let size: usize = if old_bytes.len() >= new_bytes.len() {
                old_bytes.len()
            } else {
                new_bytes.len()
            };
            let text: String = skip_summary_text(reason, size);
            let ghost note = line(DiffLineKind::Faint, text@);
            lines.push(DiffLine { kind: DiffLineKind::Faint, text });
            assert(lines.deep_view() =~= head + seq![note]);
            proof {
                lemma_count_single(note, DiffLineKind::Add);
                lemma_count_single(note, DiffLineKind::Del);
                lemma_count_concat(head, seq![note], DiffLineKind::Add);
                lemma_count_concat(head, seq![note], DiffLineKind::Del);
            }
        },
        None => {
            proof {
                lemma_lines_in_bytes(old_bytes@);
                lemma_lines_in_bytes(new_bytes@);
            }
            counts = render_unified_into(&mut lines, old_bytes, new_bytes);
            proof {
                let b = byte_lines(old_bytes@);
                let a = byte_lines(new_bytes@);
                let h = line_hunks(old_bytes@, new_bytes@);
                lemma_count_unified(b, a, h, 0);
                lemma_count_concat(head, unified_lines(b, a, h, 0), DiffLineKind::Add);
                lemma_count_concat(head, unified_lines(b, a, h, 0), DiffLineKind::Del);
            }
        },
    }
    proof {
        lemma_no_changes_in_headers(path@, None);
    }
    FileDiffOutput {
        path: path.to_owned(),
        lines,
        additions: counts.0,
        deletions: counts.1,
        skip_reason: skip,
    }
}

/// One file with its changes in place, as the single-file view shows it.
pub fn file_full_context_output(
    path: &str,
    old_bytes: &[u8],
    new_bytes: &[u8],
    mode_meta: Option<&str>,
) -> (r: FileDiffOutput)
    ensures
        r@.wf(),
        r@ == output_of(
            path@,
            file_view_lines(
                path@,
                old_bytes@,
                new_bytes@,
                match mode_meta {
                    Some(m) => Some(m@),
                    None => None,
                },
            ),
            skip_reason(old_bytes@, new_bytes@, MAX_FILE_VIEW_DIFF_BYTES as int),
        ),
        is_diffed(old_bytes@, new_bytes@, MAX_FILE_VIEW_DIFF_BYTES as int),
{
    let mut lines: Vec<DiffLine> = Vec::new();
    assert(lines.deep_view() =~= Seq::empty());
    push_file_headers(&mut lines, path, mode_meta);
    let ghost meta = match mode_meta {
        Some(m) => Some(m@),
        None => None,
    };
    let ghost head = file_headers(path@, meta);
    assert(lines.deep_view() =~= head);
    let skip: Option<SkipReason> = classify_skip_with_cap(
        old_bytes,
        new_bytes,
        MAX_FILE_VIEW_DIFF_BYTES,
    );
    let mut counts: (usize, usize) = (0, 0);
    match skip {
        Some(reason) => {
            let size: usize = if old_bytes.len() >= new_bytes.len() {
                old_bytes.len()
            } else {
                new_bytes.len()
            };
            let text: String = file_view_skip_text(reason, size);
            let ghost note = line(DiffLineKind::Faint, text@);
            lines.push(DiffLine { kind: DiffLineKind::Faint, text });
            assert(lines.deep_view() =~= head + seq![note]);
            proof {
                lemma_count_single(note, DiffLineKind::Add);
                lemma_count_single(note, DiffLineKind::Del);
                lemma_count_concat(head, seq![note], DiffLineKind::Add);
                lemma_count_concat(head, seq![note], DiffLineKind::Del);
            }
        },
        None => {
            proof {
                lemma_lines_in_bytes(old_bytes@);
                lemma_lines_in_bytes(new_bytes@);
            }
            counts = render_full_context_into(&mut lines, old_bytes, new_bytes);
            proof {
                let b = byte_lines(old_bytes@);
                let a = byte_lines(new_bytes@);
                let h = line_hunks(old_bytes@, new_bytes@);
                lemma_count_full(b, a, h);
                lemma_count_concat(head, full_context_lines(b, a, h), DiffLineKind::Add);
                lemma_count_concat(head, full_context_lines(b, a, h), DiffLineKind::Del);
            }
        },
    }
    proof {
        lemma_no_changes_in_headers(path@, meta);
    }
    FileDiffOutput {
        path: path.to_owned(),
        lines,
        additions: counts.0,
        deletions: counts.1,
        skip_reason: skip,
    }
}

/// What the files of a diff are folded into.
#[derive(Debug)]
pub struct DiffSink {
    pub lines: Vec<DiffLine>,
    pub stats: DiffStats,
    pub files: Vec<FileStat>,
    pub flags: DiffFlags,
    /// Start of each shown file in `lines`.
    pub sections: Vec<FileSection>,
}

/// What a `DiffSink` holds.
#[verifier::ext_equal]
pub struct SinkModel {
    pub lines: Seq<LineModel>,
    pub stats: DiffStats,
    pub files: Seq<FileStatModel>,
    pub flags: DiffFlags,
    pub sections: Seq<SectionModel>,
}

/// A diff without files.
pub open spec fn empty_sink() -> SinkModel {
    SinkModel {
        lines: Seq::empty(),
        stats: DiffStats { files: 0, insertions: 0, deletions: 0 },
        files: Seq::empty(),
        flags: DiffFlags { truncated: false, skipped_binary_files: 0, skipped_large_files: 0 },
        sections: Seq::empty(),
    }
}

impl SinkModel {
    /// The totals are those of the files and lines, and every section lies in the lines.
    pub open spec fn wf(self) -> bool {
        &&& self.stats.files == self.files.len()
        &&& self.stats.insertions == count_kind(self.lines, DiffLineKind::Add)
        &&& self.stats.deletions == count_kind(self.lines, DiffLineKind::Del)
        &&& self.flags.skipped_binary_files + self.flags.skipped_large_files <= self.files.len()
        &&& forall|i: int|
            #![trigger self.sections[i]]
            0 <= i < self.sections.len() ==> self.sections[i].body_start < self.lines.len()
    }

    /// No further file is shown: too many files or too many lines.
    pub open spec fn full(self) -> bool {
        self.stats.files >= MAX_INLINE_DIFF_FILES || self.lines.len() >= MAX_INLINE_DIFF_LINES
    }

    /// The note that says which limit was reached.
    pub open spec fn truncation_note(self) -> Seq<char> {
        if self.stats.files >= MAX_INLINE_DIFF_FILES {
            "… "@ + decimal(self.stats.files as nat)
                + " files changed; remaining file diffs suppressed (>"@ + decimal(
                MAX_INLINE_DIFF_FILES as nat,
            ) + " files; t lists them, o opens one)"@
        } else {
            "… diff truncated at "@ + decimal(MAX_INLINE_DIFF_LINES as nat)
                + " lines; remaining files summarised (t lists files, o opens one)"@
        }
    }

    /// Once it is full, the diff says so, unless it is marked as truncated already.
    pub open spec fn noted(self) -> SinkModel {
        if self.full() && !self.flags.truncated {
            SinkModel {
                lines: self.lines.push(line(DiffLineKind::Faint, self.truncation_note())),
                flags: DiffFlags { truncated: true, ..self.flags },
                ..self
            }
        } else {
            self
        }
    }

    /// One more file, which is counted and listed but not shown.
    pub open spec fn skipping(self, path: Seq<char>) -> SinkModel {
        SinkModel {
            stats: DiffStats { files: (self.stats.files + 1) as usize, ..self.stats },
            files: self.files.push(FileStatModel { path, additions: 0, deletions: 0 }),
            ..self
        }
    }

    /// One more file, shown.
    pub open spec fn merged(self, output: OutputModel) -> SinkModel {
        SinkModel {
            lines: self.lines + output.lines,
            stats: DiffStats {
                files: (self.stats.files + 1) as usize,
                insertions: (self.stats.insertions + output.additions) as usize,
                deletions: (self.stats.deletions + output.deletions) as usize,
            },
            files: self.files.push(
                FileStatModel {
                    path: output.path,
                    additions: output.additions,
                    deletions: output.deletions,
                },
            ),
            flags: DiffFlags {
                truncated: self.flags.truncated || output.skip_reason is Some,
                skipped_binary_files: (self.flags.skipped_binary_files + if output.skip_reason
                    == Some(SkipReason::Binary) {
                    1int
                } else {
                    0int
                }) as usize,
                skipped_large_files: (self.flags.skipped_large_files + if output.skip_reason
                    == Some(SkipReason::Oversize) {
                    1int
                } else {
                    0int
                }) as usize,
            },
            sections: self.sections.push(
                SectionModel { path: output.path, body_start: self.lines.len() as usize },
            ),
        }
    }

    /// One more file: shown while there is room for it, else only counted.
    pub open spec fn folded(self, output: OutputModel) -> SinkModel {
        if self.full() {
            self.noted().skipping(output.path)
        } else {
            self.merged(output)
        }
    }

    /// `folded` for each of `outputs`, in order.
    pub open spec fn folded_all(self, outputs: Seq<OutputModel>) -> SinkModel
        decreases outputs.len(),
    {
        if outputs.len() == 0 {
            self
        } else {
            self.folded_all(outputs.drop_last()).folded(outputs.last())
        }
    }

    /// `skipping` for each of `paths`, in order.
    pub open spec fn skipping_all(self, paths: Seq<Seq<char>>) -> SinkModel
        decreases paths.len(),
    {
        if paths.len() == 0 {
            self
        } else {
            self.skipping_all(paths.drop_last()).skipping(paths.last())
        }
    }

    /// The files that could be shown, then those past the file limit.
    pub open spec fn rendered(self, outputs: Seq<OutputModel>, skipped: Seq<Seq<char>>) -> SinkModel {
        if skipped.len() > 0 {
            self.folded_all(outputs).noted().skipping_all(skipped)
        } else {
            self.folded_all(outputs)
        }
    }
}

impl View for DiffSink {
    type V = SinkModel;

    open spec fn view(&self) -> SinkModel {
        SinkModel {
            lines: self.lines.deep_view(),
            stats: self.stats,
            files: self.files.deep_view(),
            flags: self.flags,
            sections: self.sections.deep_view(),
        }
    }
}

impl DiffSink {
    pub fn new() -> (r: DiffSink)
        ensures
            r@ == empty_sink(),
            r@.wf(),
    {
        let r = DiffSink {
            lines: Vec::new(),
            stats: DiffStats { files: 0, insertions: 0, deletions: 0 },
            files: Vec::new(),
            flags: DiffFlags { truncated: false, skipped_binary_files: 0, skipped_large_files: 0 },
            sections: Vec::new(),
        };
        assert(r@ =~= empty_sink());
        r
    }

    /// Appends a line that is neither added nor deleted.
    pub fn push_line(&mut self, kind: DiffLineKind, text: String)
        requires
            old(self)@.wf(),
            kind != DiffLineKind::Add,
            kind != DiffLineKind::Del,
        ensures
            final(self)@.wf(),
            final(self)@ == (SinkModel {
                lines: old(self)@.lines.push(line(kind, text@)),
                ..old(self)@
            }),
    {
        let ghost before = self@;
        let ghost l = line(kind, text@);
        self.lines.push(DiffLine { kind, text });
        proof {
            assert(self.lines.deep_view() =~= before.lines.push(l));
            assert(before.lines.push(l).drop_last() =~= before.lines);
            assert(self@ =~= SinkModel { lines: before.lines.push(l), ..before });
        }
    }

    /// Whether a limit is reached. The first time it is, the diff gets a note.
    pub fn guardrail_exceeded(&mut self) -> (r: bool)
        requires
            old(self)@.wf(),
        ensures
            r == old(self)@.full(),
            final(self)@ == old(self)@.noted(),
            final(self)@.wf(),
    {
        if self.stats.files >= MAX_INLINE_DIFF_FILES {
            let mut text: String = "… ".to_owned();
            push_decimal(&mut text, self.stats.files as u64);
            text.append(" files changed; remaining file diffs suppressed (>");
            push_decimal(&mut text, MAX_INLINE_DIFF_FILES as u64);
            text.append(" files; t lists them, o opens one)");
            self.note_truncation(text);
            return true;
        }
        if self.lines.len() >= MAX_INLINE_DIFF_LINES {
            let mut text: String = "… diff truncated at ".to_owned();
            push_decimal(&mut text, MAX_INLINE_DIFF_LINES as u64);
            text.append(" lines; remaining files summarised (t lists files, o opens one)");
            self.note_truncation(text);
            return true;
        }
        false
    }

    fn note_truncation(&mut self, message: String)
        requires
            old(self)@.wf(),
        ensures
            final(self)@.wf(),
            final(self)@ == (if old(self)@.flags.truncated {
                old(self)@
            } else {
                SinkModel {
                    lines: old(self)@.lines.push(line(DiffLineKind::Faint, message@)),
                    flags: DiffFlags { truncated: true, ..old(self)@.flags },
                    ..old(self)@
                }
            }),
    {
        if !self.flags.truncated {
            self.push_line(DiffLineKind::Faint, message);
            self.flags.truncated = true;
        }
    }

    /// Counts and lists a file that is not shown.
    pub fn account_skipped_file(&mut self, path: String)
        requires
            old(self)@.wf(),
        ensures
            final(self)@.wf(),
            final(self)@ == old(self)@.skipping(path@),
    {
        let ghost before = self@;
        self.files.push(FileStat { path, additions: 0, deletions: 0 });
        self.stats = DiffStats {
            files: self.files.len(),
            insertions: self.stats.insertions,
            deletions: self.stats.deletions,
        };
        assert(self.files.deep_view() =~= before.skipping(path@).files);
        assert(self@ =~= before.skipping(path@));
    }
}

/// Folds one file into the sink: its lines, its section, its counts, its flags.
pub fn merge_file_output_into_sink(sink: &mut DiffSink, output: FileDiffOutput)
    requires
        old(sink)@.wf(),
        output@.wf(),
    ensures
        final(sink)@.wf(),
        final(sink)@ == old(sink)@.merged(output@),
{
    let ghost before = sink@;
    let ghost out = output@;
    let FileDiffOutput { path, lines, additions, deletions, skip_reason } = output;
    let start: usize = sink.lines.len();
    let mut lines = lines;
    sink.lines.append(&mut lines);
    proof {
        assert(sink.lines.deep_view() =~= before.lines + out.lines);
        lemma_count_concat(before.lines, out.lines, DiffLineKind::Add);
        lemma_count_concat(before.lines, out.lines, DiffLineKind::Del);
        lemma_count_le(sink.lines.deep_view());
        assert(sink.lines.len() == sink.lines@.len());
    }
    sink.sections.push(FileSection { path: path.clone(), body_start: start });
    assert(sink.sections.deep_view() =~= before.merged(out).sections);
    sink.files.push(FileStat { path, additions, deletions });
    assert(sink.files.deep_view() =~= before.merged(out).files);
    sink.stats = DiffStats {
        files: sink.files.len(),
        insertions: sink.stats.insertions + additions,
        deletions: sink.stats.deletions + deletions,
    };
    if let Some(reason) = skip_reason {
        match reason {
            SkipReason::Binary => {
                sink.flags.skipped_binary_files = sink.flags.skipped_binary_files + 1;
            },
            SkipReason::Oversize => {
                sink.flags.skipped_large_files = sink.flags.skipped_large_files + 1;
            },
        }
        sink.flags.truncated = true;
    }
    assert(sink@ =~= before.merged(out));
}

/// Sink-filling form of `file_addition_output`.
pub fn render_file_addition(sink: &mut DiffSink, path: &str, new_bytes: &[u8])
    requires
        old(sink)@.wf(),
    ensures
        final(sink)@.wf(),
        final(sink)@ == old(sink)@.merged(
            output_of(
                path@,
                addition_lines(path@, new_bytes@),
                skip_reason(Seq::empty(), new_bytes@, MAX_INLINE_DIFF_BYTES as int),
            ),
        ),
{
    merge_file_output_into_sink(sink, file_addition_output(path, new_bytes));
}

/// Sink-filling form of `file_deletion_output`.
pub fn render_file_deletion(sink: &mut DiffSink, path: &str, old_bytes: &[u8])
    requires
        old(sink)@.wf(),
    ensures
        final(sink)@.wf(),
        final(sink)@ == old(sink)@.merged(
            output_of(
                path@,
                deletion_lines(path@, old_bytes@),
                skip_reason(old_bytes@, Seq::empty(), MAX_INLINE_DIFF_BYTES as int),
            ),
        ),
{
    merge_file_output_into_sink(sink, file_deletion_output(path, old_bytes));
}

/// Sink-filling form of `file_modification_output`.
pub fn render_file_modification(
    sink: &mut DiffSink,
    path: &str,
    old_bytes: &[u8],
    new_bytes: &[u8],
)
    requires
        old(sink)@.wf(),
    ensures
        final(sink)@.wf(),
        final(sink)@ == old(sink)@.merged(
            output_of(
                path@,
                modification_lines(path@, old_bytes@, new_bytes@),
                skip_reason(old_bytes@, new_bytes@, MAX_INLINE_DIFF_BYTES as int),
            ),
        ),
        is_diffed(old_bytes@, new_bytes@, MAX_INLINE_DIFF_BYTES as int),
{
    merge_file_output_into_sink(sink, file_modification_output(path, old_bytes, new_bytes));
}

/// How many of `total` changed files can still be shown in a diff that has `files` files.
pub fn inline_headroom(files: usize, total: usize) -> (r: usize)
    ensures
        r == headroom(files as int, total as int),
{
    let room: usize = if files >= MAX_INLINE_DIFF_FILES {
        0
    } else {
        MAX_INLINE_DIFF_FILES - files
    };
    if total > room {
        room
    } else {
        total
    }
}

/// How many of `total` changed files can still be shown in a diff that has `files` files.
pub open spec fn headroom(files: int, total: int) -> int {
    let room = if files >= MAX_INLINE_DIFF_FILES {
        0
    } else {
        MAX_INLINE_DIFF_FILES - files
    };
    if total > room {
        room
    } else {
        total
    }
}

/// Every output counts its own lines.
pub open spec fn all_wf(outputs: Seq<OutputModel>) -> bool {
    forall|i: int| 0 <= i < outputs.len() ==> (#[trigger] outputs[i]).wf()
}

proof fn lemma_folded_files(sink: SinkModel, outputs: Seq<OutputModel>)
    ensures
        sink.folded_all(outputs).files.len() == sink.files.len() + outputs.len(),
    decreases outputs.len(),
{
    if outputs.len() > 0 {
        lemma_folded_files(sink, outputs.drop_last());
    }
}

proof fn lemma_skipping_files(sink: SinkModel, paths: Seq<Seq<char>>)
    ensures
        sink.skipping_all(paths).files.len() == sink.files.len() + paths.len(),
    decreases paths.len(),
{
    if paths.len() > 0 {
        lemma_skipping_files(sink, paths.drop_last());
    }
}

/// Folds the rendered files into the sink, in order, then counts those past the file limit.
/// Returns how many files that were.
pub fn fold_outputs(
    sink: &mut DiffSink,
    outputs: Vec<FileDiffOutput>,
    skipped: Vec<String>,
) -> (r: usize)
    requires
        old(sink)@.wf(),
        all_wf(outputs.deep_view()),
    ensures
        final(sink)@.wf(),
        final(sink)@ == old(sink)@.rendered(outputs.deep_view(), skipped.deep_view()),
        r == outputs@.len() + skipped@.len(),
{
    let before: usize = sink.files.len();
    let ghost start = sink@;
    let ghost outs = outputs.deep_view();
    let ghost raw = outputs@;
    assert(outs.take(0) =~= Seq::empty());
    for output in it: outputs
        invariant
            it.seq() == raw,
            outs == Seq::new(raw.len(), |i: int| raw[i]@),
            all_wf(outs),
            sink@.wf(),
            sink@ == start.folded_all(outs.take(it.index() as int)),
    {
        proof {
            assert(outs.take(it.index() + 1).drop_last() =~= outs.take(it.index() as int));
            assert(outs[it.index() as int].wf());
        }
        if sink.guardrail_exceeded() {
            sink.account_skipped_file(output.path);
        } else {
            merge_file_output_into_sink(sink, output);
        }
    }
    assert(outs.take(outs.len() as int) =~= outs);
    let any_skipped: bool = skipped.len() > 0;
    if any_skipped {
        let _full: bool = sink.guardrail_exceeded();
    }
    let ghost mid = sink@;
    let ghost paths = skipped.deep_view();
    let ghost raw_paths = skipped@;
    assert(paths.take(0) =~= Seq::empty());
    for path in it: skipped
        invariant
            it.seq() == raw_paths,
            paths == Seq::new(raw_paths.len(), |i: int| raw_paths[i]@),
            sink@.wf(),
            sink@ == mid.skipping_all(paths.take(it.index() as int)),
    {
        proof {
            assert(paths.take(it.index() + 1).drop_last() =~= paths.take(it.index() as int));
        }
        sink.account_skipped_file(path);
    }
    proof {
        assert(paths.take(paths.len() as int) =~= paths);
        lemma_folded_files(start, outs);
        lemma_skipping_files(mid, paths);
    }
    sink.files.len() - before
}

/// How a file changed between two trees, with the ids of its contents.
#[derive(Clone, Copy, PartialEq, Eq, Structural, Debug)]
pub enum ChangeKind {
    Addition { oid: ObjectId },
    Deletion { oid: ObjectId },
    Modification { previous_oid: ObjectId, oid: ObjectId },
}

/// One entry of a tree diff. Directories have entries too: only blobs are files.
#[derive(Debug)]
pub struct ChangeRecord {
    pub kind: ChangeKind,
    pub is_blob: bool,
    pub path: Vec<u8>,
}

/// What a `ChangeRecord` says.
#[verifier::ext_equal]
pub struct ChangeModel {
    pub kind: ChangeKind,
    pub is_blob: bool,
    pub path: Seq<u8>,
}

impl View for ChangeRecord {
    type V = ChangeModel;

    open spec fn view(&self) -> ChangeModel {
        ChangeModel { kind: self.kind, is_blob: self.is_blob, path: self.path@ }
    }
}

impl DeepView for ChangeRecord {
    type V = ChangeModel;

    open spec fn deep_view(&self) -> ChangeModel {
        self@
    }
}

impl Clone for ChangeRecord {
    fn clone(&self) -> (r: ChangeRecord)
        ensures
            r@ == self@,
    {
        ChangeRecord { kind: self.kind, is_blob: self.is_blob, path: copy_bytes(&self.path) }
    }
}

fn copy_bytes(bytes: &Vec<u8>) -> (r: Vec<u8>)
    ensures
        r@ == bytes@,
{
    let mut out: Vec<u8> = Vec::with_capacity(bytes.len());
    let mut i: usize = 0;
    while i < bytes.len()
        invariant
            i <= bytes@.len(),
            out@ == bytes@.take(i as int),
        decreases bytes@.len() - i,
    {
        out.push(bytes[i]);
        assert(out@ =~= bytes@.take(i + 1));
        i += 1;
    }
    assert(bytes@.take(i as int) =~= bytes@);
    out
}

/// Whether the contents of a change are at hand: the old side, then the new. A side that
/// the change does not have does not count.
pub open spec fn sides_present(
    kind: ChangeKind,
    old_blob: Option<Seq<u8>>,
    new_blob: Option<Seq<u8>>,
) -> bool {
    &&& kind is Addition || old_blob is Some
    &&& kind is Deletion || new_blob is Some
}

/// What the change of the file `path` adds to a diff, given its contents.
pub open spec fn change_output(
    path: Seq<char>,
    kind: ChangeKind,
    old_blob: Option<Seq<u8>>,
    new_blob: Option<Seq<u8>>,
) -> OutputModel {
    let none = Seq::<u8>::empty();
    let cap = MAX_INLINE_DIFF_BYTES as int;
    match kind {
        ChangeKind::Addition { .. } => output_of(
            path,
            addition_lines(path, new_blob->0),
            skip_reason(none, new_blob->0, cap),
        ),
        ChangeKind::Deletion { .. } => output_of(
            path,
            deletion_lines(path, old_blob->0),
            skip_reason(old_blob->0, none, cap),
        ),
        ChangeKind::Modification { .. } => output_of(
            path,
            modification_lines(path, old_blob->0, new_blob->0),
            skip_reason(old_blob->0, new_blob->0, cap),
        ),
    }
}

/// Where the change is one of contents that can be diffed, the hunks between them are a line
/// diff.
pub open spec fn change_diffed(
    kind: ChangeKind,
    old_blob: Option<Seq<u8>>,
    new_blob: Option<Seq<u8>>,
) -> bool {
    kind is Modification ==> is_diffed(old_blob->0, new_blob->0, MAX_INLINE_DIFF_BYTES as int)
}

/// The view of optional bytes.
pub open spec fn blob_view(blob: Option<&[u8]>) -> Option<Seq<u8>> {
    match blob {
        Some(b) => Some(b@),
        None => None,
    }
}

/// What the change of the file `path` adds to a diff, given its contents; nothing if a side
/// of it could not be read.
pub fn render_change(
    path: &str,
    kind: ChangeKind,
    old_blob: Option<&[u8]>,
    new_blob: Option<&[u8]>,
) -> (r: Option<FileDiffOutput>)
    ensures
        r is Some <==> sides_present(kind, blob_view(old_blob), blob_view(new_blob)),
        r matches Some(o) ==> {
            &&& o@.wf()
            &&& o@ == change_output(path@, kind, blob_view(old_blob), blob_view(new_blob))
            &&& change_diffed(kind, blob_view(old_blob), blob_view(new_blob))
        },
{
    match kind {
        ChangeKind::Addition { .. } => match new_blob {
            Some(n) => Some(file_addition_output(path, n)),
            None => None,
        },
        ChangeKind::Deletion { .. } => match old_blob {
            Some(o) => Some(file_deletion_output(path, o)),
            None => None,
        },
        ChangeKind::Modification { .. } => match (old_blob, new_blob) {
            (Some(o), Some(n)) => Some(file_modification_output(path, o, n)),
            _ => None,
        },
    }
}

/// A changed file, if it is a file at all.
#[verifier::ext_equal]
pub struct ItemModel {
    pub path: Seq<char>,
    pub kind: ChangeKind,
    pub is_file: bool,
}

/// The contents of a changed file before and after, as far as they could be read.
#[verifier::ext_equal]
pub struct SidesModel {
    pub old: Option<Seq<u8>>,
    pub new: Option<Seq<u8>>,
}

/// What an entry of a tree diff changes.
pub open spec fn record_item(record: ChangeModel) -> ItemModel {
    ItemModel { path: byte_text(record.path), kind: record.kind, is_file: record.is_blob }
}

/// Whether the change can be shown: it is one of a file, and its contents are at hand.
pub open spec fn is_readable(item: ItemModel, sides: SidesModel) -> bool {
    item.is_file && sides_present(item.kind, sides.old, sides.new)
}

/// What the change adds to a diff, given its contents; nothing if it cannot be shown.
pub open spec fn item_output(item: ItemModel, sides: SidesModel) -> Option<OutputModel> {
    if is_readable(item, sides) {
        Some(change_output(item.path, item.kind, sides.old, sides.new))
    } else {
        None
    }
}

/// The view of what a change adds to a diff.
pub open spec fn output_view(output: Option<FileDiffOutput>) -> Option<OutputModel> {
    match output {
        Some(o) => Some(o@),
        None => None,
    }
}

/// What `record` adds to a diff, given its contents; nothing if it is no file or a side of
/// it could not be read.
pub fn render_record(record: &ChangeRecord, old_blob: Option<&[u8]>, new_blob: Option<&[u8]>) -> (r:
    Option<FileDiffOutput>)
    ensures
        output_view(r) == item_output(
            record_item(record@),
            (SidesModel { old: blob_view(old_blob), new: blob_view(new_blob) }),
        ),
        r matches Some(o) ==> o@.wf() && change_diffed(
            record.kind,
            blob_view(old_blob),
            blob_view(new_blob),
        ),
{
    if !record.is_blob {
        return None;
    }
    let path: String = byte_string(record.path.as_slice());
    render_change(path.as_str(), record.kind, old_blob, new_blob)
}

/// What the changes `items` add to a diff, one behind the other, if `sides` are their
/// contents.
pub open spec fn outputs_of(items: Seq<ItemModel>, sides: Seq<SidesModel>) -> Seq<OutputModel>
    decreases items.len(),
{
    if items.len() == 0 {
        Seq::empty()
    } else {
        let rest = outputs_of(items.drop_last(), sides.drop_last());
        match item_output(items.last(), sides.last()) {
            Some(o) => rest.push(o),
            None => rest,
        }
    }
}

/// The paths of those of `items` that can be shown.
pub open spec fn readable_paths(items: Seq<ItemModel>, sides: Seq<SidesModel>) -> Seq<Seq<char>>
    decreases items.len(),
{
    if items.len() == 0 {
        Seq::empty()
    } else {
        let rest = readable_paths(items.drop_last(), sides.drop_last());
        if is_readable(items.last(), sides.last()) {
            rest.push(items.last().path)
        } else {
            rest
        }
    }
}

/// The display paths of `records`.
pub open spec fn record_paths(records: Seq<ChangeModel>) -> Seq<Seq<char>> {
    records.map_values(|c: ChangeModel| byte_text(c.path))
}

/// Folds the tree diff `records` into the sink. `outputs` is what the records within the
/// file limit add to it; the records past the limit are counted and listed only.
pub fn render_diff_records(
    records: &Vec<ChangeRecord>,
    outputs: Vec<FileDiffOutput>,
    sink: &mut DiffSink,
)
    requires
        old(sink)@.wf(),
        all_wf(outputs.deep_view()),
    ensures
        final(sink)@.wf(),
        final(sink)@ == old(sink)@.rendered(
            outputs.deep_view(),
            record_paths(
                records.deep_view().skip(
                    headroom(old(sink)@.stats.files as int, records@.len() as int),
                ),
            ),
        ),
{
    let shown: usize = inline_headroom(sink.stats.files, records.len());
    let ghost rest = records.deep_view().skip(shown as int);
    let mut skipped: Vec<String> = Vec::new();
    let mut i: usize = shown;
    assert(skipped.deep_view() =~= record_paths(rest.take(0)));
    while i < records.len()
        invariant
            shown <= i <= records@.len(),
            rest == records.deep_view().skip(shown as int),
            skipped.deep_view() == record_paths(rest.take(i - shown)),
        decreases records@.len() - i,
    {
        let ghost before = skipped.deep_view();
        let path: String = byte_string(records[i].path.as_slice());
        skipped.push(path);
        proof {
            assert(skipped.deep_view() =~= before.push(path@));
            assert(rest.take(i + 1 - shown) =~= rest.take(i - shown).push(rest[i - shown]));
            assert(record_paths(rest.take(i + 1 - shown)) =~= before.push(path@));
        }
        i += 1;
    }
    assert(rest.take(i - shown) =~= rest);
    let _count: usize = fold_outputs(sink, outputs, skipped);
}

/// A document that says only what went wrong.
pub open spec fn error_document(target: DiffTarget, message: Seq<char>) -> DocumentModel {
    DocumentModel {
        target,
        header: seq![line(DiffLineKind::Faint, "Error: "@ + message)],
        body: Seq::empty(),
        files: Seq::empty(),
        stats: DiffStats { files: 0, insertions: 0, deletions: 0 },
        flags: DiffFlags { truncated: false, skipped_binary_files: 0, skipped_large_files: 0 },
        untracked_anchor: None,
        sections: Seq::empty(),
    }
}

/// A document that says only what went wrong.
pub fn empty_error_document(target: DiffTarget, message: &str) -> (r: DiffDocument)
    ensures
        r@ == error_document(target, message@),
{
    let mut header: Vec<DiffLine> = Vec::new();
    header.push(DiffLine { kind: DiffLineKind::Faint, text: joined("Error: ", message) });
    let doc = DiffDocument {
        target,
        header,
        body: Vec::new(),
        files: Vec::new(),
        stats: DiffStats { files: 0, insertions: 0, deletions: 0 },
        flags: DiffFlags { truncated: false, skipped_binary_files: 0, skipped_large_files: 0 },
        untracked_anchor: None,
        sections: Vec::new(),
    };
    assert(doc@.header =~= seq![line(DiffLineKind::Faint, "Error: "@ + message@)]);
    assert(doc@.body =~= Seq::empty());
    assert(doc@.files =~= Seq::empty());
    assert(doc@.sections =~= Seq::empty());
    doc
}

/// The document that was made, or one that says what went wrong.
pub fn document_or_error(target: DiffTarget, made: Result<DiffDocument, String>) -> (r:
    DiffDocument)
    ensures
        match made {
            Ok(doc) => r == doc,
            Err(e) => r@ == error_document(target, e@),
        },
{
    match made {
        Ok(doc) => doc,
        Err(e) => empty_error_document(target, e.as_str()),
    }
}

/// The document with header `header` whose body is what `sink` holds.
pub open spec fn sink_document(
    target: DiffTarget,
    header: Seq<LineModel>,
    sink: SinkModel,
    untracked_anchor: Option<usize>,
) -> DocumentModel {
    DocumentModel {
        target,
        header,
        body: sink.lines,
        files: sink.files,
        stats: sink.stats,
        flags: sink.flags,
        untracked_anchor,
        sections: sink.sections,
    }
}

/// Makes the document with header `header` whose body is what `sink` holds.
pub fn document_of_sink(
    target: DiffTarget,
    header: Vec<DiffLine>,
    sink: DiffSink,
    untracked_anchor: Option<usize>,
) -> (r: DiffDocument)
    ensures
        r@ == sink_document(target, header.deep_view(), sink@, untracked_anchor),
{
    DiffDocument {
        target,
        header,
        body: sink.lines,
        files: sink.files,
        stats: sink.stats,
        flags: sink.flags,
        untracked_anchor,
        sections: sink.sections,
    }
}

/// A document of one file, without a header.
pub fn single_file_document(target: DiffTarget, output: FileDiffOutput) -> (r: DiffDocument)
    requires
        output@.wf(),
    ensures
        r@ == sink_document(target, Seq::empty(), empty_sink().merged(output@), None),
{
    let mut sink: DiffSink = DiffSink::new();
    merge_file_output_into_sink(&mut sink, output);
    let header: Vec<DiffLine> = Vec::new();
    assert(header.deep_view() =~= Seq::empty());
    document_of_sink(target, header, sink, None)
}

/// The note that says how many changed files the path filter hides.
pub open spec fn scope_note(scoped_out: nat) -> Seq<char> {
    "… "@ + decimal(scoped_out) + " changed file"@ + (if scoped_out == 1 {
        ""@
    } else {
        "s"@
    }) + " outside the path filter hidden (f shows the full diff)"@
}

/// The body of a commit diff: its files, and a note if the path filter hides some.
pub open spec fn commit_sink(
    records: Seq<ChangeModel>,
    outputs: Seq<OutputModel>,
    scoped_out: nat,
) -> SinkModel {
    let files = empty_sink().rendered(
        outputs,
        record_paths(records.skip(headroom(0, records.len() as int))),
    );
    if scoped_out > 0 {
        SinkModel {
            lines: files.lines.push(line(DiffLineKind::Faint, scope_note(scoped_out))),
            ..files
        }
    } else {
        files
    }
}

/// The diff of commit `id`. `records` is its tree diff within the path filter, `outputs`
/// what those within the file limit show, `scoped_out` how many files the filter hides.
pub fn commit_document(
    id: ObjectId,
    header: Vec<DiffLine>,
    records: &Vec<ChangeRecord>,
    outputs: Vec<FileDiffOutput>,
    scoped_out: usize,
) -> (r: DiffDocument)
    requires
        all_wf(outputs.deep_view()),
    ensures
        r@ == sink_document(
            DiffTarget::Commit(id),
            header.deep_view(),
            commit_sink(records.deep_view(), outputs.deep_view(), scoped_out as nat),
            None,
        ),
{
    let mut sink: DiffSink = DiffSink::new();
    render_diff_records(records, outputs, &mut sink);
    if scoped_out > 0 {
        let mut text: String = "… ".to_owned();
        push_decimal(&mut text, scoped_out as u64);
        text.append(" changed file");
        text.append(
            if scoped_out == 1 {
                ""
            } else {
                "s"
            },
        );
        text.append(" outside the path filter hidden (f shows the full diff)");
        sink.push_line(DiffLineKind::Faint, text);
    }
    document_of_sink(DiffTarget::Commit(id), header, sink, None)
}

/// The first changed file of a tree diff whose display path is `path`.
pub open spec fn record_index(records: Seq<ChangeModel>, path: Seq<char>, from: int) -> Option<int>
    decreases records.len() - from,
{
    if from >= records.len() {
        None
    } else if records[from].is_blob && byte_text(records[from].path) == path {
        Some(from)
    } else {
        record_index(records, path, from + 1)
    }
}

/// Finds the changed file whose display path is `path`; an error text if there is none.
pub fn find_record(records: &Vec<ChangeRecord>, path: &str) -> (r: Result<usize, String>)
    ensures
        match r {
            Ok(i) => record_index(records.deep_view(), path@, 0) == Some(i as int),
            Err(e) => {
                &&& record_index(records.deep_view(), path@, 0) is None
                &&& e@ == path@ + " was not changed in this commit"@
            },
        },
        r matches Ok(i) ==> i < records@.len(),
{
    let mut i: usize = 0;
    while i < records.len()
        invariant
            i <= records@.len(),
            record_index(records.deep_view(), path@, 0) == record_index(
                records.deep_view(),
                path@,
                i as int,
            ),
        decreases records@.len() - i,
    {
        if records[i].is_blob {
            let shown: String = byte_string(records[i].path.as_slice());
            if same_text(shown.as_str(), path) {
                return Ok(i);
            }
        }
        i += 1;
    }
    Err(joined(path, " was not changed in this commit"))
}

/// What the single-file view says of how the file changed.
pub open spec fn change_meta(kind: ChangeKind) -> Option<Seq<char>> {
    match kind {
        ChangeKind::Addition { .. } => Some("new file"@),
        ChangeKind::Deletion { .. } => Some("deleted file"@),
        ChangeKind::Modification { .. } => None,
    }
}

/// The single-file view of one file of commit `id`. A side that the change does not have is
/// empty.
pub fn file_document(
    id: ObjectId,
    path: &str,
    kind: ChangeKind,
    old_bytes: &[u8],
    new_bytes: &[u8],
) -> (r: DiffDocument)
    ensures
        r@ == sink_document(
            DiffTarget::Commit(id),
            Seq::empty(),
            empty_sink().merged(
                output_of(
                    path@,
                    file_view_lines(path@, old_bytes@, new_bytes@, change_meta(kind)),
                    skip_reason(old_bytes@, new_bytes@, MAX_FILE_VIEW_DIFF_BYTES as int),
                ),
            ),
            None,
        ),
        is_diffed(old_bytes@, new_bytes@, MAX_FILE_VIEW_DIFF_BYTES as int),
{
    let meta: Option<&str> = match kind {
        ChangeKind::Addition { .. } => Some("new file"),
        ChangeKind::Deletion { .. } => Some("deleted file"),
        ChangeKind::Modification { .. } => None,
    };
    let output: FileDiffOutput = file_full_context_output(path, old_bytes, new_bytes, meta);
    single_file_document(DiffTarget::Commit(id), output)
}

/// One changed file: how it changed, and its bytes before and after. A side that the change
/// does not have is empty.
#[derive(Debug)]
pub struct FileChange {
    pub kind: ChangeKind,
    pub old_bytes: Vec<u8>,
    pub new_bytes: Vec<u8>,
}

/// The single-file view of one file of commit `id`, or a document that says what went wrong.
/// `change` is the file's change, if there is one and it could be read.
pub fn compute_file_diff(id: ObjectId, path: &str, change: Result<FileChange, String>) -> (r:
    DiffDocument)
    ensures
        match change {
            Ok(c) => {
                &&& r@ == sink_document(
                    DiffTarget::Commit(id),
                    Seq::empty(),
                    empty_sink().merged(
                        output_of(
                            path@,
                            file_view_lines(path@, c.old_bytes@, c.new_bytes@, change_meta(c.kind)),
                            skip_reason(
                                c.old_bytes@,
                                c.new_bytes@,
                                MAX_FILE_VIEW_DIFF_BYTES as int,
                            ),
                        ),
                    ),
                    None,
                )
                &&& is_diffed(c.old_bytes@, c.new_bytes@, MAX_FILE_VIEW_DIFF_BYTES as int)
            },
            Err(e) => r@ == error_document(DiffTarget::Commit(id), e@),
        },
{
    match change {
        Ok(c) => file_document(id, path, c.kind, c.old_bytes.as_slice(), c.new_bytes.as_slice()),
        Err(e) => empty_error_document(DiffTarget::Commit(id), e.as_str()),
    }
}

/// The single-file view shows both files whole, unless they are too big or binary: leaving
/// the added lines out gives the old file, line by line, and leaving the deleted lines out
/// gives the new one.
pub proof fn law_the_file_view_holds_both_files(
    path: Seq<char>,
    old_bytes: Seq<u8>,
    new_bytes: Seq<u8>,
    meta: Option<Seq<char>>,
)
    requires
        is_diffed(old_bytes, new_bytes, MAX_FILE_VIEW_DIFF_BYTES as int),
        skip_reason(old_bytes, new_bytes, MAX_FILE_VIEW_DIFF_BYTES as int) is None,
    ensures
        ({
            let lines = file_view_lines(path, old_bytes, new_bytes, meta);
            let before = byte_lines(old_bytes);
            let after = byte_lines(new_bytes);
            &&& old_side(lines) == token_texts(before, 0, before.len() as int)
            &&& new_side(lines) == token_texts(after, 0, after.len() as int)
        }),
{
    let head = file_headers(path, meta);
    let before = byte_lines(old_bytes);
    let after = byte_lines(new_bytes);
    let hunks = line_hunks(old_bytes, new_bytes);
    let body = full_context_lines(before, after, hunks);
    law_full_context_is_the_file(before, after, hunks);
    lemma_sides_concat(head, body);
    reveal_with_fuel(old_side, 5);
    reveal_with_fuel(new_side, 5);
    assert(old_side(head) =~= Seq::empty());
    assert(new_side(head) =~= Seq::empty());
    assert(old_side(head) + old_side(body) =~= old_side(body));
    assert(new_side(head) + new_side(body) =~= new_side(body));
}

/// Every changed file is counted, whether it is shown or not.
pub proof fn law_every_file_is_counted(
    sink: SinkModel,
    outputs: Seq<OutputModel>,
    skipped: Seq<Seq<char>>,
)
    ensures
        sink.rendered(outputs, skipped).files.len() == sink.files.len() + outputs.len()
            + skipped.len(),
{
    lemma_folded_files(sink, outputs);
    lemma_skipping_files(sink.folded_all(outputs).noted(), skipped);
}

/// The paths in the diffstat of a sink.
pub open spec fn listed_paths(sink: SinkModel) -> Seq<Seq<char>> {
    sink.files.map_values(|f: FileStatModel| f.path)
}

/// The paths of rendered files.
pub open spec fn output_paths(outputs: Seq<OutputModel>) -> Seq<Seq<char>> {
    outputs.map_values(|o: OutputModel| o.path)
}

proof fn lemma_output_paths(items: Seq<ItemModel>, sides: Seq<SidesModel>)
    ensures
        output_paths(outputs_of(items, sides)) == readable_paths(items, sides),
    decreases items.len(),
{
    if items.len() > 0 {
        lemma_output_paths(items.drop_last(), sides.drop_last());
    }
    assert(output_paths(outputs_of(items, sides)) =~= readable_paths(items, sides));
}

proof fn lemma_listed(sink: SinkModel, outputs: Seq<OutputModel>)
    ensures
        listed_paths(sink.folded_all(outputs)) == listed_paths(sink) + output_paths(outputs),
    decreases outputs.len(),
{
    if outputs.len() > 0 {
        lemma_listed(sink, outputs.drop_last());
        let before = sink.folded_all(outputs.drop_last());
        let path = outputs.last().path;
        assert(listed_paths(before.folded(outputs.last())) =~= listed_paths(before).push(path));
        assert(output_paths(outputs) =~= output_paths(outputs.drop_last()).push(path));
    }
    assert(listed_paths(sink.folded_all(outputs)) =~= listed_paths(sink) + output_paths(outputs));
}

proof fn lemma_listed_skipped(sink: SinkModel, paths: Seq<Seq<char>>)
    ensures
        listed_paths(sink.skipping_all(paths)) == listed_paths(sink) + paths,
    decreases paths.len(),
{
    if paths.len() > 0 {
        lemma_listed_skipped(sink, paths.drop_last());
        let before = sink.skipping_all(paths.drop_last());
        assert(listed_paths(before.skipping(paths.last())) =~= listed_paths(before).push(
            paths.last(),
        ));
        assert(paths =~= paths.drop_last().push(paths.last()));
    }
    assert(listed_paths(sink.skipping_all(paths)) =~= listed_paths(sink) + paths);
}

/// Where the rendered files are what the changes within the file limit add to a diff, each
/// rendered from its own contents, the diffstat lists the changes that can be shown and then
/// those past the limit, in their order and each once.
pub proof fn law_changes_are_listed_in_order(
    sink: SinkModel,
    items: Seq<ItemModel>,
    sides: Seq<SidesModel>,
    skipped: Seq<Seq<char>>,
)
    ensures
        listed_paths(sink.rendered(outputs_of(items, sides), skipped)) == listed_paths(sink)
            + readable_paths(items, sides) + skipped,
{
    let outputs = outputs_of(items, sides);
    lemma_output_paths(items, sides);
    lemma_listed(sink, outputs);
    lemma_listed_skipped(sink.folded_all(outputs).noted(), skipped);
    assert(listed_paths(sink.rendered(outputs, skipped)) =~= listed_paths(sink) + readable_paths(
        items,
        sides,
    ) + skipped);
}

/// The diff of a commit lists the changed files of its tree diff in order: those within the
/// file limit that can be read, then those past it.
pub proof fn law_a_commit_lists_its_files(
    records: Seq<ChangeModel>,
    sides: Seq<SidesModel>,
    scoped_out: nat,
)
    ensures
        ({
            let shown = headroom(0, records.len() as int);
            let items = records.take(shown).map_values(|c: ChangeModel| record_item(c));
            listed_paths(commit_sink(records, outputs_of(items, sides), scoped_out))
                == readable_paths(items, sides) + record_paths(records.skip(shown))
        }),
{
    let shown = headroom(0, records.len() as int);
    let items = records.take(shown).map_values(|c: ChangeModel| record_item(c));
    let rest = record_paths(records.skip(shown));
    law_changes_are_listed_in_order(empty_sink(), items, sides, rest);
    assert(listed_paths(empty_sink()) + readable_paths(items, sides) + rest =~= readable_paths(
        items,
        sides,
    ) + rest);
    assert(listed_paths(commit_sink(records, outputs_of(items, sides), scoped_out))
        =~= listed_paths(empty_sink().rendered(outputs_of(items, sides), rest)));
}

/// The lines of rendered files, one behind the other.
pub open spec fn output_lines(outputs: Seq<OutputModel>) -> Seq<LineModel>
    decreases outputs.len(),
{
    if outputs.len() == 0 {
        Seq::empty()
    } else {
        output_lines(outputs.drop_last()) + outputs.last().lines
    }
}

/// A diff that stays within the limits shows all lines of every rendered file, one file behind
/// the other.
pub proof fn law_small_diffs_show_every_file(sink: SinkModel, outputs: Seq<OutputModel>)
    requires
        sink.stats.files + outputs.len() <= MAX_INLINE_DIFF_FILES,
        sink.lines.len() + output_lines(outputs).len() < MAX_INLINE_DIFF_LINES,
    ensures
        sink.rendered(outputs, Seq::empty()).lines == sink.lines + output_lines(outputs),
        sink.rendered(outputs, Seq::empty()).stats.files == sink.stats.files + outputs.len(),
    decreases outputs.len(),
{
    if outputs.len() > 0 {
        law_small_diffs_show_every_file(sink, outputs.drop_last());
    }
    assert(sink.rendered(outputs, Seq::empty()).lines =~= sink.lines + output_lines(outputs));
}

/// The sections start one behind the other, each at a line of the diff.
pub open spec fn sections_rise(sink: SinkModel) -> bool {
    &&& forall|i: int, j: int|
        0 <= i < j < sink.sections.len() ==> (#[trigger] sink.sections[i]).body_start < (
        #[trigger] sink.sections[j]).body_start
    &&& forall|i: int|
        0 <= i < sink.sections.len() ==> (#[trigger] sink.sections[i]).body_start
            < sink.lines.len()
}

proof fn lemma_sections_rise(sink: SinkModel, outputs: Seq<OutputModel>)
    requires
        sections_rise(sink),
        forall|i: int| 0 <= i < outputs.len() ==> (#[trigger] outputs[i]).lines.len() > 0,
    ensures
        sections_rise(sink.folded_all(outputs)),
    decreases outputs.len(),
{
    if outputs.len() > 0 {
        let rest = outputs.drop_last();
        assert forall|i: int| 0 <= i < rest.len() implies (#[trigger] rest[i]).lines.len()
            > 0 by {
            assert(rest[i] == outputs[i]);
        }
        lemma_sections_rise(sink, rest);
    }
}

/// Files that are folded in, each with a line at least, leave the sections in rising order.
pub proof fn law_section_starts_rise(
    sink: SinkModel,
    outputs: Seq<OutputModel>,
    skipped: Seq<Seq<char>>,
)
    requires
        sections_rise(sink),
        forall|i: int| 0 <= i < outputs.len() ==> (#[trigger] outputs[i]).lines.len() > 0,
    ensures
        sections_rise(sink.rendered(outputs, skipped)),
{
    lemma_sections_rise(sink, outputs);
    let folded = sink.folded_all(outputs);
    lemma_skipping_lines(folded.noted(), skipped);
    lemma_skipping_sections(folded.noted(), skipped);
}

/// Lines that the files of a diffstat add.
pub open spec fn total_additions(files: Seq<FileStatModel>) -> int
    decreases files.len(),
{
    if files.len() == 0 {
        0
    } else {
        total_additions(files.drop_last()) + files.last().additions
    }
}

/// Lines that the files of a diffstat delete.
pub open spec fn total_deletions(files: Seq<FileStatModel>) -> int
    decreases files.len(),
{
    if files.len() == 0 {
        0
    } else {
        total_deletions(files.drop_last()) + files.last().deletions
    }
}

/// The totals are the sums over the files.
pub open spec fn totals_add_up(sink: SinkModel) -> bool {
    &&& sink.stats.insertions == total_additions(sink.files)
    &&& sink.stats.deletions == total_deletions(sink.files)
}

/// Lines that rendered files add and delete.
pub open spec fn output_changes(outputs: Seq<OutputModel>) -> (int, int)
    decreases outputs.len(),
{
    if outputs.len() == 0 {
        (0, 0)
    } else {
        let rest = output_changes(outputs.drop_last());
        (rest.0 + outputs.last().additions, rest.1 + outputs.last().deletions)
    }
}

proof fn lemma_totals_push(files: Seq<FileStatModel>, file: FileStatModel)
    ensures
        total_additions(files.push(file)) == total_additions(files) + file.additions,
        total_deletions(files.push(file)) == total_deletions(files) + file.deletions,
{
    assert(files.push(file).drop_last() =~= files);
}

proof fn lemma_totals_folded(sink: SinkModel, outputs: Seq<OutputModel>)
    requires
        totals_add_up(sink),
        sink.stats.insertions + output_changes(outputs).0 <= usize::MAX,
        sink.stats.deletions + output_changes(outputs).1 <= usize::MAX,
    ensures
        totals_add_up(sink.folded_all(outputs)),
        sink.folded_all(outputs).stats.insertions <= sink.stats.insertions + output_changes(
            outputs,
        ).0,
        sink.folded_all(outputs).stats.deletions <= sink.stats.deletions + output_changes(
            outputs,
        ).1,
    decreases outputs.len(),
{
    if outputs.len() > 0 {
        let last = outputs.last();
        lemma_totals_folded(sink, outputs.drop_last());
        let before = sink.folded_all(outputs.drop_last());
        lemma_totals_push(
            before.files,
            FileStatModel {
                path: last.path,
                additions: last.additions,
                deletions: last.deletions,
            },
        );
        lemma_totals_push(
            before.files,
            FileStatModel { path: last.path, additions: 0, deletions: 0 },
        );
    }
}

proof fn lemma_totals_skipped(sink: SinkModel, paths: Seq<Seq<char>>)
    requires
        totals_add_up(sink),
    ensures
        totals_add_up(sink.skipping_all(paths)),
    decreases paths.len(),
{
    if paths.len() > 0 {
        lemma_totals_skipped(sink, paths.drop_last());
        lemma_totals_push(
            sink.skipping_all(paths.drop_last()).files,
            FileStatModel { path: paths.last(), additions: 0, deletions: 0 },
        );
    }
}

/// The totals of a diff are the sums over its files, as long as they can be counted.
pub proof fn law_totals_add_up(
    sink: SinkModel,
    outputs: Seq<OutputModel>,
    skipped: Seq<Seq<char>>,
)
    requires
        totals_add_up(sink),
        sink.stats.insertions + output_changes(outputs).0 <= usize::MAX,
        sink.stats.deletions + output_changes(outputs).1 <= usize::MAX,
    ensures
        totals_add_up(sink.rendered(outputs, skipped)),
{
    lemma_totals_folded(sink, outputs);
    lemma_totals_skipped(sink.folded_all(outputs).noted(), skipped);
}

/// A diff that ran into a limit says so once.
pub proof fn law_truncation_is_noted_once(sink: SinkModel)
    ensures
        sink.noted().noted() == sink.noted(),
        sink.full() ==> sink.noted().flags.truncated,
{
}

/// Files that are folded in add their lines behind those already there, and leave those
/// unchanged.
pub proof fn law_folding_keeps_earlier_lines(
    sink: SinkModel,
    outputs: Seq<OutputModel>,
    skipped: Seq<Seq<char>>,
)
    ensures
        sink.lines.len() <= sink.rendered(outputs, skipped).lines.len(),
        sink.rendered(outputs, skipped).lines.take(sink.lines.len() as int) == sink.lines,
{
    lemma_folded_lines(sink, outputs);
    lemma_skipping_lines(sink.folded_all(outputs).noted(), skipped);
    assert(sink.rendered(outputs, skipped).lines.take(sink.lines.len() as int) =~= sink.lines);
}

proof fn lemma_folded_lines(sink: SinkModel, outputs: Seq<OutputModel>)
    ensures
        sink.lines.len() <= sink.folded_all(outputs).lines.len(),
        sink.folded_all(outputs).lines.take(sink.lines.len() as int) == sink.lines,
    decreases outputs.len(),
{
    if outputs.len() > 0 {
        let less = sink.folded_all(outputs.drop_last());
        lemma_folded_lines(sink, outputs.drop_last());
        assert(sink.folded_all(outputs).lines.take(sink.lines.len() as int) =~= less.lines.take(
            sink.lines.len() as int,
        ));
    } else {
        assert(sink.lines.take(sink.lines.len() as int) =~= sink.lines);
    }
}

proof fn lemma_skipping_lines(sink: SinkModel, paths: Seq<Seq<char>>)
    ensures
        sink.skipping_all(paths).lines == sink.lines,
    decreases paths.len(),
{
    if paths.len() > 0 {
        lemma_skipping_lines(sink, paths.drop_last());
    }
}

/// The line that names a file, on top of its changes.
pub open spec fn title_line(path: Seq<char>) -> LineModel {
    line(DiffLineKind::FileHeader, "diff --git a/"@ + path + " b/"@ + path)
}

/// An output starts with the line that names its file.
pub open spec fn titled(output: OutputModel) -> bool {
    output.lines.len() > 0 && output.lines[0] == title_line(output.path)
}

/// Section `i` starts with the line that names its file.
pub open spec fn section_named(sink: SinkModel, i: int) -> bool {
    let at = sink.sections[i].body_start as int;
    at < sink.lines.len() && sink.lines[at] == title_line(sink.sections[i].path)
}

/// Every section starts with the line that names its file.
pub open spec fn sections_named(sink: SinkModel) -> bool {
    forall|i: int| 0 <= i < sink.sections.len() ==> #[trigger] section_named(sink, i)
}

/// What a changed file adds to a diff starts with the line that names it.
pub proof fn law_outputs_are_titled(
    path: Seq<char>,
    kind: ChangeKind,
    old_blob: Option<Seq<u8>>,
    new_blob: Option<Seq<u8>>,
)
    ensures
        titled(change_output(path, kind, old_blob, new_blob)),
{
}

/// Every section starts with the line that names its file, however many files are folded in.
pub proof fn law_sections_name_their_files(
    sink: SinkModel,
    outputs: Seq<OutputModel>,
    skipped: Seq<Seq<char>>,
)
    requires
        sections_named(sink),
        forall|i: int| 0 <= i < outputs.len() ==> titled(#[trigger] outputs[i]),
    ensures
        sections_named(sink.rendered(outputs, skipped)),
{
    lemma_folded_sections(sink, outputs);
    let folded = sink.folded_all(outputs);
    lemma_noted_sections(folded);
    lemma_skipping_lines(folded.noted(), skipped);
    lemma_skipping_sections(folded.noted(), skipped);
    let all = folded.noted().skipping_all(skipped);
    assert forall|i: int| 0 <= i < all.sections.len() implies #[trigger] section_named(all, i) by {
        assert(section_named(folded.noted(), i));
    }
}

proof fn lemma_noted_sections(sink: SinkModel)
    requires
        sections_named(sink),
    ensures
        sections_named(sink.noted()),
{
    let noted = sink.noted();
    assert forall|i: int| 0 <= i < noted.sections.len() implies #[trigger] section_named(
        noted,
        i,
    ) by {
        assert(section_named(sink, i));
    }
}

proof fn lemma_skipping_sections(sink: SinkModel, paths: Seq<Seq<char>>)
    ensures
        sink.skipping_all(paths).sections == sink.sections,
    decreases paths.len(),
{
    if paths.len() > 0 {
        lemma_skipping_sections(sink, paths.drop_last());
    }
}

proof fn lemma_folded_sections(sink: SinkModel, outputs: Seq<OutputModel>)
    requires
        sections_named(sink),
        forall|i: int| 0 <= i < outputs.len() ==> titled(#[trigger] outputs[i]),
    ensures
        sections_named(sink.folded_all(outputs)),
    decreases outputs.len(),
{
    if outputs.len() > 0 {
        let last = outputs.last();
        let less = sink.folded_all(outputs.drop_last());
        assert forall|i: int| 0 <= i < outputs.drop_last().len() implies titled(
            #[trigger] outputs.drop_last()[i],
        ) by {
            assert(titled(outputs[i]));
        }
        lemma_folded_sections(sink, outputs.drop_last());
        assert(titled(outputs[outputs.len() - 1]));
        let after = less.folded(last);
        lemma_noted_sections(less);
        assert forall|i: int| 0 <= i < after.sections.len() implies #[trigger] section_named(
            after,
            i,
        ) by {
            if less.full() {
                assert(section_named(less.noted(), i));
            } else if i < less.sections.len() {
                assert(section_named(less, i));
            }
        }
    }
}

/// A file is left out as binary exactly if a side of it holds a zero byte. Of the others, one
/// is left out as too large exactly if a side of it is longer than the cap; a side of just
/// that length is shown. Which side is which makes no difference.
pub proof fn law_binary_and_large_files_are_left_out(old: Seq<u8>, new: Seq<u8>, cap: int)
    ensures
        skip_reason(old, new, cap) == skip_reason(new, old, cap),
        skip_reason(old, new, cap) == Some(SkipReason::Binary) <==> (exists|i: int|
            0 <= i < old.len() && #[trigger] old[i] == 0) || (exists|i: int|
            0 <= i < new.len() && #[trigger] new[i] == 0),
        skip_reason(old, new, cap) is None ==> old.len() <= cap && new.len() <= cap,
        skip_reason(old, new, cap) == Some(SkipReason::Oversize) ==> old.len() > cap || new.len()
            > cap,
{
}

/// A diff shows two hundred files and twenty thousand lines at most before it leaves the
/// other files out, sides of up to 256 KiB within a diff, and sides of up to 8 MiB in the
/// single-file view.
pub proof fn law_limits_of_a_diff(sink: SinkModel, files: int, total: int)
    requires
        0 <= total,
        0 <= files,
    ensures
        sink.full() <==> sink.stats.files >= 200 || sink.lines.len() >= 20000,
        headroom(files, total) == vstd::math::min(total, vstd::math::max(200 - files, 0)),
        MAX_INLINE_DIFF_BYTES == 262144,
        MAX_FILE_VIEW_DIFF_BYTES == 8388608,
{
}

/// The lines in front of a file's changes name the file on both sides. The old side of a new
/// file and the new side of a deleted one are said to be nowhere, and no other.
pub proof fn law_headers_name_the_file(path: Seq<char>, meta: Option<Seq<char>>)
    ensures
        ({
            let lines = file_headers(path, meta);
            let n = lines.len() as int;
            &&& n == (if meta is Some {
                4int
            } else {
                3int
            })
            &&& lines[0].kind == DiffLineKind::FileHeader
            &&& lines[0].text == "diff --git a/"@ + path + " b/"@ + path
            &&& meta is Some ==> lines[1] == line(DiffLineKind::FileMeta, meta->0)
            &&& lines[n - 2].kind == DiffLineKind::OldMarker
            &&& lines[n - 1].kind == DiffLineKind::NewMarker
            &&& lines[n - 2].text == (if meta == Some("new file"@) {
                "--- /dev/null"@
            } else {
                "--- a/"@ + path
            })
            &&& lines[n - 1].text == (if meta == Some("deleted file"@) {
                "+++ /dev/null"@
            } else {
                "+++ b/"@ + path
            })
        }),
{
    reveal_strlit("new file");
    reveal_strlit("deleted file");
    assert("new file"@[0] != "deleted file"@[0]);
    assert("new file"@ != "deleted file"@);
}

/// An added file has no old side and a deleted file no new one, and a file that is there on
/// both sides has both, in the single-file view too.
pub proof fn law_a_side_that_is_not_there_is_nowhere(path: Seq<char>, kind: ChangeKind)
    ensures
        ({
            let lines = file_headers(path, change_meta(kind));
            let n = lines.len() as int;
            &&& kind is Addition ==> lines[n - 2].text == "--- /dev/null"@ && lines[n - 1].text
                == "+++ b/"@ + path
            &&& kind is Deletion ==> lines[n - 2].text == "--- a/"@ + path && lines[n - 1].text
                == "+++ /dev/null"@
            &&& kind is Modification ==> lines[n - 2].text == "--- a/"@ + path && lines[n - 1].text
                == "+++ b/"@ + path
        }),
{
    law_headers_name_the_file(path, change_meta(kind));
    reveal_strlit("new file");
    reveal_strlit("deleted file");
    assert("new file"@[0] != "deleted file"@[0]);
}

/// A file that was added shows each of its lines as added and nothing as deleted; one that
/// was deleted shows each of its lines as deleted and nothing as added. The counts say so.
pub proof fn law_added_and_deleted_files_show_one_side(
    path: Seq<char>,
    id: ObjectId,
    bytes: Seq<u8>,
    other: Option<Seq<u8>>,
)
    requires
        !bytes.contains(0),
        bytes.len() <= 262144,
        text_lines(byte_text(bytes)).len() <= usize::MAX,
    ensures
        ({
            let add = change_output(path, ChangeKind::Addition { oid: id }, other, Some(bytes));
            let del = change_output(path, ChangeKind::Deletion { oid: id }, Some(bytes), other);
            let texts = text_lines(byte_text(bytes));
            &&& new_side(add.lines) == texts
            &&& old_side(add.lines).len() == 0
            &&& add.additions == texts.len()
            &&& add.deletions == 0
            &&& add.skip_reason is None
            &&& old_side(del.lines) == texts
            &&& new_side(del.lines).len() == 0
            &&& del.deletions == texts.len()
            &&& del.additions == 0
            &&& del.skip_reason is None
        }),
{
    let texts = text_lines(byte_text(bytes));
    let new_head = file_headers(path, Some("new file"@));
    let old_head = file_headers(path, Some("deleted file"@));
    let adds = lines_of_kind(DiffLineKind::Add, texts);
    let dels = lines_of_kind(DiffLineKind::Del, texts);
    lemma_sides_concat(new_head, adds);
    lemma_sides_concat(old_head, dels);
    lemma_sides_of_kind(texts);
    lemma_count_concat(new_head, adds, DiffLineKind::Add);
    lemma_count_concat(new_head, adds, DiffLineKind::Del);
    lemma_count_concat(old_head, dels, DiffLineKind::Add);
    lemma_count_concat(old_head, dels, DiffLineKind::Del);
    lemma_no_changes_in_headers(path, Some("new file"@));
    lemma_no_changes_in_headers(path, Some("deleted file"@));
    lemma_count_of_kind(DiffLineKind::Add, texts, DiffLineKind::Add);
    lemma_count_of_kind(DiffLineKind::Add, texts, DiffLineKind::Del);
    lemma_count_of_kind(DiffLineKind::Del, texts, DiffLineKind::Add);
    lemma_count_of_kind(DiffLineKind::Del, texts, DiffLineKind::Del);
    reveal_with_fuel(old_side, 5);
    reveal_with_fuel(new_side, 5);
    assert(old_side(new_head) =~= Seq::empty());
    assert(new_side(new_head) =~= Seq::empty());
    assert(old_side(old_head) =~= Seq::empty());
    assert(new_side(old_head) =~= Seq::empty());
    assert(new_side(new_head + adds) =~= texts);
    assert(old_side(old_head + dels) =~= texts);
}

proof fn lemma_sides_of_kind(texts: Seq<Seq<char>>)
    ensures
        new_side(lines_of_kind(DiffLineKind::Add, texts)) == texts,
        old_side(lines_of_kind(DiffLineKind::Add, texts)).len() == 0,
        old_side(lines_of_kind(DiffLineKind::Del, texts)) == texts,
        new_side(lines_of_kind(DiffLineKind::Del, texts)).len() == 0,
    decreases texts.len(),
{
    if texts.len() > 0 {
        let less = texts.drop_last();
        lemma_sides_of_kind(less);
        assert(lines_of_kind(DiffLineKind::Add, texts).drop_last() =~= lines_of_kind(
            DiffLineKind::Add,
            less,
        ));
        assert(lines_of_kind(DiffLineKind::Del, texts).drop_last() =~= lines_of_kind(
            DiffLineKind::Del,
            less,
        ));
        assert(less.push(texts.last()) =~= texts);
    } else {
        assert(new_side(lines_of_kind(DiffLineKind::Add, texts)) =~= texts);
        assert(old_side(lines_of_kind(DiffLineKind::Del, texts)) =~= texts);
    }
}

/// A file that changed adds as many lines more than it deletes as its new side is longer than
/// its old one. Every line shown below the headers stands in the file that it is said to come
/// from. A file whose two sides are the same shows no change.
pub proof fn law_a_modified_file_shows_its_changes(
    path: Seq<char>,
    was: ObjectId,
    is_now: ObjectId,
    old: Seq<u8>,
    new: Seq<u8>,
)
    requires
        !old.contains(0),
        !new.contains(0),
        old.len() <= 262144,
        new.len() <= 262144,
        is_line_diff(old, new),
    ensures
        ({
            let o = change_output(
                path,
                ChangeKind::Modification { previous_oid: was, oid: is_now },
                Some(old),
                Some(new),
            );
            let before = byte_lines(old);
            let after = byte_lines(new);
            &&& o.additions - o.deletions == after.len() - before.len()
            &&& forall|i: int|
                3 <= i < o.lines.len() ==> from_its_file(before, after, #[trigger] o.lines[i])
            &&& old == new ==> o.lines.len() == 3 && o.additions == 0 && o.deletions == 0
            &&& o.path == path
            &&& o.skip_reason is None
        }),
{
    let before = byte_lines(old);
    let after = byte_lines(new);
    let hunks = line_hunks(old, new);
    let head = file_headers(path, None);
    let body = unified_lines(before, after, hunks, 0);
    law_a_diff_accounts_for_the_difference_in_length(before, after, hunks);
    law_lines_come_from_their_file(before, after, hunks, 0);
    lemma_no_changes_in_headers(path, None);
    lemma_count_concat(head, body, DiffLineKind::Add);
    lemma_count_concat(head, body, DiffLineKind::Del);
    lemma_count_unified(before, after, hunks, 0);
    lemma_lines_in_bytes(old);
    lemma_lines_in_bytes(new);
    lemma_counts_fit(before, after, hunks);
    assert forall|i: int| 3 <= i < (head + body).len() implies from_its_file(
        before,
        after,
        #[trigger] (head + body)[i],
    ) by {
        assert((head + body)[i] == body[i - 3]);
    }
}

/// A file that is left out has one faint line below its headers, and counts as neither added
/// to nor deleted from.
pub proof fn law_a_file_left_out_has_one_line(
    path: Seq<char>,
    kind: ChangeKind,
    old: Seq<u8>,
    new: Seq<u8>,
)
    requires
        kind is Addition ==> new.contains(0) || new.len() > 262144,
        kind is Deletion ==> old.contains(0) || old.len() > 262144,
        kind is Modification ==> old.contains(0) || new.contains(0) || old.len() > 262144
            || new.len() > 262144,
    ensures
        ({
            let o = change_output(path, kind, Some(old), Some(new));
            let head = file_headers(path, change_meta(kind));
            &&& o.lines.len() == head.len() + 1
            &&& o.lines.take(head.len() as int) == head
            &&& o.lines.last().kind == DiffLineKind::Faint
            &&& o.additions == 0
            &&& o.deletions == 0
            &&& o.skip_reason is Some
            &&& o.path == path
        }),
{
    let o = change_output(path, kind, Some(old), Some(new));
    let head = file_headers(path, change_meta(kind));
    let last = o.lines.last();
    assert(o.lines =~= head + seq![last]);
    assert(o.lines.take(head.len() as int) =~= head);
    lemma_no_changes_in_headers(path, change_meta(kind));
    lemma_count_concat(head, seq![last], DiffLineKind::Add);
    lemma_count_concat(head, seq![last], DiffLineKind::Del);
    lemma_count_single(last, DiffLineKind::Add);
    lemma_count_single(last, DiffLineKind::Del);
}

/// The line that stands for a file left out as too large tells the size of its larger side in
/// KiB.
pub proof fn law_a_large_file_tells_its_size(old: Seq<u8>, new: Seq<u8>)
    ensures
        biggest(old, new) == vstd::math::max(old.len() as int, new.len() as int),
        skip_summary(SkipReason::Oversize, biggest(old, new)) == "Large file ("@ + decimal(
            (vstd::math::max(old.len() as int, new.len() as int) / 1024) as nat,
        ) + " KiB) — diff suppressed (>"@ + decimal(256) + " KiB; o opens the full file)"@,
        file_view_skip(SkipReason::Oversize, biggest(old, new)) == "Large file ("@ + decimal(
            (vstd::math::max(old.len() as int, new.len() as int) / 1024) as nat,
        ) + " KiB) — exceeds even the single-file cap (>"@ + decimal(8192) + " KiB)"@,
{
}

/// A change is shown exactly if it is one of a file and each side that it needs could be read:
/// the new side of an addition, the old side of a deletion, both sides of a modification.
pub proof fn law_a_change_is_shown_if_its_sides_are_there(item: ItemModel, sides: SidesModel)
    ensures
        !item.is_file ==> item_output(item, sides) is None,
        item.is_file && item.kind is Addition ==> (item_output(item, sides) is Some <==> sides.new
            is Some),
        item.is_file && item.kind is Deletion ==> (item_output(item, sides) is Some <==> sides.old
            is Some),
        item.is_file && item.kind is Modification ==> (item_output(item, sides) is Some
            <==> sides.old is Some && sides.new is Some),
        item_output(item, sides) matches Some(o) ==> o.path == item.path,
{
}

/// A file that is merged adds its lines behind those already there, opens a section where
/// they start, and is counted once. The diff is said to be truncated exactly if it was before
/// or the file is left out, and the file then counts as binary or as large.
pub proof fn law_merging_a_file_counts_it_once(sink: SinkModel, o: OutputModel)
    requires
        sink.wf(),
        sink.files.len() < usize::MAX,
        sink.lines.len() <= usize::MAX,
        sink.stats.insertions + o.additions <= usize::MAX,
        sink.stats.deletions + o.deletions <= usize::MAX,
    ensures
        ({
            let n = sink.merged(o);
            &&& n.lines == sink.lines + o.lines
            &&& n.stats.files == sink.stats.files + 1
            &&& n.stats.insertions == sink.stats.insertions + o.additions
            &&& n.stats.deletions == sink.stats.deletions + o.deletions
            &&& n.files.drop_last() == sink.files
            &&& n.files.last().path == o.path
            &&& n.files.last().additions == o.additions
            &&& n.files.last().deletions == o.deletions
            &&& n.sections.drop_last() == sink.sections
            &&& n.sections.last().path == o.path
            &&& n.sections.last().body_start == sink.lines.len()
            &&& n.flags.truncated <==> sink.flags.truncated || o.skip_reason is Some
            &&& n.flags.skipped_binary_files - sink.flags.skipped_binary_files == (if o.skip_reason
                == Some(SkipReason::Binary) {
                1int
            } else {
                0
            })
            &&& n.flags.skipped_large_files - sink.flags.skipped_large_files == (if o.skip_reason
                == Some(SkipReason::Oversize) {
                1int
            } else {
                0
            })
        }),
{
    let n = sink.merged(o);
    assert(n.files.drop_last() =~= sink.files);
    assert(n.sections.drop_last() =~= sink.sections);
}

/// Once a limit is reached, a further file adds no line but the note that says so, and that
/// only once; it is listed without counts, and opens no section.
pub proof fn law_past_the_limit_files_are_only_listed(sink: SinkModel, o: OutputModel)
    requires
        sink.stats.files >= 200 || sink.lines.len() >= 20000,
        sink.stats.files < usize::MAX,
    ensures
        ({
            let n = sink.folded(o);
            &&& sink.flags.truncated ==> n.lines == sink.lines
            &&& !sink.flags.truncated ==> n.lines.len() == sink.lines.len() + 1 && n.lines.take(
                sink.lines.len() as int,
            ) == sink.lines && n.lines.last().kind == DiffLineKind::Faint
            &&& n.flags.truncated
            &&& n.sections == sink.sections
            &&& n.stats.files == sink.stats.files + 1
            &&& n.stats.insertions == sink.stats.insertions
            &&& n.stats.deletions == sink.stats.deletions
            &&& n.files == sink.files.push(
                FileStatModel { path: o.path, additions: 0, deletions: 0 },
            )
        }),
{
    let n = sink.folded(o);
    if !sink.flags.truncated {
        assert(n.lines.take(sink.lines.len() as int) =~= sink.lines);
    }
}

/// A document holds the whole body, every file, every section and the counts of what was
/// rendered, under the header that it is given.
pub proof fn law_a_document_holds_what_was_rendered(
    target: DiffTarget,
    header: Seq<LineModel>,
    sink: SinkModel,
    anchor: Option<usize>,
)
    ensures
        ({
            let d = sink_document(target, header, sink, anchor);
            &&& d.target == target
            &&& d.header == header
            &&& d.body == sink.lines
            &&& d.files == sink.files
            &&& d.sections == sink.sections
            &&& d.stats == sink.stats
            &&& d.flags == sink.flags
            &&& d.untracked_anchor == anchor
        }),
{
}

/// An error becomes a document of one header line that ends in the message, and nothing else.
pub proof fn law_an_error_is_one_line(target: DiffTarget, message: Seq<char>)
    ensures
        ({
            let d = error_document(target, message);
            &&& d.target == target
            &&& d.header.len() == 1
            &&& d.header[0].kind == DiffLineKind::Faint
            &&& d.header[0].text == "Error: "@ + message
            &&& d.body.len() == 0
            &&& d.files.len() == 0
            &&& d.sections.len() == 0
            &&& d.stats.files == 0 && d.stats.insertions == 0 && d.stats.deletions == 0
            &&& !d.flags.truncated
            &&& d.untracked_anchor is None
        }),
{
}

/// If files outside the path filter changed too, the last line of the diff tells how many
/// there are, in the singular for one; otherwise the diff has no such line.
pub proof fn law_hidden_files_are_counted_in_the_last_line(
    records: Seq<ChangeModel>,
    outputs: Seq<OutputModel>,
    hidden: nat,
)
    ensures
        ({
            let none = commit_sink(records, outputs, 0);
            let some = commit_sink(records, outputs, hidden);
            hidden > 0 ==> {
                &&& some.lines.drop_last() == none.lines
                &&& some.lines.last().kind == DiffLineKind::Faint
                &&& hidden == 1 ==> some.lines.last().text == "… "@ + decimal(1)
                    + " changed file"@ + ""@
                    + " outside the path filter hidden (f shows the full diff)"@
                &&& hidden > 1 ==> some.lines.last().text == "… "@ + decimal(hidden)
                    + " changed file"@ + "s"@
                    + " outside the path filter hidden (f shows the full diff)"@
                &&& some.files == none.files
                &&& some.sections == none.sections
            }
        }),
{
    let none = commit_sink(records, outputs, 0);
    let some = commit_sink(records, outputs, hidden);
    if hidden > 0 {
        assert(some.lines.drop_last() =~= none.lines);
    }
}

/// The record of a path is the first one of a file that has it; there is none exactly if no
/// record is one.
pub proof fn law_the_first_record_of_a_path_is_found(
    records: Seq<ChangeModel>,
    path: Seq<char>,
    from: int,
)
    requires
        0 <= from <= records.len(),
    ensures
        match record_index(records, path, from) {
            Some(i) => {
                &&& from <= i < records.len()
                &&& records[i].is_blob && byte_text(records[i].path) == path
                &&& forall|k: int|
                    from <= k < i ==> !((#[trigger] records[k]).is_blob && byte_text(
                        records[k].path,
                    ) == path)
            },
            None => forall|k: int|
                from <= k < records.len() ==> !((#[trigger] records[k]).is_blob && byte_text(
                    records[k].path,
                ) == path),
        },
    decreases records.len() - from,
{
    if from < records.len() && !(records[from].is_blob && byte_text(records[from].path) == path) {
        law_the_first_record_of_a_path_is_found(records, path, from + 1);
    }
}

/// A diff starts with nothing in it, and with nothing left out.
pub proof fn law_a_diff_starts_empty()
    ensures
        empty_sink().lines.len() == 0,
        empty_sink().files.len() == 0,
        empty_sink().sections.len() == 0,
        empty_sink().stats == (DiffStats { files: 0, insertions: 0, deletions: 0 }),
        !empty_sink().flags.truncated,
        empty_sink().flags.skipped_binary_files == 0,
        empty_sink().flags.skipped_large_files == 0,
        empty_sink().wf(),
{
}

/// A binary file is said to be one, whatever its size and wherever it is shown.
pub proof fn law_a_binary_file_is_said_to_be_one(n: nat)
    ensures
        skip_summary(SkipReason::Binary, n) == "Binary file — diff suppressed"@,
        file_view_skip(SkipReason::Binary, n) == "Binary file — diff suppressed"@,
{
}

/// The note of a diff that was cut says which limit it ran into, the number of files first.
pub proof fn law_the_note_names_the_limit(sink: SinkModel)
    ensures
        sink.stats.files >= 200 ==> sink.truncation_note() == "… "@ + decimal(
            sink.stats.files as nat,
        ) + " files changed; remaining file diffs suppressed (>"@ + decimal(200)
            + " files; t lists them, o opens one)"@,
        sink.stats.files < 200 ==> sink.truncation_note() == "… diff truncated at "@ + decimal(
            20000,
        ) + " lines; remaining files summarised (t lists files, o opens one)"@,
{
}

} // verus!
