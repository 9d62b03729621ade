//! Line diffs of two files: the hunks, and the lines that show them, either as
//! unified-diff groups or as the whole file.

use crate::model::{line, DiffLine, DiffLineKind, LineModel};
use crate::text::{
    decimal, first_of, is_digits, law_decimals_read_back, lemma_first_from, lemma_first_of_at,
    lemma_first_of_skip, number_in, push_decimal,
};
use vstd::math::{max, min};
use vstd::prelude::*;
use vstd::slice::slice_subrange;
use vstd::string::StringExecFns;
use vstd::utf8::{decode_utf8, valid_utf8};

verus! {

/// Lines of context kept on either side of a change. Changes closer than twice as many
/// lines share one group, as `git diff -U3` does it.
pub const HUNK_CONTEXT_LEN: u32 = 3;

/// The lines `before_start..before_end` of the old file are replaced by the lines
/// `after_start..after_end` of the new one.
#[derive(Clone, Copy, PartialEq, Eq, Structural, Debug)]
pub struct Hunk {
    pub before_start: u32,
    pub before_end: u32,
    pub after_start: u32,
    pub after_end: u32,
}

/// The lines of `b`, each with its line feed; what follows the last line feed is a line
/// too, unless it is empty.
pub open spec fn byte_lines(b: Seq<u8>) -> Seq<Seq<u8>>
    decreases b.len(),
{
    if b.len() == 0 {
        Seq::empty()
    } else if first_of(b, 10u8) < b.len() {
        seq![b.take((first_of(b, 10u8) + 1) as int)] + byte_lines(b.skip((first_of(b, 10u8) + 1) as int))
    } else {
        seq![b]
    }
}

/// `token` without the line feed at its end, if it has one.
pub open spec fn strip_newline(token: Seq<u8>) -> Seq<u8> {
    if token.len() > 0 && token.last() == 10 {
        token.drop_last()
    } else {
        token
    }
}

/// What `String::from_utf8_lossy` makes of `bytes`.
pub uninterp spec fn lossy_text(bytes: Seq<u8>) -> Seq<char>;

/// `String::from_utf8_lossy`: the text in `bytes`, with a replacement character where they
/// are no UTF-8. On valid UTF-8 it is the decoded text.
#[verifier::external_body]
pub(crate) fn decode_lossy(bytes: &[u8]) -> (r: String)
    ensures
        r@ == lossy_text(bytes@),
        valid_utf8(bytes@) ==> r@ == decode_utf8(bytes@),
{
    String::from_utf8_lossy(bytes).into_owned()
}

/// The two files have no more lines than a line diff can count.
pub open spec fn lines_countable(old: Seq<u8>, new: Seq<u8>) -> bool {
    byte_lines(old).len() + byte_lines(new).len() < 0x4000_0000
}

/// A file has no more lines than bytes.
pub proof fn lemma_lines_in_bytes(b: Seq<u8>)
    ensures
        byte_lines(b).len() <= b.len(),
    decreases b.len(),
{
    if b.len() > 0 && first_of(b, 10u8) < b.len() {
        lemma_lines_in_bytes(b.skip((first_of(b, 10u8) + 1) as int));
    }
}

/// The hunks that the `imara-diff` crate finds between two files.
pub uninterp spec fn line_hunks(old: Seq<u8>, new: Seq<u8>) -> Seq<Hunk>;

/// Start of the unchanged run in front of hunk `k` in the old file.
pub open spec fn gap_start(hunks: Seq<Hunk>, k: int) -> int {
    if k <= 0 {
        0
    } else {
        hunks[k - 1].before_end as int
    }
}

/// End of the unchanged run in front of hunk `k` in the old file of `total` lines.
pub open spec fn gap_stop(hunks: Seq<Hunk>, k: int, total: int) -> int {
    if k < hunks.len() {
        hunks[k].before_start as int
    } else {
        total
    }
}

/// How far the unchanged run in front of hunk `k` has moved from the old file to the new.
pub open spec fn shift(hunks: Seq<Hunk>, k: int) -> int {
    if k <= 0 {
        0
    } else {
        hunks[k - 1].after_end - hunks[k - 1].before_end
    }
}

/// Hunk `k` lies within both files, behind the hunk in front of it.
pub open spec fn hunk_fits(
    before: Seq<Seq<u8>>,
    after: Seq<Seq<u8>>,
    hunks: Seq<Hunk>,
    k: int,
) -> bool {
    &&& gap_start(hunks, k) <= hunks[k].before_start <= hunks[k].before_end <= before.len()
    &&& hunks[k].after_start <= hunks[k].after_end <= after.len()
    &&& hunks[k].after_start == hunks[k].before_start + shift(hunks, k)
    &&& k > 0 ==> gap_start(hunks, k) < hunks[k].before_start
}

/// The lines in front of hunk `k` are the same in both files.
pub open spec fn gap_agrees(
    before: Seq<Seq<u8>>,
    after: Seq<Seq<u8>>,
    hunks: Seq<Hunk>,
    k: int,
) -> bool {
    forall|p: int|
        gap_start(hunks, k) <= p < gap_stop(hunks, k, before.len() as int) ==> #[trigger] before[p]
            == after[p + shift(hunks, k)]
}

/// `hunks` turn the lines `before` into the lines `after`: they come in order, apart from
/// one another, and all lines between them are the same in both files.
pub open spec fn is_edit_script(
    before: Seq<Seq<u8>>,
    after: Seq<Seq<u8>>,
    hunks: Seq<Hunk>,
) -> bool {
    &&& forall|k: int| 0 <= k < hunks.len() ==> #[trigger] hunk_fits(before, after, hunks, k)
    &&& forall|k: int| 0 <= k <= hunks.len() ==> #[trigger] gap_agrees(before, after, hunks, k)
    &&& after.len() == before.len() + shift(hunks, hunks.len() as int)
}

/// The hunks between the two files turn the lines of the old one into those of the new one;
/// between equal files there is none.
pub open spec fn is_line_diff(old: Seq<u8>, new: Seq<u8>) -> bool {
    &&& is_edit_script(byte_lines(old), byte_lines(new), line_hunks(old, new))
    &&& byte_lines(old) == byte_lines(new) ==> line_hunks(old, new).len() == 0
}

/// `imara_diff::Diff` with the histogram algorithm over the lines of the two files
/// (`InternedInput::new`), its line postprocessing, and the hunks it then yields. The
/// documentation promises an edit script that turns the old lines into the new, in
/// increasing order; how the changes are placed is the crate's choice, and named. Between
/// equal files there is no hunk: the common lines at the start are put aside first. The crate
/// takes fewer than `i32::MAX` lines a side, and finds them again by 32-bit positions in a
/// pool that holds a few numbers for each line, hence the limit here. Its interner numbers
/// lines by first occurrence, so the hasher's seed does not show in the result.
#[verifier::external_body]
fn compute_hunks(old_bytes: &[u8], new_bytes: &[u8]) -> (r: Vec<Hunk>)
    requires
        lines_countable(old_bytes@, new_bytes@),
    ensures
        r@ == line_hunks(old_bytes@, new_bytes@),
        byte_lines(old_bytes@) == byte_lines(new_bytes@) ==> r@.len() == 0,
        is_edit_script(byte_lines(old_bytes@), byte_lines(new_bytes@), r@),
{
    let input = imara_diff::InternedInput::new(old_bytes, new_bytes);
    let mut diff = imara_diff::Diff::compute(imara_diff::Algorithm::Histogram, &input);
    diff.postprocess_lines(&input);
    diff.hunks()
        .map(|h| Hunk {
            before_start: h.before.start,
            before_end: h.before.end,
            after_start: h.after.start,
            after_end: h.after.end,
        })
        .collect()
}

/// The line that shows `token`.
pub open spec fn token_line(kind: DiffLineKind, token: Seq<u8>) -> LineModel {
    line(kind, lossy_text(strip_newline(token)))
}

/// The lines that show `tokens[from..to]`.
pub open spec fn token_run(
    kind: DiffLineKind,
    tokens: Seq<Seq<u8>>,
    from: int,
    to: int,
) -> Seq<LineModel> {
    Seq::new((to - from) as nat, |k: int| token_line(kind, tokens[from + k]))
}

/// The hunks `k..j` in place: the old lines from `cursor` to `end`, with the lines that go
/// shown as deleted and those that come instead as added, right behind them.
pub open spec fn script_lines(
    before: Seq<Seq<u8>>,
    after: Seq<Seq<u8>>,
    hunks: Seq<Hunk>,
    k: int,
    j: int,
    cursor: int,
    end: int,
) -> Seq<LineModel>
    decreases j - k,
{
    if k >= j {
        token_run(DiffLineKind::Context, before, cursor, end)
    } else {
        let h = hunks[k];
        token_run(DiffLineKind::Context, before, cursor, h.before_start as int) + token_run(
            DiffLineKind::Del,
            before,
            h.before_start as int,
            h.before_end as int,
        ) + token_run(DiffLineKind::Add, after, h.after_start as int, h.after_end as int)
            + script_lines(before, after, hunks, k + 1, j, h.before_end as int, end)
    }
}

/// Lines that the hunks `k..j` add.
pub open spec fn added(hunks: Seq<Hunk>, k: int, j: int) -> int
    decreases j - k,
{
    if k >= j {
        0
    } else {
        hunks[k].after_end - hunks[k].after_start + added(hunks, k + 1, j)
    }
}

/// Lines that the hunks `k..j` remove.
pub open spec fn removed(hunks: Seq<Hunk>, k: int, j: int) -> int
    decreases j - k,
{
    if k >= j {
        0
    } else {
        hunks[k].before_end - hunks[k].before_start + removed(hunks, k + 1, j)
    }
}

/// The whole file, with the changes in place.
pub open spec fn full_context_lines(
    before: Seq<Seq<u8>>,
    after: Seq<Seq<u8>>,
    hunks: Seq<Hunk>,
) -> Seq<LineModel> {
    script_lines(before, after, hunks, 0, hunks.len() as int, 0, before.len() as int)
}

/// The end of the group that starts at hunk `i`: hunks whose context would touch share one.
pub open spec fn group_end(hunks: Seq<Hunk>, i: int) -> int
    decreases hunks.len() - i,
{
    if i + 1 < hunks.len() && hunks[i + 1].before_start - hunks[i].before_end <= 2
        * HUNK_CONTEXT_LEN {
        group_end(hunks, i + 1)
    } else {
        i + 1
    }
}

/// Where the context in front of line `at` starts.
pub open spec fn context_start(at: int) -> int {
    if at >= HUNK_CONTEXT_LEN {
        at - HUNK_CONTEXT_LEN
    } else {
        0
    }
}

/// Where the context behind line `at` ends, in a file of `total` lines.
pub open spec fn context_stop(at: int, total: int) -> int {
    if at + HUNK_CONTEXT_LEN <= total {
        at + HUNK_CONTEXT_LEN
    } else {
        total
    }
}

/// A unified-diff hunk header for ranges counted from zero; it counts from one, and an
/// empty range starts at zero.
pub open spec fn hunk_header(or_start: nat, or_len: nat, nr_start: nat, nr_len: nat) -> Seq<char> {
    "@@ -"@ + decimal(
        if or_len == 0 {
            0
        } else {
            or_start + 1
        },
    ) + ","@ + decimal(or_len) + " +"@ + decimal(
        if nr_len == 0 {
            0
        } else {
            nr_start + 1
        },
    ) + ","@ + decimal(nr_len) + " @@"@
}

/// The header of the group of the hunks `i..j`.
pub open spec fn group_header(
    before: Seq<Seq<u8>>,
    after: Seq<Seq<u8>>,
    hunks: Seq<Hunk>,
    i: int,
    j: int,
) -> Seq<char> {
    let b0 = context_start(hunks[i].before_start as int);
    let b1 = context_stop(hunks[j - 1].before_end as int, before.len() as int);
    let a0 = context_start(hunks[i].after_start as int);
    let a1 = context_stop(hunks[j - 1].after_end as int, after.len() as int);
    hunk_header(b0 as nat, (b1 - b0) as nat, a0 as nat, (a1 - a0) as nat)
}

/// The lines of the group of the hunks `i..j`, without its header.
pub open spec fn group_lines(
    before: Seq<Seq<u8>>,
    after: Seq<Seq<u8>>,
    hunks: Seq<Hunk>,
    i: int,
    j: int,
) -> Seq<LineModel> {
    script_lines(
        before,
        after,
        hunks,
        i,
        j,
        context_start(hunks[i].before_start as int),
        context_stop(hunks[j - 1].before_end as int, before.len() as int),
    )
}

/// The unified diff of the hunks from `i` on.
pub open spec fn unified_lines(
    before: Seq<Seq<u8>>,
    after: Seq<Seq<u8>>,
    hunks: Seq<Hunk>,
    i: int,
) -> Seq<LineModel>
    decreases hunks.len() - i,
    when 0 <= i
    via unified_lines_decreases
{
    if i >= hunks.len() {
        Seq::empty()
    } else {
        let j = group_end(hunks, i);
        seq![line(DiffLineKind::HunkHeader, group_header(before, after, hunks, i, j))]
            + group_lines(before, after, hunks, i, j) + unified_lines(before, after, hunks, j)
    }
}

#[via_fn]
proof fn unified_lines_decreases(
    before: Seq<Seq<u8>>,
    after: Seq<Seq<u8>>,
    hunks: Seq<Hunk>,
    i: int,
) {
    if i < hunks.len() {
        lemma_group_end(hunks, i);
    }
}

proof fn lemma_group_end(hunks: Seq<Hunk>, i: int)
    requires
        i < hunks.len(),
    ensures
        i < group_end(hunks, i) <= hunks.len(),
    decreases hunks.len() - i,
{
    if i + 1 < hunks.len() && hunks[i + 1].before_start - hunks[i].before_end <= 2
        * HUNK_CONTEXT_LEN {
        lemma_group_end(hunks, i + 1);
    }
}

/// The bytes that the spans cut out of `data`.
pub open spec fn span_bytes(data: Seq<u8>, spans: Seq<(usize, usize)>) -> Seq<Seq<u8>> {
    Seq::new(spans.len(), |i: int| data.subrange(spans[i].0 as int, spans[i].1 as int))
}

spec fn spans_fit(data: Seq<u8>, spans: Seq<(usize, usize)>) -> bool {
    forall|i: int| #![trigger spans[i]] 0 <= i < spans.len() ==> spans[i].0 < spans[i].1 <= data.len()
}

fn line_spans(data: &[u8]) -> (r: Vec<(usize, usize)>)
    ensures
        span_bytes(data@, r@) == byte_lines(data@),
        spans_fit(data@, r@),
        r@.len() <= data@.len(),
{
    let mut out: Vec<(usize, usize)> = Vec::new();
    let mut start: usize = 0;
    assert(data@.skip(0) == data@);
    while start < data.len()
        invariant
            start <= data@.len(),
            out@.len() <= start,
            spans_fit(data@, out@),
            span_bytes(data@, out@) + byte_lines(data@.skip(start as int)) == byte_lines(data@),
        decreases data@.len() - start,
    {
        let ghost rest = data@.skip(start as int);
        let mut end: usize = start;
        while end < data.len() && data[end] != 10
            invariant
                start <= end <= data@.len(),
                forall|j: int| start <= j < end ==> data@[j] != 10,
            decreases data@.len() - end,
        {
            end += 1;
        }
        proof {
            lemma_first_of_skip(data@, 10u8, start as nat, end as nat);
        }
        let stop: usize = if end < data.len() {
            end + 1
        } else {
            end
        };
        let ghost done = out@;
        out.push((start, stop));
        proof {
            let token = data@.subrange(start as int, stop as int);
            assert(span_bytes(data@, out@) =~= span_bytes(data@, done).push(token));
            if end < data@.len() {
                assert(rest.take(end - start + 1) == token);
                assert(rest.skip(end - start + 1) == data@.skip(stop as int));
            } else {
                assert(rest == token);
                assert(data@.skip(stop as int) =~= Seq::empty());
            }
            assert(span_bytes(data@, out@) + byte_lines(data@.skip(stop as int)) =~= span_bytes(
                data@,
                done,
            ) + byte_lines(rest));
        }
        start = stop;
    }
    assert(data@.skip(start as int) =~= Seq::empty());
    out
}

/// Appends the line that shows the bytes of `span`.
fn push_token_line(
    lines: &mut Vec<DiffLine>,
    kind: DiffLineKind,
    data: &[u8],
    span: (usize, usize),
)
    requires
        span.0 < span.1 <= data@.len(),
    ensures
        final(lines).deep_view() == old(lines).deep_view().push(
            token_line(kind, data@.subrange(span.0 as int, span.1 as int)),
        ),
        final(lines)@.len() == old(lines)@.len() + 1,
{
    let ghost token = data@.subrange(span.0 as int, span.1 as int);
    let stop: usize = if data[span.1 - 1] == 10 {
        span.1 - 1
    } else {
        span.1
    };
    let trimmed: &[u8] = slice_subrange(data, span.0, stop);
    assert(trimmed@ == strip_newline(token));
    let text: String = decode_lossy(trimmed);
    let ghost before = lines.deep_view();
    lines.push(DiffLine { kind, text });
    assert(lines.deep_view() =~= before.push(token_line(kind, token)));
}

/// Appends the lines that show `spans[from..to]`.
fn push_run(
    lines: &mut Vec<DiffLine>,
    kind: DiffLineKind,
    data: &[u8],
    spans: &Vec<(usize, usize)>,
    from: usize,
    to: usize,
)
    requires
        spans_fit(data@, spans@),
        from <= to <= spans@.len(),
    ensures
        final(lines).deep_view() == old(lines).deep_view() + token_run(
            kind,
            span_bytes(data@, spans@),
            from as int,
            to as int,
        ),
{
    let ghost tokens = span_bytes(data@, spans@);
    let mut i: usize = from;
    assert(token_run(kind, tokens, from as int, from as int) =~= Seq::empty());
    while i < to
        invariant
            spans_fit(data@, spans@),
            from <= i <= to <= spans@.len(),
            tokens == span_bytes(data@, spans@),
            lines.deep_view() == old(lines).deep_view() + token_run(kind, tokens, from as int, i as int),
        decreases to - i,
    {
        push_token_line(lines, kind, data, spans[i]);
        proof {
            assert(token_run(kind, tokens, from as int, i + 1) =~= token_run(
                kind,
                tokens,
                from as int,
                i as int,
            ).push(token_line(kind, tokens[i as int])));
        }
        i += 1;
    }
}

/// Appends the hunks `k..j` in place, and returns how many lines they add and remove.
fn push_script(
    lines: &mut Vec<DiffLine>,
    old_bytes: &[u8],
    new_bytes: &[u8],
    before: &Vec<(usize, usize)>,
    after: &Vec<(usize, usize)>,
    hunks: &Vec<Hunk>,
    k: usize,
    j: usize,
    cursor: usize,
    end: usize,
) -> (r: (usize, usize))
    requires
        spans_fit(old_bytes@, before@),
        spans_fit(new_bytes@, after@),
        is_edit_script(span_bytes(old_bytes@, before@), span_bytes(new_bytes@, after@), hunks@),
        k <= j <= hunks@.len(),
        gap_start(hunks@, k as int) <= cursor <= gap_stop(hunks@, k as int, before@.len() as int),
        gap_start(hunks@, j as int) <= end <= gap_stop(hunks@, j as int, before@.len() as int),
        k == j ==> cursor <= end,
    ensures
        final(lines).deep_view() == old(lines).deep_view() + script_lines(
            span_bytes(old_bytes@, before@),
            span_bytes(new_bytes@, after@),
            hunks@,
            k as int,
            j as int,
            cursor as int,
            end as int,
        ),
        r.0 == added(hunks@, k as int, j as int),
        r.1 == removed(hunks@, k as int, j as int),
{
    let ghost btok = span_bytes(old_bytes@, before@);
    let ghost atok = span_bytes(new_bytes@, after@);
    let ghost whole = old(lines).deep_view() + script_lines(
        btok,
        atok,
        hunks@,
        k as int,
        j as int,
        cursor as int,
        end as int,
    );
    let mut adds: usize = 0;
    let mut dels: usize = 0;
    let mut at: usize = cursor;
    let mut i: usize = k;
    while i < j
        invariant
            spans_fit(old_bytes@, before@),
            spans_fit(new_bytes@, after@),
            btok == span_bytes(old_bytes@, before@),
            atok == span_bytes(new_bytes@, after@),
            is_edit_script(btok, atok, hunks@),
            k <= i <= j <= hunks@.len(),
            gap_start(hunks@, i as int) <= at <= gap_stop(hunks@, i as int, before@.len() as int),
            i == j && k < j ==> at == gap_start(hunks@, j as int),
            i == k ==> at == cursor,
            adds + added(hunks@, i as int, j as int) == added(hunks@, k as int, j as int),
            dels + removed(hunks@, i as int, j as int) == removed(hunks@, k as int, j as int),
            dels <= at,
            adds <= at + shift(hunks@, i as int),
            lines.deep_view() + script_lines(
                btok,
                atok,
                hunks@,
                i as int,
                j as int,
                at as int,
                end as int,
            ) == whole,
        decreases j - i,
    {
        let h: Hunk = hunks[i];
        let ghost l0 = lines.deep_view();
        assert(hunk_fits(btok, atok, hunks@, i as int));
        push_run(lines, DiffLineKind::Context, old_bytes, before, at, h.before_start as usize);
        push_run(
            lines,
            DiffLineKind::Del,
            old_bytes,
            before,
            h.before_start as usize,
            h.before_end as usize,
        );
        push_run(lines, DiffLineKind::Add, new_bytes, after, h.after_start as usize, h.after_end as usize);
        adds += (h.after_end - h.after_start) as usize;
        dels += (h.before_end - h.before_start) as usize;
        proof {
            assert(gap_start(hunks@, i + 1) == h.before_end);
            if i + 1 < hunks@.len() {
                assert(hunk_fits(btok, atok, hunks@, i + 1));
            }
            assert(lines.deep_view() + script_lines(
                btok,
                atok,
                hunks@,
                i + 1,
                j as int,
                h.before_end as int,
                end as int,
            ) =~= l0 + script_lines(
                btok,
                atok,
                hunks@,
                i as int,
                j as int,
                at as int,
                end as int,
            ));
        }
        at = h.before_end as usize;
        i += 1;
    }
    assert(j < hunks@.len() ==> hunk_fits(btok, atok, hunks@, j as int));
    push_run(lines, DiffLineKind::Context, old_bytes, before, at, end);
    (adds, dels)
}

/// Appends a hunk header for ranges counted from zero.
fn hunk_header_str(or_start: u32, or_len: u32, nr_start: u32, nr_len: u32) -> (r: String)
    requires
        or_start < u32::MAX,
        nr_start < u32::MAX,
    ensures
        r@ == hunk_header(or_start as nat, or_len as nat, nr_start as nat, nr_len as nat),
{
    let or_first: u32 = if or_len == 0 {
        0
    } else {
        or_start + 1
    };
    let nr_first: u32 = if nr_len == 0 {
        0
    } else {
        nr_start + 1
    };
    let mut out: String = "@@ -".to_owned();
    push_decimal(&mut out, or_first as u64);
    out.append(",");
    push_decimal(&mut out, or_len as u64);
    out.append(" +");
    push_decimal(&mut out, nr_first as u64);
    out.append(",");
    push_decimal(&mut out, nr_len as u64);
    out.append(" @@");
    out
}

/// Appends the whole file with the changes from `old` to `new` in place, and returns how
/// many lines were added and removed.
pub fn render_full_context_into(lines: &mut Vec<DiffLine>, old_bytes: &[u8], new_bytes: &[u8]) -> (r: (
    usize,
    usize,
))
    requires
        lines_countable(old_bytes@, new_bytes@),
    ensures
        is_line_diff(old_bytes@, new_bytes@),
        final(lines).deep_view() == old(lines).deep_view() + full_context_lines(
            byte_lines(old_bytes@),
            byte_lines(new_bytes@),
            line_hunks(old_bytes@, new_bytes@),
        ),
        r.0 == added(line_hunks(old_bytes@, new_bytes@), 0, line_hunks(old_bytes@, new_bytes@).len() as int),
        r.1 == removed(line_hunks(old_bytes@, new_bytes@), 0, line_hunks(old_bytes@, new_bytes@).len() as int),
{
    let before: Vec<(usize, usize)> = line_spans(old_bytes);
    let after: Vec<(usize, usize)> = line_spans(new_bytes);
    let hunks: Vec<Hunk> = compute_hunks(old_bytes, new_bytes);
    let n: usize = hunks.len();
    let total: usize = before.len();
    proof {
        if n > 0 {
            assert(hunk_fits(byte_lines(old_bytes@), byte_lines(new_bytes@), hunks@, n - 1));
        }
    }
    push_script(lines, old_bytes, new_bytes, &before, &after, &hunks, 0, n, 0, total)
}

proof fn lemma_counts(
    before: Seq<Seq<u8>>,
    after: Seq<Seq<u8>>,
    hunks: Seq<Hunk>,
    i: int,
    j: int,
)
    requires
        is_edit_script(before, after, hunks),
        0 <= i <= j <= hunks.len(),
    ensures
        added(hunks, i, hunks.len() as int) == added(hunks, i, j) + added(
            hunks,
            j,
            hunks.len() as int,
        ),
        removed(hunks, i, hunks.len() as int) == removed(hunks, i, j) + removed(
            hunks,
            j,
            hunks.len() as int,
        ),
        0 <= added(hunks, i, j) <= gap_start(hunks, j) + shift(hunks, j) - gap_start(hunks, i)
            - shift(hunks, i),
        0 <= removed(hunks, i, j) <= gap_start(hunks, j) - gap_start(hunks, i),
    decreases j - i,
{
    if i < j {
        lemma_counts(before, after, hunks, i + 1, j);
        assert(hunk_fits(before, after, hunks, i));
    }
}

/// Appends the group of the hunks `i..j` with its header, and returns how many lines they
/// add and remove.
fn push_group(
    lines: &mut Vec<DiffLine>,
    old_bytes: &[u8],
    new_bytes: &[u8],
    before: &Vec<(usize, usize)>,
    after: &Vec<(usize, usize)>,
    hunks: &Vec<Hunk>,
    i: usize,
    j: usize,
) -> (r: (usize, usize))
    requires
        spans_fit(old_bytes@, before@),
        spans_fit(new_bytes@, after@),
        is_edit_script(span_bytes(old_bytes@, before@), span_bytes(new_bytes@, after@), hunks@),
        before@.len() < 0x7fff_ffff,
        after@.len() < 0x7fff_ffff,
        i < j <= hunks@.len(),
        i > 0 ==> hunks@[i as int].before_start - hunks@[i - 1].before_end > 2 * HUNK_CONTEXT_LEN,
        j < hunks@.len() ==> hunks@[j as int].before_start - hunks@[j - 1].before_end > 2
            * HUNK_CONTEXT_LEN,
    ensures
        final(lines).deep_view() == old(lines).deep_view() + (seq![
            line(
                DiffLineKind::HunkHeader,
                group_header(
                    span_bytes(old_bytes@, before@),
                    span_bytes(new_bytes@, after@),
                    hunks@,
                    i as int,
                    j as int,
                ),
            ),
        ] + group_lines(
            span_bytes(old_bytes@, before@),
            span_bytes(new_bytes@, after@),
            hunks@,
            i as int,
            j as int,
        )),
        r.0 == added(hunks@, i as int, j as int),
        r.1 == removed(hunks@, i as int, j as int),
{
    let ghost btok = span_bytes(old_bytes@, before@);
    let ghost atok = span_bytes(new_bytes@, after@);
    let before_total: u32 = before.len() as u32;
    let after_total: u32 = after.len() as u32;
    let first: Hunk = hunks[i];
    let last: Hunk = hunks[j - 1];
    proof {
        lemma_counts(btok, atok, hunks@, i + 1, j as int);
        assert(hunk_fits(btok, atok, hunks@, i as int));
        assert(hunk_fits(btok, atok, hunks@, j - 1));
        assert(j < hunks@.len() ==> hunk_fits(btok, atok, hunks@, j as int));
    }
    let b0: u32 = if first.before_start >= HUNK_CONTEXT_LEN {
        first.before_start - HUNK_CONTEXT_LEN
    } else {
        0
    };
    let b1: u32 = if last.before_end + HUNK_CONTEXT_LEN <= before_total {
        last.before_end + HUNK_CONTEXT_LEN
    } else {
        before_total
    };
    let a0: u32 = if first.after_start >= HUNK_CONTEXT_LEN {
        first.after_start - HUNK_CONTEXT_LEN
    } else {
        0
    };
    let a1: u32 = if last.after_end + HUNK_CONTEXT_LEN <= after_total {
        last.after_end + HUNK_CONTEXT_LEN
    } else {
        after_total
    };
    let header: String = hunk_header_str(b0, b1 - b0, a0, a1 - a0);
    let ghost l0 = lines.deep_view();
    let ghost head = line(DiffLineKind::HunkHeader, header@);
    lines.push(DiffLine { kind: DiffLineKind::HunkHeader, text: header });
    assert(lines.deep_view() =~= l0.push(head));
    let counts: (usize, usize) = push_script(
        lines,
        old_bytes,
        new_bytes,
        before,
        after,
        hunks,
        i,
        j,
        b0 as usize,
        b1 as usize,
    );
    assert(lines.deep_view() =~= l0 + (seq![head] + group_lines(
        btok,
        atok,
        hunks@,
        i as int,
        j as int,
    )));
    counts
}

/// Appends the unified diff from `old_bytes` to `new_bytes`, and returns how many lines it
/// adds and removes.
pub fn render_unified_into(
    lines: &mut Vec<DiffLine>,
    old_bytes: &[u8],
    new_bytes: &[u8],
) -> (r: (usize, usize))
    requires
        lines_countable(old_bytes@, new_bytes@),
    ensures
        is_line_diff(old_bytes@, new_bytes@),
        byte_lines(old_bytes@) == byte_lines(new_bytes@) ==> final(lines).deep_view() == old(
            lines,
        ).deep_view() && r == (0usize, 0usize),
        final(lines).deep_view() == old(lines).deep_view() + unified_lines(
            byte_lines(old_bytes@),
            byte_lines(new_bytes@),
            line_hunks(old_bytes@, new_bytes@),
            0,
        ),
        r.0 == added(
            line_hunks(old_bytes@, new_bytes@),
            0,
            line_hunks(old_bytes@, new_bytes@).len() as int,
        ),
        r.1 == removed(
            line_hunks(old_bytes@, new_bytes@),
            0,
            line_hunks(old_bytes@, new_bytes@).len() as int,
        ),
{
    let before: Vec<(usize, usize)> = line_spans(old_bytes);
    let after: Vec<(usize, usize)> = line_spans(new_bytes);
    let hunks: Vec<Hunk> = compute_hunks(old_bytes, new_bytes);
    let ghost btok = byte_lines(old_bytes@);
    let ghost atok = byte_lines(new_bytes@);
    let ghost n = hunks@.len() as int;
    let ghost whole = old(lines).deep_view() + unified_lines(btok, atok, hunks@, 0);
    let mut adds: usize = 0;
    let mut dels: usize = 0;
    let mut i: usize = 0;
    while i < hunks.len()
        invariant
            spans_fit(old_bytes@, before@),
            spans_fit(new_bytes@, after@),
            btok == span_bytes(old_bytes@, before@),
            atok == span_bytes(new_bytes@, after@),
            is_edit_script(btok, atok, hunks@),
            n == hunks@.len(),
            before@.len() < 0x7fff_ffff,
            after@.len() < 0x7fff_ffff,
            i <= n,
            0 < i < n ==> hunks@[i as int].before_start - hunks@[i - 1].before_end > 2
                * HUNK_CONTEXT_LEN,
            adds + added(hunks@, i as int, n) == added(hunks@, 0, n),
            dels + removed(hunks@, i as int, n) == removed(hunks@, 0, n),
            adds <= gap_start(hunks@, i as int) + shift(hunks@, i as int),
            dels <= gap_start(hunks@, i as int),
            lines.deep_view() + unified_lines(btok, atok, hunks@, i as int) == whole,
        decreases n - i,
    {
        let mut j: usize = i + 1;
        proof {
            assert(hunk_fits(btok, atok, hunks@, i as int));
            assert(j < n ==> hunk_fits(btok, atok, hunks@, j as int));
        }
        while j < hunks.len() && hunks[j].before_start - hunks[j - 1].before_end <= 2
            * HUNK_CONTEXT_LEN
            invariant
                i < j <= n,
                n == hunks@.len(),
                is_edit_script(btok, atok, hunks@),
                j < n ==> hunk_fits(btok, atok, hunks@, j as int),
                group_end(hunks@, i as int) == group_end(hunks@, j - 1),
            decreases n - j,
        {
            j += 1;
            assert(j < n ==> hunk_fits(btok, atok, hunks@, j as int));
        }
        proof {
            lemma_counts(btok, atok, hunks@, i as int, j as int);
            assert(group_end(hunks@, i as int) == j);
            assert(hunk_fits(btok, atok, hunks@, j - 1));
        }
        let ghost l0 = lines.deep_view();
        let counts: (usize, usize) = push_group(
            lines,
            old_bytes,
            new_bytes,
            &before,
            &after,
            &hunks,
            i,
            j,
        );
        adds += counts.0;
        dels += counts.1;
        proof {
            assert(lines.deep_view() + unified_lines(btok, atok, hunks@, j as int) =~= l0
                + unified_lines(btok, atok, hunks@, i as int));
        }
        i = j;
    }
    (adds, dels)
}

/// The texts of the lines that show the old file: what stays and what goes.
pub open spec fn old_side(lines: Seq<LineModel>) -> Seq<Seq<char>>
    decreases lines.len(),
{
    if lines.len() == 0 {
        Seq::empty()
    } else if lines.last().kind == DiffLineKind::Context || lines.last().kind == DiffLineKind::Del {
        old_side(lines.drop_last()).push(lines.last().text)
    } else {
        old_side(lines.drop_last())
    }
}

/// The texts of the lines that show the new file: what stays and what comes.
pub open spec fn new_side(lines: Seq<LineModel>) -> Seq<Seq<char>>
    decreases lines.len(),
{
    if lines.len() == 0 {
        Seq::empty()
    } else if lines.last().kind == DiffLineKind::Context || lines.last().kind == DiffLineKind::Add {
        new_side(lines.drop_last()).push(lines.last().text)
    } else {
        new_side(lines.drop_last())
    }
}

/// The texts of the lines `tokens[from..to]`.
pub open spec fn token_texts(tokens: Seq<Seq<u8>>, from: int, to: int) -> Seq<Seq<char>> {
    Seq::new((to - from) as nat, |k: int| lossy_text(strip_newline(tokens[from + k])))
}

/// What shows a file in two runs of lines shows it in one run after the other.
pub proof fn lemma_sides_concat(a: Seq<LineModel>, b: Seq<LineModel>)
    ensures
        old_side(a + b) == old_side(a) + old_side(b),
        new_side(a + b) == new_side(a) + new_side(b),
    decreases b.len(),
{
    if b.len() == 0 {
        assert(a + b =~= a);
    } else {
        assert((a + b).drop_last() =~= a + b.drop_last());
        lemma_sides_concat(a, b.drop_last());
        assert(old_side(a + b) =~= old_side(a) + old_side(b));
        assert(new_side(a + b) =~= new_side(a) + new_side(b));
    }
}

proof fn lemma_sides_of_run(kind: DiffLineKind, tokens: Seq<Seq<u8>>, from: int, to: int)
    requires
        from <= to,
    ensures
        old_side(token_run(kind, tokens, from, to)) == if kind == DiffLineKind::Context || kind
            == DiffLineKind::Del {
            token_texts(tokens, from, to)
        } else {
            Seq::empty()
        },
        new_side(token_run(kind, tokens, from, to)) == if kind == DiffLineKind::Context || kind
            == DiffLineKind::Add {
            token_texts(tokens, from, to)
        } else {
            Seq::empty()
        },
    decreases to - from,
{
    let run = token_run(kind, tokens, from, to);
    if from == to {
        assert(run =~= Seq::empty());
        assert(token_texts(tokens, from, to) =~= Seq::empty());
    } else {
        lemma_sides_of_run(kind, tokens, from, to - 1);
        assert(run.drop_last() =~= token_run(kind, tokens, from, to - 1));
        assert(token_texts(tokens, from, to) =~= token_texts(tokens, from, to - 1).push(
            run.last().text,
        ));
    }
}

/// Hunks shown in place leave both files readable: what stays and goes is the old file from
/// `cursor` to `end`, and what stays and comes is the same stretch of the new one.
pub proof fn law_script_shows_both_files(
    before: Seq<Seq<u8>>,
    after: Seq<Seq<u8>>,
    hunks: Seq<Hunk>,
    k: int,
    j: int,
    cursor: int,
    end: int,
)
    requires
        is_edit_script(before, after, hunks),
        0 <= k <= j <= hunks.len(),
        gap_start(hunks, k) <= cursor <= gap_stop(hunks, k, before.len() as int),
        gap_start(hunks, j) <= end <= gap_stop(hunks, j, before.len() as int),
        k == j ==> cursor <= end,
    ensures
        old_side(script_lines(before, after, hunks, k, j, cursor, end)) == token_texts(
            before,
            cursor,
            end,
        ),
        new_side(script_lines(before, after, hunks, k, j, cursor, end)) == token_texts(
            after,
            cursor + shift(hunks, k),
            end + shift(hunks, j),
        ),
    decreases j - k,
{
    let lines = script_lines(before, after, hunks, k, j, cursor, end);
    if k == j {
        lemma_sides_of_run(DiffLineKind::Context, before, cursor, end);
        assert(gap_agrees(before, after, hunks, k));
        assert(token_texts(before, cursor, end) =~= token_texts(
            after,
            cursor + shift(hunks, k),
            end + shift(hunks, k),
        ));
    } else {
        let h = hunks[k];
        let b0 = h.before_start as int;
        let b1 = h.before_end as int;
        let a0 = h.after_start as int;
        let a1 = h.after_end as int;
        let keep = token_run(DiffLineKind::Context, before, cursor, b0);
        let gone = token_run(DiffLineKind::Del, before, b0, b1);
        let come = token_run(DiffLineKind::Add, after, a0, a1);
        let rest = script_lines(before, after, hunks, k + 1, j, b1, end);
        assert(hunk_fits(before, after, hunks, k));
        if k + 1 < hunks.len() {
            assert(hunk_fits(before, after, hunks, k + 1));
        }
        law_script_shows_both_files(before, after, hunks, k + 1, j, b1, end);
        lemma_sides_of_run(DiffLineKind::Context, before, cursor, b0);
        lemma_sides_of_run(DiffLineKind::Del, before, b0, b1);
        lemma_sides_of_run(DiffLineKind::Add, after, a0, a1);
        lemma_sides_concat(keep, gone);
        lemma_sides_concat(keep + gone, come);
        lemma_sides_concat(keep + gone + come, rest);
        lemma_end_after_start(before, after, hunks, k + 1, j, end);
        assert(old_side(lines) =~= token_texts(before, cursor, end));
        assert(gap_agrees(before, after, hunks, k));
        assert(token_texts(before, cursor, b0) =~= token_texts(
            after,
            cursor + shift(hunks, k),
            a0,
        ));
        assert(new_side(lines) =~= token_texts(
            after,
            cursor + shift(hunks, k),
            end + shift(hunks, j),
        ));
    }
}

proof fn lemma_end_after_start(
    before: Seq<Seq<u8>>,
    after: Seq<Seq<u8>>,
    hunks: Seq<Hunk>,
    k: int,
    j: int,
    end: int,
)
    requires
        is_edit_script(before, after, hunks),
        0 <= k <= j <= hunks.len(),
        gap_start(hunks, j) <= end,
    ensures
        gap_start(hunks, k) <= end,
        gap_start(hunks, k) + shift(hunks, k) <= end + shift(hunks, j),
{
    lemma_counts(before, after, hunks, k, j);
}

/// The full-context view of a file is that file: leaving the added lines out gives the old
/// file, line by line, and leaving the deleted lines out gives the new one.
pub proof fn law_full_context_is_the_file(
    before: Seq<Seq<u8>>,
    after: Seq<Seq<u8>>,
    hunks: Seq<Hunk>,
)
    requires
        is_edit_script(before, after, hunks),
    ensures
        old_side(full_context_lines(before, after, hunks)) == token_texts(
            before,
            0,
            before.len() as int,
        ),
        new_side(full_context_lines(before, after, hunks)) == token_texts(
            after,
            0,
            after.len() as int,
        ),
{
    let n = hunks.len() as int;
    if n > 0 {
        assert(hunk_fits(before, after, hunks, n - 1));
        assert(hunk_fits(before, after, hunks, 0));
    }
    law_script_shows_both_files(before, after, hunks, 0, n, 0, before.len() as int);
}

/// A group of a unified diff holds as many old and new lines as its header says, and they
/// are the stretch of each file that the header names. The group starts at hunk `i`, which
/// is the first hunk or lies more than two contexts behind the one before it.
pub proof fn law_group_matches_its_header(
    before: Seq<Seq<u8>>,
    after: Seq<Seq<u8>>,
    hunks: Seq<Hunk>,
    i: int,
)
    requires
        is_edit_script(before, after, hunks),
        0 <= i < hunks.len(),
        i > 0 ==> hunks[i].before_start - hunks[i - 1].before_end > 2 * HUNK_CONTEXT_LEN,
    ensures
        ({
            let j = group_end(hunks, i);
            let b0 = context_start(hunks[i].before_start as int);
            let b1 = context_stop(hunks[j - 1].before_end as int, before.len() as int);
            let a0 = context_start(hunks[i].after_start as int);
            let a1 = context_stop(hunks[j - 1].after_end as int, after.len() as int);
            &&& old_side(group_lines(before, after, hunks, i, j)) == token_texts(before, b0, b1)
            &&& new_side(group_lines(before, after, hunks, i, j)) == token_texts(after, a0, a1)
            &&& group_header(before, after, hunks, i, j) == hunk_header(
                b0 as nat,
                old_side(group_lines(before, after, hunks, i, j)).len(),
                a0 as nat,
                new_side(group_lines(before, after, hunks, i, j)).len(),
            )
        }),
{
    let j = group_end(hunks, i);
    let n = hunks.len() as int;
    lemma_group_end(hunks, i);
    lemma_group_gap(hunks, i);
    let b0 = context_start(hunks[i].before_start as int);
    let b1 = context_stop(hunks[j - 1].before_end as int, before.len() as int);
    assert(hunk_fits(before, after, hunks, i));
    assert(hunk_fits(before, after, hunks, j - 1));
    if j < n {
        assert(hunk_fits(before, after, hunks, j));
    }
    lemma_counts(before, after, hunks, i, j);
    law_script_shows_both_files(before, after, hunks, i, j, b0, b1);
}

proof fn lemma_group_gap(hunks: Seq<Hunk>, i: int)
    requires
        0 <= i < hunks.len(),
    ensures
        i < group_end(hunks, i) <= hunks.len(),
        group_end(hunks, i) < hunks.len() ==> hunks[group_end(hunks, i)].before_start
            - hunks[group_end(hunks, i) - 1].before_end > 2 * HUNK_CONTEXT_LEN,
    decreases hunks.len() - i,
{
    if i + 1 < hunks.len() && hunks[i + 1].before_start - hunks[i].before_end <= 2
        * HUNK_CONTEXT_LEN {
        lemma_group_gap(hunks, i + 1);
    }
}

/// How many of `lines` are of kind `kind`.
pub open spec fn count_kind(lines: Seq<LineModel>, kind: DiffLineKind) -> nat
    decreases lines.len(),
{
    if lines.len() == 0 {
        0
    } else {
        count_kind(lines.drop_last(), kind) + if lines.last().kind == kind {
            1nat
        } else {
            0nat
        }
    }
}

pub proof fn lemma_count_concat(a: Seq<LineModel>, b: Seq<LineModel>, kind: DiffLineKind)
    ensures
        count_kind(a + b, kind) == count_kind(a, kind) + count_kind(b, kind),
    decreases b.len(),
{
    if b.len() == 0 {
        assert(a + b =~= a);
    } else {
        assert((a + b).drop_last() =~= a + b.drop_last());
        lemma_count_concat(a, b.drop_last(), kind);
    }
}

pub proof fn lemma_count_le(lines: Seq<LineModel>)
    ensures
        count_kind(lines, DiffLineKind::Add) + count_kind(lines, DiffLineKind::Del) <= lines.len(),
    decreases lines.len(),
{
    if lines.len() > 0 {
        lemma_count_le(lines.drop_last());
    }
}

proof fn lemma_count_run(
    run: DiffLineKind,
    tokens: Seq<Seq<u8>>,
    from: int,
    to: int,
    kind: DiffLineKind,
)
    requires
        from <= to,
    ensures
        count_kind(token_run(run, tokens, from, to), kind) == if run == kind {
            (to - from) as nat
        } else {
            0
        },
    decreases to - from,
{
    if from < to {
        lemma_count_run(run, tokens, from, to - 1, kind);
        assert(token_run(run, tokens, from, to).drop_last() =~= token_run(
            run,
            tokens,
            from,
            to - 1,
        ));
    }
}

proof fn lemma_count_script(
    before: Seq<Seq<u8>>,
    after: Seq<Seq<u8>>,
    hunks: Seq<Hunk>,
    k: int,
    j: int,
    cursor: int,
    end: int,
)
    requires
        is_edit_script(before, after, hunks),
        0 <= k <= j <= hunks.len(),
        cursor <= gap_stop(hunks, k, before.len() as int),
        gap_start(hunks, j) <= end,
        k == j ==> cursor <= end,
    ensures
        count_kind(
            script_lines(before, after, hunks, k, j, cursor, end),
            DiffLineKind::Add,
        ) == added(hunks, k, j),
        count_kind(
            script_lines(before, after, hunks, k, j, cursor, end),
            DiffLineKind::Del,
        ) == removed(hunks, k, j),
    decreases j - k,
{
    if k == j {
        lemma_count_run(DiffLineKind::Context, before, cursor, end, DiffLineKind::Add);
        lemma_count_run(DiffLineKind::Context, before, cursor, end, DiffLineKind::Del);
    } else {
        let h = hunks[k];
        let b0 = h.before_start as int;
        let b1 = h.before_end as int;
        let a0 = h.after_start as int;
        let a1 = h.after_end as int;
        let keep = token_run(DiffLineKind::Context, before, cursor, b0);
        let gone = token_run(DiffLineKind::Del, before, b0, b1);
        let come = token_run(DiffLineKind::Add, after, a0, a1);
        let rest = script_lines(before, after, hunks, k + 1, j, b1, end);
        assert(hunk_fits(before, after, hunks, k));
        if k + 1 < hunks.len() {
            assert(hunk_fits(before, after, hunks, k + 1));
        }
        lemma_count_script(before, after, hunks, k + 1, j, b1, end);
        lemma_count_run(DiffLineKind::Context, before, cursor, b0, DiffLineKind::Add);
        lemma_count_run(DiffLineKind::Context, before, cursor, b0, DiffLineKind::Del);
        lemma_count_run(DiffLineKind::Del, before, b0, b1, DiffLineKind::Add);
        lemma_count_run(DiffLineKind::Del, before, b0, b1, DiffLineKind::Del);
        lemma_count_run(DiffLineKind::Add, after, a0, a1, DiffLineKind::Add);
        lemma_count_run(DiffLineKind::Add, after, a0, a1, DiffLineKind::Del);
        lemma_count_concat(keep, gone, DiffLineKind::Add);
        lemma_count_concat(keep, gone, DiffLineKind::Del);
        lemma_count_concat(keep + gone, come, DiffLineKind::Add);
        lemma_count_concat(keep + gone, come, DiffLineKind::Del);
        lemma_count_concat(keep + gone + come, rest, DiffLineKind::Add);
        lemma_count_concat(keep + gone + come, rest, DiffLineKind::Del);
    }
}

pub proof fn lemma_count_full(before: Seq<Seq<u8>>, after: Seq<Seq<u8>>, hunks: Seq<Hunk>)
    requires
        is_edit_script(before, after, hunks),
    ensures
        count_kind(full_context_lines(before, after, hunks), DiffLineKind::Add) == added(
            hunks,
            0,
            hunks.len() as int,
        ),
        count_kind(full_context_lines(before, after, hunks), DiffLineKind::Del) == removed(
            hunks,
            0,
            hunks.len() as int,
        ),
{
    let n = hunks.len() as int;
    if n > 0 {
        assert(hunk_fits(before, after, hunks, n - 1));
    }
    lemma_count_script(before, after, hunks, 0, n, 0, before.len() as int);
}

pub proof fn lemma_count_unified(
    before: Seq<Seq<u8>>,
    after: Seq<Seq<u8>>,
    hunks: Seq<Hunk>,
    i: int,
)
    requires
        is_edit_script(before, after, hunks),
        0 <= i <= hunks.len(),
    ensures
        count_kind(unified_lines(before, after, hunks, i), DiffLineKind::Add) == added(
            hunks,
            i,
            hunks.len() as int,
        ),
        count_kind(unified_lines(before, after, hunks, i), DiffLineKind::Del) == removed(
            hunks,
            i,
            hunks.len() as int,
        ),
    decreases hunks.len() - i,
{
    if i < hunks.len() {
        let j = group_end(hunks, i);
        lemma_group_end(hunks, i);
        lemma_count_unified(before, after, hunks, j);
        lemma_counts(before, after, hunks, i, j);
        assert(hunk_fits(before, after, hunks, i));
        assert(hunk_fits(before, after, hunks, j - 1));
        let head = seq![line(DiffLineKind::HunkHeader, group_header(before, after, hunks, i, j))];
        let mid = group_lines(before, after, hunks, i, j);
        let rest = unified_lines(before, after, hunks, j);
        lemma_count_script(
            before,
            after,
            hunks,
            i,
            j,
            context_start(hunks[i].before_start as int),
            context_stop(hunks[j - 1].before_end as int, before.len() as int),
        );
        assert(head.drop_last() =~= Seq::empty());
        reveal_with_fuel(count_kind, 2);
        lemma_count_concat(head, mid, DiffLineKind::Add);
        lemma_count_concat(head, mid, DiffLineKind::Del);
        lemma_count_concat(head + mid, rest, DiffLineKind::Add);
        lemma_count_concat(head + mid, rest, DiffLineKind::Del);
    }
}

/// The number in front of the first `stop` in `text`, and what follows the `stop`.
pub open spec fn read_number(text: Seq<char>, stop: char) -> (nat, Seq<char>) {
    let at = first_of(text, stop) as int;
    (number_in(text.take(at)), text.skip(at + 1))
}

/// The four numbers of a hunk header, in the order in which they stand in it.
pub open spec fn read_header(text: Seq<char>) -> (nat, nat, nat, nat) {
    let a = read_number(text.skip(4), ',');
    let b = read_number(a.1, ' ');
    let c = read_number(b.1.skip(1), ',');
    let d = read_number(c.1, ' ');
    (a.0, b.0, c.0, d.0)
}

proof fn lemma_read_number(digits: Seq<char>, stop: char, rest: Seq<char>)
    requires
        is_digits(digits),
        stop == ',' || stop == ' ',
    ensures
        read_number(digits + seq![stop] + rest, stop) == (number_in(digits), rest),
{
    let text = digits + seq![stop] + rest;
    assert forall|j: int| 0 <= j < digits.len() implies text[j] != stop by {
        assert(text[j] == digits[j]);
    }
    lemma_first_of_at(text, stop, digits.len());
    assert(text.take(digits.len() as int) =~= digits);
    assert(text.skip(digits.len() as int + 1) =~= rest);
}

/// The four numbers of a header read back: the first line of each side, counted from one and
/// nought for a side without lines, and the number of lines of each side, the old side first.
pub proof fn law_the_numbers_of_a_header_read_back(or_start: nat, or_len: nat, nr_start: nat, nr_len: nat)
    ensures
        read_header(hunk_header(or_start, or_len, nr_start, nr_len)) == (
            if or_len == 0 {
                0nat
            } else {
                or_start + 1
            },
            or_len,
            if nr_len == 0 {
                0nat
            } else {
                nr_start + 1
            },
            nr_len,
        ),
        hunk_header(or_start, or_len, nr_start, nr_len).take(4) == seq!['@', '@', ' ', '-'],
{
    reveal_strlit("@@ -");
    reveal_strlit(",");
    reveal_strlit(" +");
    reveal_strlit(" @@");
    let text = hunk_header(or_start, or_len, nr_start, nr_len);
    let a = if or_len == 0 {
        0nat
    } else {
        or_start + 1
    };
    let c = if nr_len == 0 {
        0nat
    } else {
        nr_start + 1
    };
    law_decimals_read_back(a);
    law_decimals_read_back(or_len);
    law_decimals_read_back(c);
    law_decimals_read_back(nr_len);
    let end = seq!['@', '@'];
    let r3 = decimal(nr_len) + seq![' '] + end;
    let r2 = decimal(c) + seq![','] + r3;
    let r1 = decimal(or_len) + seq![' '] + (seq!['+'] + r2);
    let r0 = decimal(a) + seq![','] + r1;
    assert(text.skip(4) =~= r0);
    assert(text.take(4) =~= seq!['@', '@', ' ', '-']);
    lemma_read_number(decimal(a), ',', r1);
    lemma_read_number(decimal(or_len), ' ', seq!['+'] + r2);
    assert((seq!['+'] + r2).skip(1) =~= r2);
    lemma_read_number(decimal(c), ',', r3);
    lemma_read_number(decimal(nr_len), ' ', end);
}

/// The header of a group of hunks says where the group starts and how long it is, for each
/// file by itself: reading its numbers gives the number of the group's first line, counted
/// from one, and of how many lines of that file the group consists. The group shows those
/// lines of the two files, from three lines in front of its first change to three lines
/// behind its last one, or to the end of the file. An empty stretch starts at zero.
pub proof fn law_headers_name_the_lines_of_each_file(
    before: Seq<Seq<u8>>,
    after: Seq<Seq<u8>>,
    hunks: Seq<Hunk>,
    i: int,
)
    requires
        is_edit_script(before, after, hunks),
        0 <= i < hunks.len(),
        i > 0 ==> hunks[i].before_start - hunks[i - 1].before_end > 6,
    ensures
        ({
            let j = group_end(hunks, i);
            let first = hunks[i];
            let last = hunks[j - 1];
            let b0 = max(first.before_start - 3, 0);
            let b1 = min(last.before_end + 3, before.len() as int);
            let a0 = max(first.after_start - 3, 0);
            let a1 = min(last.after_end + 3, after.len() as int);
            let text = group_header(before, after, hunks, i, j);
            let shown = group_lines(before, after, hunks, i, j);
            &&& read_header(text) == (
                if b0 == b1 {
                    0nat
                } else {
                    (b0 + 1) as nat
                },
                (b1 - b0) as nat,
                if a0 == a1 {
                    0nat
                } else {
                    (a0 + 1) as nat
                },
                (a1 - a0) as nat,
            )
            &&& text.take(4) == seq!['@', '@', ' ', '-']
            &&& old_side(shown) == token_texts(before, b0, b1)
            &&& new_side(shown) == token_texts(after, a0, a1)
            &&& a1 - b1 - (a0 - b0) == added(hunks, i, j) - removed(hunks, i, j)
        }),
{
    let j = group_end(hunks, i);
    law_group_matches_its_header(before, after, hunks, i);
    lemma_group_end(hunks, i);
    lemma_group_gap(hunks, i);
    lemma_counts(before, after, hunks, i, j);
    assert(hunk_fits(before, after, hunks, i));
    assert(hunk_fits(before, after, hunks, j - 1));
    if j < hunks.len() {
        assert(hunk_fits(before, after, hunks, j));
    }
    lemma_net(before, after, hunks, i, j);
    lemma_counts(before, after, hunks, i + 1, j);
    let b0 = context_start(hunks[i].before_start as int);
    let b1 = context_stop(hunks[j - 1].before_end as int, before.len() as int);
    let a0 = context_start(hunks[i].after_start as int);
    let a1 = context_stop(hunks[j - 1].after_end as int, after.len() as int);
    law_the_numbers_of_a_header_read_back(b0 as nat, (b1 - b0) as nat, a0 as nat, (a1 - a0) as nat);
    assert(a0 - b0 == shift(hunks, i));
    assert(a1 - b1 == shift(hunks, j));
}

proof fn lemma_net(
    before: Seq<Seq<u8>>,
    after: Seq<Seq<u8>>,
    hunks: Seq<Hunk>,
    i: int,
    j: int,
)
    requires
        is_edit_script(before, after, hunks),
        0 <= i <= j <= hunks.len(),
    ensures
        shift(hunks, j) - shift(hunks, i) == added(hunks, i, j) - removed(hunks, i, j),
    decreases j - i,
{
    if i < j {
        assert(hunk_fits(before, after, hunks, i));
        lemma_net(before, after, hunks, i + 1, j);
    }
}

/// The pieces, one behind the other.
pub open spec fn joined_bytes(pieces: Seq<Seq<u8>>) -> Seq<u8>
    decreases pieces.len(),
{
    if pieces.len() == 0 {
        Seq::empty()
    } else {
        pieces[0] + joined_bytes(pieces.drop_first())
    }
}

/// The lines of a file make up the file, without loss. Each holds something, a line feed
/// stands only at the end of a line, and every line but the last ends in one.
pub proof fn law_lines_make_up_the_file(b: Seq<u8>)
    ensures
        joined_bytes(byte_lines(b)) == b,
        forall|i: int| 0 <= i < byte_lines(b).len() ==> (#[trigger] byte_lines(b)[i]).len() > 0,
        forall|i: int, k: int|
            0 <= i < byte_lines(b).len() && 0 <= k < byte_lines(b)[i].len() - 1
                ==> #[trigger] byte_lines(b)[i][k] != 10,
        forall|i: int|
            0 <= i < byte_lines(b).len() - 1 ==> (#[trigger] byte_lines(b)[i]).last() == 10,
    decreases b.len(),
{
    let lines = byte_lines(b);
    if b.len() == 0 {
        assert(joined_bytes(lines) =~= b);
    } else {
        lemma_first_from(b, 10u8, 0);
        let at = first_of(b, 10u8) as int;
        if at < b.len() {
            let rest = byte_lines(b.skip(at + 1));
            law_lines_make_up_the_file(b.skip(at + 1));
            assert(lines.drop_first() =~= rest);
            assert(joined_bytes(lines) =~= b);
            assert forall|i: int| 1 <= i < lines.len() implies #[trigger] lines[i] == rest[i
                - 1] by {}
        } else {
            assert(lines.drop_first() =~= Seq::empty());
            assert(joined_bytes(lines.drop_first()) =~= Seq::empty());
            assert(joined_bytes(lines) =~= b);
        }
    }
}

/// What is shown of a line is the line without the line feed at its end, if it has one, and
/// whole otherwise.
pub proof fn law_a_line_is_shown_without_its_line_feed(content: Seq<u8>)
    requires
        !content.contains(10u8),
    ensures
        strip_newline(content) == content,
        strip_newline(content.push(10u8)) == content,
{
    if content.len() > 0 {
        assert(content.contains(content.last()));
    }
    assert(content.push(10u8).drop_last() =~= content);
}

/// Hunks that lie no more than six lines apart share a group, and only those.
pub proof fn law_groups_are_kept_apart(hunks: Seq<Hunk>, i: int)
    requires
        0 <= i < hunks.len(),
    ensures
        i < group_end(hunks, i) <= hunks.len(),
        forall|k: int|
            i < k < group_end(hunks, i) ==> (#[trigger] hunks[k]).before_start - hunks[k
                - 1].before_end <= 6,
        group_end(hunks, i) < hunks.len() ==> hunks[group_end(hunks, i)].before_start
            - hunks[group_end(hunks, i) - 1].before_end > 6,
    decreases hunks.len() - i,
{
    if i + 1 < hunks.len() && hunks[i + 1].before_start - hunks[i].before_end <= 2
        * HUNK_CONTEXT_LEN {
        law_groups_are_kept_apart(hunks, i + 1);
    }
}

/// Around a hunk come the unchanged lines in front of it, then the lines that go, then those
/// that come in their place, each with the text of its file.
pub proof fn law_deleted_lines_stand_before_added_ones(
    before: Seq<Seq<u8>>,
    after: Seq<Seq<u8>>,
    hunks: Seq<Hunk>,
    k: int,
    j: int,
    cursor: int,
    end: int,
)
    requires
        is_edit_script(before, after, hunks),
        0 <= k < j <= hunks.len(),
        0 <= cursor <= hunks[k].before_start,
    ensures
        ({
            let h = hunks[k];
            let shown = script_lines(before, after, hunks, k, j, cursor, end);
            let d = h.before_start - cursor;
            let a = h.before_end - cursor;
            let e = a + (h.after_end - h.after_start);
            &&& e <= shown.len()
            &&& forall|x: int|
                0 <= x < d ==> (#[trigger] shown[x]).kind == DiffLineKind::Context && shown[x].text
                    == lossy_text(strip_newline(before[cursor + x]))
            &&& forall|x: int|
                d <= x < a ==> (#[trigger] shown[x]).kind == DiffLineKind::Del && shown[x].text
                    == lossy_text(strip_newline(before[cursor + x]))
            &&& forall|x: int|
                a <= x < e ==> (#[trigger] shown[x]).kind == DiffLineKind::Add && shown[x].text
                    == lossy_text(strip_newline(after[h.after_start + (x - a)]))
        }),
{
    assert(hunk_fits(before, after, hunks, k));
}

/// A unified diff starts with a header and a group, and goes on with the next group; there is
/// nothing else in it.
pub proof fn law_a_unified_diff_is_headed_groups(
    before: Seq<Seq<u8>>,
    after: Seq<Seq<u8>>,
    hunks: Seq<Hunk>,
    i: int,
)
    requires
        is_edit_script(before, after, hunks),
        0 <= i < hunks.len(),
    ensures
        ({
            let all = unified_lines(before, after, hunks, i);
            let j = group_end(hunks, i);
            let group = group_lines(before, after, hunks, i, j);
            &&& all[0].kind == DiffLineKind::HunkHeader
            &&& all[0].text == group_header(before, after, hunks, i, j)
            &&& all.subrange(1, 1 + group.len() as int) == group
            &&& all.skip(1 + group.len() as int) == unified_lines(before, after, hunks, j)
        }),
        unified_lines(before, after, hunks, hunks.len() as int).len() == 0,
{
    let all = unified_lines(before, after, hunks, i);
    let j = group_end(hunks, i);
    let group = group_lines(before, after, hunks, i, j);
    lemma_group_end(hunks, i);
    assert(all.subrange(1, 1 + group.len() as int) =~= group);
    assert(all.skip(1 + group.len() as int) =~= unified_lines(before, after, hunks, j));
}

/// A diff adds as many lines more than it removes as the new file has lines more than the old.
pub proof fn law_a_diff_accounts_for_the_difference_in_length(
    before: Seq<Seq<u8>>,
    after: Seq<Seq<u8>>,
    hunks: Seq<Hunk>,
)
    requires
        is_edit_script(before, after, hunks),
    ensures
        ({
            let shown = unified_lines(before, after, hunks, 0);
            count_kind(shown, DiffLineKind::Add) - count_kind(shown, DiffLineKind::Del)
                == after.len() - before.len()
        }),
{
    lemma_count_unified(before, after, hunks, 0);
    lemma_net(before, after, hunks, 0, hunks.len() as int);
}

/// What a line shows stands in the file that it is said to come from: a line that goes or
/// stays in the old file, and one that comes in the new file.
pub open spec fn from_its_file(before: Seq<Seq<u8>>, after: Seq<Seq<u8>>, l: LineModel) -> bool {
    &&& l.kind == DiffLineKind::Del || l.kind == DiffLineKind::Context ==> token_texts(
        before,
        0,
        before.len() as int,
    ).contains(l.text)
    &&& l.kind == DiffLineKind::Add ==> token_texts(after, 0, after.len() as int).contains(l.text)
    &&& l.kind == DiffLineKind::Del || l.kind == DiffLineKind::Context || l.kind
        == DiffLineKind::Add || l.kind == DiffLineKind::HunkHeader
}

proof fn lemma_run_from_its_file(
    before: Seq<Seq<u8>>,
    after: Seq<Seq<u8>>,
    kind: DiffLineKind,
    tokens: Seq<Seq<u8>>,
    from: int,
    to: int,
)
    requires
        0 <= from <= to <= tokens.len(),
        kind == DiffLineKind::Add && tokens == after || (kind == DiffLineKind::Del || kind
            == DiffLineKind::Context) && tokens == before,
    ensures
        forall|i: int|
            0 <= i < to - from ==> from_its_file(
                before,
                after,
                #[trigger] token_run(kind, tokens, from, to)[i],
            ),
{
    let shown = token_run(kind, tokens, from, to);
    let texts = token_texts(tokens, 0, tokens.len() as int);
    assert forall|i: int| 0 <= i < to - from implies from_its_file(
        before,
        after,
        #[trigger] shown[i],
    ) by {
        assert(texts[from + i] == shown[i].text);
    }
}

proof fn lemma_script_from_its_file(
    before: Seq<Seq<u8>>,
    after: Seq<Seq<u8>>,
    hunks: Seq<Hunk>,
    k: int,
    j: int,
    cursor: int,
    end: int,
)
    requires
        is_edit_script(before, after, hunks),
        0 <= k <= j <= hunks.len(),
        0 <= cursor <= end <= before.len(),
        k < j ==> cursor <= hunks[k].before_start,
        k < j ==> hunks[j - 1].before_end <= end,
    ensures
        forall|i: int|
            0 <= i < script_lines(before, after, hunks, k, j, cursor, end).len() ==> from_its_file(
                before,
                after,
                #[trigger] script_lines(before, after, hunks, k, j, cursor, end)[i],
            ),
    decreases j - k,
{
    if k >= j {
        lemma_run_from_its_file(before, after, DiffLineKind::Context, before, cursor, end);
    } else {
        let h = hunks[k];
        assert(hunk_fits(before, after, hunks, k));
        assert(hunk_fits(before, after, hunks, j - 1));
        if k + 1 < j {
            assert(hunk_fits(before, after, hunks, k + 1));
        }
        lemma_counts(before, after, hunks, k + 1, j);
        lemma_run_from_its_file(
            before,
            after,
            DiffLineKind::Context,
            before,
            cursor,
            h.before_start as int,
        );
        lemma_run_from_its_file(
            before,
            after,
            DiffLineKind::Del,
            before,
            h.before_start as int,
            h.before_end as int,
        );
        lemma_run_from_its_file(
            before,
            after,
            DiffLineKind::Add,
            after,
            h.after_start as int,
            h.after_end as int,
        );
        lemma_script_from_its_file(before, after, hunks, k + 1, j, h.before_end as int, end);
        let all = script_lines(before, after, hunks, k, j, cursor, end);
        let a = token_run(DiffLineKind::Context, before, cursor, h.before_start as int);
        let b = token_run(
            DiffLineKind::Del,
            before,
            h.before_start as int,
            h.before_end as int,
        );
        let c = token_run(DiffLineKind::Add, after, h.after_start as int, h.after_end as int);
        let d = script_lines(before, after, hunks, k + 1, j, h.before_end as int, end);
        assert forall|i: int| 0 <= i < all.len() implies from_its_file(
            before,
            after,
            #[trigger] all[i],
        ) by {
            if i < a.len() {
                assert(all[i] == a[i]);
            } else if i < a.len() + b.len() {
                assert(all[i] == b[i - a.len()]);
            } else if i < a.len() + b.len() + c.len() {
                assert(all[i] == c[i - a.len() - b.len()]);
            } else {
                assert(all[i] == d[i - a.len() - b.len() - c.len()]);
            }
        }
    }
}

/// Every line of a unified diff but the headers stands in the file that it is said to come
/// from.
pub proof fn law_lines_come_from_their_file(
    before: Seq<Seq<u8>>,
    after: Seq<Seq<u8>>,
    hunks: Seq<Hunk>,
    i: int,
)
    requires
        is_edit_script(before, after, hunks),
        0 <= i <= hunks.len(),
    ensures
        forall|x: int|
            0 <= x < unified_lines(before, after, hunks, i).len() ==> from_its_file(
                before,
                after,
                #[trigger] unified_lines(before, after, hunks, i)[x],
            ),
    decreases hunks.len() - i,
{
    if i < hunks.len() {
        let j = group_end(hunks, i);
        lemma_group_end(hunks, i);
        assert(hunk_fits(before, after, hunks, i));
        assert(hunk_fits(before, after, hunks, j - 1));
        lemma_counts(before, after, hunks, i, j);
        lemma_counts(before, after, hunks, i + 1, j);
        lemma_script_from_its_file(
            before,
            after,
            hunks,
            i,
            j,
            context_start(hunks[i].before_start as int),
            context_stop(hunks[j - 1].before_end as int, before.len() as int),
        );
        law_lines_come_from_their_file(before, after, hunks, j);
        let all = unified_lines(before, after, hunks, i);
        let group = group_lines(before, after, hunks, i, j);
        let rest = unified_lines(before, after, hunks, j);
        assert forall|x: int| 0 <= x < all.len() implies from_its_file(
            before,
            after,
            #[trigger] all[x],
        ) by {
            if x == 0 {
                assert(all[x].kind == DiffLineKind::HunkHeader);
            } else if x < 1 + group.len() {
                assert(all[x] == group[x - 1]);
            } else {
                assert(all[x] == rest[x - 1 - group.len()]);
            }
        }
    }
}

/// A diff neither adds more lines than the new file has nor removes more than the old has.
pub proof fn lemma_counts_fit(before: Seq<Seq<u8>>, after: Seq<Seq<u8>>, hunks: Seq<Hunk>)
    requires
        is_edit_script(before, after, hunks),
    ensures
        0 <= added(hunks, 0, hunks.len() as int) <= after.len(),
        0 <= removed(hunks, 0, hunks.len() as int) <= before.len(),
{
    let n = hunks.len() as int;
    lemma_counts(before, after, hunks, 0, n);
    if n > 0 {
        assert(hunk_fits(before, after, hunks, n - 1));
    }
}

} // verus!
