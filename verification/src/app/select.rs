//! Text selection in the diff pane: what text its lines show, and what a
//! selection copies.

use crate::app::cells::{
    cells_text, end_cell, end_view, slice_by_cells, start_cell, word_cells_at, word_span,
};
use crate::app::state::{at_or_before, larger, less, sat, smaller, DiffModel};
use crate::app::{DiffSelection, DiffState, Rect};
use crate::model::{DiffDocument, DiffLine, DiffLineKind, DocumentModel};
use crate::text::{chars_of, decimal, trim_end_white, trim_white_end};
use crate::ui::diffstat::{append_diffstat, diffstat};
use crate::ui::format::decimal_text;
use crate::ui::style::{joined, Span, StyledLine};
use vstd::prelude::*;
use vstd::string::StringExecFns;

verus! {

/// Columns of the line number in front of line `idx`, and of the blank behind it.
pub open spec fn gutter(show: bool, idx: int) -> int {
    if show {
        larger(decimal(sat(idx + 1) as nat).len() as int, 4) + 1
    } else {
        0
    }
}

/// Columns of the mark in front of a line.
pub open spec fn mark_cells(kind: DiffLineKind) -> int {
    match kind {
        DiffLineKind::Add => 1,
        DiffLineKind::Del => 1,
        DiffLineKind::Context => 1,
        _ => 0,
    }
}

/// The texts of the diffstat of a document, without the blanks at their ends.
pub open spec fn diffstat_texts(d: DocumentModel) -> Seq<Seq<char>> {
    let rows = diffstat(d.files, d.stats, None, None);
    Seq::new(rows.len(), |i: int| trim_white_end(joined(rows[i].spans)))
}

impl DiffModel {
    /// The text of line `idx`, without line number and mark, and the cell it starts at.
    pub open spec fn line_text(self, idx: int) -> Option<(Seq<char>, int)> {
        match self.document {
            Some(d) => {
                let at = gutter(self.show_line_numbers, idx);
                let header = d.header.len() as int;
                let body = self.body_offset();
                if idx < header {
                    Some((d.header[idx].text, at + mark_cells(d.header[idx].kind)))
                } else if idx < body {
                    if idx - header < diffstat_texts(d).len() {
                        Some((diffstat_texts(d)[idx - header], at))
                    } else {
                        None
                    }
                } else if idx - body < d.body.len() {
                    Some((d.body[idx - body].text, at + mark_cells(d.body[idx - body].kind)))
                } else {
                    None
                }
            },
            None => None,
        }
    }

    /// The cells of the word at cell `cell` of line `idx`.
    pub open spec fn word_cells(self, idx: int, cell: int) -> Option<(int, int)> {
        match self.line_text(idx) {
            Some((text, at)) => word_span(text, at, cell),
            None => None,
        }
    }

    /// The cells of the whole of line `idx`.
    pub open spec fn line_cells(self, idx: int) -> Option<(int, int)> {
        match self.line_text(idx) {
            Some((text, at)) => Some((0, less(start_cell(text, at, text.len() as int), 1))),
            None => None,
        }
    }

    /// The selected text of line `idx`.
    pub open spec fn selected_on(self, sel: DiffSelection, idx: int) -> Seq<char> {
        match (self.line_text(idx), sel.cells(idx)) {
            (Some((text, at)), Some((start, end))) => cells_text(text, at, start, end),
            _ => Seq::empty(),
        }
    }

    /// The selected text of the lines from `first` to before `to`, one line each.
    pub open spec fn selected_lines(self, sel: DiffSelection, first: int, to: int) -> Seq<char>
        decreases to - first,
    {
        if to <= first {
            Seq::empty()
        } else {
            self.selected_lines(sel, first, to - 1) + (if to - 1 > first {
                seq!['\n']
            } else {
                Seq::empty()
            }) + self.selected_on(sel, to - 1)
        }
    }

    /// The text from place `lo` to place `hi`, both included.
    pub open spec fn text_between(self, lo: (usize, usize), hi: (usize, usize)) -> Seq<char> {
        let total = self.total_lines();
        let last = if hi.0 < total {
            hi
        } else {
            ((total - 1) as usize, (usize::MAX - 1) as usize)
        };
        if self.document is None || total == 0 || !at_or_before(lo, last) {
            Seq::empty()
        } else {
            self.selected_lines(
                DiffSelection { anchor: lo, cursor: last, dragging: false, moved: true },
                lo.0 as int,
                last.0 + 1,
            )
        }
    }

    /// The line shown on screen row `row`, if the pane's inside is `inner`.
    pub open spec fn line_on(self, inner: Rect, row: int) -> int {
        let last = self.total_lines() - 1;
        smaller(sat(smaller(self.scroll, last) + less(row, inner.y as int)), last)
    }

    /// The cell shown in screen column `column`, if the pane's inside is `inner`.
    pub open spec fn cell_in(self, inner: Rect, column: int) -> int {
        sat(self.horizontal_scroll + less(column, inner.x as int))
    }
}

fn gutter_cells(show: bool, idx: usize) -> (r: usize)
    ensures
        r == gutter(show, idx as int),
        r <= usize::MAX - 1,
{
    if !show {
        return 0;
    }
    let digits: String = decimal_text(idx.saturating_add(1));
    let count: usize = chars_of(digits.as_str()).len();
    proof {
        reveal_with_fuel(tens, 21);
        lemma_decimal_len(digits@, sat(idx + 1) as nat, 20);
    }
    if count > 4 {
        count + 1
    } else {
        5
    }
}

proof fn lemma_decimal_len(text: Seq<char>, n: nat, digits: nat)
    requires
        text == decimal(n),
        digits > 0,
        n < tens(digits),
    ensures
        text.len() <= digits,
    decreases digits,
{
    if n >= 10 {
        reveal_with_fuel(tens, 2);
        lemma_decimal_len(decimal(n / 10), n / 10, (digits - 1) as nat);
    }
}

/// Ten to the power of `n`.
spec fn tens(n: nat) -> nat
    decreases n,
{
    if n == 0 {
        1
    } else {
        10 * tens((n - 1) as nat)
    }
}

fn mark_of(kind: DiffLineKind) -> (r: usize)
    ensures
        r == mark_cells(kind),
        r <= 1,
{
    match kind {
        DiffLineKind::Add => 1,
        DiffLineKind::Del => 1,
        DiffLineKind::Context => 1,
        _ => 0,
    }
}

fn join_spans(spans: &Vec<Span>) -> (r: String)
    ensures
        r@ == joined(spans.deep_view()),
{
    let ghost all = spans.deep_view();
    let mut out: String = String::new();
    let mut i: usize = 0;
    assert(all.take(0) =~= Seq::empty());
    while i < spans.len()
        invariant
            i <= spans@.len(),
            all == spans.deep_view(),
            out@ == joined(all.take(i as int)),
        decreases spans@.len() - i,
    {
        out.append(spans[i].content.as_str());
        proof {
            assert(all.take(i + 1).drop_last() =~= all.take(i as int));
            assert(all.take(i + 1).last() == spans@[i as int]@);
        }
        i += 1;
    }
    assert(all.take(all.len() as int) =~= all);
    out
}

fn diffstat_texts_of(doc: &DiffDocument) -> (r: Vec<String>)
    ensures
        r.deep_view() == diffstat_texts(doc@),
{
    let mut rows: Vec<StyledLine> = Vec::new();
    assert(rows.deep_view() =~= Seq::empty());
    append_diffstat(&mut rows, &doc.files, &doc.stats, None, None);
    let ghost all = rows.deep_view();
    assert(all =~= diffstat(doc@.files, doc@.stats, None, None));
    let mut out: Vec<String> = Vec::new();
    let mut i: usize = 0;
    while i < rows.len()
        invariant
            i <= rows@.len(),
            all == rows.deep_view(),
            out@.len() == i,
            forall|k: int|
                0 <= k < i ==> (#[trigger] out@[k])@ == trim_white_end(joined(all[k].spans)),
        decreases rows@.len() - i,
    {
        assert(all[i as int] == rows@[i as int]@);
        let text: String = join_spans(&rows[i].spans);
        out.push(trim_end_white(text.as_str()));
        i += 1;
    }
    assert(out.deep_view() =~= diffstat_texts(doc@));
    out
}

/// What a line of the pane says, and where.
pub struct LineText {
    pub text: String,
    pub cell: usize,
}

/// The view of an optional line text.
pub open spec fn line_text_view(t: Option<LineText>) -> Option<(Seq<char>, int)> {
    match t {
        Some(l) => Some((l.text@, l.cell as int)),
        None => None,
    }
}

fn text_of_line(l: &DiffLine, gutter_width: usize) -> (r: LineText)
    requires
        gutter_width <= usize::MAX - 1,
    ensures
        r.text@ == l@.text,
        r.cell == gutter_width + mark_cells(l@.kind),
{
    LineText { text: l.text.clone(), cell: gutter_width + mark_of(l.kind) }
}

impl DiffState {
    fn line_with(&self, stat: &Vec<String>, idx: usize) -> (r: Option<LineText>)
        requires
            self@.document matches Some(d) ==> self@.header_lines() <= idx < self@.body_offset()
                ==> stat.deep_view() == diffstat_texts(d),
        ensures
            line_text_view(r) == self@.line_text(idx as int),
    {
        let doc: &DiffDocument = match &self.document {
            Some(d) => d,
            None => {
                return None;
            },
        };
        let at: usize = gutter_cells(self.show_line_numbers, idx);
        let header: usize = doc.header.len();
        let body: usize = self.body_offset();
        if idx < header {
            assert(doc@.header[idx as int] == doc.header@[idx as int]@);
            Some(text_of_line(&doc.header[idx], at))
        } else if idx < body {
            if idx - header < stat.len() {
                assert(stat.deep_view()[idx - header] == stat@[idx - header]@);
                Some(LineText { text: stat[idx - header].clone(), cell: at })
            } else {
                None
            }
        } else if idx - body < doc.body.len() {
            assert(doc@.body[idx - body] == doc.body@[idx - body]@);
            Some(text_of_line(&doc.body[idx - body], at))
        } else {
            None
        }
    }

    /// The texts of the diffstat, if one of the lines from `first` to `last` belongs to it.
    fn stat_for(&self, first: usize, last: usize) -> (r: Vec<String>)
        ensures
            self@.document matches Some(d) ==> first < self@.body_offset() && last
                >= self@.header_lines() ==> r.deep_view() == diffstat_texts(d),
    {
        match &self.document {
            Some(d) => if first < self.body_offset() && last >= d.header.len() {
                diffstat_texts_of(d)
            } else {
                Vec::new()
            },
            None => Vec::new(),
        }
    }

    /// The text of line `idx`, and the cell it starts at.
    pub fn text_on_line(&self, idx: usize) -> (r: Option<LineText>)
        ensures
            line_text_view(r) == self@.line_text(idx as int),
    {
        let stat: Vec<String> = self.stat_for(idx, idx);
        self.line_with(&stat, idx)
    }

    /// The first and the last cell of the word at cell `cell` of line `idx`.
    pub fn diff_word_cells(&self, idx: usize, cell: usize) -> (r: Option<(usize, usize)>)
        ensures
            match (r, self@.word_cells(idx as int, cell as int)) {
                (Some((a, b)), Some((s, e))) => a == s && b == e,
                (None, None) => true,
                _ => false,
            },
    {
        match self.text_on_line(idx) {
            Some(l) => word_cells_at(l.text.as_str(), l.cell, cell),
            None => None,
        }
    }

    /// The first and the last cell of line `idx`.
    pub fn diff_line_cells(&self, idx: usize) -> (r: Option<(usize, usize)>)
        ensures
            match (r, self@.line_cells(idx as int)) {
                (Some((a, b)), Some((s, e))) => a == s && b == e,
                (None, None) => true,
                _ => false,
            },
    {
        match self.text_on_line(idx) {
            Some(l) => {
                let end: usize = end_cell(l.text.as_str(), l.cell);
                Some((0, end.saturating_sub(1)))
            },
            None => None,
        }
    }

    fn push_selected(&self, out: &mut String, stat: &Vec<String>, sel: &DiffSelection, idx: usize)
        requires
            self@.document matches Some(d) ==> self@.header_lines() <= idx < self@.body_offset()
                ==> stat.deep_view() == diffstat_texts(d),
        ensures
            final(out)@ == old(out)@ + self@.selected_on(*sel, idx as int),
    {
        let ghost before = out@;
        if let Some(l) = self.line_with(stat, idx) {
            if let Some((start, end)) = sel.cells_on_line(idx) {
                let piece: String = slice_by_cells(l.text.as_str(), l.cell, start, end);
                out.append(piece.as_str());
                assert(sel.cells(idx as int) == Some((start as int, end_view(end))));
            }
        }
        assert(out@ =~= before + self@.selected_on(*sel, idx as int));
    }

    /// The text from place `lo` to place `hi`, both included, without line numbers and marks.
    pub fn selection_text(&self, lo: (usize, usize), hi: (usize, usize)) -> (r: String)
        ensures
            r@ == self@.text_between(lo, hi),
    {
        let total: usize = self.total_visible_lines();
        if self.document.is_none() || total == 0 {
            return String::new();
        }
        let last: (usize, usize) = if hi.0 < total {
            hi
        } else {
            (total - 1, usize::MAX - 1)
        };
        if !(lo.0 < last.0 || (lo.0 == last.0 && lo.1 <= last.1)) {
            return String::new();
        }
        let sel = DiffSelection { anchor: lo, cursor: last, dragging: false, moved: true };
        let stat: Vec<String> = self.stat_for(lo.0, last.0);
        let first: usize = lo.0;
        let end: usize = last.0;
        let mut out: String = String::new();
        let mut idx: usize = first;
        while idx <= end
            invariant
                first <= idx <= end + 1,
                end < usize::MAX,
                self@.document matches Some(d) ==> first < self@.body_offset() && end
                    >= self@.header_lines() ==> stat.deep_view() == diffstat_texts(d),
                out@ == self@.selected_lines(sel, first as int, idx as int),
            decreases end + 1 - idx,
        {
            let ghost before = out@;
            if idx > first {
                out.push('\n');
            }
            assert(out@ =~= before + (if idx > first {
                seq!['\n']
            } else {
                Seq::empty()
            }));
            self.push_selected(&mut out, &stat, &sel, idx);
            idx += 1;
        }
        out
    }

    /// The line shown on screen row `row`.
    pub(crate) fn diff_line_at(&self, inner: Rect, row: u16) -> (r: usize)
        requires
            self@.total_lines() > 0,
        ensures
            r == self@.line_on(inner, row as int),
    {
        let last: usize = self.total_visible_lines() - 1;
        let top: usize = if self.scroll <= last {
            self.scroll
        } else {
            last
        };
        let down: usize = row.saturating_sub(inner.y) as usize;
        let at: usize = top.saturating_add(down);
        if at <= last {
            at
        } else {
            last
        }
    }

    /// The cell shown in screen column `column`.
    pub(crate) fn diff_cell_at(&self, inner: Rect, column: u16) -> (r: usize)
        ensures
            r == self@.cell_in(inner, column as int),
    {
        self.horizontal_scroll.saturating_add(column.saturating_sub(inner.x) as usize)
    }
}

/// The numbers in front of the lines take four columns or as many as the number has digits,
/// and one more; without numbers they take none. A line of a file has one more column for its
/// mark.
pub proof fn law_the_gutter_fits_the_number(idx: int, kind: DiffLineKind)
    requires
        0 <= idx < usize::MAX,
    ensures
        gutter(false, idx) == 0,
        gutter(true, idx) >= 5,
        gutter(true, idx) > decimal((idx + 1) as nat).len(),
        gutter(true, idx) == vstd::math::max(decimal((idx + 1) as nat).len() as int, 4) + 1,
        mark_cells(kind) == 1 <==> kind == DiffLineKind::Add || kind == DiffLineKind::Del || kind
            == DiffLineKind::Context,
        mark_cells(kind) == 0 || mark_cells(kind) == 1,
{
}

/// The lines of the pane are those of the header, then the diffstat, then the body; each
/// starts behind its number and its mark.
pub proof fn law_the_lines_of_the_pane(m: DiffModel, k: int)
    requires
        m.document is Some,
        0 <= k,
        m.document->0.header.len() + m.document->0.files.len() + 3 + m.document->0.body.len()
            <= usize::MAX,
        !m.show_line_numbers,
    ensures
        ({
            let d = m.document->0;
            &&& k < d.header.len() ==> m.line_text(k) == Some(
                (d.header[k].text, mark_cells(d.header[k].kind)),
            )
            &&& k < d.body.len() ==> m.line_text(m.body_offset() + k) == Some(
                (d.body[k].text, mark_cells(d.body[k].kind)),
            )
            &&& k >= d.body.len() ==> m.line_text(m.body_offset() + k) is None
        }),
{
}

/// The pointer is on the line that is as far below the first line shown as it is below the top
/// of the pane, and on the column that is as far from the first column shown as it is from the
/// left edge; below the last line it is on the last.
pub proof fn law_the_pointer_is_on_the_line_below_it(m: DiffModel, inner: Rect, dx: int, dy: int)
    requires
        0 <= dx,
        0 <= dy,
        0 <= m.scroll < m.total_lines(),
        0 <= m.horizontal_scroll,
        m.horizontal_scroll + dx <= usize::MAX,
        m.scroll + dy <= usize::MAX,
    ensures
        m.scroll + dy < m.total_lines() ==> m.line_on(inner, inner.y + dy) == m.scroll + dy,
        m.scroll + dy >= m.total_lines() ==> m.line_on(inner, inner.y + dy) == m.total_lines() - 1,
        m.cell_in(inner, inner.x + dx) == m.horizontal_scroll + dx,
{
}

/// What is selected on several lines is copied line by line, with a line feed between one line
/// and the next and none at the end.
pub proof fn law_selected_lines_are_joined_by_line_feeds(
    m: DiffModel,
    sel: DiffSelection,
    first: int,
    last: int,
)
    requires
        first < last,
    ensures
        m.selected_lines(sel, first, first + 1) == m.selected_on(sel, first),
        m.selected_lines(sel, first, last + 1) == m.selected_lines(sel, first, last).push('\n')
            + m.selected_on(sel, last),
{
    assert(m.selected_lines(sel, first, first) =~= Seq::empty());
    assert(m.selected_lines(sel, first, first + 1) =~= m.selected_on(sel, first));
    assert(m.selected_lines(sel, first, last + 1) =~= m.selected_lines(sel, first, last).push('\n')
        + m.selected_on(sel, last));
}

/// A selection within one line of the pane copies what it covers of that line.
pub proof fn law_a_selection_on_one_line_copies_from_it(m: DiffModel, idx: usize, a: usize, b: usize)
    requires
        m.document is Some,
        idx < m.total_lines(),
        a <= b,
    ensures
        ({
            let sel = DiffSelection {
                anchor: (idx, a),
                cursor: (idx, b),
                dragging: false,
                moved: true,
            };
            m.text_between((idx, a), (idx, b)) == m.selected_on(sel, idx as int)
        }),
{
    let sel = DiffSelection { anchor: (idx, a), cursor: (idx, b), dragging: false, moved: true };
    law_selected_lines_are_joined_by_line_feeds(m, sel, idx as int, idx + 1);
}

/// Without a document nothing can be copied. A selection that goes on below the last line ends
/// at the end of that line.
pub proof fn law_a_selection_ends_with_the_document(
    m: DiffModel,
    lo: (usize, usize),
    below: (usize, usize),
)
    requires
        lo.0 < m.total_lines() <= below.0,
        lo.1 < usize::MAX,
    ensures
        m.document is None ==> m.text_between(lo, below).len() == 0,
        m.document is Some ==> m.text_between(lo, below) == m.text_between(
            lo,
            ((m.total_lines() - 1) as usize, (usize::MAX - 1) as usize),
        ),
{
}

/// A place behind the end of a selection selects nothing.
pub proof fn law_a_selection_needs_its_places_in_order(
    m: DiffModel,
    lo: (usize, usize),
    hi: (usize, usize),
)
    requires
        hi.0 < m.total_lines(),
        hi.0 < lo.0 || hi.0 == lo.0 && hi.1 < lo.1,
    ensures
        m.text_between(lo, hi).len() == 0,
{
}

} // verus!
