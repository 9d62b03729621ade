//! The diff pane.

use crate::app::cells::{
    cells_text, end_cell, end_view, first_selected, last_selected, lemma_selected_order,
    selected_range, start_cell,
};
use crate::app::state::{sat, smaller, DiffModel, RowModel};
use crate::app::{App, AppModel, DiffState, LogRow};
use crate::model::{DiffDocument, DiffFlags, DiffTarget};
use crate::text::{chars_of, decimal, lower_text, push_decimal};
use crate::ui::diffstat::{append_diffstat, diffstat, holds_index, push_line};
use crate::ui::format::{plural, push_number, push_plural, right_aligned};
use crate::ui::highlight::{
    highlight_matches_in_span, law_highlighting_keeps_the_text, lemma_joined_piece, marked, piece,
    push_piece,
};
use crate::ui::style::{
    colored, diff_line_to_ratatui, joined, law_spans_are_read_one_behind_the_other, no_spans, on,
    plain, push_copies, push_span, shown, single, span, Color, Span, SpanModel, Style, StyledLine,
    StyledModel,
};
use vstd::prelude::*;
use vstd::string::StringExecFns;

verus! {

/// The color behind selected text.
pub open spec fn selection_color() -> Color {
    Color::Rgb(40, 65, 110)
}

/// The style of a match: the current one stands out among the others.
pub open spec fn match_style(current: bool) -> Style {
    if current {
        on(Color::Yellow, Color::Black)
    } else {
        on(Color::Rgb(100, 80, 0), Color::White)
    }
}

/// The style of a match.
pub(crate) fn style_of_match(current: bool) -> (r: Style)
    ensures
        r == match_style(current),
{
    if current {
        Style::bg_fg(Color::Yellow, Color::Black)
    } else {
        Style::bg_fg(Color::Rgb(100, 80, 0), Color::White)
    }
}

/// The first `to` spans with the matches of `q` marked in them.
pub open spec fn marked_all(spans: Seq<SpanModel>, q: Seq<char>, mark: Style, to: int) -> Seq<
    SpanModel,
>
    decreases to,
{
    if to <= 0 {
        Seq::empty()
    } else {
        marked_all(spans, q, mark, to - 1) + marked(spans[to - 1], q, mark)
    }
}

/// A selected style: the color behind it is that of the selection, unless it has one.
pub open spec fn selected_style(style: Style) -> Style {
    Style {
        bg: if style.bg is Some {
            style.bg
        } else {
            Some(selection_color())
        },
        ..style
    }
}

/// A span that starts at cell `at`, with the cells from `start` to before `end` selected.
pub open spec fn selected_span(s: SpanModel, at: int, start: int, end: Option<int>) -> Seq<
    SpanModel,
> {
    let n = s.content.len() as int;
    match (
        first_selected(s.content, at, start, end, 0),
        last_selected(s.content, at, start, end, n),
    ) {
        (Some(a), Some(b)) => piece(s.content, 0, a, s.style) + piece(
            s.content,
            a,
            b + 1,
            selected_style(s.style),
        ) + piece(s.content, b + 1, n, s.style),
        _ => seq![s],
    }
}

/// The cell behind the first `to` spans of a line.
pub open spec fn cell_behind(spans: Seq<SpanModel>, to: int) -> int
    decreases to,
{
    if to <= 0 {
        0
    } else {
        let s = spans[to - 1].content;
        start_cell(s, cell_behind(spans, to - 1), s.len() as int)
    }
}

/// The first `to` spans of a line, with the cells from `start` to before `end` selected.
pub open spec fn selected_spans(
    spans: Seq<SpanModel>,
    start: int,
    end: Option<int>,
    to: int,
) -> Seq<SpanModel>
    decreases to,
{
    if to <= 0 {
        Seq::empty()
    } else {
        selected_spans(spans, start, end, to - 1) + selected_span(
            spans[to - 1],
            cell_behind(spans, to - 1),
            start,
            end,
        )
    }
}

impl DiffModel {
    /// The match set of the picker's filter, if it has one.
    pub open spec fn picker_found(self) -> Option<Seq<usize>> {
        if self.file_picker is Some && self.picker_filter.query.len() > 0 {
            Some(self.picker_filter.matches)
        } else {
            None
        }
    }

    /// Line `idx` as it is without search and selection.
    pub open spec fn base_line(self, idx: int) -> StyledModel {
        let none = StyledModel { spans: Seq::empty(), style: plain() };
        match self.document {
            Some(d) => {
                let header = d.header.len() as int;
                let body = self.body_offset();
                let rows = diffstat(d.files, d.stats, self.file_picker, self.picker_found());
                if idx < header {
                    shown(d.header[idx])
                } else if idx < body {
                    if idx - header < rows.len() {
                        rows[idx - header]
                    } else {
                        none
                    }
                } else if idx - body < d.body.len() {
                    shown(d.body[idx - body])
                } else {
                    none
                }
            },
            None => none,
        }
    }

    /// The line number in front of line `idx`.
    pub open spec fn number(self, idx: int) -> Seq<SpanModel> {
        if self.show_line_numbers {
            seq![
                span(
                    right_aligned(decimal(sat(idx + 1) as nat), 4) + " "@,
                    colored(Color::DarkGray),
                ),
            ]
        } else {
            Seq::empty()
        }
    }

    /// Whether line `idx` is the current match.
    pub open spec fn is_current(self, idx: int) -> bool {
        0 <= self.search.current < self.search.matches.len()
            && self.search.matches[self.search.current] == idx
    }

    /// Line `idx`, with its number and with matches and selection marked.
    pub open spec fn row(self, idx: int) -> StyledModel {
        let base = self.base_line(idx);
        let q = lower_text(self.search.query);
        let text = if q.len() > 0 && self.search.matches.contains(idx as usize) {
            marked_all(
                base.spans,
                q,
                match_style(self.is_current(idx)),
                base.spans.len() as int,
            )
        } else {
            base.spans
        };
        let spans = self.number(idx) + text;
        let cells = match self.selection {
            Some(sel) => sel.cells(idx),
            None => None,
        };
        StyledModel {
            spans: match cells {
                Some((start, end)) => selected_spans(spans, start, end, spans.len() as int),
                None => spans,
            },
            style: base.style,
        }
    }

    /// The lines that a pane of `height` lines shows. `bare` says that the log has no rows.
    pub open spec fn rows_shown(self, height: int, bare: bool) -> Seq<StyledModel> {
        if self.document is None {
            seq![
                single(
                    if self.loading {
                        "Loading diff..."@
                    } else if bare {
                        "Select a commit to view diff"@
                    } else {
                        "No diff available"@
                    },
                    colored(Color::Gray),
                ),
            ]
        } else if self.total_lines() == 0 {
            Seq::empty()
        } else {
            let top = smaller(self.scroll, self.total_lines() - 1);
            let end = smaller(sat(top + height), self.total_lines());
            Seq::new((end - top) as nat, |i: int| self.row(top + i))
        }
    }
}

fn mark_all(spans: &Vec<Span>, q: &str, mark: Style) -> (r: Vec<Span>)
    ensures
        r.deep_view() == marked_all(spans.deep_view(), q@, mark, spans@.len() as int),
{
    let ghost all = spans.deep_view();
    let mut out: Vec<Span> = no_spans();
    let mut i: usize = 0;
    while i < spans.len()
        invariant
            i <= spans@.len(),
            all == spans.deep_view(),
            out.deep_view() == marked_all(all, q@, mark, i as int),
        decreases spans@.len() - i,
    {
        assert(all[i as int] == spans@[i as int]@);
        highlight_matches_in_span(&mut out, spans[i].clone(), q, mark);
        i += 1;
    }
    out
}

fn select_span(out: &mut Vec<Span>, s: &Span, at: usize, start: usize, end: Option<usize>)
    ensures
        final(out).deep_view() == old(out).deep_view() + selected_span(
            s@,
            at as int,
            start as int,
            end_view(end),
        ),
{
    let ghost before = out.deep_view();
    let chars: Vec<char> = chars_of(s.content.as_str());
    if let Some((from, to)) = selected_range(&chars, at, start, end) {
        let style = Style {
            bg: if s.style.bg.is_some() {
                s.style.bg
            } else {
                Some(Color::Rgb(40, 65, 110))
            },
            ..s.style
        };
        push_piece(out, &chars, 0, from, s.style);
        push_piece(out, &chars, from, to, style);
        push_piece(out, &chars, to, chars.len(), s.style);
    } else {
        push_span(out, s.content.clone(), s.style);
    }
    assert(out.deep_view() =~= before + selected_span(
        s@,
        at as int,
        start as int,
        end_view(end),
    ));
}

fn select_spans(spans: &Vec<Span>, start: usize, end: Option<usize>) -> (r: Vec<Span>)
    ensures
        r.deep_view() == selected_spans(
            spans.deep_view(),
            start as int,
            end_view(end),
            spans@.len() as int,
        ),
{
    let ghost all = spans.deep_view();
    let mut out: Vec<Span> = no_spans();
    let mut at: usize = 0;
    let mut i: usize = 0;
    while i < spans.len()
        invariant
            i <= spans@.len(),
            all == spans.deep_view(),
            at == cell_behind(all, i as int),
            out.deep_view() == selected_spans(all, start as int, end_view(end), i as int),
        decreases spans@.len() - i,
    {
        assert(all[i as int] == spans@[i as int]@);
        select_span(&mut out, &spans[i], at, start, end);
        at = end_cell(spans[i].content.as_str(), at);
        i += 1;
    }
    out
}

fn stat_lines(diff: &DiffState, d: &DiffDocument) -> (r: Vec<StyledLine>)
    ensures
        r.deep_view() == diffstat(
            d@.files,
            d@.stats,
            diff@.file_picker,
            diff@.picker_found(),
        ),
{
    let mut out: Vec<StyledLine> = Vec::new();
    assert(out.deep_view() =~= Seq::empty());
    let found: Option<&Vec<usize>> = if diff.file_picker.is_some()
        && !diff.picker_filter.query.as_str().is_empty() {
        Some(&diff.picker_filter.matches)
    } else {
        None
    };
    append_diffstat(&mut out, &d.files, &d.stats, diff.file_picker, found);
    assert(out.deep_view() =~= diffstat(
        d@.files,
        d@.stats,
        diff@.file_picker,
        diff@.picker_found(),
    ));
    out
}

impl DiffState {
    fn plain_line(&self, stat: &Vec<StyledLine>, idx: usize) -> (r: StyledLine)
        requires
            self@.document matches Some(d) ==> stat.deep_view() == diffstat(
                d.files,
                d.stats,
                self@.file_picker,
                self@.picker_found(),
            ),
        ensures
            r@ == self@.base_line(idx as int),
    {
        if let Some(d) = &self.document {
            let header: usize = d.header.len();
            let body: usize = self.body_offset();
            if idx < header {
                assert(d@.header[idx as int] == d.header@[idx as int]@);
                return diff_line_to_ratatui(&d.header[idx]);
            }
            if idx < body {
                if idx - header < stat.len() {
                    let row: &StyledLine = &stat[idx - header];
                    assert(stat.deep_view()[idx - header] == row@);
                    let mut spans: Vec<Span> = no_spans();
                    push_copies(&mut spans, &row.spans);
                    assert(spans.deep_view() =~= row@.spans);
                    return StyledLine { spans, style: row.style };
                }
            } else if idx - body < d.body.len() {
                assert(d@.body[idx - body] == d.body@[idx - body]@);
                return diff_line_to_ratatui(&d.body[idx - body]);
            }
        }
        StyledLine { spans: no_spans(), style: Style::new() }
    }

    fn push_line_number(&self, out: &mut Vec<Span>, idx: usize)
        ensures
            final(out).deep_view() == old(out).deep_view() + self@.number(idx as int),
    {
        let ghost before = out.deep_view();
        if self.show_line_numbers {
            let mut text: String = String::new();
            push_number(&mut text, idx.saturating_add(1), 4);
            text.append(" ");
            assert(text@ =~= right_aligned(decimal(sat(idx + 1) as nat), 4) + " "@);
            push_span(out, text, Style::fg(Color::DarkGray));
        }
        assert(out.deep_view() =~= before + self@.number(idx as int));
    }

    fn current_line(&self, idx: usize) -> (r: bool)
        ensures
            r == self@.is_current(idx as int),
    {
        match self.search.current_pos() {
            Some(pos) => pos == idx,
            None => false,
        }
    }

    fn line_spans(&self, base: Vec<Span>, q: &str, idx: usize) -> (r: Vec<Span>)
        requires
            q@ == lower_text(self@.search.query),
        ensures
            r.deep_view() == self@.number(idx as int) + (if q@.len() > 0
                && self@.search.matches.contains(idx) {
                marked_all(
                    base.deep_view(),
                    q@,
                    match_style(self@.is_current(idx as int)),
                    base@.len() as int,
                )
            } else {
                base.deep_view()
            }),
    {
        let mut spans: Vec<Span> = no_spans();
        self.push_line_number(&mut spans, idx);
        let ghost front = spans.deep_view();
        assert(front =~= self@.number(idx as int));
        if !q.is_empty() && holds_index(&self.search.matches, idx) {
            let found: Vec<Span> = mark_all(&base, q, style_of_match(self.current_line(idx)));
            push_copies(&mut spans, &found);
        } else {
            push_copies(&mut spans, &base);
        }
        spans
    }

    fn row_line(&self, stat: &Vec<StyledLine>, q: &str, idx: usize) -> (r: StyledLine)
        requires
            q@ == lower_text(self@.search.query),
            self@.document matches Some(d) ==> stat.deep_view() == diffstat(
                d.files,
                d.stats,
                self@.file_picker,
                self@.picker_found(),
            ),
        ensures
            r@ == self@.row(idx as int),
    {
        let base: StyledLine = self.plain_line(stat, idx);
        let style: Style = base.style;
        let spans: Vec<Span> = self.line_spans(base.spans, q, idx);
        let range: Option<(usize, Option<usize>)> = match &self.selection {
            Some(sel) => sel.cells_on_line(idx),
            None => None,
        };
        match range {
            Some((start, end)) => {
                assert(self@.selection->0.cells(idx as int) == Some(
                    (start as int, end_view(end)),
                ));
                StyledLine { spans: select_spans(&spans, start, end), style }
            },
            None => StyledLine { spans, style },
        }
    }

    fn message(&self, bare: bool) -> (r: StyledLine)
        ensures
            self@.document is None ==> seq![r@] == self@.rows_shown(0, bare),
    {
        let text: &str = if self.loading {
            "Loading diff..."
        } else if bare {
            "Select a commit to view diff"
        } else {
            "No diff available"
        };
        StyledLine::styled(text.to_owned(), Style::fg(Color::Gray))
    }

    /// The lines that a pane of `height` lines shows. `bare` says that the log has no rows.
    pub fn lines_shown(&self, height: usize, bare: bool) -> (r: Vec<StyledLine>)
        ensures
            r.deep_view() == self@.rows_shown(height as int, bare),
    {
        let mut out: Vec<StyledLine> = Vec::new();
        assert(out.deep_view() =~= Seq::empty());
        let stat: Vec<StyledLine> = match &self.document {
            Some(d) => stat_lines(self, d),
            None => {
                push_line(&mut out, self.message(bare));
                assert(out.deep_view() =~= self@.rows_shown(height as int, bare));
                return out;
            },
        };
        let total: usize = self.total_visible_lines();
        if total == 0 {
            return out;
        }
        let top: usize = if self.scroll < total {
            self.scroll
        } else {
            total - 1
        };
        let below: usize = top.saturating_add(height);
        let end: usize = if below <= total {
            below
        } else {
            total
        };
        let q: String = self.search.query.as_str().to_lowercase();
        let ghost all = self@.rows_shown(height as int, bare);
        let mut idx: usize = top;
        assert(all.take(0) =~= Seq::empty());
        while idx < end
            invariant
                top <= idx <= end,
                q@ == lower_text(self@.search.query),
                self@.document matches Some(d) ==> stat.deep_view() == diffstat(
                    d.files,
                    d.stats,
                    self@.file_picker,
                    self@.picker_found(),
                ),
                all.len() == end - top,
                forall|i: int| 0 <= i < all.len() ==> #[trigger] all[i] == self@.row(top + i),
                out.deep_view() == all.take(idx - top),
            decreases end - idx,
        {
            let l: StyledLine = self.row_line(&stat, q.as_str(), idx);
            push_line(&mut out, l);
            assert(all.take(idx - top + 1) =~= all.take(idx - top).push(all[idx - top]));
            idx += 1;
        }
        assert(all.take(all.len() as int) =~= all);
        out
    }
}

/// What the title says of a diff that was cut short.
pub open spec fn cut_note(flags: DiffFlags) -> Seq<char> {
    let binary = decimal(flags.skipped_binary_files as nat) + " binary"@;
    let large = decimal(flags.skipped_large_files as nat) + " large"@;
    if !flags.truncated {
        ""@
    } else if flags.skipped_binary_files > 0 && flags.skipped_large_files > 0 {
        "  [truncated: "@ + binary + ", "@ + large + "]"@
    } else if flags.skipped_binary_files > 0 {
        "  [truncated: "@ + binary + "]"@
    } else if flags.skipped_large_files > 0 {
        "  [truncated: "@ + large + "]"@
    } else {
        "  [truncated]"@
    }
}

/// What the title says of a diff that was cut short; nothing for one that was not.
pub fn truncation_tag(flags: &DiffFlags) -> (r: String)
    ensures
        r@ == cut_note(*flags),
{
    if !flags.truncated {
        return "".to_owned();
    }
    let binary: bool = flags.skipped_binary_files > 0;
    let large: bool = flags.skipped_large_files > 0;
    if !binary && !large {
        return "  [truncated]".to_owned();
    }
    let mut out: String = "  [truncated: ".to_owned();
    if binary {
        push_decimal(&mut out, flags.skipped_binary_files as u64);
        out.append(" binary");
    }
    if binary && large {
        out.append(", ");
    }
    if large {
        push_decimal(&mut out, flags.skipped_large_files as u64);
        out.append(" large");
    }
    out.append("]");
    assert(out@ =~= cut_note(*flags));
    out
}

impl AppModel {
    /// What the diff pane is named after.
    pub open spec fn diff_label(self) -> Seq<char> {
        match self.diff.target {
            Some(DiffTarget::WorkingTree) => "Working Tree"@,
            Some(DiffTarget::Staged) => "Staged"@,
            _ => if 0 <= self.log.selected < self.log.rows.len() {
                match self.log.rows[self.log.selected] {
                    RowModel::Commit(c) => c.short_id,
                    _ => "commit"@,
                }
            } else {
                "commit"@
            },
        }
    }

    /// What the title says while hunks are hidden.
    pub open spec fn mode_note(self) -> Seq<char> {
        if self.diff.show_hunks {
            ""@
        } else {
            "  [summary]"@
        }
    }

    /// What the title says while a commit diff keeps to the path filter.
    pub open spec fn scope_tag(self) -> Seq<char> {
        match (self.diff.target, self.path_filter) {
            (Some(DiffTarget::Commit(_)), Some(path)) => if self.diff.scoped {
                "  [only "@ + path + "]"@
            } else {
                ""@
            },
            _ => ""@,
        }
    }

    /// The title of the diff pane.
    #[verifier::opaque]
    pub open spec fn diff_title_text(self) -> Seq<char> {
        match (self.diff.target, self.diff.document) {
            (None, _) => " Diff "@,
            (Some(_), None) => " Diff: "@ + self.diff_label() + self.mode_note()
                + self.scope_tag() + " "@,
            (Some(_), Some(d)) => if self.diff.file_view_return is Some && d.files.len() > 0 {
                " Diff: "@ + self.diff_label() + "  —  "@ + d.files[0].path + "  +"@ + decimal(
                    d.stats.insertions as nat,
                ) + "  -"@ + decimal(d.stats.deletions as nat) + "  [file]"@ + cut_note(d.flags)
                    + " "@
            } else {
                " Diff: "@ + self.diff_label() + "  "@ + decimal(d.stats.files as nat) + " file"@
                    + plural(d.stats.files as int) + " changed  +"@ + decimal(
                    d.stats.insertions as nat,
                ) + "  -"@ + decimal(d.stats.deletions as nat) + self.mode_note()
                    + self.scope_tag() + cut_note(d.flags) + " "@
            },
        }
    }
}

fn push_label(out: &mut String, app: &App)
    ensures
        final(out)@ == old(out)@ + app@.diff_label(),
{
    match app.diff.target {
        Some(DiffTarget::WorkingTree) => {
            out.append("Working Tree");
        },
        Some(DiffTarget::Staged) => {
            out.append("Staged");
        },
        _ => {
            if app.log.selected < app.log.rows.len() {
                assert(app@.log.rows[app.log.selected as int]
                    == app.log.rows@[app.log.selected as int]@);
                match &app.log.rows[app.log.selected] {
                    LogRow::Commit(c) => {
                        out.append(c.short_id.as_str());
                    },
                    _ => {
                        out.append("commit");
                    },
                }
            } else {
                out.append("commit");
            }
        },
    }
}

fn push_mode_note(out: &mut String, app: &App)
    ensures
        final(out)@ == old(out)@ + app@.mode_note(),
{
    if app.diff.show_hunks {
        out.append("");
    } else {
        out.append("  [summary]");
    }
}

fn push_scope_tag(out: &mut String, app: &App)
    ensures
        final(out)@ == old(out)@ + app@.scope_tag(),
{
    let ghost before = out@;
    match (&app.diff.target, &app.path_filter) {
        (Some(DiffTarget::Commit(_)), Some(path)) => {
            if app.diff.scoped {
                out.append("  [only ");
                out.append(path.as_str());
                out.append("]");
            } else {
                out.append("");
            }
        },
        _ => {
            out.append("");
        },
    }
    assert(out@ =~= before + app@.scope_tag());
}

/// The title of the diff pane.
pub fn diff_title(app: &App) -> (r: String)
    ensures
        r@ == app@.diff_title_text(),
{
    proof {
        reveal(AppModel::diff_title_text);
    }
    if app.diff.target.is_none() {
        return " Diff ".to_owned();
    }
    let mut out: String = " Diff: ".to_owned();
    push_label(&mut out, app);
    match &app.diff.document {
        None => {
            push_mode_note(&mut out, app);
            push_scope_tag(&mut out, app);
        },
        Some(d) => {
            let tag: String = truncation_tag(&d.flags);
            if app.diff.file_view_return.is_some() && d.files.len() > 0 {
                assert(d@.files[0] == d.files@[0]@);
                out.append("  —  ");
                out.append(d.files[0].path.as_str());
                out.append("  +");
                push_decimal(&mut out, d.stats.insertions as u64);
                out.append("  -");
                push_decimal(&mut out, d.stats.deletions as u64);
                out.append("  [file]");
            } else {
                out.append("  ");
                push_decimal(&mut out, d.stats.files as u64);
                out.append(" file");
                push_plural(&mut out, d.stats.files);
                out.append(" changed  +");
                push_decimal(&mut out, d.stats.insertions as u64);
                out.append("  -");
                push_decimal(&mut out, d.stats.deletions as u64);
                push_mode_note(&mut out, app);
                push_scope_tag(&mut out, app);
            }
            out.append(tag.as_str());
        },
    }
    out.append(" ");
    out
}

/// What is marked of a text as selected is what a selection of the same cells copies.
pub proof fn law_marked_text_is_copied(s: SpanModel, at: int, start: int, end: Option<int>)
    requires
        cells_text(s.content, at, start, end).len() > 0,
    ensures
        exists|i: int|
            0 <= i < selected_span(s, at, start, end).len() && (#[trigger] selected_span(
                s,
                at,
                start,
                end,
            )[i]) == span(cells_text(s.content, at, start, end), selected_style(s.style)),
{
    lemma_selected_order(s.content, at, start, end, 0, s.content.len() as int);
    let a = first_selected(s.content, at, start, end, 0)->0;
    let b = last_selected(s.content, at, start, end, s.content.len() as int)->0;
    let front = piece(s.content, 0, a, s.style);
    let got = selected_span(s, at, start, end);
    assert(got[front.len() as int] == span(
        s.content.subrange(a, b + 1),
        selected_style(s.style),
    ));
}

/// A line reads the same whether or not parts of it are marked as matches.
pub proof fn law_marking_matches_keeps_the_text(
    spans: Seq<SpanModel>,
    q: Seq<char>,
    mark: Style,
    to: int,
)
    requires
        0 <= to <= spans.len(),
    ensures
        joined(marked_all(spans, q, mark, to)) == joined(spans.take(to)),
    decreases to,
{
    if to > 0 {
        law_marking_matches_keeps_the_text(spans, q, mark, to - 1);
        law_highlighting_keeps_the_text(spans[to - 1], q, mark);
        law_spans_are_read_one_behind_the_other(
            marked_all(spans, q, mark, to - 1),
            marked(spans[to - 1], q, mark),
        );
        assert(spans.take(to).drop_last() =~= spans.take(to - 1));
    } else {
        assert(spans.take(to) =~= Seq::empty());
    }
}

proof fn lemma_selected_span_reads(s: SpanModel, at: int, start: int, end: Option<int>)
    ensures
        joined(selected_span(s, at, start, end)) == s.content,
{
    let n = s.content.len() as int;
    let first = first_selected(s.content, at, start, end, 0);
    let last = last_selected(s.content, at, start, end, n);
    if first is Some && last is Some {
        lemma_selected_order(s.content, at, start, end, 0, n);
        let a = first->0;
        let b = last->0;
        let p = piece(s.content, 0, a, s.style);
        let q = piece(s.content, a, b + 1, selected_style(s.style));
        let r = piece(s.content, b + 1, n, s.style);
        lemma_joined_piece(s.content, 0, a, s.style);
        lemma_joined_piece(s.content, a, b + 1, selected_style(s.style));
        lemma_joined_piece(s.content, b + 1, n, s.style);
        law_spans_are_read_one_behind_the_other(p, q);
        law_spans_are_read_one_behind_the_other(p + q, r);
        assert(joined(p + q + r) =~= s.content);
    } else {
        reveal_with_fuel(joined, 2);
        assert(seq![s].drop_last() =~= Seq::empty());
        assert(joined(seq![s]) =~= s.content);
    }
}

/// A line reads the same whether or not parts of it are selected.
pub proof fn law_selecting_keeps_the_text(
    spans: Seq<SpanModel>,
    start: int,
    end: Option<int>,
    to: int,
)
    requires
        0 <= to <= spans.len(),
    ensures
        joined(selected_spans(spans, start, end, to)) == joined(spans.take(to)),
    decreases to,
{
    if to > 0 {
        law_selecting_keeps_the_text(spans, start, end, to - 1);
        let at = cell_behind(spans, to - 1);
        lemma_selected_span_reads(spans[to - 1], at, start, end);
        law_spans_are_read_one_behind_the_other(
            selected_spans(spans, start, end, to - 1),
            selected_span(spans[to - 1], at, start, end),
        );
        assert(spans.take(to).drop_last() =~= spans.take(to - 1));
    } else {
        assert(spans.take(to) =~= Seq::empty());
    }
}

/// A row of the pane reads as the number of the line, if numbers are shown, and then the line
/// itself, whatever is marked or selected in it.
pub proof fn law_a_row_reads_as_its_line(m: DiffModel, idx: int)
    requires
        0 <= idx < usize::MAX,
    ensures
        m.show_line_numbers ==> joined(m.row(idx).spans) == right_aligned(
            decimal((idx + 1) as nat),
            4,
        ) + seq![' '] + joined(m.base_line(idx).spans),
        !m.show_line_numbers ==> joined(m.row(idx).spans) == joined(m.base_line(idx).spans),
{
    reveal_strlit(" ");
    let base = m.base_line(idx).spans;
    let q = lower_text(m.search.query);
    let mark = match_style(m.is_current(idx));
    let text = if q.len() > 0 && m.search.matches.contains(idx as usize) {
        marked_all(base, q, mark, base.len() as int)
    } else {
        base
    };
    law_marking_matches_keeps_the_text(base, q, mark, base.len() as int);
    assert(base.take(base.len() as int) =~= base);
    let number = m.number(idx);
    let spans = number + text;
    law_spans_are_read_one_behind_the_other(number, text);
    assert(spans.take(spans.len() as int) =~= spans);
    if let Some(sel) = m.selection {
        if let Some((start, end)) = sel.cells(idx) {
            law_selecting_keeps_the_text(spans, start, end, spans.len() as int);
        }
    }
    reveal_with_fuel(joined, 2);
    if m.show_line_numbers {
        assert(number.drop_last() =~= Seq::empty());
        assert(joined(number) =~= right_aligned(decimal((idx + 1) as nat), 4) + seq![' ']);
    } else {
        assert(joined(number) =~= Seq::empty());
        assert(joined(number) + joined(text) =~= joined(text));
    }
}

/// The lines of the pane are those of the header, then the diffstat, then the body.
pub proof fn law_the_pane_shows_header_stat_and_body(m: DiffModel, k: int)
    requires
        m.document is Some,
        0 <= k,
        m.document->0.header.len() + m.document->0.files.len() + 3 + m.document->0.body.len()
            <= usize::MAX,
    ensures
        ({
            let d = m.document->0;
            &&& k < d.header.len() ==> m.base_line(k) == shown(d.header[k])
            &&& d.files.len() > 0 && k < d.files.len() + 3 ==> m.base_line(d.header.len() + k)
                == diffstat(d.files, d.stats, m.file_picker, m.picker_found())[k]
            &&& k < d.body.len() ==> m.base_line(m.body_offset() + k) == shown(d.body[k])
        }),
{
}

/// The rows shown are those from the line scrolled to, in order, as many as there are and fit.
pub proof fn law_rows_are_shown_from_the_scroll(m: DiffModel, height: int, bare: bool, i: int)
    requires
        m.document is Some,
        0 <= m.scroll < m.total_lines(),
        0 <= i < height,
        m.scroll + height <= usize::MAX,
        m.scroll + i < m.total_lines(),
    ensures
        m.rows_shown(height, bare).len() == vstd::math::min(height, m.total_lines() - m.scroll),
        m.rows_shown(height, bare)[i] == m.row(m.scroll + i),
{
}

/// The current match looks different from the others, and a selection keeps the look of the
/// text but for the background, where the text has none of its own.
pub proof fn law_the_current_match_stands_out(style: Style)
    ensures
        match_style(true) == on(Color::Yellow, Color::Black),
        match_style(false) == on(Color::Rgb(100, 80, 0), Color::White),
        style.bg is None ==> selected_style(style).bg == Some(Color::Rgb(40, 65, 110)),
        match_style(true).bg is Some && match_style(false).bg is Some,
        selected_style(style).fg == style.fg,
        selected_style(style).bold == style.bold,
        selected_style(style).bg is Some,
        style.bg is Some ==> selected_style(style) == style,
{
}

/// The title says what was left out of a diff exactly if something was.
pub proof fn law_the_title_says_what_was_left_out(flags: DiffFlags)
    ensures
        !flags.truncated ==> cut_note(flags).len() == 0,
        flags.truncated ==> cut_note(flags).len() > 0,
        flags.truncated && flags.skipped_binary_files > 0 && flags.skipped_large_files == 0
            ==> cut_note(flags) == "  [truncated: "@ + (decimal(flags.skipped_binary_files as nat)
            + " binary"@) + "]"@,
        flags.truncated && flags.skipped_binary_files == 0 && flags.skipped_large_files > 0
            ==> cut_note(flags) == "  [truncated: "@ + (decimal(flags.skipped_large_files as nat)
            + " large"@) + "]"@,
        flags.truncated && flags.skipped_binary_files > 0 && flags.skipped_large_files > 0
            ==> cut_note(flags) == "  [truncated: "@ + (decimal(flags.skipped_binary_files as nat)
            + " binary"@) + ", "@ + (decimal(flags.skipped_large_files as nat) + " large"@)
            + "]"@,
{
    reveal_strlit("");
    reveal_strlit("  [truncated]");
    reveal_strlit("  [truncated: ");
}

/// The title names the path filter exactly if the diff of a commit is narrowed to it.
pub proof fn law_the_title_names_the_filter_in_force(m: AppModel)
    ensures
        m.diff.target matches Some(DiffTarget::Commit(_)) ==> (m.path_filter matches Some(path) ==> (
        m.diff.scoped ==> m.scope_tag() == "  [only "@ + path + "]"@) && (!m.diff.scoped
            ==> m.scope_tag().len() == 0)),
        m.path_filter is None ==> m.scope_tag().len() == 0,
        m.diff.target == Some(DiffTarget::WorkingTree) ==> m.scope_tag().len() == 0
            && m.diff_label() == "Working Tree"@,
        m.diff.target == Some(DiffTarget::Staged) ==> m.scope_tag().len() == 0 && m.diff_label()
            == "Staged"@,
        m.diff.show_hunks ==> m.mode_note().len() == 0,
        !m.diff.show_hunks ==> m.mode_note() == "  [summary]"@,
{
    reveal_strlit("");
}

/// The title of a diff counts its files and the lines added and deleted, in this order.
pub proof fn law_the_title_counts_files_and_lines(m: AppModel)
    requires
        m.diff.target is Some,
        m.diff.document is Some,
        m.diff.file_view_return is None,
    ensures
        ({
            let stats = m.diff.document->0.stats;
            m.diff_title_text() == " Diff: "@ + m.diff_label() + "  "@ + decimal(stats.files as nat)
                + " file"@ + plural(stats.files as int) + " changed  +"@ + decimal(
                stats.insertions as nat,
            ) + "  -"@ + decimal(stats.deletions as nat) + m.mode_note() + m.scope_tag()
                + cut_note(m.diff.document->0.flags) + " "@
        }),
{
    reveal(AppModel::diff_title_text);
}

/// A pane without a document says whether one is coming, and what to do if none was asked for;
/// an empty document shows nothing.
pub proof fn law_a_pane_without_a_document_says_why(m: DiffModel, height: int, bare: bool)
    ensures
        m.document is None ==> m.rows_shown(height, bare).len() == 1,
        m.document is None && m.loading ==> m.rows_shown(height, bare)[0].spans[0].content
            == "Loading diff..."@,
        m.document is None && !m.loading && bare ==> m.rows_shown(height, bare)[0].spans[0].content
            == "Select a commit to view diff"@,
        m.document is None && !m.loading && !bare ==> m.rows_shown(height, bare)[0].spans[0].content
            == "No diff available"@,
        m.document is Some && m.total_lines() == 0 ==> m.rows_shown(height, bare).len() == 0,
{
}

/// The label of a diff names its commit by the selected row, and the titles of the single-file
/// view and of a diff that is still to come start with it.
pub proof fn law_the_label_names_the_commit(m: AppModel)
    ensures
        m.diff.target matches Some(DiffTarget::Commit(_)) ==> (0 <= m.log.selected
            < m.log.rows.len() ==> (m.log.rows[m.log.selected] matches RowModel::Commit(c)
            ==> m.diff_label() == c.short_id)),
        m.diff.target is None ==> m.diff_title_text() == " Diff "@,
        m.diff.target is Some && m.diff.document is None ==> m.diff_title_text() == " Diff: "@
            + m.diff_label() + m.mode_note() + m.scope_tag() + " "@,
        m.diff.target is Some && m.diff.file_view_return is Some ==> (
        m.diff.document matches Some(d) ==> (d.files.len() > 0 ==> m.diff_title_text()
            == " Diff: "@ + m.diff_label() + "  —  "@ + d.files[0].path + "  +"@ + decimal(
            d.stats.insertions as nat,
        ) + "  -"@ + decimal(d.stats.deletions as nat) + "  [file]"@ + cut_note(d.flags) + " "@)),
{
    reveal(AppModel::diff_title_text);
}

} // verus!
