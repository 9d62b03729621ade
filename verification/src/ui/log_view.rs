//! The log pane.

use crate::app::state::{less, opt_text, smaller, RowModel};
use crate::app::{App, AppModel, AuthorMode, DateMode, DisplayOptions, LogRow};
use crate::git::meta::utc_timestamp;
use crate::model::{CommitModel, CommitRecord, RefKind, RefLabel, RefLabelModel};
use crate::text::lower_text;
use crate::ui::diff_view::{match_style, style_of_match};
use crate::ui::diffstat::{holds_index, push_line};
use crate::ui::format::{padded, padded_text, push_repeated, repeated, truncate_chars, truncated};
use crate::ui::highlight::{
    highlight_matches_in_span, law_highlighting_keeps_the_text, marked,
};
use crate::ui::style::{
    bold, colored, joined, law_spans_are_read_one_behind_the_other, no_spans, plain, push_span,
    single, span, Color, Span, SpanModel, Style, StyledLine, StyledModel,
};
use chrono::TimeZone;
use vstd::prelude::*;
use vstd::string::StringExecFns;

verus! {

/// A time zone can be `offset` seconds ahead of UTC: it is less than a day.
pub open spec fn is_offset(offset: i32) -> bool {
    -86400 < offset < 86400
}

/// `chrono::Local`'s `timestamp_opt` for `secs` seconds after the epoch, and its `offset`: by
/// how many seconds the machine's time zone is ahead of UTC then, less than a day; `None`
/// where the calendar does not reach.
#[verifier::external_body]
fn zone_offset(secs: i64) -> (r: Option<i32>)
    ensures
        r is Some <==> utc_timestamp(secs) is Some,
        r matches Some(offset) ==> is_offset(offset),
{
    chrono::Local.timestamp_opt(secs, 0).single().map(|t| t.offset().local_minus_utc())
}

/// The text that `chrono` formats the time `secs` to, with year, month, day, hour and minute,
/// `offset` seconds ahead of UTC.
pub uninterp spec fn zoned_text(secs: i64, offset: i32) -> Seq<char>;

/// `chrono::FixedOffset`'s `timestamp_opt` for `secs` seconds after the epoch, formatted with
/// `%Y-%m-%d %H:%M`.
#[verifier::external_body]
fn zoned_time(secs: i64, offset: i32) -> (r: String)
    requires
        utc_timestamp(secs) is Some,
        is_offset(offset),
    ensures
        r@ == zoned_text(secs, offset),
{
    let zone = chrono::FixedOffset::east_opt(offset).unwrap();
    zone.timestamp_opt(secs, 0).unwrap().format("%Y-%m-%d %H:%M").to_string()
}

/// The time of day at `secs` seconds after the epoch, `offset` seconds ahead of UTC; `None`
/// where the calendar does not reach.
pub open spec fn time_of_day(secs: i64, offset: i32) -> Option<Seq<char>> {
    if utc_timestamp(secs) is Some {
        Some(zoned_text(secs, offset))
    } else {
        None
    }
}

/// The time of day at `secs` seconds after the epoch, in the machine's time zone.
fn local_time_text(secs: i64) -> (r: Option<String>)
    ensures
        exists|offset: i32|
            is_offset(offset) && opt_text(r) == #[trigger] time_of_day(secs, offset),
{
    match zone_offset(secs) {
        Some(offset) => {
            let text: String = zoned_time(secs, offset);
            assert(Some(text@) == time_of_day(secs, offset));
            Some(text)
        },
        None => {
            assert(None::<Seq<char>> == time_of_day(secs, 0));
            None
        },
    }
}

/// A time of day, if it is known.
pub open spec fn time_or_mark(time: Option<Seq<char>>) -> Seq<char> {
    match time {
        Some(t) => t,
        None => "?"@,
    }
}

/// The date column: the age, the time of day, or nothing if the column is off.
pub open spec fn date_column(
    display: DisplayOptions,
    relative: Seq<char>,
    time: Option<Seq<char>>,
) -> Option<Seq<char>> {
    match display.date {
        DateMode::Relative => Some(padded(relative, display.date.width() as int)),
        DateMode::Absolute => Some(padded(time_or_mark(time), display.date.width() as int)),
        DateMode::Off => None,
    }
}

/// The date column, if the time of day is `time`.
pub fn date_cell_at(display: DisplayOptions, relative: &str, time: Option<String>) -> (r: Option<
    String,
>)
    ensures
        opt_text(r) == date_column(
            display,
            relative@,
            opt_text(time),
        ),
{
    let width: usize = display.date.col_width();
    match display.date {
        DateMode::Relative => Some(padded_text(relative, width)),
        DateMode::Absolute => match time {
            Some(t) => Some(padded_text(t.as_str(), width)),
            None => Some(padded_text("?", width)),
        },
        DateMode::Off => None,
    }
}

/// The date column of a commit of `secs` seconds after the epoch, in the machine's time zone.
pub fn date_cell(display: DisplayOptions, secs: i64, relative: &str) -> (r: Option<String>)
    ensures
        exists|offset: i32|
            is_offset(offset) && opt_text(r) == date_column(
                display,
                relative@,
                #[trigger] time_of_day(secs, offset),
            ),
{
    let time: Option<String> = match display.date {
        DateMode::Absolute => local_time_text(secs),
        _ => None,
    };
    let ghost offset = if display.date is Absolute {
        choose|offset: i32|
            is_offset(offset) && opt_text(time) == #[trigger] time_of_day(secs, offset)
    } else {
        0
    };
    let r: Option<String> = date_cell_at(display, relative, time);
    assert(opt_text(r) == date_column(display, relative@, time_of_day(secs, offset)));
    r
}

/// The style of a label.
pub open spec fn label_style(kind: RefKind) -> Style {
    match kind {
        RefKind::Head => bold(Color::Cyan),
        RefKind::LocalBranch => colored(Color::Cyan),
        RefKind::RemoteBranch => colored(Color::Magenta),
        RefKind::Tag => colored(Color::Yellow),
    }
}

/// The style of a label.
pub(crate) fn style_of_label(kind: RefKind) -> (r: Style)
    ensures
        r == label_style(kind),
{
    match kind {
        RefKind::Head => Style::bold_fg(Color::Cyan),
        RefKind::LocalBranch => Style::fg(Color::Cyan),
        RefKind::RemoteBranch => Style::fg(Color::Magenta),
        RefKind::Tag => Style::fg(Color::Yellow),
    }
}

/// A blank between columns.
pub open spec fn gap() -> SpanModel {
    span(" "@, plain())
}

/// The graph column, if there is one.
pub open spec fn graph_spans(graph: Seq<char>) -> Seq<SpanModel> {
    if graph.len() > 0 {
        seq![span(graph + " "@, colored(Color::DarkGray))]
    } else {
        Seq::empty()
    }
}

/// The date column, if there is one.
pub open spec fn date_spans(date: Option<Seq<char>>) -> Seq<SpanModel> {
    match date {
        Some(d) => seq![span(d, colored(Color::Blue)), gap()],
        None => Seq::empty(),
    }
}

/// The author column, if there is one, as a span.
pub open spec fn author_span(display: DisplayOptions, author: Seq<char>) -> SpanModel {
    let w = display.author.width() as int;
    span(padded(truncated(author, w), w), colored(Color::Green))
}

/// The author column of a commit, if there is one.
pub open spec fn author_spans(
    display: DisplayOptions,
    author: Seq<char>,
    q: Seq<char>,
    mark: Style,
) -> Seq<SpanModel> {
    if display.author.width() > 0 {
        marked(author_span(display, author), q, mark).push(gap())
    } else {
        Seq::empty()
    }
}

/// The first `to` labels.
pub open spec fn label_spans(labels: Seq<RefLabelModel>, to: int) -> Seq<SpanModel>
    decreases to,
{
    if to <= 0 {
        Seq::empty()
    } else {
        label_spans(labels, to - 1).push(
            span("["@ + labels[to - 1].name + "]"@, label_style(labels[to - 1].kind)),
        ).push(gap())
    }
}

/// The row of a commit.
pub open spec fn commit_row_spans(
    c: CommitModel,
    display: DisplayOptions,
    date: Option<Seq<char>>,
    q: Seq<char>,
    mark: Style,
) -> Seq<SpanModel> {
    let hash = if display.full_hash {
        c.id.hex()
    } else {
        c.short_id
    };
    graph_spans(c.graph) + seq![span(hash, bold(Color::Yellow)), gap()] + date_spans(date)
        + author_spans(display, c.author, q, mark) + label_spans(c.refs, c.refs.len() as int)
        + marked(span(c.summary, plain()), q, mark)
}

pub(crate) fn push_gap(out: &mut Vec<Span>)
    ensures
        final(out).deep_view() == old(out).deep_view().push(gap()),
{
    push_span(out, " ".to_owned(), Style::new());
}

fn push_date(out: &mut Vec<Span>, date: Option<String>)
    ensures
        final(out).deep_view() == old(out).deep_view() + date_spans(
            opt_text(date),
        ),
{
    let ghost before = out.deep_view();
    let ghost d = opt_text(date);
    if let Some(text) = date {
        push_span(out, text, Style::fg(Color::Blue));
        push_gap(out);
    }
    assert(out.deep_view() =~= before + date_spans(d));
}

fn author_cell(display: DisplayOptions, author: &str) -> (r: Span)
    ensures
        r@ == author_span(display, author@),
{
    let width: usize = display.author.col_width();
    let cut: String = truncate_chars(author, width);
    Span { content: padded_text(cut.as_str(), width), style: Style::fg(Color::Green) }
}

fn push_author(out: &mut Vec<Span>, display: DisplayOptions, author: &str, q: &str, mark: Style)
    ensures
        final(out).deep_view() == old(out).deep_view() + author_spans(
            display,
            author@,
            q@,
            mark,
        ),
{
    let ghost before = out.deep_view();
    if display.author.col_width() > 0 {
        highlight_matches_in_span(out, author_cell(display, author), q, mark);
        push_gap(out);
    }
    assert(out.deep_view() =~= before + author_spans(display, author@, q@, mark));
}

fn push_labels(out: &mut Vec<Span>, labels: &Vec<RefLabel>)
    ensures
        final(out).deep_view() == old(out).deep_view() + label_spans(
            labels.deep_view(),
            labels@.len() as int,
        ),
{
    let ghost before = out.deep_view();
    let ghost all = labels.deep_view();
    let mut i: usize = 0;
    assert(before =~= before + label_spans(all, 0));
    while i < labels.len()
        invariant
            i <= labels@.len(),
            all == labels.deep_view(),
            out.deep_view() == before + label_spans(all, i as int),
        decreases labels@.len() - i,
    {
        assert(all[i as int] == labels@[i as int]@);
        let mut text: String = "[".to_owned();
        text.append(labels[i].name.as_str());
        text.append("]");
        push_span(out, text, style_of_label(labels[i].kind));
        push_gap(out);
        i += 1;
        assert(out.deep_view() =~= before + label_spans(all, i as int));
    }
}

/// The row of a commit, with the matches of the lowercase `query` marked. `date` is its date
/// column.
pub fn commit_spans(
    commit: &CommitRecord,
    display: DisplayOptions,
    date: Option<String>,
    query: &str,
    highlight_style: Style,
) -> (r: Vec<Span>)
    ensures
        r.deep_view() == commit_row_spans(
            commit@,
            display,
            opt_text(date),
            query@,
            highlight_style,
        ),
{
    let ghost d = opt_text(date);
    let mut out: Vec<Span> = no_spans();
    if !commit.graph.as_str().is_empty() {
        let mut text: String = commit.graph.clone();
        text.append(" ");
        push_span(&mut out, text, Style::fg(Color::DarkGray));
    }
    assert(out.deep_view() =~= graph_spans(commit@.graph));
    let hash: String = if display.full_hash {
        commit.id.to_hex()
    } else {
        commit.short_id.clone()
    };
    let ghost h = hash@;
    push_span(&mut out, hash, Style::bold_fg(Color::Yellow));
    push_gap(&mut out);
    assert(out.deep_view() =~= graph_spans(commit@.graph) + seq![
        span(h, bold(Color::Yellow)),
        gap(),
    ]);
    push_date(&mut out, date);
    push_author(&mut out, display, commit.author.as_str(), query, highlight_style);
    push_labels(&mut out, &commit.refs);
    let summary = Span { content: commit.summary.clone(), style: Style::new() };
    highlight_matches_in_span(&mut out, summary, query, highlight_style);
    out
}

/// The columns of a row that is no commit: a hash of zeros, `now` and the author.
pub open spec fn scaffold(author: Seq<char>, display: DisplayOptions) -> Seq<SpanModel> {
    let hash = if display.full_hash {
        repeated('0', 40)
    } else {
        "0000000"@
    };
    seq![span(hash, colored(Color::DarkGray)), gap()] + date_spans(
        if display.date.width() > 0 {
            Some(padded("now"@, display.date.width() as int))
        } else {
            None
        },
    ) + (if display.author.width() > 0 {
        seq![author_span(display, author), gap()]
    } else {
        Seq::empty()
    })
}

/// The columns of a row that is no commit.
pub fn pseudo_row_scaffold(author: &str, display: DisplayOptions) -> (r: Vec<Span>)
    ensures
        r.deep_view() == scaffold(author@, display),
{
    let mut out: Vec<Span> = no_spans();
    let hash: String = if display.full_hash {
        let mut zeros: String = String::new();
        push_repeated(&mut zeros, '0', 40);
        assert(zeros@ =~= repeated('0', 40));
        zeros
    } else {
        "0000000".to_owned()
    };
    push_span(&mut out, hash, Style::fg(Color::DarkGray));
    push_gap(&mut out);
    let width: usize = display.date.col_width();
    let date: Option<String> = if width > 0 {
        Some(padded_text("now", width))
    } else {
        None
    };
    push_date(&mut out, date);
    if display.author.col_width() > 0 {
        let cell: Span = author_cell(display, author);
        push_span(&mut out, cell.content, cell.style);
        push_gap(&mut out);
    }
    assert(out.deep_view() =~= scaffold(author@, display));
    out
}

/// What the working-tree row says: whether anything is not committed, if that is known.
pub open spec fn tree_label(dirty: Option<bool>) -> SpanModel {
    match dirty {
        Some(true) => span("Uncommitted changes"@, bold(Color::Yellow)),
        Some(false) => span("Working tree clean"@, colored(Color::Green)),
        None => span("Not Committed Yet"@, bold(Color::DarkGray)),
    }
}

fn push_tree_label(out: &mut Vec<Span>, dirty: Option<bool>)
    ensures
        final(out).deep_view() == old(out).deep_view().push(tree_label(dirty)),
{
    match dirty {
        Some(true) => {
            push_span(out, "Uncommitted changes".to_owned(), Style::bold_fg(Color::Yellow));
        },
        Some(false) => {
            push_span(out, "Working tree clean".to_owned(), Style::fg(Color::Green));
        },
        None => {
            push_span(out, "Not Committed Yet".to_owned(), Style::bold_fg(Color::DarkGray));
        },
    }
}

/// The style of the selected row: bright in the pane in focus, else faint.
pub open spec fn cursor_style(focused: bool) -> Style {
    if focused {
        Style { fg: Some(Color::White), bg: Some(Color::DarkGray), bold: true }
    } else {
        Style { fg: None, bg: Some(Color::Rgb(45, 45, 45)), bold: false }
    }
}

pub(crate) fn style_of_cursor(focused: bool) -> (r: Style)
    ensures
        r == cursor_style(focused),
{
    if focused {
        Style { fg: Some(Color::White), bg: Some(Color::DarkGray), bold: true }
    } else {
        Style { fg: None, bg: Some(Color::Rgb(45, 45, 45)), bold: false }
    }
}

/// The spans of a row, where the time zone is `offset` seconds ahead of UTC.
pub open spec fn row_spans(
    row: RowModel,
    display: DisplayOptions,
    offset: i32,
    q: Seq<char>,
    mark: Style,
) -> Seq<SpanModel> {
    match row {
        RowModel::WorkingTree { author, dirty } => scaffold(author, display).push(
            tree_label(dirty),
        ),
        RowModel::Staged { author } => scaffold(author, display).push(
            span("Staged changes"@, bold(Color::Green)),
        ),
        RowModel::Commit(c) => commit_row_spans(
            c,
            display,
            date_column(
                display,
                c.authored_relative,
                time_of_day(c.authored_unix_secs, offset),
            ),
            q,
            mark,
        ),
    }
}

/// The spans of a row.
pub fn row_text(row: &LogRow, display: DisplayOptions, query: &str, mark: Style) -> (r: Vec<Span>)
    ensures
        exists|offset: i32|
            is_offset(offset) && r.deep_view() == #[trigger] row_spans(
                row@,
                display,
                offset,
                query@,
                mark,
            ),
{
    match row {
        LogRow::WorkingTree(w) => {
            let mut out: Vec<Span> = pseudo_row_scaffold(w.author.as_str(), display);
            push_tree_label(&mut out, w.dirty);
            assert(out.deep_view() == row_spans(row@, display, 0, query@, mark));
            out
        },
        LogRow::Staged(s) => {
            let mut out: Vec<Span> = pseudo_row_scaffold(s.author.as_str(), display);
            push_span(&mut out, "Staged changes".to_owned(), Style::bold_fg(Color::Green));
            assert(out.deep_view() == row_spans(row@, display, 0, query@, mark));
            out
        },
        LogRow::Commit(c) => {
            let date: Option<String> = date_cell(
                display,
                c.authored_unix_secs,
                c.authored_relative.as_str(),
            );
            let ghost offset = choose|offset: i32|
                is_offset(offset) && opt_text(date) == date_column(
                    display,
                    c.authored_relative@,
                    #[trigger] time_of_day(c.authored_unix_secs, offset),
                );
            let out: Vec<Span> = commit_spans(c, display, date, query, mark);
            assert(out.deep_view() == row_spans(row@, display, offset, query@, mark));
            out
        },
    }
}

impl AppModel {
    /// Row `idx` of the log, with matches and selection marked, where the time zone is
    /// `offset` seconds ahead of UTC.
    pub open spec fn log_row(self, idx: int, focused: bool, offset: i32) -> StyledModel {
        let s = self.search.state;
        let q = lower_text(s.query);
        let matches = q.len() > 0 && s.matches.contains(idx as usize);
        let current = q.len() > 0 && 0 <= s.current < s.matches.len() && s.matches[s.current]
            == idx;
        StyledModel {
            spans: row_spans(
                self.log.rows[idx],
                self.display,
                offset,
                if matches {
                    q
                } else {
                    ""@
                },
                match_style(current),
            ),
            style: if idx == self.log.selected {
                cursor_style(focused)
            } else {
                plain()
            },
        }
    }

    /// `line` is row `idx` of the log, in some time zone.
    pub open spec fn shows_row(self, line: StyledModel, idx: int, focused: bool) -> bool {
        exists|offset: i32|
            is_offset(offset) && line == #[trigger] self.log_row(idx, focused, offset)
    }

    /// The message that the log pane shows in the place of rows, if it shows one.
    pub open spec fn log_message(self) -> Option<StyledModel> {
        match self.error {
            Some(e) => Some(single(e, colored(Color::Red))),
            None => if self.log.rows.len() > 0 {
                None
            } else if self.walk_done {
                Some(single("No commits found"@, colored(Color::Gray)))
            } else {
                Some(single("Loading commits..."@, colored(Color::Gray)))
            },
        }
    }

    /// How many rows a log pane of `height` lines shows.
    pub open spec fn log_rows_shown(self, height: int) -> int {
        smaller(height, less(self.log.rows.len() as int, self.log.scroll))
    }
}

fn log_row_line(app: &App, q: &str, idx: usize, focused: bool) -> (r: StyledLine)
    requires
        q@ == lower_text(app@.search.state.query),
        idx < app@.log.rows.len(),
    ensures
        app@.shows_row(r@, idx as int, focused),
{
    let searching: bool = !q.is_empty();
    let is_match: bool = searching && holds_index(&app.search.state.matches, idx);
    let is_current: bool = searching && match app.search.current_pos() {
        Some(pos) => pos == idx,
        None => false,
    };
    let row_query: &str = if is_match {
        q
    } else {
        ""
    };
    let mark: Style = style_of_match(is_current);
    assert(app@.log.rows[idx as int] == app.log.rows@[idx as int]@);
    let spans: Vec<Span> = row_text(&app.log.rows[idx], app.display, row_query, mark);
    let ghost offset = choose|offset: i32|
        is_offset(offset) && spans.deep_view() == #[trigger] row_spans(
            app@.log.rows[idx as int],
            app.display,
            offset,
            row_query@,
            mark,
        );
    let style: Style = if idx == app.log.selected {
        style_of_cursor(focused)
    } else {
        Style::new()
    };
    let r = StyledLine { spans, style };
    assert(r@ == app@.log_row(idx as int, focused, offset));
    r
}

fn log_note(app: &App) -> (r: Option<StyledLine>)
    ensures
        match (r, app@.log_message()) {
            (Some(l), Some(m)) => l@ == m,
            (None, None) => true,
            _ => false,
        },
{
    if let Some(e) = &app.error {
        return Some(StyledLine::styled(e.clone(), Style::fg(Color::Red)));
    }
    if app.log.rows.len() > 0 {
        return None;
    }
    let text: &str = if app.walk_done {
        "No commits found"
    } else {
        "Loading commits..."
    };
    Some(StyledLine::styled(text.to_owned(), Style::fg(Color::Gray)))
}

/// The lines that a log pane of `height` lines shows: a message, or rows from where it is
/// scrolled to.
pub fn log_lines(app: &App, height: usize, focused: bool) -> (r: Vec<StyledLine>)
    ensures
        match app@.log_message() {
            Some(m) => r.deep_view() == seq![m],
            None => {
                &&& r@.len() == app@.log_rows_shown(height as int)
                &&& forall|i: int|
                    0 <= i < r@.len() ==> app@.shows_row(
                        (#[trigger] r@[i])@,
                        app@.log.scroll + i,
                        focused,
                    )
            },
        },
{
    let mut out: Vec<StyledLine> = Vec::new();
    if let Some(l) = log_note(app) {
        assert(out.deep_view() =~= Seq::empty());
        push_line(&mut out, l);
        assert(out.deep_view() =~= seq![app@.log_message()->0]);
        return out;
    }
    let q: String = app.search.state.query.as_str().to_lowercase();
    let total: usize = app.log.rows.len();
    let left: usize = total.saturating_sub(app.log.scroll);
    let count: usize = if height <= left {
        height
    } else {
        left
    };
    let mut i: usize = 0;
    while i < count
        invariant
            i <= count,
            q@ == lower_text(app@.search.state.query),
            count <= less(total as int, app.log.scroll as int),
            total == app@.log.rows.len(),
            out@.len() == i,
            forall|k: int|
                0 <= k < out@.len() ==> app@.shows_row(
                    (#[trigger] out@[k])@,
                    app@.log.scroll + k,
                    focused,
                ),
        decreases count - i,
    {
        let idx: usize = app.log.scroll + i;
        let l: StyledLine = log_row_line(app, q.as_str(), idx, focused);
        out.push(l);
        i += 1;
    }
    out
}

/// The date of a row is its age or its time, padded to the width of the column, and a question
/// mark if there is no such time; without the column there is none.
pub proof fn law_the_date_column_shows_age_or_time(
    display: DisplayOptions,
    relative: Seq<char>,
    time: Option<Seq<char>>,
)
    ensures
        display.date == DateMode::Relative ==> date_column(display, relative, time) == Some(
            padded(relative, 8),
        ),
        display.date == DateMode::Absolute ==> date_column(display, relative, time) == Some(
            padded(
                if time is Some {
                    time->0
                } else {
                    seq!['?']
                },
                16,
            ),
        ),
        display.date == DateMode::Off ==> date_column(display, relative, time) is None,
{
    reveal_strlit("?");
    assert("?"@ =~= seq!['?']);
}

/// The names of labels, each in brackets and followed by a blank.
pub open spec fn bracketed(labels: Seq<RefLabelModel>, to: int) -> Seq<char>
    decreases to,
{
    if to <= 0 {
        Seq::empty()
    } else {
        bracketed(labels, to - 1) + seq!['['] + labels[to - 1].name + seq![']', ' ']
    }
}

proof fn lemma_labels_read(labels: Seq<RefLabelModel>, to: int)
    requires
        0 <= to <= labels.len(),
    ensures
        joined(label_spans(labels, to)) == bracketed(labels, to),
    decreases to,
{
    reveal_strlit("[");
    reveal_strlit("]");
    reveal_strlit(" ");
    if to > 0 {
        lemma_labels_read(labels, to - 1);
        let rest = label_spans(labels, to - 1);
        let name = span("["@ + labels[to - 1].name + "]"@, label_style(labels[to - 1].kind));
        assert(rest.push(name).push(gap()).drop_last() =~= rest.push(name));
        assert(rest.push(name).drop_last() =~= rest);
        assert(joined(rest.push(name)) == joined(rest) + name.content);
        assert(joined(rest.push(name).push(gap())) == joined(rest.push(name)) + " "@);
        assert("["@ =~= seq!['['] && "]"@ =~= seq![']'] && " "@ =~= seq![' ']);
        assert(joined(label_spans(labels, to)) =~= bracketed(labels, to));
    }
}

proof fn lemma_one_reads(s: SpanModel)
    ensures
        joined(seq![s]) == s.content,
{
    reveal_with_fuel(joined, 2);
    assert(seq![s].drop_last() =~= Seq::empty());
    assert(joined(seq![s]) =~= s.content);
}

proof fn lemma_two_read(s: SpanModel)
    ensures
        joined(seq![s, gap()]) == s.content + seq![' '],
{
    reveal_strlit(" ");
    lemma_one_reads(s);
    assert(seq![s, gap()].drop_last() =~= seq![s]);
    assert(joined(seq![s, gap()]) =~= s.content + seq![' ']);
}

/// The row of a commit reads, from left to right: the graph, the id, whole or its first
/// digits, the date and the author, where they are shown, the labels in brackets, and the
/// summary. That a search marks parts of it changes nothing of what it reads.
pub proof fn law_a_commit_row_reads_from_graph_to_summary(
    c: CommitModel,
    display: DisplayOptions,
    date: Option<Seq<char>>,
    q: Seq<char>,
    mark: Style,
)
    ensures
        joined(commit_row_spans(c, display, date, q, mark)) == (if c.graph.len() > 0 {
            c.graph + seq![' ']
        } else {
            Seq::empty()
        }) + (if display.full_hash {
            c.id.hex()
        } else {
            c.short_id
        }) + seq![' '] + (if date is Some {
            date->0 + seq![' ']
        } else {
            Seq::empty()
        }) + (match display.author {
            AuthorMode::Full => padded(truncated(c.author, 20), 20) + seq![' '],
            AuthorMode::Abbrev => padded(truncated(c.author, 10), 10) + seq![' '],
            AuthorMode::Off => Seq::empty(),
        }) + bracketed(c.refs, c.refs.len() as int) + c.summary,
{
    reveal_strlit(" ");
    let hash = if display.full_hash {
        c.id.hex()
    } else {
        c.short_id
    };
    let a = graph_spans(c.graph);
    let b = seq![span(hash, bold(Color::Yellow)), gap()];
    let d = date_spans(date);
    let e = author_spans(display, c.author, q, mark);
    let f = label_spans(c.refs, c.refs.len() as int);
    let g = marked(span(c.summary, plain()), q, mark);
    if c.graph.len() > 0 {
        lemma_one_reads(span(c.graph + " "@, colored(Color::DarkGray)));
        assert(joined(a) =~= c.graph + seq![' ']);
    }
    lemma_two_read(span(hash, bold(Color::Yellow)));
    if date is Some {
        lemma_two_read(span(date->0, colored(Color::Blue)));
    }
    if display.author.width() > 0 {
        let who = author_span(display, c.author);
        law_highlighting_keeps_the_text(who, q, mark);
        let spans = marked(who, q, mark);
        assert(spans.push(gap()).drop_last() =~= spans);
        assert(joined(e) =~= who.content + seq![' ']);
    }
    lemma_labels_read(c.refs, c.refs.len() as int);
    law_highlighting_keeps_the_text(span(c.summary, plain()), q, mark);
    law_spans_are_read_one_behind_the_other(a, b);
    law_spans_are_read_one_behind_the_other(a + b, d);
    law_spans_are_read_one_behind_the_other(a + b + d, e);
    law_spans_are_read_one_behind_the_other(a + b + d + e, f);
    law_spans_are_read_one_behind_the_other(a + b + d + e + f, g);
    assert(joined(a + b + d + e + f + g) =~= (if c.graph.len() > 0 {
        c.graph + seq![' ']
    } else {
        Seq::empty()
    }) + hash + seq![' '] + (if date is Some {
        date->0 + seq![' ']
    } else {
        Seq::empty()
    }) + (match display.author {
        AuthorMode::Full => padded(truncated(c.author, 20), 20) + seq![' '],
        AuthorMode::Abbrev => padded(truncated(c.author, 10), 10) + seq![' '],
        AuthorMode::Off => Seq::empty(),
    }) + bracketed(c.refs, c.refs.len() as int) + c.summary);
}

/// The row of the working tree has noughts for an id, and says whether there are changes.
pub proof fn law_the_tree_row_says_whether_it_is_clean(
    author: Seq<char>,
    display: DisplayOptions,
    dirty: Option<bool>,
    i: int,
)
    ensures
        scaffold(author, display)[0].content.len() == (if display.full_hash {
            40int
        } else {
            7int
        }),
        0 <= i < scaffold(author, display)[0].content.len() ==> scaffold(
            author,
            display,
        )[0].content[i] == '0',
        tree_label(Some(true)).content == "Uncommitted changes"@,
        tree_label(Some(false)).content == "Working tree clean"@,
        tree_label(None).content == "Not Committed Yet"@,
{
    reveal_strlit("0000000");
}

/// The selected row, and no other, has the look of the cursor, which is bold in the pane with
/// the focus only. A row is searched for the query exactly if it is one of the matches.
pub proof fn law_the_selected_row_stands_out(m: AppModel, idx: int, focused: bool, offset: i32)
    requires
        0 <= idx < m.log.rows.len() <= usize::MAX,
    ensures
        idx == m.log.selected ==> m.log_row(idx, focused, offset).style == cursor_style(focused),
        idx != m.log.selected ==> m.log_row(idx, focused, offset).style == plain(),
        cursor_style(true).bold && !cursor_style(false).bold,
        cursor_style(true).bg is Some && cursor_style(false).bg is Some,
        m.search.state.query.len() == 0 && lower_text(m.search.state.query).len() == 0 ==> m.log_row(
            idx,
            focused,
            offset,
        ).spans == row_spans(m.log.rows[idx], m.display, offset, ""@, match_style(false)),
        lower_text(m.search.state.query).len() > 0 && m.search.state.matches.contains(idx as usize)
            ==> exists|mark: Style|
            m.log_row(idx, focused, offset).spans == #[trigger] row_spans(
                m.log.rows[idx],
                m.display,
                offset,
                lower_text(m.search.state.query),
                mark,
            ),
{
    let s = m.search.state;
    let q = lower_text(s.query);
    let current = q.len() > 0 && 0 <= s.current < s.matches.len() && s.matches[s.current] == idx;
    if q.len() > 0 && s.matches.contains(idx as usize) {
        assert(m.log_row(idx, focused, offset).spans == row_spans(
            m.log.rows[idx],
            m.display,
            offset,
            q,
            match_style(current),
        ));
    }
}

/// An error is shown in place of the log; without rows the log says whether they may still
/// come.
pub proof fn law_an_error_takes_the_place_of_the_log(m: AppModel)
    ensures
        m.error matches Some(e) ==> (m.log_message() matches Some(l) && l.spans[0].content == e),
        m.error is None && m.log.rows.len() > 0 ==> m.log_message() is None,
        m.error is None && m.log.rows.len() == 0 && m.walk_done ==> (m.log_message() matches Some(l)
            && l.spans[0].content == "No commits found"@),
        m.error is None && m.log.rows.len() == 0 && !m.walk_done ==> (m.log_message() matches Some(
            l,
        ) && l.spans[0].content == "Loading commits..."@),
        0 <= m.log.scroll <= m.log.rows.len() ==> forall|height: int|
            #![trigger m.log_rows_shown(height)]
            0 <= height ==> m.log_rows_shown(height) == vstd::math::min(
                height,
                m.log.rows.len() - m.log.scroll,
            ),
{
}

/// Each kind of label has its own look: `HEAD` is bold, and branches, remote branches and tags
/// differ in colour.
pub proof fn law_labels_differ_in_look()
    ensures
        label_style(RefKind::Head).bold,
        label_style(RefKind::LocalBranch).fg == Some(Color::Cyan),
        label_style(RefKind::RemoteBranch).fg == Some(Color::Magenta),
        label_style(RefKind::Tag).fg == Some(Color::Yellow),
        !label_style(RefKind::LocalBranch).bold,
{
}

} // verus!
