//! The title bar, the status bar and the status view.

use crate::app::input::panes_are_free;
use crate::app::state::{less, sat, smaller, SearchModel, StatusModel};
use crate::app::{App, AppModel, Focus, SearchSnapshot, StatusState};
use crate::text::{decimal, push_decimal};
use crate::ui::diffstat::push_line;
use crate::ui::style::{
    colored, diff_line_to_ratatui, no_spans, plain, push_span, shown, span, Color, Span, SpanModel,
    Style, StyledLine, StyledModel,
};
use vstd::prelude::*;
use vstd::string::StringExecFns;

verus! {

/// What keys go to.
#[derive(Clone, Copy, PartialEq, Eq, Structural, Debug)]
pub enum Mode {
    Log,
    Diff,
    Search,
    Pick,
    Status,
    Refs,
    Blame,
    Help,
}

impl AppModel {
    /// What keys go to.
    pub open spec fn mode(self) -> Mode {
        if self.show_help {
            Mode::Help
        } else if self.diff.search.active || self.search.state.active {
            Mode::Search
        } else if self.diff.picker_filter.active || self.diff.file_picker is Some {
            Mode::Pick
        } else if self.status.open {
            Mode::Status
        } else if self.refs.open {
            Mode::Refs
        } else if self.blame.open {
            Mode::Blame
        } else {
            match self.focus {
                Focus::Log => Mode::Log,
                Focus::Diff => Mode::Diff,
            }
        }
    }
}

/// What keys go to.
pub fn mode_of(app: &App) -> (r: Mode)
    ensures
        r == app@.mode(),
{
    if app.show_help {
        Mode::Help
    } else if app.diff.search.active || app.search.state.active {
        Mode::Search
    } else if app.diff.picker_filter.active || app.diff.file_picker.is_some() {
        Mode::Pick
    } else if app.status.open {
        Mode::Status
    } else if app.refs.open {
        Mode::Refs
    } else if app.blame.open {
        Mode::Blame
    } else {
        match app.focus {
            Focus::Log => Mode::Log,
            Focus::Diff => Mode::Diff,
        }
    }
}

/// The color of a mode.
pub open spec fn accent(mode: Mode) -> Color {
    match mode {
        Mode::Log => Color::Blue,
        Mode::Diff => Color::Cyan,
        Mode::Search => Color::Yellow,
        Mode::Pick => Color::Cyan,
        Mode::Status => Color::Yellow,
        Mode::Refs => Color::Green,
        Mode::Blame => Color::Magenta,
        Mode::Help => Color::White,
    }
}

/// The color of a mode.
pub fn mode_accent(mode: Mode) -> (r: Color)
    ensures
        r == accent(mode),
{
    match mode {
        Mode::Log => Color::Blue,
        Mode::Diff => Color::Cyan,
        Mode::Search => Color::Yellow,
        Mode::Pick => Color::Cyan,
        Mode::Status => Color::Yellow,
        Mode::Refs => Color::Green,
        Mode::Blame => Color::Magenta,
        Mode::Help => Color::White,
    }
}

/// The chip that names a mode.
pub open spec fn chip(mode: Mode) -> SpanModel {
    span(
        match mode {
            Mode::Log => " LOG "@,
            Mode::Diff => " DIFF "@,
            Mode::Search => " SEARCH "@,
            Mode::Pick => " PICK "@,
            Mode::Status => " STATUS "@,
            Mode::Refs => " REFS "@,
            Mode::Blame => " BLAME "@,
            Mode::Help => " HELP "@,
        },
        Style { fg: Some(Color::Black), bg: Some(accent(mode)), bold: true },
    )
}

fn push_chip(out: &mut Vec<Span>, mode: Mode)
    ensures
        final(out).deep_view() == old(out).deep_view().push(chip(mode)),
{
    let text: &str = match mode {
        Mode::Log => " LOG ",
        Mode::Diff => " DIFF ",
        Mode::Search => " SEARCH ",
        Mode::Pick => " PICK ",
        Mode::Status => " STATUS ",
        Mode::Refs => " REFS ",
        Mode::Blame => " BLAME ",
        Mode::Help => " HELP ",
    };
    let style = Style { fg: Some(Color::Black), bg: Some(mode_accent(mode)), bold: true };
    push_span(out, text.to_owned(), style);
}

/// The title bar.
pub open spec fn title(app: AppModel) -> Seq<char> {
    " rit  "@ + app.repo_name + "  ["@ + app.branch_name + "] "@
}

/// The text of the title bar.
pub fn title_text(app: &App) -> (r: String)
    ensures
        r@ == title(app@),
{
    let mut out: String = " rit  ".to_owned();
    out.append(app.repo_name.as_str());
    out.append("  [");
    out.append(app.branch_name.as_str());
    out.append("] ");
    out
}

/// How far a search is: the number of the current match, and how many there are.
pub open spec fn progress(index: int, count: int) -> Seq<char> {
    " ["@ + decimal(index as nat) + "/"@ + decimal(count as nat) + "] "@
}

fn push_progress(out: &mut String, index: usize, count: usize)
    ensures
        final(out)@ == old(out)@ + progress(index as int, count as int),
{
    let ghost before = out@;
    out.append(" [");
    push_decimal(out, index as u64);
    out.append("/");
    push_decimal(out, count as u64);
    out.append("] ");
    assert(out@ =~= before + progress(index as int, count as int));
}

/// What the status bar says of a search: its query while it is typed, else how to go on;
/// nothing without a query.
pub open spec fn search_note(
    active: bool,
    query: Seq<char>,
    index: int,
    count: int,
    hint: Seq<char>,
) -> Option<Seq<SpanModel>> {
    if active {
        Some(
            seq![
                span(progress(index, count) + "/"@, plain()),
                span(query, colored(Color::Yellow)),
                span("█"@, plain()),
            ],
        )
    } else if query.len() > 0 {
        Some(
            seq![
                span(
                    progress(index, count) + "n:next  N:prev  Esc:clear "@ + hint,
                    colored(Color::Yellow),
                ),
            ],
        )
    } else {
        None
    }
}

/// The view of optional spans.
pub open spec fn spans_view(s: Option<Vec<Span>>) -> Option<Seq<SpanModel>> {
    match s {
        Some(v) => Some(v.deep_view()),
        None => None,
    }
}

/// What the status bar says of a search.
pub fn search_status_line(snap: SearchSnapshot<'_>, idle_hint: &str) -> (r: Option<Vec<Span>>)
    ensures
        spans_view(r) == search_note(
            snap.active,
            snap.query@,
            snap.display_index as int,
            snap.matches_len as int,
            idle_hint@,
        ),
{
    let ghost at = progress(snap.display_index as int, snap.matches_len as int);
    let mut text: String = String::new();
    push_progress(&mut text, snap.display_index, snap.matches_len);
    assert(text@ =~= at);
    let mut out: Vec<Span> = no_spans();
    if snap.active {
        text.append("/");
        push_span(&mut out, text, Style::new());
        push_span(&mut out, snap.query.to_owned(), Style::fg(Color::Yellow));
        push_span(&mut out, "█".to_owned(), Style::new());
        assert(out.deep_view() =~= seq![
            span(at + "/"@, plain()),
            span(snap.query@, colored(Color::Yellow)),
            span("█"@, plain()),
        ]);
        Some(out)
    } else if !snap.query.is_empty() {
        text.append("n:next  N:prev  Esc:clear ");
        text.append(idle_hint);
        push_span(&mut out, text, Style::fg(Color::Yellow));
        assert(out.deep_view() =~= seq![
            span(at + "n:next  N:prev  Esc:clear "@ + idle_hint@, colored(Color::Yellow)),
        ]);
        Some(out)
    } else {
        None
    }
}

/// The number of the current match of a search, counted from one; zero without matches.
pub open spec fn match_number(s: SearchModel) -> int {
    if s.matches.len() == 0 {
        0
    } else {
        sat(s.current + 1)
    }
}

impl AppModel {
    /// What the status bar says of the searches; the diff pane's goes first.
    #[verifier::opaque]
    pub open spec fn search_notes(self) -> Option<Seq<SpanModel>> {
        let d = self.diff.search;
        let s = self.search.state;
        match search_note(
            d.active,
            d.query,
            match_number(d),
            d.matches.len() as int,
            "diff search"@,
        ) {
            Some(note) => Some(note),
            None => search_note(
                s.active,
                s.query,
                match_number(s),
                s.matches.len() as int,
                if self.diff.open {
                    "search  Tab:switch  q/Esc:close-diff"@
                } else {
                    "search  Enter:open-diff"@
                },
            ),
        }
    }

    /// How many commits the log has, with a mark while more are on their way.
    pub open spec fn commit_count(self) -> Seq<char> {
        decimal(less(self.log.rows.len() as int, 1) as nat) + (if self.walk_done {
            ""@
        } else {
            "+"@
        })
    }

    /// What the status bar says without a search.
    #[verifier::opaque]
    pub open spec fn hint(self) -> SpanModel {
        match self.yank_message {
            Some(y) => span(" ✓ "@ + y.text, colored(Color::Green)),
            None => if self.status.open {
                span(" q/Esc/s:close-status  j/k:scroll  g/G:top/bottom"@, plain())
            } else if self.diff.open {
                span(
                    " q/Esc:close-diff  j/k:nav  Tab:switch  /:search-diff  v:hunks  y:yank  ?:help"@,
                    plain(),
                )
            } else {
                span(
                    " "@ + self.commit_count()
                        + " commits  q:quit  j/k:nav  Enter:diff  /:search  y:yank  s:status  ?:help  R:reload"@,
                    plain(),
                )
            },
        }
    }

    /// The status bar: the mode, and what can be done.
    pub open spec fn status_bar(self) -> Seq<SpanModel> {
        seq![chip(self.mode())] + match self.search_notes() {
            Some(note) => note,
            None => seq![self.hint()],
        }
    }
}

fn search_spans(app: &App) -> (r: Option<Vec<Span>>)
    ensures
        spans_view(r) == app@.search_notes(),
{
    proof {
        reveal(AppModel::search_notes);
    }
    let first: Option<Vec<Span>> = search_status_line(app.diff.search.snapshot(), "diff search");
    if first.is_some() {
        return first;
    }
    let hint: &str = if app.diff.open {
        "search  Tab:switch  q/Esc:close-diff"
    } else {
        "search  Enter:open-diff"
    };
    search_status_line(app.search.snapshot(), hint)
}

fn hint_span(app: &App) -> (r: Span)
    ensures
        r@ == app@.hint(),
{
    proof {
        reveal(AppModel::hint);
    }
    if let Some(y) = &app.yank_message {
        let mut text: String = " ✓ ".to_owned();
        text.append(y.text.as_str());
        return Span { content: text, style: Style::fg(Color::Green) };
    }
    let content: String = if app.status.open {
        " q/Esc/s:close-status  j/k:scroll  g/G:top/bottom".to_owned()
    } else if app.diff.open {
        " q/Esc:close-diff  j/k:nav  Tab:switch  /:search-diff  v:hunks  y:yank  ?:help".to_owned()
    } else {
        let mut text: String = " ".to_owned();
        let ghost front = text@;
        push_decimal(&mut text, app.commits_len() as u64);
        if app.walk_done {
            text.append("");
        } else {
            text.append("+");
        }
        assert(text@ =~= front + app@.commit_count());
        text.append(
            " commits  q:quit  j/k:nav  Enter:diff  /:search  y:yank  s:status  ?:help  R:reload",
        );
        text
    };
    Span { content, style: Style::new() }
}

/// The status bar.
pub fn status_bar_spans(app: &App) -> (r: Vec<Span>)
    ensures
        r.deep_view() == app@.status_bar(),
{
    let mut out: Vec<Span> = no_spans();
    push_chip(&mut out, mode_of(app));
    assert(out.deep_view() =~= seq![chip(app@.mode())]);
    match search_spans(app) {
        Some(note) => {
            crate::ui::style::push_copies(&mut out, &note);
        },
        None => {
            let s: Span = hint_span(app);
            push_span(&mut out, s.content, s.style);
            assert(out.deep_view() =~= seq![chip(app@.mode())] + seq![app@.hint()]);
        },
    }
    out
}

impl StatusModel {
    /// The title of the status view.
    pub open spec fn title(self) -> Seq<char> {
        if self.loading {
            " Status [loading...] "@
        } else {
            " Status "@
        }
    }

    /// The lines that a status view of `height` lines shows.
    pub open spec fn rows_shown(self, height: int) -> Seq<StyledModel> {
        match self.document {
            Some(lines) => if lines.len() == 0 {
                Seq::empty()
            } else {
                let top = smaller(self.scroll, lines.len() - 1);
                Seq::new(
                    smaller(height, lines.len() - top) as nat,
                    |i: int| shown(lines[top + i]),
                )
            },
            None => Seq::empty(),
        }
    }
}

impl StatusState {
    /// The title of the status view.
    pub fn view_title(&self) -> (r: String)
        ensures
            r@ == self@.title(),
    {
        if self.loading {
            " Status [loading...] ".to_owned()
        } else {
            " Status ".to_owned()
        }
    }

    /// The lines that a status view of `height` lines shows.
    pub fn lines_shown(&self, height: usize) -> (r: Vec<StyledLine>)
        ensures
            r.deep_view() == self@.rows_shown(height as int),
    {
        let mut out: Vec<StyledLine> = Vec::new();
        assert(out.deep_view() =~= Seq::empty());
        if let Some(doc) = &self.document {
            let total: usize = doc.lines.len();
            if total == 0 {
                return out;
            }
            let ghost all = self@.rows_shown(height as int);
            let ghost lines = doc.lines.deep_view();
            let top: usize = if self.scroll < total {
                self.scroll
            } else {
                total - 1
            };
            let count: usize = if height <= total - top {
                height
            } else {
                total - top
            };
            let mut i: usize = 0;
            assert(all.take(0) =~= Seq::empty());
            while i < count
                invariant
                    i <= count <= total - top,
                    top < total,
                    total == doc.lines@.len(),
                    lines == doc.lines.deep_view(),
                    all.len() == count,
                    forall|k: int|
                        0 <= k < all.len() ==> #[trigger] all[k] == shown(lines[top + k]),
                    out.deep_view() == all.take(i as int),
                decreases count - i,
            {
                assert(lines[top + i] == doc.lines@[top + i]@);
                push_line(&mut out, diff_line_to_ratatui(&doc.lines[top + i]));
                assert(all.take(i + 1) =~= all.take(i as int).push(all[i as int]));
                i += 1;
            }
            assert(all.take(all.len() as int) =~= all);
        }
        out
    }
}

/// The mode tells what takes the keys: the help before everything, then a search that is being
/// typed, then the picker, then the status, the refs and a blame, and otherwise the pane with
/// the focus.
pub proof fn law_the_mode_tells_what_takes_the_keys(m: AppModel)
    ensures
        m.mode() == Mode::Help <==> m.show_help,
        !m.show_help ==> (m.mode() == Mode::Search <==> m.diff.search.active
            || m.search.state.active),
        panes_are_free(m) ==> m.mode() == (if m.focus == Focus::Log {
            Mode::Log
        } else {
            Mode::Diff
        }),
        !m.show_help && !m.diff.search.active && !m.search.state.active ==> {
            let picking = m.diff.picker_filter.active || m.diff.file_picker is Some;
            &&& m.mode() == Mode::Pick <==> picking
            &&& m.mode() == Mode::Status <==> !picking && m.status.open
            &&& m.mode() == Mode::Refs <==> !picking && !m.status.open && m.refs.open
            &&& m.mode() == Mode::Blame <==> !picking && !m.status.open && !m.refs.open
                && m.blame.open
        },
{
}

/// Each mode has its name on the chip, in black on its own colour.
pub proof fn law_the_chip_names_the_mode(mode: Mode)
    ensures
        chip(mode).style.bg == Some(accent(mode)),
        chip(mode).style.fg == Some(Color::Black),
        chip(mode).style.bold,
        chip(Mode::Log).content == " LOG "@ && accent(Mode::Log) == Color::Blue,
        chip(Mode::Diff).content == " DIFF "@ && accent(Mode::Diff) == Color::Cyan,
        chip(Mode::Search).content == " SEARCH "@ && accent(Mode::Search) == Color::Yellow,
        chip(Mode::Pick).content == " PICK "@ && accent(Mode::Pick) == Color::Cyan,
        chip(Mode::Status).content == " STATUS "@ && accent(Mode::Status) == Color::Yellow,
        chip(Mode::Refs).content == " REFS "@ && accent(Mode::Refs) == Color::Green,
        chip(Mode::Blame).content == " BLAME "@ && accent(Mode::Blame) == Color::Magenta,
        chip(Mode::Help).content == " HELP "@ && accent(Mode::Help) == Color::White,
{
}

/// The title names the repository and then the branch.
pub proof fn law_the_title_names_repository_and_branch(m: AppModel)
    ensures
        title(m) == " rit  "@ + m.repo_name + "  ["@ + m.branch_name + "] "@,
{
}

/// The count of a search tells which match is the current one, from one on, and how many
/// there are; without matches it is none of none.
pub proof fn law_matches_are_counted_from_one(s: SearchModel)
    requires
        0 <= s.current < usize::MAX,
    ensures
        s.matches.len() == 0 ==> match_number(s) == 0,
        s.matches.len() > 0 ==> match_number(s) == s.current + 1,
        progress(match_number(s), s.matches.len() as int) == " ["@ + decimal(
            match_number(s) as nat,
        ) + "/"@ + decimal(s.matches.len()) + "] "@,
{
}

/// The bar shows the search of the diff pane before that of the log, and a query that is
/// being typed as it is; without either it shows the hint.
pub proof fn law_the_bar_shows_the_search_first(m: AppModel)
    ensures
        m.status_bar()[0] == chip(m.mode()),
        m.diff.search.active ==> m.status_bar().len() == 4 && m.status_bar()[2].content
            == m.diff.search.query,
        !m.diff.search.active && m.diff.search.query.len() == 0 && m.search.state.active
            ==> m.status_bar().len() == 4 && m.status_bar()[2].content == m.search.state.query,
        !m.diff.search.active && m.diff.search.query.len() == 0 && !m.search.state.active
            && m.search.state.query.len() == 0 ==> m.status_bar() == seq![chip(m.mode()), m.hint()],
{
    reveal(AppModel::status_bar);
    reveal(AppModel::search_notes);
    reveal(AppModel::hint);
    if !m.diff.search.active && m.diff.search.query.len() == 0 && !m.search.state.active
        && m.search.state.query.len() == 0 {
        assert(m.status_bar() =~= seq![chip(m.mode()), m.hint()]);
    }
}

/// The commits are counted without the row of the working tree, with a plus as long as the
/// walk goes on. A note on a copy comes before every hint.
pub proof fn law_commits_are_counted_without_the_tree(m: AppModel)
    requires
        m.log.rows.len() > 0,
    ensures
        m.walk_done ==> m.commit_count() == decimal((m.log.rows.len() - 1) as nat),
        !m.walk_done ==> m.commit_count() == decimal((m.log.rows.len() - 1) as nat) + seq!['+'],
        m.yank_message matches Some(y) ==> m.hint().content == " ✓ "@ + y.text,
        m.yank_message is None && !m.status.open && !m.diff.open ==> m.hint().content.len()
            >= m.commit_count().len() + 1 && m.hint().content.subrange(
            1,
            1 + m.commit_count().len() as int,
        ) == m.commit_count(),
{
    reveal(AppModel::hint);
    reveal(AppModel::commit_count);
    reveal_strlit("");
    reveal_strlit("+");
    reveal_strlit(" ");
    assert("+"@ =~= seq!['+']);
    let n = decimal((m.log.rows.len() - 1) as nat);
    assert(n + ""@ =~= n);
    if m.yank_message is None && !m.status.open && !m.diff.open {
        assert(m.hint().content.subrange(1, 1 + m.commit_count().len() as int)
            =~= m.commit_count());
    }
}

/// The status shows its lines from the one scrolled to, as many as fit.
pub proof fn law_the_status_shows_lines_from_the_scroll(s: StatusModel, height: int, i: int)
    requires
        s.document is Some,
        0 <= s.scroll < s.document->0.len(),
        0 <= height,
        0 <= i < height,
        s.scroll + i < s.document->0.len(),
    ensures
        s.rows_shown(height).len() == vstd::math::min(height, s.document->0.len() - s.scroll),
        s.rows_shown(height)[i] == shown(s.document->0[s.scroll + i]),
{
}

/// A search that was typed says in the bar how to go on: to the next match and to the previous
/// one, and what else its keys do.
pub proof fn law_the_bar_says_how_to_go_on(m: AppModel)
    requires
        !m.diff.search.active,
    ensures
        ({
            let d = m.diff.search;
            let s = m.search.state;
            &&& d.query.len() > 0 ==> m.search_notes() == Some(
                seq![
                    span(
                        progress(match_number(d), d.matches.len() as int)
                            + "n:next  N:prev  Esc:clear "@ + "diff search"@,
                        colored(Color::Yellow),
                    ),
                ],
            )
            &&& d.query.len() == 0 && !s.active && s.query.len() > 0 ==> m.search_notes() == Some(
                seq![
                    span(
                        progress(match_number(s), s.matches.len() as int)
                            + "n:next  N:prev  Esc:clear "@ + (if m.diff.open {
                            "search  Tab:switch  q/Esc:close-diff"@
                        } else {
                            "search  Enter:open-diff"@
                        }),
                        colored(Color::Yellow),
                    ),
                ],
            )
        }),
{
    reveal(AppModel::search_notes);
}

/// The title of the status says while it is still loading.
pub proof fn law_the_status_says_that_it_is_loading(s: StatusModel)
    ensures
        s.loading ==> s.title() == " Status [loading...] "@,
        !s.loading ==> s.title() == " Status "@,
{
}

} // verus!
