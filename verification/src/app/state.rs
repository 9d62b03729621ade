//! The parts of the viewer's state, with the model of each.

use crate::app::search::{cycle, cycled};
use crate::git::refs::RefEntryModel;
use crate::model::{
    BlameDocument, BlameLineModel, CommitModel, CommitRecord, DiffDocument, DiffTarget,
    DocumentModel, LineModel, ObjectId, RefEntry, StatusDocument,
};
use crate::text::lower_text;
use vstd::prelude::*;

verus! {

/// `x`, or the largest `usize` if it is larger.
pub open spec fn sat(x: int) -> int {
    if x > usize::MAX {
        usize::MAX as int
    } else {
        x
    }
}

/// `x - y`, but not below zero.
pub open spec fn less(x: int, y: int) -> int {
    if x >= y {
        x - y
    } else {
        0
    }
}

/// The smaller of two numbers.
pub open spec fn smaller(x: int, y: int) -> int {
    if x <= y {
        x
    } else {
        y
    }
}

/// The larger of two numbers.
pub open spec fn larger(x: int, y: int) -> int {
    if x >= y {
        x
    } else {
        y
    }
}

/// Position `pos` moved by `delta`, kept within `0..=last`.
pub open spec fn stepped(pos: int, delta: int, last: int) -> int {
    smaller(larger(pos + delta, 0), last)
}

/// Position `pos` moved by `delta`, kept within `0..=last`.
pub fn step_clamped(pos: usize, delta: isize, last: usize) -> (r: usize)
    ensures
        r == stepped(pos as int, delta as int, last as int),
{
    if delta >= 0 {
        let up: usize = delta as usize;
        if pos >= last || up >= last - pos {
            last
        } else {
            pos + up
        }
    } else {
        let down: usize = (-(delta + 1)) as usize;
        if pos <= down {
            0
        } else {
            let at: usize = pos - down - 1;
            if at > last {
                last
            } else {
                at
            }
        }
    }
}

/// The view of an optional text.
pub open spec fn opt_text(t: Option<String>) -> Option<Seq<char>> {
    match t {
        Some(s) => Some(s@),
        None => None,
    }
}

/// The row of what is not committed yet.
#[derive(Debug)]
pub struct WorkingTreeRow {
    pub author: String,
    /// Whether anything differs from the last commit; `None` before that is known.
    pub dirty: Option<bool>,
}

/// The row of what is staged.
#[derive(Debug)]
pub struct StagedRow {
    pub author: String,
}

/// One row of the log.
#[derive(Debug)]
pub enum LogRow {
    WorkingTree(WorkingTreeRow),
    Staged(StagedRow),
    Commit(CommitRecord),
}

/// What a `LogRow` says.
#[verifier::ext_equal]
pub enum RowModel {
    WorkingTree { author: Seq<char>, dirty: Option<bool> },
    Staged { author: Seq<char> },
    Commit(CommitModel),
}

impl View for LogRow {
    type V = RowModel;

    open spec fn view(&self) -> RowModel {
        match *self {
            LogRow::WorkingTree(w) => RowModel::WorkingTree { author: w.author@, dirty: w.dirty },
            LogRow::Staged(s) => RowModel::Staged { author: s.author@ },
            LogRow::Commit(c) => RowModel::Commit(c@),
        }
    }
}

impl DeepView for LogRow {
    type V = RowModel;

    open spec fn deep_view(&self) -> RowModel {
        self@
    }
}

/// The pane that keys go to.
#[derive(Clone, Copy, PartialEq, Eq, Structural, Debug)]
pub enum Focus {
    Log,
    Diff,
}

/// The log pane.
#[derive(Debug)]
pub struct LogState {
    pub rows: Vec<LogRow>,
    pub selected: usize,
    pub scroll: usize,
    /// Inner height of the pane, as last drawn.
    pub view_height: usize,
}

/// What a `LogState` holds.
pub struct LogModel {
    pub rows: Seq<RowModel>,
    pub selected: int,
    pub scroll: int,
    pub view_height: int,
}

impl View for LogState {
    type V = LogModel;

    open spec fn view(&self) -> LogModel {
        LogModel {
            rows: self.rows.deep_view(),
            selected: self.selected as int,
            scroll: self.scroll as int,
            view_height: self.view_height as int,
        }
    }
}

/// What the status bar shows of a search.
#[derive(Debug)]
pub struct SearchSnapshot<'a> {
    pub active: bool,
    pub query: &'a str,
    pub matches_len: usize,
    pub display_index: usize,
}

/// A search: whether its query is being typed, the query, the positions that match it, and
/// which of them is the current one.
#[derive(Debug)]
pub struct SearchState {
    pub active: bool,
    pub query: String,
    pub matches: Vec<usize>,
    pub current: usize,
}

/// What a `SearchState` holds.
pub struct SearchModel {
    pub active: bool,
    pub query: Seq<char>,
    pub matches: Seq<usize>,
    pub current: int,
}

/// No search.
pub open spec fn no_search() -> SearchModel {
    SearchModel { active: false, query: Seq::empty(), matches: Seq::empty(), current: 0 }
}

impl View for SearchState {
    type V = SearchModel;

    open spec fn view(&self) -> SearchModel {
        SearchModel {
            active: self.active,
            query: self.query@,
            matches: self.matches@,
            current: self.current as int,
        }
    }
}

impl SearchModel {
    /// The search after a move by `delta` round its matches.
    pub open spec fn advanced(self, delta: int) -> SearchModel {
        match cycled(self.matches.len() as int, self.current, delta) {
            Some(i) => SearchModel { current: i, ..self },
            None => self,
        }
    }
}

impl Default for SearchState {
    fn default() -> (r: SearchState)
        ensures
            r@ == no_search(),
    {
        SearchState::new()
    }
}

impl SearchState {
    pub fn new() -> (r: SearchState)
        ensures
            r@ == no_search(),
    {
        SearchState { active: false, query: String::new(), matches: Vec::new(), current: 0 }
    }

    pub fn clear(&mut self)
        ensures
            final(self)@ == no_search(),
    {
        self.active = false;
        self.query.clear();
        self.matches.clear();
        self.current = 0;
    }

    /// Moves by `delta` round the matches, and returns the position it ends on.
    pub fn advance(&mut self, delta: isize) -> (r: Option<usize>)
        ensures
            final(self)@ == old(self)@.advanced(delta as int),
            match cycled(old(self)@.matches.len() as int, old(self)@.current, delta as int) {
                Some(i) => 0 <= i < old(self)@.matches.len() && r == Some(old(self)@.matches[i]),
                None => r is None,
            },
    {
        cycle(self.matches.as_slice(), &mut self.current, delta)
    }

    /// The position of the current match.
    pub fn current_pos(&self) -> (r: Option<usize>)
        ensures
            r == (if self.current < self.matches@.len() {
                Some(self.matches@[self.current as int])
            } else {
                None
            }),
    {
        if self.current < self.matches.len() {
            Some(self.matches[self.current])
        } else {
            None
        }
    }

    /// The number of the current match, counted from one; zero without matches.
    pub fn display_index(&self) -> (r: usize)
        ensures
            r == (if self.matches@.len() == 0 {
                0
            } else {
                sat(self.current + 1)
            }),
    {
        if self.matches.len() == 0 {
            0
        } else {
            self.current.saturating_add(1)
        }
    }

    pub fn snapshot(&self) -> (r: SearchSnapshot<'_>)
        ensures
            r.active == self.active,
            r.query@ == self.query@,
            r.matches_len == self.matches@.len(),
            r.display_index == (if self.matches@.len() == 0 {
                0
            } else {
                sat(self.current + 1)
            }),
    {
        SearchSnapshot {
            active: self.active,
            query: self.query.as_str(),
            matches_len: self.matches.len(),
            display_index: self.display_index(),
        }
    }
}

/// The diff pane's search.
pub type DiffSearchState = SearchState;

/// The log pane's search. It remembers the lowercase query and the walk that its matches
/// belong to, so that a longer query can filter them.
#[derive(Debug)]
pub struct CommitSearchState {
    pub state: SearchState,
    pub last_query: String,
    pub last_generation: u64,
}

/// What a `CommitSearchState` holds.
pub struct CommitSearchModel {
    pub state: SearchModel,
    pub last_query: Seq<char>,
    pub last_generation: u64,
}

impl View for CommitSearchState {
    type V = CommitSearchModel;

    open spec fn view(&self) -> CommitSearchModel {
        CommitSearchModel {
            state: self.state@,
            last_query: self.last_query@,
            last_generation: self.last_generation,
        }
    }
}

impl CommitSearchModel {
    /// The search is over; nothing is left to narrow.
    pub open spec fn cleared(self) -> CommitSearchModel {
        CommitSearchModel { state: no_search(), last_query: Seq::empty(), ..self }
    }
}

impl Default for CommitSearchState {
    fn default() -> (r: CommitSearchState)
        ensures
            r@ == (CommitSearchModel {
                state: no_search(),
                last_query: Seq::empty(),
                last_generation: 0,
            }),
    {
        CommitSearchState::new()
    }
}

impl CommitSearchState {
    pub fn new() -> (r: CommitSearchState)
        ensures
            r@ == (CommitSearchModel {
                state: no_search(),
                last_query: Seq::empty(),
                last_generation: 0,
            }),
    {
        CommitSearchState {
            state: SearchState::new(),
            last_query: String::new(),
            last_generation: 0,
        }
    }

    pub fn clear(&mut self)
        ensures
            final(self)@ == old(self)@.cleared(),
    {
        self.state.clear();
        self.last_query.clear();
    }

    pub fn advance(&mut self, delta: isize) -> (r: Option<usize>)
        ensures
            final(self)@ == (CommitSearchModel {
                state: old(self)@.state.advanced(delta as int),
                ..old(self)@
            }),
            match cycled(
                old(self)@.state.matches.len() as int,
                old(self)@.state.current,
                delta as int,
            ) {
                Some(i) => 0 <= i < old(self)@.state.matches.len() && r == Some(
                    old(self)@.state.matches[i],
                ),
                None => r is None,
            },
    {
        self.state.advance(delta)
    }

    pub fn current_pos(&self) -> (r: Option<usize>)
        ensures
            r == (if self.state.current < self.state.matches@.len() {
                Some(self.state.matches@[self.state.current as int])
            } else {
                None
            }),
    {
        self.state.current_pos()
    }

    pub fn snapshot(&self) -> (r: SearchSnapshot<'_>)
        ensures
            r.active == self.state.active,
            r.query@ == self.state.query@,
            r.matches_len == self.state.matches@.len(),
            r.display_index == (if self.state.matches@.len() == 0 {
                0
            } else {
                sat(self.state.current + 1)
            }),
    {
        self.state.snapshot()
    }
}

/// A place in the diff pane: a line, and a display cell in it.
pub open spec fn at_or_before(a: (usize, usize), b: (usize, usize)) -> bool {
    a.0 < b.0 || (a.0 == b.0 && a.1 <= b.1)
}

/// A text selection in the diff pane, from where it was started to where the pointer is.
/// Both ends belong to it.
#[derive(Clone, Copy, PartialEq, Eq, Debug)]
pub struct DiffSelection {
    pub anchor: (usize, usize),
    pub cursor: (usize, usize),
    pub dragging: bool,
    /// The selection covers something: it was dragged, or made by a multiple click.
    pub moved: bool,
}

impl DiffSelection {
    /// The first place of the selection.
    pub open spec fn low(self) -> (usize, usize) {
        if at_or_before(self.anchor, self.cursor) {
            self.anchor
        } else {
            self.cursor
        }
    }

    /// The last place of the selection.
    pub open spec fn high(self) -> (usize, usize) {
        if at_or_before(self.anchor, self.cursor) {
            self.cursor
        } else {
            self.anchor
        }
    }

    /// The first and the last place of the selection.
    pub fn range(&self) -> (r: ((usize, usize), (usize, usize)))
        ensures
            r == (self.low(), self.high()),
    {
        if self.anchor.0 < self.cursor.0 || (self.anchor.0 == self.cursor.0 && self.anchor.1
            <= self.cursor.1) {
            (self.anchor, self.cursor)
        } else {
            (self.cursor, self.anchor)
        }
    }

    /// The first and the last line of the selection.
    pub fn line_range(&self) -> (r: (usize, usize))
        ensures
            r == (self.low().0, self.high().0),
    {
        let both: ((usize, usize), (usize, usize)) = self.range();
        (both.0.0, both.1.0)
    }

    /// The selected cells of line `idx`: from the first to before the end, or to the end of
    /// the line where the selection goes on behind it.
    pub open spec fn cells(self, idx: int) -> Option<(int, Option<int>)> {
        if idx < self.low().0 || idx > self.high().0 {
            None
        } else {
            Some(
                (
                    if idx == self.low().0 {
                        self.low().1 as int
                    } else {
                        0
                    },
                    if idx == self.high().0 {
                        Some(sat(self.high().1 + 1))
                    } else {
                        None
                    },
                ),
            )
        }
    }

    /// The selected cells of line `idx`.
    pub fn cells_on_line(&self, idx: usize) -> (r: Option<(usize, Option<usize>)>)
        ensures
            match (r, self.cells(idx as int)) {
                (None, None) => true,
                (Some((s, None)), Some((t, None))) => s == t,
                (Some((s, Some(e))), Some((t, Some(f)))) => s == t && e == f,
                _ => false,
            },
    {
        let both: ((usize, usize), (usize, usize)) = self.range();
        let lo: (usize, usize) = both.0;
        let hi: (usize, usize) = both.1;
        if idx < lo.0 || idx > hi.0 {
            return None;
        }
        let start: usize = if idx == lo.0 {
            lo.1
        } else {
            0
        };
        let end: Option<usize> = if idx == hi.0 {
            Some(hi.1.saturating_add(1))
        } else {
            None
        };
        Some((start, end))
    }
}

/// Whether a character of width `w` at cell `acc` is selected, if the cells from `start` to
/// before `end` are. A character without width belongs to the cell in front of it.
pub open spec fn cell_selected(acc: int, w: int, start: int, end: Option<int>) -> bool {
    let first = if w == 0 {
        acc - 1
    } else {
        acc
    };
    let last = if w == 0 {
        acc - 1
    } else {
        acc + w - 1
    };
    last >= start && first >= 0 && match end {
        Some(e) => first < e,
        None => true,
    }
}

/// Whether a character of width `w` at cell `acc` is selected.
pub fn cell_in_selection(acc: usize, w: usize, start: usize, end: Option<usize>) -> (r: bool)
    ensures
        r == cell_selected(
            acc as int,
            w as int,
            start as int,
            match end {
                Some(e) => Some(e as int),
                None => None,
            },
        ),
{
    let before_end: bool = match end {
        Some(e) => if w == 0 {
            acc <= e
        } else {
            acc < e
        },
        None => true,
    };
    if w == 0 {
        acc > start && before_end
    } else {
        before_end && (acc >= start || w > start - acc)
    }
}

/// What a single-file view hides: the document it took the place of, and where that was
/// scrolled to.
#[derive(Debug)]
pub struct FileViewReturn {
    pub document: DiffDocument,
    pub scroll: usize,
    pub horizontal_scroll: usize,
}

/// What a `FileViewReturn` holds.
pub struct ReturnModel {
    pub document: DocumentModel,
    pub scroll: int,
    pub horizontal_scroll: int,
}

impl View for FileViewReturn {
    type V = ReturnModel;

    open spec fn view(&self) -> ReturnModel {
        ReturnModel {
            document: self.document@,
            scroll: self.scroll as int,
            horizontal_scroll: self.horizontal_scroll as int,
        }
    }
}

/// The diff pane.
#[derive(Debug)]
pub struct DiffState {
    pub open: bool,
    pub target: Option<DiffTarget>,
    pub document: Option<DiffDocument>,
    pub scroll: usize,
    pub horizontal_scroll: usize,
    pub loading: bool,
    pub show_line_numbers: bool,
    pub show_hunks: bool,
    /// Commit diffs keep to the files of the path filter.
    pub scoped: bool,
    /// Inner height of the pane, as last drawn.
    pub view_height: usize,
    pub search: DiffSearchState,
    /// The header's lines in lower case, once they were searched.
    pub header_lower: Option<Vec<String>>,
    /// The body's lines in lower case, once they were searched.
    pub body_lower: Option<Vec<String>>,
    /// What the single-file view hides, while it shows.
    pub file_view_return: Option<Box<FileViewReturn>>,
    /// The file that the picker is on, while it is open.
    pub file_picker: Option<usize>,
    pub picker_filter: SearchState,
    pub selection: Option<DiffSelection>,
}

/// What a `DiffState` holds.
pub struct DiffModel {
    pub open: bool,
    pub target: Option<DiffTarget>,
    pub document: Option<DocumentModel>,
    pub scroll: int,
    pub horizontal_scroll: int,
    pub loading: bool,
    pub show_line_numbers: bool,
    pub show_hunks: bool,
    pub scoped: bool,
    pub view_height: int,
    pub search: SearchModel,
    pub header_lower: Option<Seq<Seq<char>>>,
    pub body_lower: Option<Seq<Seq<char>>>,
    pub file_view_return: Option<ReturnModel>,
    pub file_picker: Option<int>,
    pub picker_filter: SearchModel,
    pub selection: Option<DiffSelection>,
}

impl View for DiffState {
    type V = DiffModel;

    open spec fn view(&self) -> DiffModel {
        DiffModel {
            open: self.open,
            target: self.target,
            document: match self.document {
                Some(d) => Some(d@),
                None => None,
            },
            scroll: self.scroll as int,
            horizontal_scroll: self.horizontal_scroll as int,
            loading: self.loading,
            show_line_numbers: self.show_line_numbers,
            show_hunks: self.show_hunks,
            scoped: self.scoped,
            view_height: self.view_height as int,
            search: self.search@,
            header_lower: match self.header_lower {
                Some(v) => Some(v.deep_view()),
                None => None,
            },
            body_lower: match self.body_lower {
                Some(v) => Some(v.deep_view()),
                None => None,
            },
            file_view_return: match self.file_view_return {
                Some(b) => Some((*b)@),
                None => None,
            },
            file_picker: match self.file_picker {
                Some(i) => Some(i as int),
                None => None,
            },
            picker_filter: self.picker_filter@,
            selection: self.selection,
        }
    }
}

/// The texts of `lines` in lower case.
pub open spec fn lower_lines(lines: Seq<LineModel>) -> Seq<Seq<char>> {
    lines.map_values(|l: LineModel| lower_text(l.text))
}

impl DiffModel {
    /// Lines of the diffstat block: a separator, one for each file, a blank one and the
    /// totals; none without files.
    pub open spec fn diffstat_lines(self) -> int {
        match self.document {
            Some(d) => if d.files.len() == 0 {
                0
            } else {
                sat((d.files.len() + 3) as int)
            },
            None => 0,
        }
    }

    /// Lines of the header.
    pub open spec fn header_lines(self) -> int {
        match self.document {
            Some(d) => d.header.len() as int,
            None => 0,
        }
    }

    /// The line at which the body starts.
    pub open spec fn body_offset(self) -> int {
        sat(self.header_lines() + self.diffstat_lines())
    }

    /// All lines of the pane: the header, the diffstat and, unless it is hidden, the body.
    pub open spec fn total_lines(self) -> int {
        sat(
            self.body_offset() + match self.document {
                Some(d) => if self.show_hunks {
                    d.body.len() as int
                } else {
                    0
                },
                None => 0,
            },
        )
    }

    /// The furthest that the pane scrolls.
    pub open spec fn max_scroll(self) -> int {
        less(self.total_lines(), self.view_height)
    }

    /// The picker is closed and its filter gone.
    pub open spec fn picker_closed(self) -> DiffModel {
        DiffModel { file_picker: None, picker_filter: no_search(), ..self }
    }

    /// What was derived from the document is gone: the lowercase lines and the selection.
    pub open spec fn content_changed(self) -> DiffModel {
        DiffModel { header_lower: None, body_lower: None, selection: None, ..self }
    }

    /// The lowercase lines are there, if there is a document.
    pub open spec fn with_lower(self) -> DiffModel {
        match self.document {
            Some(d) => DiffModel {
                header_lower: if self.header_lower is Some {
                    self.header_lower
                } else {
                    Some(lower_lines(d.header))
                },
                body_lower: if self.body_lower is Some {
                    self.body_lower
                } else {
                    Some(lower_lines(d.body))
                },
                ..self
            },
            None => self,
        }
    }

    /// The lowercase lines, where they are there, are those of the document.
    pub open spec fn lower_is_current(self) -> bool {
        &&& self.header_lower is Some ==> self.document is Some && self.header_lower == Some(
            lower_lines(self.document->0.header),
        )
        &&& self.body_lower is Some ==> self.document is Some && self.body_lower == Some(
            lower_lines(self.document->0.body),
        )
    }
}

fn lowered(lines: &Vec<crate::model::DiffLine>) -> (r: Vec<String>)
    ensures
        r.deep_view() == lower_lines(lines.deep_view()),
{
    let mut out: Vec<String> = Vec::with_capacity(lines.len());
    let ghost all = lines.deep_view();
    let mut i: usize = 0;
    assert(out.deep_view() =~= lower_lines(all.take(0)));
    while i < lines.len()
        invariant
            i <= lines@.len(),
            all == lines.deep_view(),
            out.deep_view() == lower_lines(all.take(i as int)),
        decreases lines@.len() - i,
    {
        let ghost before = out.deep_view();
        let low: String = lines[i].text.as_str().to_lowercase();
        out.push(low);
        proof {
            assert(out.deep_view() =~= before.push(lower_text(all[i as int].text)));
            assert(all.take(i + 1) =~= all.take(i as int).push(all[i as int]));
            assert(out.deep_view() =~= lower_lines(all.take(i + 1)));
        }
        i += 1;
    }
    assert(all.take(i as int) =~= all);
    out
}

impl DiffState {
    /// A closed pane with nothing in it.
    pub fn new() -> (r: DiffState)
        ensures
            r@ == (DiffModel {
                open: false,
                target: None,
                document: None,
                scroll: 0,
                horizontal_scroll: 0,
                loading: false,
                show_line_numbers: true,
                show_hunks: true,
                scoped: true,
                view_height: 1,
                search: no_search(),
                header_lower: None,
                body_lower: None,
                file_view_return: None,
                file_picker: None,
                picker_filter: no_search(),
                selection: None,
            }),
    {
        DiffState {
            open: false,
            target: None,
            document: None,
            scroll: 0,
            horizontal_scroll: 0,
            loading: false,
            show_line_numbers: true,
            show_hunks: true,
            scoped: true,
            view_height: 1,
            search: SearchState::new(),
            header_lower: None,
            body_lower: None,
            file_view_return: None,
            file_picker: None,
            picker_filter: SearchState::new(),
            selection: None,
        }
    }

    /// Lines of the header.
    pub fn header_line_count(&self) -> (r: usize)
        ensures
            r == self@.header_lines(),
    {
        match &self.document {
            Some(d) => d.header.len(),
            None => 0,
        }
    }

    /// Lines of the diffstat block.
    pub fn diffstat_line_count(&self) -> (r: usize)
        ensures
            r == self@.diffstat_lines(),
    {
        match &self.document {
            Some(d) => if d.files.len() == 0 {
                0
            } else {
                d.files.len().saturating_add(3)
            },
            None => 0,
        }
    }

    /// The line at which the body starts.
    pub fn body_offset(&self) -> (r: usize)
        ensures
            r == self@.body_offset(),
    {
        self.header_line_count().saturating_add(self.diffstat_line_count())
    }

    /// All lines of the pane.
    pub fn total_visible_lines(&self) -> (r: usize)
        ensures
            r == self@.total_lines(),
    {
        let body: usize = match &self.document {
            Some(d) => if self.show_hunks {
                d.body.len()
            } else {
                0
            },
            None => 0,
        };
        self.body_offset().saturating_add(body)
    }

    /// The furthest that the pane scrolls.
    pub fn max_scroll(&self) -> (r: usize)
        ensures
            r == self@.max_scroll(),
    {
        self.total_visible_lines().saturating_sub(self.view_height)
    }

    /// Makes the lowercase lines, unless they are there.
    pub fn ensure_lower_cache(&mut self)
        ensures
            final(self)@ == old(self)@.with_lower(),
    {
        let ghost before = self@;
        let mut header: Option<Vec<String>> = None;
        let mut body: Option<Vec<String>> = None;
        if let Some(doc) = &self.document {
            if self.header_lower.is_none() {
                header = Some(lowered(&doc.header));
            }
            if self.body_lower.is_none() {
                body = Some(lowered(&doc.body));
            }
        }
        if header.is_some() {
            self.header_lower = header;
        }
        if body.is_some() {
            self.body_lower = body;
        }
        assert(self@ =~= before.with_lower());
    }

    /// Closes the picker and drops its filter.
    pub fn close_picker(&mut self)
        ensures
            final(self)@ == old(self)@.picker_closed(),
    {
        self.file_picker = None;
        self.picker_filter.clear();
    }

    /// Drops what was derived from the document.
    pub fn forget_content(&mut self)
        ensures
            final(self)@ == old(self)@.content_changed(),
    {
        self.header_lower = None;
        self.body_lower = None;
        self.selection = None;
    }
}

/// The status pane.
#[derive(Debug)]
pub struct StatusState {
    pub open: bool,
    pub document: Option<StatusDocument>,
    pub scroll: usize,
    pub loading: bool,
}

/// What a `StatusState` holds.
pub struct StatusModel {
    pub open: bool,
    pub document: Option<Seq<LineModel>>,
    pub scroll: int,
    pub loading: bool,
}

impl View for StatusState {
    type V = StatusModel;

    open spec fn view(&self) -> StatusModel {
        StatusModel {
            open: self.open,
            document: match self.document {
                Some(d) => Some(d.lines.deep_view()),
                None => None,
            },
            scroll: self.scroll as int,
            loading: self.loading,
        }
    }
}

/// Where a blame was: the commit and the path.
#[derive(Debug)]
pub struct BlamePlace {
    pub at: ObjectId,
    pub path: String,
}

/// What a `BlamePlace` says.
#[verifier::ext_equal]
pub struct PlaceModel {
    pub at: ObjectId,
    pub path: Seq<char>,
}

impl View for BlamePlace {
    type V = PlaceModel;

    open spec fn view(&self) -> PlaceModel {
        PlaceModel { at: self.at, path: self.path@ }
    }
}

impl DeepView for BlamePlace {
    type V = PlaceModel;

    open spec fn deep_view(&self) -> PlaceModel {
        self@
    }
}

/// The blame view.
#[derive(Debug)]
pub struct BlameState {
    pub open: bool,
    pub loading: bool,
    pub document: Option<BlameDocument>,
    pub selected: usize,
    pub scroll: usize,
    /// Inner height of the view, as last drawn.
    pub view_height: usize,
    /// Why the last blame failed.
    pub error: Option<String>,
    /// The places that the way back leads through.
    pub history: Vec<BlamePlace>,
    /// The place to add to the way back once the blame that is under way succeeds.
    pub pending_return: Option<BlamePlace>,
}

/// What a `BlameDocument` says.
pub struct BlameDocumentModel {
    pub path: Seq<char>,
    pub at: ObjectId,
    pub lines: Seq<BlameLineModel>,
}

impl View for BlameDocument {
    type V = BlameDocumentModel;

    open spec fn view(&self) -> BlameDocumentModel {
        BlameDocumentModel { path: self.path@, at: self.at, lines: self.lines.deep_view() }
    }
}

/// What a `BlameState` holds.
pub struct BlameModel {
    pub open: bool,
    pub loading: bool,
    pub document: Option<BlameDocumentModel>,
    pub selected: int,
    pub scroll: int,
    pub view_height: int,
    pub error: Option<Seq<char>>,
    pub history: Seq<PlaceModel>,
    pub pending_return: Option<PlaceModel>,
}

impl View for BlameState {
    type V = BlameModel;

    open spec fn view(&self) -> BlameModel {
        BlameModel {
            open: self.open,
            loading: self.loading,
            document: match self.document {
                Some(d) => Some(d@),
                None => None,
            },
            selected: self.selected as int,
            scroll: self.scroll as int,
            view_height: self.view_height as int,
            error: opt_text(self.error),
            history: self.history.deep_view(),
            pending_return: match self.pending_return {
                Some(p) => Some(p@),
                None => None,
            },
        }
    }
}

/// A closed blame view.
pub open spec fn no_blame() -> BlameModel {
    BlameModel {
        open: false,
        loading: false,
        document: None,
        selected: 0,
        scroll: 0,
        view_height: 1,
        error: None,
        history: Seq::empty(),
        pending_return: None,
    }
}

impl BlameState {
    pub fn new() -> (r: BlameState)
        ensures
            r@ == no_blame(),
    {
        let r = BlameState {
            open: false,
            loading: false,
            document: None,
            selected: 0,
            scroll: 0,
            view_height: 1,
            error: None,
            history: Vec::new(),
            pending_return: None,
        };
        assert(r@.history =~= Seq::empty());
        r
    }
}

impl Default for BlameState {
    fn default() -> (r: BlameState)
        ensures
            r@ == no_blame(),
    {
        BlameState::new()
    }
}

/// The refs view.
#[derive(Debug)]
pub struct RefsState {
    pub open: bool,
    pub loading: bool,
    pub entries: Vec<RefEntry>,
    pub selected: usize,
    pub scroll: usize,
    /// Inner height of the view, as last drawn.
    pub view_height: usize,
}

/// What a `RefsState` holds.
pub struct RefsModel {
    pub open: bool,
    pub loading: bool,
    pub entries: Seq<RefEntryModel>,
    pub selected: int,
    pub scroll: int,
    pub view_height: int,
}

impl View for RefsState {
    type V = RefsModel;

    open spec fn view(&self) -> RefsModel {
        RefsModel {
            open: self.open,
            loading: self.loading,
            entries: self.entries.deep_view(),
            selected: self.selected as int,
            scroll: self.scroll as int,
            view_height: self.view_height as int,
        }
    }
}

/// A closed refs view.
pub open spec fn no_refs() -> RefsModel {
    RefsModel {
        open: false,
        loading: false,
        entries: Seq::empty(),
        selected: 0,
        scroll: 0,
        view_height: 1,
    }
}

impl RefsState {
    pub fn new() -> (r: RefsState)
        ensures
            r@ == no_refs(),
    {
        let r = RefsState {
            open: false,
            loading: false,
            entries: Vec::new(),
            selected: 0,
            scroll: 0,
            view_height: 1,
        };
        assert(r@.entries =~= Seq::empty());
        r
    }
}

impl Default for RefsState {
    fn default() -> (r: RefsState)
        ensures
            r@ == no_refs(),
    {
        RefsState::new()
    }
}

/// The note that something was copied.
#[derive(Debug)]
pub struct YankFeedback {
    pub text: String,
    /// When it was shown first, in milliseconds of the viewer's clock.
    pub shown_at: u64,
}

/// What a `YankFeedback` says.
pub struct YankModel {
    pub text: Seq<char>,
    pub shown_at: u64,
}

impl View for YankFeedback {
    type V = YankModel;

    open spec fn view(&self) -> YankModel {
        YankModel { text: self.text@, shown_at: self.shown_at }
    }
}

/// A rectangle of the screen.
#[derive(Clone, Copy, PartialEq, Eq, Structural, Debug)]
pub struct Rect {
    pub x: u16,
    pub y: u16,
    pub width: u16,
    pub height: u16,
}

impl Rect {
    pub fn new(x: u16, y: u16, width: u16, height: u16) -> (r: Rect)
        ensures
            r == (Rect { x, y, width, height }),
    {
        Rect { x, y, width, height }
    }

    /// Whether the cell at `column` and `row` lies in the rectangle.
    pub open spec fn holds(self, column: int, row: int) -> bool {
        self.x <= column < self.x + self.width && self.y <= row < self.y + self.height
    }
}

/// Where the panes were last drawn, without their borders.
#[derive(Clone, Copy, PartialEq, Eq, Structural, Debug)]
pub struct PaneRects {
    pub log: Option<Rect>,
    pub diff: Option<Rect>,
}

impl Default for PaneRects {
    fn default() -> (r: PaneRects)
        ensures
            r == (PaneRects { log: None, diff: None }),
    {
        PaneRects { log: None, diff: None }
    }
}

/// How the log shows the date.
#[derive(Clone, Copy, PartialEq, Eq, Structural, Debug)]
pub enum DateMode {
    /// "2d ago".
    Relative,
    /// "2026-07-03 14:05", in local time.
    Absolute,
    Off,
}

impl DateMode {
    /// The mode that follows.
    pub open spec fn then_mode(self) -> DateMode {
        match self {
            DateMode::Relative => DateMode::Absolute,
            DateMode::Absolute => DateMode::Off,
            DateMode::Off => DateMode::Relative,
        }
    }

    /// The mode that follows.
    pub fn next(self) -> (r: DateMode)
        ensures
            r == self.then_mode(),
    {
        match self {
            DateMode::Relative => DateMode::Absolute,
            DateMode::Absolute => DateMode::Off,
            DateMode::Off => DateMode::Relative,
        }
    }

    /// Width of the date column; zero hides it.
    pub open spec fn width(self) -> int {
        match self {
            DateMode::Relative => 8,
            DateMode::Absolute => 16,
            DateMode::Off => 0,
        }
    }

    /// Width of the date column; zero hides it.
    pub fn col_width(self) -> (r: usize)
        ensures
            r == self.width(),
    {
        match self {
            DateMode::Relative => 8,
            DateMode::Absolute => 16,
            DateMode::Off => 0,
        }
    }
}

/// How the log shows the author.
#[derive(Clone, Copy, PartialEq, Eq, Structural, Debug)]
pub enum AuthorMode {
    Full,
    Abbrev,
    Off,
}

impl AuthorMode {
    /// The mode that follows.
    pub open spec fn then_mode(self) -> AuthorMode {
        match self {
            AuthorMode::Full => AuthorMode::Abbrev,
            AuthorMode::Abbrev => AuthorMode::Off,
            AuthorMode::Off => AuthorMode::Full,
        }
    }

    /// The mode that follows.
    pub fn next(self) -> (r: AuthorMode)
        ensures
            r == self.then_mode(),
    {
        match self {
            AuthorMode::Full => AuthorMode::Abbrev,
            AuthorMode::Abbrev => AuthorMode::Off,
            AuthorMode::Off => AuthorMode::Full,
        }
    }

    /// Width of the author column; zero hides it.
    pub open spec fn width(self) -> int {
        match self {
            AuthorMode::Full => 20,
            AuthorMode::Abbrev => 10,
            AuthorMode::Off => 0,
        }
    }

    /// Width of the author column; zero hides it.
    pub fn col_width(self) -> (r: usize)
        ensures
            r == self.width(),
    {
        match self {
            AuthorMode::Full => 20,
            AuthorMode::Abbrev => 10,
            AuthorMode::Off => 0,
        }
    }
}

/// Each key press goes to the next mode, and three lead back.
pub proof fn law_modes_come_round(date: DateMode, author: AuthorMode)
    ensures
        date.then_mode() != date,
        date.then_mode().then_mode() != date,
        date.then_mode().then_mode().then_mode() == date,
        author.then_mode() != author,
        author.then_mode().then_mode() != author,
        author.then_mode().then_mode().then_mode() == author,
{
}

/// How the log is shown.
#[derive(Clone, Copy, PartialEq, Eq, Structural, Debug)]
pub struct DisplayOptions {
    pub date: DateMode,
    pub author: AuthorMode,
    /// Show the whole commit id.
    pub full_hash: bool,
}

impl Default for DisplayOptions {
    fn default() -> (r: DisplayOptions)
        ensures
            r == (DisplayOptions {
                date: DateMode::Relative,
                author: AuthorMode::Full,
                full_hash: false,
            }),
    {
        DisplayOptions { date: DateMode::Relative, author: AuthorMode::Full, full_hash: false }
    }
}

/// The pane holds the header, then the diffstat with a line for each file and three more,
/// then the body unless it is hidden; it scrolls until its last line is at the bottom, and not
/// at all if everything fits.
pub proof fn law_the_pane_holds_header_stat_and_body(m: DiffModel)
    requires
        m.document is Some,
        m.document->0.header.len() + m.document->0.files.len() + 3 + m.document->0.body.len()
            <= usize::MAX,
    ensures
        ({
            let d = m.document->0;
            let stat = if d.files.len() == 0 {
                0
            } else {
                d.files.len() + 3
            };
            &&& m.body_offset() == d.header.len() + stat
            &&& m.show_hunks ==> m.total_lines() == d.header.len() + stat + d.body.len()
            &&& !m.show_hunks ==> m.total_lines() == d.header.len() + stat
        }),
        m.max_scroll() == vstd::math::max(m.total_lines() - m.view_height, 0),
{
}

/// Without a document the pane is empty, and does not scroll.
pub proof fn law_a_pane_without_a_document_is_empty(m: DiffModel)
    requires
        m.document is None,
        0 <= m.view_height,
    ensures
        m.total_lines() == 0,
        m.body_offset() == 0,
        m.max_scroll() == 0,
        m.with_lower() == m,
{
}

/// The lowercase lines that are made are those of the document, line by line.
pub proof fn law_lowercase_lines_follow_the_document(m: DiffModel, i: int)
    requires
        m.document is Some,
        m.lower_is_current(),
    ensures
        ({
            let d = m.document->0;
            let n = m.with_lower();
            &&& n.header_lower is Some && n.header_lower->0.len() == d.header.len()
            &&& n.body_lower is Some && n.body_lower->0.len() == d.body.len()
            &&& 0 <= i < d.header.len() ==> n.header_lower->0[i] == lower_text(d.header[i].text)
            &&& 0 <= i < d.body.len() ==> n.body_lower->0[i] == lower_text(d.body[i].text)
            &&& n.lower_is_current()
        }),
{
}

/// A step within bounds goes just as far as asked, one beyond them stops there, and a step
/// never leaves the range.
pub proof fn law_steps_stop_at_the_ends(pos: int, delta: int, last: int)
    requires
        0 <= last,
    ensures
        0 <= pos + delta <= last ==> stepped(pos, delta, last) == pos + delta,
        pos + delta < 0 ==> stepped(pos, delta, last) == 0,
        pos + delta > last ==> stepped(pos, delta, last) == last,
{
}

/// A selection reaches from the earlier to the later of the two places, by line first and by
/// column within a line.
pub proof fn law_a_selection_reaches_from_the_earlier_place(s: DiffSelection)
    ensures
        s.low() == s.anchor && s.high() == s.cursor || s.low() == s.cursor && s.high() == s.anchor,
        s.low().0 <= s.high().0,
        s.low().0 == s.high().0 ==> s.low().1 <= s.high().1,
{
}

/// Of the first line a selection takes what follows its start, of the last what comes up to
/// its end, that column included, of the lines between everything, and of other lines nothing.
pub proof fn law_a_selection_takes_whole_lines_between(s: DiffSelection, idx: int)
    requires
        s.high().1 < usize::MAX,
    ensures
        s.cells(idx) is Some <==> s.low().0 <= idx <= s.high().0,
        s.low().0 < idx < s.high().0 ==> s.cells(idx) == Some((0int, None::<int>)),
        idx == s.low().0 && idx < s.high().0 ==> s.cells(idx) == Some(
            (s.low().1 as int, None::<int>),
        ),
        idx == s.high().0 && idx > s.low().0 ==> s.cells(idx) == Some(
            (0int, Some(s.high().1 as int + 1)),
        ),
        idx == s.low().0 && idx == s.high().0 ==> s.cells(idx) == Some(
            (s.low().1 as int, Some(s.high().1 as int + 1)),
        ),
{
}

/// A character is selected exactly if one of its columns is; one without a width of its own
/// goes with the column in front of it.
pub proof fn law_a_character_is_selected_by_any_of_its_columns(
    at: int,
    w: int,
    start: int,
    end: int,
    c: int,
)
    requires
        0 <= at,
        0 <= w,
        start < end,
    ensures
        w > 0 && at <= c < at + w && start <= c < end ==> cell_selected(at, w, start, Some(end)),
        w > 0 && (at + w <= start || at >= end) ==> !cell_selected(at, w, start, Some(end)),
        w == 0 && at > 0 ==> (cell_selected(at, w, start, Some(end)) <==> start <= at - 1 < end),
        w == 0 && at == 0 ==> !cell_selected(at, w, start, Some(end)),
        w > 0 ==> (cell_selected(at, w, start, None) <==> at + w > start),
{
}

/// A place lies in an area exactly if it is less than its width to the right of its left edge
/// and less than its height below its top.
pub proof fn law_an_area_holds_its_places(r: Rect, dx: int, dy: int)
    ensures
        r.holds(r.x + dx, r.y + dy) <==> 0 <= dx < r.width && 0 <= dy < r.height,
{
}

/// A column that is off takes no room. A date takes eight columns as an age and sixteen in
/// full, an author ten when shortened and twenty otherwise.
pub proof fn law_a_column_that_is_off_takes_no_room(date: DateMode, author: AuthorMode)
    ensures
        date.width() == 0 <==> date == DateMode::Off,
        date == DateMode::Relative ==> date.width() == 8,
        date == DateMode::Absolute ==> date.width() == 16,
        author.width() == 0 <==> author == AuthorMode::Off,
        author == AuthorMode::Abbrev ==> author.width() == 10,
        author == AuthorMode::Full ==> author.width() == 20,
{
}

/// What was derived from a document goes with it, and a closed picker leaves no filter.
pub proof fn law_a_changed_document_has_no_selection(m: DiffModel)
    ensures
        m.content_changed().selection is None,
        m.content_changed().lower_is_current(),
        m.content_changed().document == m.document,
        m.content_changed().scroll == m.scroll,
        m.picker_closed().file_picker is None,
        m.picker_closed().picker_filter.query.len() == 0,
        !m.picker_closed().picker_filter.active,
        m.picker_closed().document == m.document,
{
}

} // verus!
