//! Searching the log and the diff pane.

use crate::app::search::{
    can_narrow, commit_match, commit_matches, contains_text, cycled, first_match_index,
    has_substring, jump_first_at_or_after, law_the_first_match_is_at_or_behind_the_cursor,
    lemma_substring_prefix, should_narrow,
};
use crate::app::state::{
    less, lower_lines, no_search, sat, smaller, CommitSearchModel, DiffModel, RowModel, SearchModel,
};
use crate::app::{App, AppModel, CommitSearchState, DiffState, Focus, LogRow, SearchState};
use crate::text::{has_prefix, lower_text};
use vstd::prelude::*;

verus! {

/// Whether row `i` matches the lowercase query `q`.
pub open spec fn row_matches(rows: Seq<RowModel>, q: Seq<char>, i: int) -> bool {
    0 <= i < rows.len() && match rows[i] {
        RowModel::Commit(c) => commit_match(c, q),
        _ => false,
    }
}

/// Those of the rows `from..to` that match, in order.
pub open spec fn matching_rows(rows: Seq<RowModel>, q: Seq<char>, from: int, to: int) -> Seq<usize>
    decreases to - from,
{
    if from >= to {
        Seq::empty()
    } else if row_matches(rows, q, to - 1) {
        matching_rows(rows, q, from, to - 1).push((to - 1) as usize)
    } else {
        matching_rows(rows, q, from, to - 1)
    }
}

/// Those of `found` that still match, in order.
pub open spec fn narrowed(rows: Seq<RowModel>, q: Seq<char>, found: Seq<usize>) -> Seq<usize>
    decreases found.len(),
{
    if found.len() == 0 {
        Seq::empty()
    } else if row_matches(rows, q, found.last() as int) {
        narrowed(rows, q, found.drop_last()).push(found.last())
    } else {
        narrowed(rows, q, found.drop_last())
    }
}

/// Those of the lines `lower[..to]` that contain `q`, each `offset` further down.
pub open spec fn matching_lines(lower: Seq<Seq<char>>, q: Seq<char>, offset: int, to: int) -> Seq<
    usize,
>
    decreases to,
{
    if to <= 0 {
        Seq::empty()
    } else if has_substring(lower[to - 1], q) {
        matching_lines(lower, q, offset, to - 1).push(sat(offset + to - 1) as usize)
    } else {
        matching_lines(lower, q, offset, to - 1)
    }
}

impl CommitSearchModel {
    /// The search with its matches found anew for its query.
    pub open spec fn refreshed(self, rows: Seq<RowModel>, generation: u64) -> CommitSearchModel {
        let q = lower_text(self.state.query);
        if q.len() == 0 {
            CommitSearchModel {
                state: SearchModel { matches: Seq::empty(), current: 0, ..self.state },
                last_query: Seq::empty(),
                ..self
            }
        } else {
            CommitSearchModel {
                state: SearchModel {
                    matches: if can_narrow(self.last_query, self.last_generation, q, generation) {
                        narrowed(rows, q, self.state.matches)
                    } else {
                        matching_rows(rows, q, 0, rows.len() as int)
                    },
                    current: 0,
                    ..self.state
                },
                last_query: q,
                last_generation: generation,
            }
        }
    }

    /// The search with the matches among the rows from `from` on added.
    pub open spec fn extended(self, rows: Seq<RowModel>, from: int) -> CommitSearchModel {
        if self.state.query.len() == 0 || self.last_query.len() == 0 {
            self
        } else {
            CommitSearchModel {
                state: SearchModel {
                    matches: self.state.matches + matching_rows(
                        rows,
                        self.last_query,
                        from,
                        rows.len() as int,
                    ),
                    ..self.state
                },
                ..self
            }
        }
    }
}

impl DiffModel {
    /// The pane with its matches found anew for its query.
    pub open spec fn refreshed(self) -> DiffModel {
        let q = lower_text(self.search.query);
        if q.len() == 0 {
            DiffModel {
                search: SearchModel { matches: Seq::empty(), current: 0, ..self.search },
                ..self
            }
        } else {
            let d = self.with_lower();
            let in_header = match d.header_lower {
                Some(h) => matching_lines(h, q, 0, h.len() as int),
                None => Seq::empty(),
            };
            let in_body = match d.body_lower {
                Some(b) => matching_lines(b, q, d.body_offset(), b.len() as int),
                None => Seq::empty(),
            };
            DiffModel {
                search: SearchModel { matches: in_header + in_body, current: 0, ..d.search },
                ..d
            }
        }
    }

    /// The pane scrolled so that line `pos` shows, with five lines above it.
    pub open spec fn match_shown(self, pos: int) -> DiffModel {
        DiffModel { scroll: smaller(less(pos, 5), self.max_scroll()), ..self }
    }

    /// The pane moves by `delta` round its matches.
    pub open spec fn match_jumped(self, delta: int) -> DiffModel {
        let s = self.search;
        match cycled(s.matches.len() as int, s.current, delta) {
            Some(i) => DiffModel { search: s.advanced(delta), ..self }.match_shown(
                s.matches[i] as int,
            ),
            None => self,
        }
    }

    /// The pane goes to its first match at or behind its first line.
    pub open spec fn match_first(self) -> DiffModel {
        let s = self.search;
        match first_match_index(s.matches, self.scroll) {
            Some(i) => DiffModel { search: SearchModel { current: i, ..s }, ..self }.match_shown(
                s.matches[i] as int,
            ),
            None => self,
        }
    }

    /// The pane searches for `query` and goes to its first match.
    pub open spec fn searching_for(self, query: Seq<char>) -> DiffModel {
        DiffModel { search: SearchModel { query, ..self.search }, ..self }.refreshed().match_first()
    }
}

fn row_is_match(rows: &Vec<LogRow>, q: &str, i: usize) -> (r: bool)
    ensures
        r == row_matches(rows.deep_view(), q@, i as int),
{
    if i < rows.len() {
        assert(rows.deep_view()[i as int] == rows@[i as int]@);
        match &rows[i] {
            LogRow::Commit(c) => commit_matches(c, q),
            _ => false,
        }
    } else {
        false
    }
}

fn find_rows(rows: &Vec<LogRow>, q: &str, from: usize) -> (r: Vec<usize>)
    ensures
        r@ == matching_rows(rows.deep_view(), q@, from as int, rows@.len() as int),
{
    let mut out: Vec<usize> = Vec::new();
    let ghost all = rows.deep_view();
    let mut i: usize = from;
    while i < rows.len()
        invariant
            from <= i,
            i <= rows@.len() || i == from,
            all == rows.deep_view(),
            out@ == matching_rows(all, q@, from as int, i as int),
        decreases rows@.len() - i,
    {
        if row_is_match(rows, q, i) {
            out.push(i);
        }
        i += 1;
    }
    out
}

fn narrow_rows(rows: &Vec<LogRow>, q: &str, found: &Vec<usize>) -> (r: Vec<usize>)
    ensures
        r@ == narrowed(rows.deep_view(), q@, found@),
{
    let mut out: Vec<usize> = Vec::new();
    let ghost all = rows.deep_view();
    let mut i: usize = 0;
    assert(found@.take(0) =~= Seq::empty());
    while i < found.len()
        invariant
            i <= found@.len(),
            all == rows.deep_view(),
            out@ == narrowed(all, q@, found@.take(i as int)),
        decreases found@.len() - i,
    {
        assert(found@.take(i + 1).drop_last() =~= found@.take(i as int));
        if row_is_match(rows, q, found[i]) {
            out.push(found[i]);
        }
        i += 1;
    }
    assert(found@.take(i as int) =~= found@);
    out
}

fn push_matching_lines(out: &mut Vec<usize>, lower: &Vec<String>, q: &str, offset: usize)
    ensures
        final(out)@ == old(out)@ + matching_lines(
            lower.deep_view(),
            q@,
            offset as int,
            lower@.len() as int,
        ),
{
    let ghost all = lower.deep_view();
    let ghost start = out@;
    let mut i: usize = 0;
    assert(start + matching_lines(all, q@, offset as int, 0) =~= start);
    while i < lower.len()
        invariant
            i <= lower@.len(),
            all == lower.deep_view(),
            out@ == start + matching_lines(all, q@, offset as int, i as int),
        decreases lower@.len() - i,
    {
        assert(all[i as int] == lower@[i as int]@);
        if contains_text(lower[i].as_str(), q) {
            out.push(offset.saturating_add(i));
        }
        assert(out@ =~= start + matching_lines(all, q@, offset as int, i + 1));
        i += 1;
    }
}

impl DiffState {
    /// Finds the matches of the pane's query anew.
    pub fn update_matches(&mut self)
        ensures
            final(self)@ == old(self)@.refreshed(),
    {
        let q: String = self.search.query.as_str().to_lowercase();
        if q.as_str().is_empty() {
            self.search.matches.clear();
            self.search.current = 0;
            return;
        }
        self.ensure_lower_cache();
        let offset: usize = self.body_offset();
        let mut matches: Vec<usize> = Vec::new();
        let ghost d = self@;
        if let Some(h) = &self.header_lower {
            push_matching_lines(&mut matches, h, q.as_str(), 0);
        }
        let ghost in_header = matches@;
        if let Some(b) = &self.body_lower {
            push_matching_lines(&mut matches, b, q.as_str(), offset);
        }
        proof {
            let h = match d.header_lower {
                Some(h) => matching_lines(h, q@, 0, h.len() as int),
                None => Seq::empty(),
            };
            let b = match d.body_lower {
                Some(b) => matching_lines(b, q@, d.body_offset(), b.len() as int),
                None => Seq::empty(),
            };
            assert(in_header =~= h);
            assert(matches@ =~= h + b);
        }
        self.search.matches = matches;
        self.search.current = 0;
    }
}

impl DiffState {
    fn show_match(&mut self, pos: usize)
        ensures
            final(self)@ == old(self)@.match_shown(pos as int),
    {
        let max: usize = self.max_scroll();
        let top: usize = pos.saturating_sub(5);
        self.scroll = if top <= max {
            top
        } else {
            max
        };
    }

    /// Moves by `delta` round the matches.
    pub fn jump_match(&mut self, delta: isize)
        ensures
            final(self)@ == old(self)@.match_jumped(delta as int),
    {
        if let Some(pos) = self.search.advance(delta) {
            self.show_match(pos);
        }
    }

    /// Moves to the first match at or behind the first line shown.
    pub fn jump_first(&mut self)
        ensures
            final(self)@ == old(self)@.match_first(),
    {
        let cursor: usize = self.scroll;
        if let Some(pos) = self.search.pick_first(cursor) {
            self.show_match(pos);
        }
    }

    /// Ends the search and returns its query.
    pub fn take_query(&mut self) -> (r: String)
        ensures
            r@ == old(self)@.search.query,
            final(self)@ == (DiffModel { search: no_search(), ..old(self)@ }),
    {
        let q: String = self.search.query.clone();
        self.search.clear();
        q
    }

    /// Searches for `query`.
    pub fn search_for(&mut self, query: String)
        ensures
            final(self)@ == old(self)@.searching_for(query@),
    {
        self.search.query = query;
        self.update_matches();
        self.jump_first();
    }
}

impl SearchState {
    /// Makes the first match at or behind `cursor` the current one, else the first match, and
    /// returns its position.
    pub fn pick_first(&mut self, cursor: usize) -> (r: Option<usize>)
        ensures
            match first_match_index(old(self)@.matches, cursor as int) {
                Some(i) => {
                    &&& 0 <= i < old(self)@.matches.len()
                    &&& r == Some(old(self)@.matches[i])
                    &&& final(self)@ == (SearchModel { current: i, ..old(self)@ })
                },
                None => r is None && final(self)@ == old(self)@,
            },
    {
        jump_first_at_or_after(self.matches.as_slice(), &mut self.current, cursor)
    }
}

impl CommitSearchState {
    /// Finds the matches anew, among the previous ones where that is enough.
    pub fn update(&mut self, rows: &Vec<LogRow>, generation: u64)
        ensures
            final(self)@ == old(self)@.refreshed(rows.deep_view(), generation),
    {
        let q: String = self.state.query.as_str().to_lowercase();
        if q.as_str().is_empty() {
            self.state.matches.clear();
            self.state.current = 0;
            self.last_query.clear();
            return;
        }
        let matches: Vec<usize> = if should_narrow(
            self.last_query.as_str(),
            self.last_generation,
            q.as_str(),
            generation,
        ) {
            narrow_rows(rows, q.as_str(), &self.state.matches)
        } else {
            find_rows(rows, q.as_str(), 0)
        };
        self.state.matches = matches;
        self.state.current = 0;
        self.last_query = q;
        self.last_generation = generation;
    }

    /// Replaces the query.
    pub fn set_query(&mut self, query: String)
        ensures
            final(self)@ == (CommitSearchModel {
                state: SearchModel { query: query@, ..old(self)@.state },
                ..old(self)@
            }),
    {
        self.state.query = query;
    }

    /// Adds the matches among the rows from `from` on, if there are such rows.
    pub fn extend(&mut self, rows: &Vec<LogRow>, from: usize)
        ensures
            final(self)@ == old(self)@.extended(rows.deep_view(), from as int),
    {
        if self.state.query.as_str().is_empty() || self.last_query.as_str().is_empty() {
            return;
        }
        let mut more: Vec<usize> = find_rows(rows, self.last_query.as_str(), from);
        self.state.matches.append(&mut more);
    }
}

impl AppModel {
    /// The log's matches are found anew.
    #[verifier::opaque]
    pub open spec fn commit_matches_updated(self) -> AppModel {
        AppModel { search: self.search.refreshed(self.log.rows, self.walk_gen), ..self }
    }

    /// The matches among the rows from `from` on are added.
    #[verifier::opaque]
    pub open spec fn commit_matches_extended(self, from: int) -> AppModel {
        AppModel { search: self.search.extended(self.log.rows, from), ..self }
    }

    /// Row `pos` is selected because it matches.
    #[verifier::opaque]
    pub open spec fn commit_match_shown(self, pos: int) -> AppModel {
        self.selecting(pos).diff_following()
    }

    /// The log moves by `delta` round its matches.
    #[verifier::opaque]
    pub open spec fn commit_match_jumped(self, delta: int) -> AppModel {
        let s = self.search.state;
        match cycled(s.matches.len() as int, s.current, delta) {
            Some(i) => AppModel {
                search: CommitSearchModel { state: s.advanced(delta), ..self.search },
                ..self
            }.commit_match_shown(s.matches[i] as int),
            None => self,
        }
    }

    /// The log goes to its first match at or behind the selection.
    #[verifier::opaque]
    pub open spec fn commit_match_first(self) -> AppModel {
        let s = self.search.state;
        match first_match_index(s.matches, self.log.selected) {
            Some(i) => AppModel {
                search: CommitSearchModel {
                    state: SearchModel { current: i, ..s },
                    ..self.search
                },
                ..self
            }.commit_match_shown(s.matches[i] as int),
            None => self,
        }
    }

    /// The log's query moves to the diff pane, which goes to its first match.
    #[verifier::opaque]
    pub open spec fn search_to_diff(self) -> AppModel {
        if self.search.state.query.len() == 0 {
            self
        } else {
            AppModel {
                search: CommitSearchModel {
                    state: no_search(),
                    last_query: Seq::empty(),
                    last_generation: 0,
                },
                diff: self.diff.searching_for(self.search.state.query),
                ..self
            }
        }
    }

    /// The diff pane's query moves to the log, which goes to its first match.
    #[verifier::opaque]
    pub open spec fn search_to_log(self) -> AppModel {
        if self.diff.search.query.len() == 0 {
            self
        } else {
            AppModel {
                diff: DiffModel { search: no_search(), ..self.diff },
                search: CommitSearchModel {
                    state: SearchModel {
                        query: self.diff.search.query,
                        ..self.search.state
                    },
                    ..self.search
                },
                ..self
            }.commit_matches_updated().commit_match_first()
        }
    }

    /// The focus goes to the other pane, and takes the query with it.
    #[verifier::opaque]
    pub open spec fn focus_cycled(self) -> AppModel {
        match self.focus {
            Focus::Log => AppModel { focus: Focus::Diff, ..self }.search_to_diff(),
            Focus::Diff => AppModel { focus: Focus::Log, ..self }.search_to_log(),
        }
    }
}

impl App {
    /// Finds the log's matches anew, among the previous ones where that is enough.
    pub fn update_commit_matches(&mut self)
        ensures
            final(self)@ == old(self)@.commit_matches_updated(),
    {
        proof {
            reveal(AppModel::commit_matches_updated);
        }
        self.search.update(&self.log.rows, self.walk_gen);
    }

    /// Adds the matches among the rows from `from` on, if there are such rows.
    pub fn extend_commit_matches(&mut self, from: usize)
        ensures
            final(self)@ == old(self)@.commit_matches_extended(from as int),
    {
        proof {
            reveal(AppModel::commit_matches_extended);
        }
        self.search.extend(&self.log.rows, from);
    }

    /// Finds the diff pane's matches anew.
    pub fn update_diff_matches(&mut self)
        ensures
            final(self)@ == old(self)@.with_diff(old(self)@.diff.refreshed()),
    {
        self.diff.update_matches();
    }

    fn show_commit_match(&mut self, pos: usize)
        ensures
            final(self)@ == old(self)@.commit_match_shown(pos as int),
    {
        proof {
            reveal(AppModel::commit_match_shown);
        }
        self.select_row(pos);
        self.follow_selection();
    }

    /// Moves the log by `delta` round its matches.
    pub fn jump_commit_match(&mut self, delta: isize)
        ensures
            final(self)@ == old(self)@.commit_match_jumped(delta as int),
    {
        proof {
            reveal(AppModel::commit_match_jumped);
        }
        if let Some(pos) = self.search.advance(delta) {
            self.show_commit_match(pos);
        }
    }

    /// Moves the diff pane by `delta` round its matches.
    pub fn jump_diff_match(&mut self, delta: isize)
        ensures
            final(self)@ == old(self)@.with_diff(old(self)@.diff.match_jumped(delta as int)),
    {
        self.diff.jump_match(delta);
    }

    /// Moves the log to its first match at or behind the selection.
    pub fn commit_jump_first_at_or_after_cursor(&mut self)
        ensures
            final(self)@ == old(self)@.commit_match_first(),
    {
        proof {
            reveal(AppModel::commit_match_first);
        }
        let cursor: usize = self.log.selected;
        if let Some(pos) = self.search.state.pick_first(cursor) {
            self.show_commit_match(pos);
        }
    }

    /// Moves the diff pane to its first match at or behind its first line.
    pub fn diff_jump_first_at_or_after_cursor(&mut self)
        ensures
            final(self)@ == old(self)@.with_diff(old(self)@.diff.match_first()),
    {
        self.diff.jump_first();
    }

    /// Moves the focus to the other pane, with the query.
    pub fn cycle_focus(&mut self)
        ensures
            final(self)@ == old(self)@.focus_cycled(),
    {
        proof {
            reveal(AppModel::focus_cycled);
        }
        match self.focus {
            Focus::Log => {
                self.focus = Focus::Diff;
                self.migrate_search_to_diff();
            },
            Focus::Diff => {
                self.focus = Focus::Log;
                self.migrate_search_to_log();
            },
        }
    }

    /// Moves the log's query to the diff pane.
    pub fn migrate_search_to_diff(&mut self)
        ensures
            final(self)@ == old(self)@.search_to_diff(),
    {
        proof {
            reveal(AppModel::search_to_diff);
        }
        if self.search.state.query.as_str().is_empty() {
            return;
        }
        let q: String = self.search.state.query.clone();
        self.search = CommitSearchState::new();
        self.diff.search_for(q);
    }

    /// Moves the diff pane's query to the log.
    pub fn migrate_search_to_log(&mut self)
        ensures
            final(self)@ == old(self)@.search_to_log(),
    {
        proof {
            reveal(AppModel::search_to_log);
        }
        if self.diff.search.query.as_str().is_empty() {
            return;
        }
        let q: String = self.diff.take_query();
        self.search.set_query(q);
        self.update_commit_matches();
        self.commit_jump_first_at_or_after_cursor();
    }
}

/// Narrowing finds what a scan of all rows would: where the previous matches are those of
/// the previous query, and the new query extends it, the matches among them are all matches.
pub proof fn law_narrowing_equals_scanning(
    rows: Seq<RowModel>,
    before: Seq<char>,
    q: Seq<char>,
    to: int,
)
    requires
        has_prefix(q, before),
        to <= usize::MAX,
    ensures
        narrowed(rows, q, matching_rows(rows, before, 0, to)) == matching_rows(rows, q, 0, to),
    decreases to,
{
    if to > 0 {
        law_narrowing_equals_scanning(rows, before, q, to - 1);
        let i = to - 1;
        if row_matches(rows, q, i) {
            if let RowModel::Commit(c) = rows[i] {
                let t = c.search;
                if has_substring(t.summary_lower, q) {
                    lemma_substring_prefix(t.summary_lower, before, q);
                }
                if has_substring(t.author_lower, q) {
                    lemma_substring_prefix(t.author_lower, before, q);
                }
                if has_substring(t.refs_lower, q) {
                    lemma_substring_prefix(t.refs_lower, before, q);
                }
            }
        }
        if row_matches(rows, before, i) {
            let prev = matching_rows(rows, before, 0, i);
            assert(prev.push(i as usize).drop_last() =~= prev);
        }
    }
}

/// Matches that are found batch by batch are those of one scan: the matches up to a row and
/// those behind it make up all matches.
pub proof fn law_batches_add_up(rows: Seq<RowModel>, q: Seq<char>, mid: int, to: int)
    requires
        0 <= mid <= to,
    ensures
        matching_rows(rows, q, 0, mid) + matching_rows(rows, q, mid, to) == matching_rows(
            rows,
            q,
            0,
            to,
        ),
    decreases to,
{
    if to > mid {
        law_batches_add_up(rows, q, mid, to - 1);
        assert(matching_rows(rows, q, 0, mid) + matching_rows(rows, q, mid, to)
            =~= matching_rows(rows, q, 0, to));
    } else {
        assert(matching_rows(rows, q, mid, to) =~= Seq::empty());
        assert(matching_rows(rows, q, 0, mid) + matching_rows(rows, q, mid, to)
            =~= matching_rows(rows, q, 0, mid));
    }
}

/// After the pane goes to a match, the match is in view: it is never above the first line
/// shown, and in a pane of more than five lines it is never below the last. Up to five lines
/// are shown above it, exactly five where the document has as many and goes on far enough
/// below. Nothing but the first line shown changes.
pub proof fn law_a_match_is_in_view(m: DiffModel, pos: int)
    requires
        0 <= pos < m.total_lines(),
        0 <= m.view_height,
    ensures
        ({
            let scroll = m.match_shown(pos).scroll;
            &&& 0 <= scroll <= pos
            &&& m.view_height > 5 ==> pos < scroll + m.view_height
            &&& pos >= 5 ==> scroll <= pos - 5
            &&& pos >= 5 && pos - 5 + m.view_height <= m.total_lines() ==> scroll == pos - 5
            &&& pos <= 5 ==> scroll == 0
            &&& scroll > 0 ==> scroll + m.view_height <= m.total_lines()
            &&& m.match_shown(pos) == (DiffModel { scroll, ..m })
        }),
{
}

/// A move round the matches of the diff pane ends on the match that is so many places on,
/// counted round from the last match to the first, and brings it into view.
pub proof fn law_moving_round_the_diff_shows_the_next_match(m: DiffModel, delta: int)
    requires
        0 <= m.search.current < m.search.matches.len() <= isize::MAX,
        isize::MIN <= delta <= isize::MAX,
        m.search.current + delta <= isize::MAX,
        forall|i: int|
            0 <= i < m.search.matches.len() ==> #[trigger] m.search.matches[i] < m.total_lines(),
        m.view_height > 5,
    ensures
        ({
            let n = m.match_jumped(delta);
            let at = n.search.matches[n.search.current];
            &&& 0 <= n.search.current < n.search.matches.len()
            &&& (n.search.current - m.search.current - delta) % (m.search.matches.len() as int)
                == 0
            &&& n.search.matches == m.search.matches
            &&& n.search.query == m.search.query
            &&& n.scroll <= at < n.scroll + n.view_height
            &&& n.document == m.document
        }),
{
    let len = m.search.matches.len() as int;
    let sum = m.search.current + delta;
    let i = sum % len;
    assert(0 <= i < len) by (nonlinear_arith)
        requires
            i == sum % len,
            len > 0,
    ;
    assert((i - sum) % len == 0) by (nonlinear_arith)
        requires
            i == sum % len,
            len > 0,
    {
        let q = sum / len;
        assert(i - sum == len * (-q) + 0);
        vstd::arithmetic::div_mod::lemma_fundamental_div_mod_converse(i - sum, len, -q, 0);
    }
    assert(cycled(len, m.search.current, delta) == Some(i));
    let moved = DiffModel { search: m.search.advanced(delta), ..m };
    law_a_match_is_in_view(moved, m.search.matches[i] as int);
}

/// The pane's first match is the first one that is not above the first line shown, or else
/// the first of all, and it is in view afterwards.
pub proof fn law_the_first_match_of_the_diff_is_shown(m: DiffModel)
    requires
        0 < m.search.matches.len(),
        forall|i: int|
            0 <= i < m.search.matches.len() ==> #[trigger] m.search.matches[i] < m.total_lines(),
        m.view_height > 5,
    ensures
        ({
            let n = m.match_first();
            let at = n.search.matches[n.search.current];
            &&& 0 <= n.search.current < n.search.matches.len()
            &&& n.search.matches == m.search.matches
            &&& n.scroll <= at < n.scroll + n.view_height
            &&& at >= m.scroll ==> forall|i: int|
                0 <= i < n.search.current ==> #[trigger] m.search.matches[i] < m.scroll
            &&& at < m.scroll ==> n.search.current == 0 && forall|i: int|
                0 <= i < m.search.matches.len() ==> #[trigger] m.search.matches[i] < m.scroll
        }),
{
    law_the_first_match_is_at_or_behind_the_cursor(m.search.matches, m.scroll);
    let i = first_match_index(m.search.matches, m.scroll)->0;
    let moved = DiffModel { search: SearchModel { current: i, ..m.search }, ..m };
    law_a_match_is_in_view(moved, m.search.matches[i] as int);
}

/// The rows found are those that hold a matching commit, each once, from the top down.
pub proof fn law_every_matching_row_is_found(rows: Seq<RowModel>, q: Seq<char>, from: int, to: int)
    requires
        0 <= from,
        to <= rows.len(),
        rows.len() <= usize::MAX,
    ensures
        forall|i: usize| #[trigger]
            matching_rows(rows, q, from, to).contains(i) <==> from <= i < to && (
            rows[i as int] matches RowModel::Commit(c) && (has_substring(c.search.summary_lower, q)
                || has_substring(c.search.author_lower, q) || has_substring(
                c.search.refs_lower,
                q,
            ))),
        forall|a: int, b: int|
            0 <= a < b < matching_rows(rows, q, from, to).len() ==> #[trigger] matching_rows(
                rows,
                q,
                from,
                to,
            )[a] < #[trigger] matching_rows(rows, q, from, to)[b],
    decreases to - from,
{
    let all = matching_rows(rows, q, from, to);
    if from < to {
        let less = matching_rows(rows, q, from, to - 1);
        law_every_matching_row_is_found(rows, q, from, to - 1);
        if row_matches(rows, q, to - 1) {
            assert(all[less.len() as int] == to - 1);
            assert forall|i: usize| #[trigger] all.contains(i) <==> less.contains(i) || i == to
                - 1 by {
                if less.contains(i) {
                    let k = choose|k: int| 0 <= k < less.len() && less[k] == i;
                    assert(all[k] == i);
                }
            }
            assert forall|a: int| 0 <= a < less.len() implies #[trigger] less[a] < to - 1 by {
                assert(less.contains(less[a]));
            }
        } else {
            assert(all == less);
        }
    }
}

/// The lines found are those that hold the query, each once, from the top down; each is
/// counted from where its part of the document starts.
pub proof fn law_every_matching_line_is_found(
    lower: Seq<Seq<char>>,
    q: Seq<char>,
    offset: int,
    to: int,
)
    requires
        0 <= offset,
        0 <= to <= lower.len(),
        offset + to <= usize::MAX,
    ensures
        forall|i: usize| #[trigger]
            matching_lines(lower, q, offset, to).contains(i) <==> offset <= i < offset + to
                && has_substring(lower[i - offset], q),
        forall|a: int, b: int|
            0 <= a < b < matching_lines(lower, q, offset, to).len() ==> #[trigger] matching_lines(
                lower,
                q,
                offset,
                to,
            )[a] < #[trigger] matching_lines(lower, q, offset, to)[b],
    decreases to,
{
    let all = matching_lines(lower, q, offset, to);
    if to > 0 {
        let less = matching_lines(lower, q, offset, to - 1);
        law_every_matching_line_is_found(lower, q, offset, to - 1);
        if has_substring(lower[to - 1], q) {
            assert(all[less.len() as int] == offset + to - 1);
            assert forall|i: usize| #[trigger] all.contains(i) <==> less.contains(i) || i == offset
                + to - 1 by {
                if less.contains(i) {
                    let k = choose|k: int| 0 <= k < less.len() && less[k] == i;
                    assert(all[k] == i);
                }
            }
            assert forall|a: int| 0 <= a < less.len() implies #[trigger] less[a] < offset + to
                - 1 by {
                assert(less.contains(less[a]));
            }
        } else {
            assert(all == less);
        }
    }
}

/// A search of the diff pane finds exactly the lines of the header and of the body that hold
/// the query in any case, at the place that they have in the pane. The pane stays where it is.
pub proof fn law_the_diff_search_finds_the_lines_that_hold_the_query(m: DiffModel, i: usize)
    requires
        m.document is Some,
        m.lower_is_current(),
        m.search.query.len() > 0,
        lower_text(m.search.query).len() > 0,
        m.document->0.header.len() + m.document->0.files.len() + 3 + m.document->0.body.len()
            <= usize::MAX,
    ensures
        ({
            let d = m.document->0;
            let q = lower_text(m.search.query);
            let n = m.refreshed();
            let stat = if d.files.len() == 0 {
                0
            } else {
                d.files.len() + 3
            };
            let at = i - d.header.len() - stat;
            &&& n.search.matches.contains(i) <==> (i < d.header.len() && has_substring(
                lower_text(d.header[i as int].text),
                q,
            )) || (0 <= at < d.body.len() && has_substring(lower_text(d.body[at].text), q))
            &&& n.search.current == 0
            &&& n.search.query == m.search.query
            &&& n.scroll == m.scroll
            &&& n.document == m.document
        }),
{
    let d = m.document->0;
    let q = lower_text(m.search.query);
    let n = m.refreshed();
    let w = m.with_lower();
    let h = w.header_lower->0;
    let b = w.body_lower->0;
    assert(h =~= lower_lines(d.header));
    assert(b =~= lower_lines(d.body));
    law_every_matching_line_is_found(h, q, 0, h.len() as int);
    law_every_matching_line_is_found(b, q, w.body_offset(), b.len() as int);
    let in_header = matching_lines(h, q, 0, h.len() as int);
    let in_body = matching_lines(b, q, w.body_offset(), b.len() as int);
    assert(n.search.matches == in_header + in_body);
    if in_header.contains(i) {
        let k = choose|k: int| 0 <= k < in_header.len() && in_header[k] == i;
        assert((in_header + in_body)[k] == i);
    }
    if in_body.contains(i) {
        let k = choose|k: int| 0 <= k < in_body.len() && in_body[k] == i;
        assert((in_header + in_body)[in_header.len() + k] == i);
    }
}

/// The focus goes from pane to pane, and a query goes with it: the pane that is left searches
/// no more, and the pane that is entered searches for the same text.
pub proof fn law_the_query_follows_the_focus(m: AppModel)
    ensures
        m.focus == Focus::Log ==> m.focus_cycled().focus == Focus::Diff,
        m.focus == Focus::Diff ==> m.focus_cycled().focus == Focus::Log,
        m.focus == Focus::Log && m.search.state.query.len() > 0 ==> {
            let n = m.focus_cycled();
            &&& n.diff.search.query == m.search.state.query
            &&& n.search.state.query.len() == 0
            &&& n.search.state.matches.len() == 0
            &&& n.log == m.log
        },
        m.focus == Focus::Diff && m.diff.search.query.len() > 0 ==> {
            let n = m.focus_cycled();
            &&& n.search.state.query == m.diff.search.query
            &&& n.diff.search.query.len() == 0
            &&& n.diff.search.matches.len() == 0
        },
        m.focus == Focus::Log && m.search.state.query.len() == 0 ==> m.focus_cycled() == (AppModel {
            focus: Focus::Diff,
            ..m
        }),
        m.focus == Focus::Diff && m.diff.search.query.len() == 0 ==> m.focus_cycled() == (AppModel {
            focus: Focus::Log,
            ..m
        }),
{
    reveal(AppModel::focus_cycled);
    reveal(AppModel::search_to_diff);
    reveal(AppModel::search_to_log);
    reveal(AppModel::commit_matches_updated);
    reveal(AppModel::commit_match_first);
    reveal(AppModel::commit_match_shown);
    reveal(AppModel::selecting);
    reveal(AppModel::selection_shown);
    reveal(AppModel::diff_following);
    reveal(AppModel::fetching_selected);
    reveal(AppModel::requesting_diff);
    reveal(AppModel::reloading_diff);
}

/// A move round the matches of the log selects the row of the match that is so many places
/// on, counted round; the rows stay as they are.
pub proof fn law_moving_round_the_log_selects_the_next_match(m: AppModel, delta: int)
    requires
        0 <= m.search.state.current < m.search.state.matches.len() <= isize::MAX,
        m.search.state.current + delta <= isize::MAX,
    ensures
        ({
            let n = m.commit_match_jumped(delta);
            let s = n.search.state;
            &&& 0 <= s.current < s.matches.len()
            &&& (s.current - m.search.state.current - delta) % (s.matches.len() as int) == 0
            &&& s.matches == m.search.state.matches
            &&& n.log.selected == s.matches[s.current]
            &&& n.log.rows == m.log.rows
        }),
{
    let len = m.search.state.matches.len() as int;
    let sum = m.search.state.current + delta;
    let i = sum % len;
    assert(0 <= i < len) by (nonlinear_arith)
        requires
            i == sum % len,
            len > 0,
    ;
    assert((i - sum) % len == 0) by (nonlinear_arith)
        requires
            i == sum % len,
            len > 0,
    {
        let q = sum / len;
        assert(i - sum == len * (-q) + 0);
        vstd::arithmetic::div_mod::lemma_fundamental_div_mod_converse(i - sum, len, -q, 0);
    }
    reveal(AppModel::commit_match_jumped);
    reveal(AppModel::commit_match_shown);
    reveal(AppModel::selecting);
    reveal(AppModel::selection_shown);
    reveal(AppModel::diff_following);
    reveal(AppModel::fetching_selected);
    reveal(AppModel::requesting_diff);
    reveal(AppModel::reloading_diff);
}

/// An empty query matches nothing, in the diff pane and in the log.
pub proof fn law_an_empty_query_matches_nothing(
    m: DiffModel,
    c: CommitSearchModel,
    rows: Seq<RowModel>,
    generation: u64,
)
    ensures
        lower_text(m.search.query).len() == 0 ==> {
            &&& m.refreshed().search.matches.len() == 0
            &&& m.refreshed().search.current == 0
            &&& m.refreshed().search.query == m.search.query
        },
        lower_text(c.state.query).len() == 0 ==> {
            &&& c.refreshed(rows, generation).state.matches.len() == 0
            &&& c.refreshed(rows, generation).state.current == 0
            &&& c.refreshed(rows, generation).last_query.len() == 0
        },
{
}

/// A search of the log that is not a longer form of the last one finds exactly the rows whose
/// commit matches, and remembers what it searched for and in which rows.
pub proof fn law_the_log_search_finds_the_rows_that_match(
    c: CommitSearchModel,
    rows: Seq<RowModel>,
    generation: u64,
    i: usize,
)
    requires
        rows.len() <= usize::MAX,
        lower_text(c.state.query).len() > 0,
        c.last_generation != generation || c.last_query.len() == 0,
    ensures
        ({
            let n = c.refreshed(rows, generation);
            let q = lower_text(c.state.query);
            &&& n.state.matches.contains(i) <==> i < rows.len() && (
            rows[i as int] matches RowModel::Commit(r) && commit_match(r, q))
            &&& n.state.current == 0
            &&& n.state.query == c.state.query
            &&& n.last_query == q
            &&& n.last_generation == generation
        }),
{
    law_every_matching_row_is_found(rows, lower_text(c.state.query), 0, rows.len() as int);
}

} // verus!
