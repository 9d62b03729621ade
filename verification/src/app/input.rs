//! What keys do to the viewer.

use crate::app::navigate::law_the_selection_stops_at_the_ends;
use crate::app::state::{
    larger, less, no_search, sat, smaller, BlameModel, CommitSearchModel, DiffModel, RefsModel,
    RowModel, SearchModel, StatusModel,
};
use crate::app::{App, AppModel, DisplayOptions, Focus};
use crate::git::{GitReqModel, InspectReq, InspectReqModel};
use crate::model::DiffTarget;
use vstd::prelude::*;

verus! {

/// Half a page, as Ctrl+D and Ctrl+U go.
pub const HALF_PAGE: usize = 10;

/// Columns of one step to the side in the diff pane.
pub const HORIZONTAL_STEP: usize = 4;

/// A key.
#[derive(Clone, Copy, PartialEq, Eq, Structural, Debug)]
pub enum KeyCode {
    Char(char),
    Enter,
    Esc,
    Backspace,
    Tab,
    Up,
    Down,
    Left,
    Right,
    PageUp,
    PageDown,
    /// Any other key.
    Other,
}

/// What is held down with a key.
#[derive(Clone, Copy, PartialEq, Eq, Structural, Debug)]
pub enum KeyModifiers {
    Plain,
    Shift,
    Control,
    /// Anything else, or more than one.
    Other,
}

/// A key press.
#[derive(Clone, Copy, PartialEq, Eq, Structural, Debug)]
pub struct KeyEvent {
    pub code: KeyCode,
    pub modifiers: KeyModifiers,
}

impl KeyEvent {
    pub fn new(code: KeyCode, modifiers: KeyModifiers) -> (r: KeyEvent)
        ensures
            r.code == code,
            r.modifiers == modifiers,
    {
        KeyEvent { code, modifiers }
    }
}

/// A page of a view of `height` lines.
pub open spec fn page(height: int) -> int {
    smaller(larger(height, 1), isize::MAX as int)
}

fn page_of(height: usize) -> (r: isize)
    ensures
        r == page(height as int),
        r >= 1,
{
    if height == 0 {
        1
    } else if height > isize::MAX as usize {
        isize::MAX
    } else {
        height as isize
    }
}

fn lines_of(height: usize) -> (r: usize)
    ensures
        r == larger(height as int, 1),
{
    if height == 0 {
        1
    } else {
        height
    }
}

impl SearchModel {
    /// One more character is typed.
    pub open spec fn typed(self, c: char) -> SearchModel {
        SearchModel { query: self.query.push(c), ..self }
    }

    /// The last character typed is taken back.
    pub open spec fn erased(self) -> SearchModel {
        SearchModel {
            query: if self.query.len() == 0 {
                self.query
            } else {
                self.query.drop_last()
            },
            ..self
        }
    }

    /// The query is typed to its end.
    pub open spec fn entered(self) -> SearchModel {
        SearchModel { active: false, ..self }
    }
}

/// A search whose query is to be typed.
pub open spec fn new_search() -> SearchModel {
    SearchModel { active: true, ..no_search() }
}

impl crate::app::SearchState {
    fn type_char(&mut self, c: char)
        ensures
            final(self)@ == old(self)@.typed(c),
    {
        self.query.push(c);
    }

    fn erase_char(&mut self)
        ensures
            final(self)@ == old(self)@.erased(),
    {
        let _ = self.query.pop();
    }

    fn start(&mut self)
        ensures
            final(self)@ == new_search(),
    {
        self.clear();
        self.active = true;
    }
}

impl StatusModel {
    pub open spec fn scrolled(self, pos: int) -> StatusModel {
        StatusModel { scroll: pos, ..self }
    }

    /// The last line of the view.
    pub open spec fn last_line(self) -> int {
        match self.document {
            Some(lines) => less(lines.len() as int, 1),
            None => 0,
        }
    }

    /// The status view behind a key.
    pub open spec fn keyed(self, key: KeyEvent) -> StatusModel {
        match (key.code, key.modifiers) {
            (KeyCode::Char('q') | KeyCode::Esc | KeyCode::Char('s'), KeyModifiers::Plain) =>
                StatusModel { open: false, ..self },
            (KeyCode::Char('j') | KeyCode::Down, KeyModifiers::Plain) => self.scrolled(
                sat(self.scroll + 1),
            ),
            (KeyCode::Char('k') | KeyCode::Up, KeyModifiers::Plain) => self.scrolled(
                less(self.scroll, 1),
            ),
            (KeyCode::Char('g'), KeyModifiers::Plain) => self.scrolled(0),
            (KeyCode::Char('G'), KeyModifiers::Plain | KeyModifiers::Shift) => self.scrolled(
                self.last_line(),
            ),
            (KeyCode::Char('d'), KeyModifiers::Control) => self.scrolled(
                sat(self.scroll + HALF_PAGE),
            ),
            (KeyCode::Char('u'), KeyModifiers::Control) => self.scrolled(
                less(self.scroll, HALF_PAGE as int),
            ),
            _ => self,
        }
    }
}

impl crate::app::StatusState {
    /// Does what a key does to the status view.
    fn handle_key(&mut self, key: KeyEvent)
        ensures
            final(self)@ == old(self)@.keyed(key),
    {
        match (key.code, key.modifiers) {
            (
                KeyCode::Char('q') | KeyCode::Esc | KeyCode::Char('s'),
                KeyModifiers::Plain,
            ) => {
                self.open = false;
            },
            (KeyCode::Char('j') | KeyCode::Down, KeyModifiers::Plain) => {
                self.scroll = self.scroll.saturating_add(1);
            },
            (KeyCode::Char('k') | KeyCode::Up, KeyModifiers::Plain) => {
                self.scroll = self.scroll.saturating_sub(1);
            },
            (KeyCode::Char('g'), KeyModifiers::Plain) => {
                self.scroll = 0;
            },
            (KeyCode::Char('G'), KeyModifiers::Plain | KeyModifiers::Shift) => {
                self.scroll = match &self.document {
                    Some(d) => d.lines.len().saturating_sub(1),
                    None => 0,
                };
            },
            (KeyCode::Char('d'), KeyModifiers::Control) => {
                self.scroll = self.scroll.saturating_add(HALF_PAGE);
            },
            (KeyCode::Char('u'), KeyModifiers::Control) => {
                self.scroll = self.scroll.saturating_sub(HALF_PAGE);
            },
            _ => {},
        }
    }
}

impl DiffModel {
    /// The diff pane behind a key, while its query is typed.
    pub open spec fn search_keyed(self, key: KeyEvent) -> DiffModel {
        match (key.code, key.modifiers) {
            (KeyCode::Esc, _) => DiffModel { search: no_search(), ..self },
            (KeyCode::Enter, _) => DiffModel {
                search: self.search.entered(),
                ..self
            }.match_jumped(1),
            (KeyCode::Backspace, _) => DiffModel {
                search: self.search.erased(),
                ..self
            }.refreshed(),
            (KeyCode::Char(c), KeyModifiers::Plain | KeyModifiers::Shift) => DiffModel {
                search: self.search.typed(c),
                ..self
            }.refreshed().match_first(),
            _ => self,
        }
    }

    /// The diff pane behind a key, while the picker's filter is typed.
    pub open spec fn filter_keyed(self, key: KeyEvent) -> DiffModel {
        match (key.code, key.modifiers) {
            (KeyCode::Esc, _) => DiffModel { picker_filter: no_search(), ..self },
            (KeyCode::Enter, _) => DiffModel {
                picker_filter: self.picker_filter.entered(),
                ..self
            },
            (KeyCode::Backspace, _) => DiffModel {
                picker_filter: self.picker_filter.erased(),
                ..self
            }.picker_refreshed(),
            (KeyCode::Char(c), KeyModifiers::Plain | KeyModifiers::Shift) => DiffModel {
                picker_filter: self.picker_filter.typed(c),
                ..self
            }.picker_refreshed(),
            _ => self,
        }
    }

    /// The picker is left: first its filter, and then the picker itself.
    pub open spec fn picker_left(self) -> DiffModel {
        if self.picker_filter.query.len() > 0 {
            DiffModel { picker_filter: no_search(), ..self }
        } else {
            self.picker_closed()
        }
    }

    /// The pane goes `n` columns to the right.
    pub open spec fn right(self, n: int) -> DiffModel {
        DiffModel { horizontal_scroll: sat(self.horizontal_scroll + n), ..self }
    }

    /// The pane goes `n` columns to the left.
    pub open spec fn left(self, n: int) -> DiffModel {
        DiffModel { horizontal_scroll: less(self.horizontal_scroll, n), ..self }
    }

    /// The diff pane behind a key that only moves it.
    pub open spec fn moved_by_key(self, key: KeyEvent) -> DiffModel {
        match (key.code, key.modifiers) {
            (KeyCode::Char('j') | KeyCode::Down | KeyCode::Enter, KeyModifiers::Plain) =>
                self.down(1),
            (KeyCode::Char('k') | KeyCode::Up | KeyCode::Backspace, KeyModifiers::Plain) =>
                self.up(1),
            (KeyCode::Char('g'), KeyModifiers::Plain) => DiffModel { scroll: 0, ..self },
            (KeyCode::Char('G'), KeyModifiers::Plain | KeyModifiers::Shift) => self.bottom(),
            (KeyCode::Char('d'), KeyModifiers::Control) => self.down(HALF_PAGE as int),
            (KeyCode::Char('u'), KeyModifiers::Control) => self.up(HALF_PAGE as int),
            (KeyCode::PageDown, _) => self.down(larger(self.view_height, 1)),
            (KeyCode::PageUp, _) => self.up(larger(self.view_height, 1)),
            (KeyCode::Char('h') | KeyCode::Left, KeyModifiers::Plain) => self.left(
                HORIZONTAL_STEP as int,
            ),
            (KeyCode::Char('l') | KeyCode::Right, KeyModifiers::Plain) => self.right(
                HORIZONTAL_STEP as int,
            ),
            (KeyCode::Char('0'), KeyModifiers::Plain) => DiffModel {
                horizontal_scroll: 0,
                ..self
            },
            (KeyCode::Char(']'), KeyModifiers::Plain) => self.file_jumped(1),
            (KeyCode::Char('['), KeyModifiers::Plain) => self.file_jumped(-1),
            (KeyCode::Char('t'), KeyModifiers::Plain) => self.picker_opened(),
            (KeyCode::Char('n'), KeyModifiers::Plain) => self.match_jumped(1),
            (KeyCode::Char('N'), KeyModifiers::Plain | KeyModifiers::Shift) => self.match_jumped(
                -1,
            ),
            (KeyCode::Char('/'), KeyModifiers::Plain) => DiffModel {
                search: new_search(),
                ..self
            },
            _ => self,
        }
    }
}

impl crate::app::DiffState {
    /// Does what a key does while the query is typed.
    fn handle_search_key(&mut self, key: KeyEvent)
        ensures
            final(self)@ == old(self)@.search_keyed(key),
    {
        match (key.code, key.modifiers) {
            (KeyCode::Esc, _) => {
                self.search.clear();
            },
            (KeyCode::Enter, _) => {
                self.search.active = false;
                self.jump_match(1);
            },
            (KeyCode::Backspace, _) => {
                self.search.erase_char();
                self.update_matches();
            },
            (KeyCode::Char(c), KeyModifiers::Plain | KeyModifiers::Shift) => {
                self.search.type_char(c);
                self.update_matches();
                self.jump_first();
            },
            _ => {},
        }
    }

    /// Does what a key does while the picker's filter is typed.
    fn handle_filter_key(&mut self, key: KeyEvent)
        ensures
            final(self)@ == old(self)@.filter_keyed(key),
    {
        match (key.code, key.modifiers) {
            (KeyCode::Esc, _) => {
                self.picker_filter.clear();
            },
            (KeyCode::Enter, _) => {
                self.picker_filter.active = false;
            },
            (KeyCode::Backspace, _) => {
                self.picker_filter.erase_char();
                self.update_picker();
            },
            (KeyCode::Char(c), KeyModifiers::Plain | KeyModifiers::Shift) => {
                self.picker_filter.type_char(c);
                self.update_picker();
            },
            _ => {},
        }
    }

    fn leave_picker(&mut self)
        ensures
            final(self)@ == old(self)@.picker_left(),
    {
        if self.picker_filter.query.as_str().is_empty() {
            self.close_picker();
        } else {
            self.picker_filter.clear();
        }
    }

    fn go_left(&mut self, n: usize)
        ensures
            final(self)@ == old(self)@.left(n as int),
    {
        self.horizontal_scroll = self.horizontal_scroll.saturating_sub(n);
    }

    fn go_right(&mut self, n: usize)
        ensures
            final(self)@ == old(self)@.right(n as int),
    {
        self.horizontal_scroll = self.horizontal_scroll.saturating_add(n);
    }

    /// Does what a key does that only moves the pane.
    fn handle_move_key(&mut self, key: KeyEvent)
        ensures
            final(self)@ == old(self)@.moved_by_key(key),
    {
        match (key.code, key.modifiers) {
            (KeyCode::Char('j') | KeyCode::Down | KeyCode::Enter, KeyModifiers::Plain) => {
                self.scroll_down(1);
            },
            (KeyCode::Char('k') | KeyCode::Up | KeyCode::Backspace, KeyModifiers::Plain) => {
                self.scroll_up(1);
            },
            (KeyCode::Char('g'), KeyModifiers::Plain) => {
                self.scroll = 0;
            },
            (KeyCode::Char('G'), KeyModifiers::Plain | KeyModifiers::Shift) => {
                self.scroll_to_end();
            },
            (KeyCode::Char('d'), KeyModifiers::Control) => {
                self.scroll_down(HALF_PAGE);
            },
            (KeyCode::Char('u'), KeyModifiers::Control) => {
                self.scroll_up(HALF_PAGE);
            },
            (KeyCode::PageDown, _) => {
                let n: usize = lines_of(self.view_height);
                self.scroll_down(n);
            },
            (KeyCode::PageUp, _) => {
                let n: usize = lines_of(self.view_height);
                self.scroll_up(n);
            },
            (KeyCode::Char('h') | KeyCode::Left, KeyModifiers::Plain) => {
                self.go_left(HORIZONTAL_STEP);
            },
            (KeyCode::Char('l') | KeyCode::Right, KeyModifiers::Plain) => {
                self.go_right(HORIZONTAL_STEP);
            },
            (KeyCode::Char('0'), KeyModifiers::Plain) => {
                self.horizontal_scroll = 0;
            },
            (KeyCode::Char(']'), KeyModifiers::Plain) => {
                self.jump_file(1);
            },
            (KeyCode::Char('['), KeyModifiers::Plain) => {
                self.jump_file(-1);
            },
            (KeyCode::Char('t'), KeyModifiers::Plain) => {
                self.open_picker();
            },
            (KeyCode::Char('n'), KeyModifiers::Plain) => {
                self.jump_match(1);
            },
            (KeyCode::Char('N'), KeyModifiers::Plain | KeyModifiers::Shift) => {
                self.jump_match(-1);
            },
            (KeyCode::Char('/'), KeyModifiers::Plain) => {
                self.search.start();
            },
            _ => {},
        }
    }
}

impl AppModel {
    /// The viewer with another log search.
    pub open spec fn with_search(self, state: SearchModel) -> AppModel {
        AppModel { search: CommitSearchModel { state, ..self.search }, ..self }
    }

    /// The viewer behind a key, while help shows.
    pub open spec fn help_keyed(self, key: KeyEvent) -> AppModel {
        match key.code {
            KeyCode::Char('q') | KeyCode::Char('?') | KeyCode::Esc => AppModel {
                show_help: false,
                ..self
            },
            _ => self,
        }
    }

    /// The viewer behind a key, while the log's query is typed.
    #[verifier::opaque]
    pub open spec fn search_keyed(self, key: KeyEvent) -> AppModel {
        match (key.code, key.modifiers) {
            (KeyCode::Esc, _) => AppModel { search: self.search.cleared(), ..self },
            (KeyCode::Enter, _) => self.with_search(
                self.search.state.entered(),
            ).commit_match_jumped(1),
            (KeyCode::Backspace, _) => self.with_search(
                self.search.state.erased(),
            ).commit_matches_updated(),
            (KeyCode::Char(c), KeyModifiers::Plain | KeyModifiers::Shift) => self.with_search(
                self.search.state.typed(c),
            ).commit_matches_updated().commit_match_first(),
            _ => self,
        }
    }

    /// The viewer behind a key, while the picker is open.
    #[verifier::opaque]
    pub open spec fn picker_keyed(self, key: KeyEvent) -> AppModel {
        match (key.code, key.modifiers) {
            (KeyCode::Char('j') | KeyCode::Down, KeyModifiers::Plain) => self.with_diff(
                self.diff.picker_moved(1),
            ),
            (KeyCode::Char('k') | KeyCode::Up, KeyModifiers::Plain) => self.with_diff(
                self.diff.picker_moved(-1),
            ),
            (KeyCode::Char('g'), KeyModifiers::Plain) => self.with_diff(
                self.diff.picker_moved(isize::MIN as int),
            ),
            (KeyCode::Char('G'), KeyModifiers::Plain | KeyModifiers::Shift) => self.with_diff(
                self.diff.picker_moved(isize::MAX as int),
            ),
            (KeyCode::Char('d'), KeyModifiers::Control) => self.with_diff(
                self.diff.picker_moved(HALF_PAGE as int),
            ),
            (KeyCode::Char('u'), KeyModifiers::Control) => self.with_diff(
                self.diff.picker_moved(-(HALF_PAGE as int)),
            ),
            (KeyCode::Char('/'), KeyModifiers::Plain) => self.with_diff(
                DiffModel { picker_filter: new_search(), ..self.diff },
            ),
            (KeyCode::Enter, KeyModifiers::Plain) => self.pick_shown(),
            (KeyCode::Char('o'), KeyModifiers::Plain) => self.pick_opened(),
            (KeyCode::Esc, KeyModifiers::Plain) => self.with_diff(self.diff.picker_left()),
            (KeyCode::Char('q'), KeyModifiers::Plain) => self.with_diff(
                self.diff.picker_closed(),
            ),
            _ => self,
        }
    }

    /// The viewer behind a key, while the refs view is open.
    #[verifier::opaque]
    pub open spec fn refs_keyed(self, key: KeyEvent) -> AppModel {
        match (key.code, key.modifiers) {
            (KeyCode::Char('q') | KeyCode::Esc | KeyCode::Char('r'), KeyModifiers::Plain) =>
                AppModel { refs: RefsModel { open: false, ..self.refs }, ..self },
            (KeyCode::Enter, KeyModifiers::Plain) => self.ref_chosen(),
            (KeyCode::Char('j') | KeyCode::Down, KeyModifiers::Plain) => self.refs_moved(1),
            (KeyCode::Char('k') | KeyCode::Up, KeyModifiers::Plain) => self.refs_moved(-1),
            (KeyCode::Char('g'), KeyModifiers::Plain) => AppModel {
                refs: RefsModel { selected: 0, scroll: 0, ..self.refs },
                ..self
            },
            (KeyCode::Char('G'), KeyModifiers::Plain | KeyModifiers::Shift) => self.refs_moved(
                isize::MAX as int,
            ),
            (KeyCode::Char('d'), KeyModifiers::Control) => self.refs_moved(HALF_PAGE as int),
            (KeyCode::Char('u'), KeyModifiers::Control) => self.refs_moved(-(HALF_PAGE as int)),
            (KeyCode::PageDown, _) => self.refs_moved(page(self.refs.view_height)),
            (KeyCode::PageUp, _) => self.refs_moved(-page(self.refs.view_height)),
            _ => self,
        }
    }

    /// The viewer behind a key, while the blame view is open.
    #[verifier::opaque]
    pub open spec fn blame_keyed(self, key: KeyEvent) -> AppModel {
        match (key.code, key.modifiers) {
            (KeyCode::Char('q') | KeyCode::Esc, KeyModifiers::Plain) => AppModel {
                blame: BlameModel { open: false, ..self.blame },
                ..self
            },
            (KeyCode::Enter, KeyModifiers::Plain) => self.blame_commit_opened(),
            (KeyCode::Char(','), KeyModifiers::Plain) => self.blame_at_parent(),
            (KeyCode::Backspace, KeyModifiers::Plain) => self.blame_back_step(),
            (KeyCode::Char('j') | KeyCode::Down, KeyModifiers::Plain) => self.blame_moved(1),
            (KeyCode::Char('k') | KeyCode::Up, KeyModifiers::Plain) => self.blame_moved(-1),
            (KeyCode::Char('g'), KeyModifiers::Plain) => AppModel {
                blame: BlameModel { selected: 0, scroll: 0, ..self.blame },
                ..self
            },
            (KeyCode::Char('G'), KeyModifiers::Plain | KeyModifiers::Shift) => self.blame_moved(
                isize::MAX as int,
            ),
            (KeyCode::Char('d'), KeyModifiers::Control) => self.blame_moved(HALF_PAGE as int),
            (KeyCode::Char('u'), KeyModifiers::Control) => self.blame_moved(-(HALF_PAGE as int)),
            (KeyCode::PageDown, _) => self.blame_moved(page(self.blame.view_height)),
            (KeyCode::PageUp, _) => self.blame_moved(-page(self.blame.view_height)),
            (KeyCode::Char('y'), KeyModifiers::Plain) => self.blamed_yanked(),
            _ => self,
        }
    }

    /// The status view opens, and is asked for unless it is there or on its way.
    #[verifier::opaque]
    pub open spec fn status_opened(self) -> AppModel {
        if self.status.document is None && !self.status.loading {
            AppModel {
                status: StatusModel { open: true, scroll: 0, loading: true, ..self.status },
                ..self
            }.asking(InspectReqModel::LoadStatus)
        } else {
            AppModel { status: StatusModel { open: true, scroll: 0, ..self.status }, ..self }
        }
    }

    /// The diff pane opens on the selected row, and takes the query with it.
    #[verifier::opaque]
    pub open spec fn diff_entered(self) -> AppModel {
        AppModel {
            diff: self.diff.opened(),
            focus: Focus::Diff,
            ..self
        }.search_to_diff().fetching_selected()
    }

    /// The diff pane is left: first a single-file view, and then the pane itself, whose query
    /// goes to the log.
    #[verifier::opaque]
    pub open spec fn diff_left(self) -> AppModel {
        if self.diff.file_view_return is Some {
            self.file_view_left()
        } else {
            AppModel {
                diff: DiffModel { open: false, ..self.diff },
                focus: Focus::Log,
                ..self
            }.search_to_log()
        }
    }

    /// The viewer behind a key that goes to the log.
    #[verifier::opaque]
    pub open spec fn log_keyed(self, key: KeyEvent) -> AppModel {
        match (key.code, key.modifiers) {
            (KeyCode::Char('/'), KeyModifiers::Plain) => AppModel {
                search: CommitSearchModel { state: new_search(), ..self.search.cleared() },
                ..self
            },
            (KeyCode::Char('n'), KeyModifiers::Plain) => self.commit_match_jumped(1),
            (KeyCode::Char('N'), KeyModifiers::Plain | KeyModifiers::Shift) =>
                self.commit_match_jumped(-1),
            (KeyCode::Char('r'), KeyModifiers::Plain) => self.refs_opened(),
            (KeyCode::Char('s'), KeyModifiers::Plain) => self.status_opened(),
            (KeyCode::Enter, KeyModifiers::Plain) => self.diff_entered(),
            (KeyCode::Char('j') | KeyCode::Down, KeyModifiers::Plain) => self.log_down(1),
            (KeyCode::Char('k') | KeyCode::Up, KeyModifiers::Plain) => self.log_up(1),
            (KeyCode::Char('g'), KeyModifiers::Plain) => self.log_top(),
            (KeyCode::Char('G'), KeyModifiers::Plain | KeyModifiers::Shift) => self.log_bottom(),
            (KeyCode::Char('d'), KeyModifiers::Control) => self.log_down(HALF_PAGE as int),
            (KeyCode::Char('u'), KeyModifiers::Control) => self.log_up(HALF_PAGE as int),
            (KeyCode::PageDown, _) => self.log_down(larger(self.log.view_height, 1)),
            (KeyCode::PageUp, _) => self.log_up(larger(self.log.view_height, 1)),
            _ => self,
        }
    }

    /// The viewer behind a key that goes to the diff pane.
    #[verifier::opaque]
    pub open spec fn diff_keyed(self, key: KeyEvent) -> AppModel {
        match (key.code, key.modifiers) {
            (KeyCode::Char('o'), KeyModifiers::Plain) => self.file_view_opened_at_top(),
            (KeyCode::Char('b'), KeyModifiers::Plain) => self.blame_of_diff(),
            _ => self.with_diff(self.diff.moved_by_key(key)),
        }
    }

    /// The hunks of the diff are shown or hidden, from the top.
    pub open spec fn hunks_toggled(self) -> AppModel {
        self.with_diff(
            DiffModel { show_hunks: !self.diff.show_hunks, scroll: 0, ..self.diff },
        )
    }

    /// The viewer behind a key that changes how it shows its panes, or goes to the pane in
    /// focus.
    #[verifier::opaque]
    pub open spec fn pane_keyed(self, key: KeyEvent) -> AppModel {
        match (key.code, key.modifiers) {
            (KeyCode::Char('?'), KeyModifiers::Plain) => AppModel { show_help: true, ..self },
            (KeyCode::Char('#'), KeyModifiers::Plain) => self.with_diff(
                DiffModel { show_line_numbers: !self.diff.show_line_numbers, ..self.diff },
            ),
            (KeyCode::Char('D'), KeyModifiers::Plain | KeyModifiers::Shift) => AppModel {
                display: DisplayOptions {
                    date: self.display.date.then_mode(),
                    ..self.display
                },
                ..self
            },
            (KeyCode::Char('A'), KeyModifiers::Plain | KeyModifiers::Shift) => AppModel {
                display: DisplayOptions {
                    author: self.display.author.then_mode(),
                    ..self.display
                },
                ..self
            },
            (KeyCode::Char('X'), KeyModifiers::Plain | KeyModifiers::Shift) => AppModel {
                display: DisplayOptions {
                    full_hash: !self.display.full_hash,
                    ..self.display
                },
                ..self
            },
            _ => match self.focus {
                Focus::Log => self.log_keyed(key),
                Focus::Diff => self.diff_keyed(key),
            },
        }
    }

    /// The viewer behind a key, while it shows its panes.
    #[verifier::opaque]
    pub open spec fn main_keyed(self, key: KeyEvent) -> AppModel {
        match (key.code, key.modifiers) {
            (KeyCode::Char('v'), KeyModifiers::Plain) => if self.diff.open {
                self.hunks_toggled()
            } else {
                self
            },
            (KeyCode::Char('f'), KeyModifiers::Plain) => if self.diff.open {
                self.scope_toggled()
            } else {
                self
            },
            (KeyCode::Char('y'), KeyModifiers::Plain) => self.selected_yanked(),
            (KeyCode::Char('R'), KeyModifiers::Plain | KeyModifiers::Shift) => self.reloading(
                None,
            ),
            (KeyCode::Tab, KeyModifiers::Plain) => if self.diff.open {
                self.focus_cycled()
            } else {
                self
            },
            (KeyCode::Esc, KeyModifiers::Plain) => if self.diff.open {
                self.diff_left()
            } else if self.search.state.query.len() > 0 {
                AppModel { search: self.search.cleared(), ..self }
            } else {
                self
            },
            (KeyCode::Char('q'), KeyModifiers::Plain) => if self.diff.open {
                self.diff_left()
            } else if self.focus == Focus::Log {
                AppModel { should_quit: true, ..self }
            } else {
                self
            },
            _ => self.pane_keyed(key),
        }
    }

    /// The viewer behind a key: it goes to what is on top.
    #[verifier::opaque]
    pub open spec fn keyed(self, key: KeyEvent) -> AppModel {
        if key.code == KeyCode::Char('c') && key.modifiers == KeyModifiers::Control {
            AppModel { should_quit: true, ..self }
        } else if self.show_help {
            self.help_keyed(key)
        } else if self.diff.search.active {
            self.with_diff(self.diff.search_keyed(key))
        } else if self.search.state.active {
            self.search_keyed(key)
        } else if self.diff.picker_filter.active {
            self.with_diff(self.diff.filter_keyed(key))
        } else if self.diff.file_picker is Some {
            self.picker_keyed(key)
        } else if self.status.open {
            AppModel { status: self.status.keyed(key), ..self }
        } else if self.refs.open {
            self.refs_keyed(key)
        } else if self.blame.open {
            self.blame_keyed(key)
        } else {
            self.main_keyed(key)
        }
    }
}

impl App {
    /// Does what a key asks for.
    pub fn handle_input(&mut self, key: KeyEvent)
        ensures
            final(self)@ == old(self)@.keyed(key),
    {
        proof {
            reveal(AppModel::keyed);
        }
        if key.code == KeyCode::Char('c') && key.modifiers == KeyModifiers::Control {
            self.should_quit = true;
        } else if self.show_help {
            self.handle_help_key(key);
        } else if self.diff.search.active {
            self.diff.handle_search_key(key);
        } else if self.search.state.active {
            self.handle_commit_search_key(key);
        } else if self.diff.picker_filter.active {
            self.diff.handle_filter_key(key);
        } else if self.diff.file_picker.is_some() {
            self.handle_picker_key(key);
        } else if self.status.open {
            self.status.handle_key(key);
        } else if self.refs.open {
            self.handle_refs_key(key);
        } else if self.blame.open {
            self.handle_blame_key(key);
        } else {
            self.handle_main_key(key);
        }
    }

    fn handle_help_key(&mut self, key: KeyEvent)
        ensures
            final(self)@ == old(self)@.help_keyed(key),
    {
        match key.code {
            KeyCode::Char('q') | KeyCode::Char('?') | KeyCode::Esc => {
                self.show_help = false;
            },
            _ => {},
        }
    }

    fn handle_commit_search_key(&mut self, key: KeyEvent)
        ensures
            final(self)@ == old(self)@.search_keyed(key),
    {
        proof {
            reveal(AppModel::search_keyed);
        }
        match (key.code, key.modifiers) {
            (KeyCode::Esc, _) => {
                self.search.clear();
            },
            (KeyCode::Enter, _) => {
                self.search.state.active = false;
                self.jump_commit_match(1);
            },
            (KeyCode::Backspace, _) => {
                self.search.state.erase_char();
                self.update_commit_matches();
            },
            (KeyCode::Char(c), KeyModifiers::Plain | KeyModifiers::Shift) => {
                self.search.state.type_char(c);
                self.update_commit_matches();
                self.commit_jump_first_at_or_after_cursor();
            },
            _ => {},
        }
    }

    fn handle_picker_key(&mut self, key: KeyEvent)
        ensures
            final(self)@ == old(self)@.picker_keyed(key),
    {
        proof {
            reveal(AppModel::picker_keyed);
        }
        match (key.code, key.modifiers) {
            (KeyCode::Char('j') | KeyCode::Down, KeyModifiers::Plain) => {
                self.picker_move(1);
            },
            (KeyCode::Char('k') | KeyCode::Up, KeyModifiers::Plain) => {
                self.picker_move(-1);
            },
            (KeyCode::Char('g'), KeyModifiers::Plain) => {
                self.picker_move(isize::MIN);
            },
            (KeyCode::Char('G'), KeyModifiers::Plain | KeyModifiers::Shift) => {
                self.picker_move(isize::MAX);
            },
            (KeyCode::Char('d'), KeyModifiers::Control) => {
                self.picker_move(HALF_PAGE as isize);
            },
            (KeyCode::Char('u'), KeyModifiers::Control) => {
                self.picker_move(-(HALF_PAGE as isize));
            },
            (KeyCode::Char('/'), KeyModifiers::Plain) => {
                self.diff.picker_filter.start();
            },
            (KeyCode::Enter, KeyModifiers::Plain) => {
                self.picker_activate();
            },
            (KeyCode::Char('o'), KeyModifiers::Plain) => {
                self.picker_open_file();
            },
            (KeyCode::Esc, KeyModifiers::Plain) => {
                self.diff.leave_picker();
            },
            (KeyCode::Char('q'), KeyModifiers::Plain) => {
                self.diff.close_picker();
            },
            _ => {},
        }
    }

    fn handle_refs_key(&mut self, key: KeyEvent)
        ensures
            final(self)@ == old(self)@.refs_keyed(key),
    {
        proof {
            reveal(AppModel::refs_keyed);
        }
        match (key.code, key.modifiers) {
            (
                KeyCode::Char('q') | KeyCode::Esc | KeyCode::Char('r'),
                KeyModifiers::Plain,
            ) => {
                self.refs.open = false;
            },
            (KeyCode::Enter, KeyModifiers::Plain) => {
                self.refs_activate_selected();
            },
            (KeyCode::Char('j') | KeyCode::Down, KeyModifiers::Plain) => {
                self.refs_move(1);
            },
            (KeyCode::Char('k') | KeyCode::Up, KeyModifiers::Plain) => {
                self.refs_move(-1);
            },
            (KeyCode::Char('g'), KeyModifiers::Plain) => {
                self.refs.selected = 0;
                self.refs.scroll = 0;
            },
            (KeyCode::Char('G'), KeyModifiers::Plain | KeyModifiers::Shift) => {
                self.refs_move(isize::MAX);
            },
            (KeyCode::Char('d'), KeyModifiers::Control) => {
                self.refs_move(HALF_PAGE as isize);
            },
            (KeyCode::Char('u'), KeyModifiers::Control) => {
                self.refs_move(-(HALF_PAGE as isize));
            },
            (KeyCode::PageDown, _) => {
                let n: isize = page_of(self.refs.view_height);
                self.refs_move(n);
            },
            (KeyCode::PageUp, _) => {
                let n: isize = page_of(self.refs.view_height);
                self.refs_move(-n);
            },
            _ => {},
        }
    }

    fn handle_blame_key(&mut self, key: KeyEvent)
        ensures
            final(self)@ == old(self)@.blame_keyed(key),
    {
        proof {
            reveal(AppModel::blame_keyed);
        }
        match (key.code, key.modifiers) {
            (KeyCode::Char('q') | KeyCode::Esc, KeyModifiers::Plain) => {
                self.blame.open = false;
            },
            (KeyCode::Enter, KeyModifiers::Plain) => {
                self.blame_open_commit();
            },
            (KeyCode::Char(','), KeyModifiers::Plain) => {
                self.blame_reblame_at_parent();
            },
            (KeyCode::Backspace, KeyModifiers::Plain) => {
                self.blame_back();
            },
            (KeyCode::Char('j') | KeyCode::Down, KeyModifiers::Plain) => {
                self.blame_move(1);
            },
            (KeyCode::Char('k') | KeyCode::Up, KeyModifiers::Plain) => {
                self.blame_move(-1);
            },
            (KeyCode::Char('g'), KeyModifiers::Plain) => {
                self.blame.selected = 0;
                self.blame.scroll = 0;
            },
            (KeyCode::Char('G'), KeyModifiers::Plain | KeyModifiers::Shift) => {
                self.blame_move(isize::MAX);
            },
            (KeyCode::Char('d'), KeyModifiers::Control) => {
                self.blame_move(HALF_PAGE as isize);
            },
            (KeyCode::Char('u'), KeyModifiers::Control) => {
                self.blame_move(-(HALF_PAGE as isize));
            },
            (KeyCode::PageDown, _) => {
                let n: isize = page_of(self.blame.view_height);
                self.blame_move(n);
            },
            (KeyCode::PageUp, _) => {
                let n: isize = page_of(self.blame.view_height);
                self.blame_move(-n);
            },
            (KeyCode::Char('y'), KeyModifiers::Plain) => {
                self.yank_blame_hash();
            },
            _ => {},
        }
    }

    fn open_status_view(&mut self)
        ensures
            final(self)@ == old(self)@.status_opened(),
    {
        proof {
            reveal(AppModel::status_opened);
        }
        self.status.open = true;
        self.status.scroll = 0;
        if self.status.document.is_none() && !self.status.loading {
            self.status.loading = true;
            self.send_inspect(InspectReq::LoadStatus);
        }
    }

    fn enter_diff(&mut self)
        ensures
            final(self)@ == old(self)@.diff_entered(),
    {
        proof {
            reveal(AppModel::diff_entered);
        }
        self.diff.open_at_top();
        self.focus = Focus::Diff;
        self.migrate_search_to_diff();
        self.fetch_diff_for_selected();
    }

    fn leave_diff(&mut self)
        ensures
            final(self)@ == old(self)@.diff_left(),
    {
        proof {
            reveal(AppModel::diff_left);
        }
        if self.diff.file_view_return.is_some() {
            let _ = self.close_file_view();
        } else {
            self.diff.open = false;
            self.focus = Focus::Log;
            self.migrate_search_to_log();
        }
    }

    fn handle_log_key(&mut self, key: KeyEvent)
        ensures
            final(self)@ == old(self)@.log_keyed(key),
    {
        proof {
            reveal(AppModel::log_keyed);
        }
        match (key.code, key.modifiers) {
            (KeyCode::Char('/'), KeyModifiers::Plain) => {
                self.search.clear();
                self.search.state.active = true;
            },
            (KeyCode::Char('n'), KeyModifiers::Plain) => {
                self.jump_commit_match(1);
            },
            (KeyCode::Char('N'), KeyModifiers::Plain | KeyModifiers::Shift) => {
                self.jump_commit_match(-1);
            },
            (KeyCode::Char('r'), KeyModifiers::Plain) => {
                self.open_refs_view();
            },
            (KeyCode::Char('s'), KeyModifiers::Plain) => {
                self.open_status_view();
            },
            (KeyCode::Enter, KeyModifiers::Plain) => {
                self.enter_diff();
            },
            (KeyCode::Char('j') | KeyCode::Down, KeyModifiers::Plain) => {
                self.move_log_down(1);
            },
            (KeyCode::Char('k') | KeyCode::Up, KeyModifiers::Plain) => {
                self.move_log_up(1);
            },
            (KeyCode::Char('g'), KeyModifiers::Plain) => {
                self.jump_log_top();
            },
            (KeyCode::Char('G'), KeyModifiers::Plain | KeyModifiers::Shift) => {
                self.jump_log_bottom();
            },
            (KeyCode::Char('d'), KeyModifiers::Control) => {
                self.move_log_down(HALF_PAGE);
            },
            (KeyCode::Char('u'), KeyModifiers::Control) => {
                self.move_log_up(HALF_PAGE);
            },
            (KeyCode::PageDown, _) => {
                let n: usize = lines_of(self.log.view_height);
                self.move_log_down(n);
            },
            (KeyCode::PageUp, _) => {
                let n: usize = lines_of(self.log.view_height);
                self.move_log_up(n);
            },
            _ => {},
        }
    }

    fn handle_diff_key(&mut self, key: KeyEvent)
        ensures
            final(self)@ == old(self)@.diff_keyed(key),
    {
        proof {
            reveal(AppModel::diff_keyed);
        }
        match (key.code, key.modifiers) {
            (KeyCode::Char('o'), KeyModifiers::Plain) => {
                self.open_file_view_at_viewport();
            },
            (KeyCode::Char('b'), KeyModifiers::Plain) => {
                self.blame_from_diff_pane();
            },
            _ => {
                self.diff.handle_move_key(key);
            },
        }
    }

    fn handle_pane_key(&mut self, key: KeyEvent)
        ensures
            final(self)@ == old(self)@.pane_keyed(key),
    {
        proof {
            reveal(AppModel::pane_keyed);
        }
        match (key.code, key.modifiers) {
            (KeyCode::Char('?'), KeyModifiers::Plain) => {
                self.show_help = true;
            },
            (KeyCode::Char('#'), KeyModifiers::Plain) => {
                self.diff.show_line_numbers = !self.diff.show_line_numbers;
            },
            (KeyCode::Char('D'), KeyModifiers::Plain | KeyModifiers::Shift) => {
                self.display.date = self.display.date.next();
            },
            (KeyCode::Char('A'), KeyModifiers::Plain | KeyModifiers::Shift) => {
                self.display.author = self.display.author.next();
            },
            (KeyCode::Char('X'), KeyModifiers::Plain | KeyModifiers::Shift) => {
                self.display.full_hash = !self.display.full_hash;
            },
            _ => match self.focus {
                Focus::Log => {
                    self.handle_log_key(key);
                },
                Focus::Diff => {
                    self.handle_diff_key(key);
                },
            },
        }
    }

    fn handle_main_key(&mut self, key: KeyEvent)
        ensures
            final(self)@ == old(self)@.main_keyed(key),
    {
        proof {
            reveal(AppModel::main_keyed);
        }
        match (key.code, key.modifiers) {
            (KeyCode::Char('v'), KeyModifiers::Plain) => {
                if self.diff.open {
                    self.diff.show_hunks = !self.diff.show_hunks;
                    self.diff.scroll = 0;
                }
            },
            (KeyCode::Char('f'), KeyModifiers::Plain) => {
                if self.diff.open {
                    self.toggle_diff_scope();
                }
            },
            (KeyCode::Char('y'), KeyModifiers::Plain) => {
                self.yank_selected_hash();
            },
            (KeyCode::Char('R'), KeyModifiers::Plain | KeyModifiers::Shift) => {
                self.reload();
            },
            (KeyCode::Tab, KeyModifiers::Plain) => {
                if self.diff.open {
                    self.cycle_focus();
                }
            },
            (KeyCode::Esc, KeyModifiers::Plain) => {
                if self.diff.open {
                    self.leave_diff();
                } else if !self.search.state.query.as_str().is_empty() {
                    self.search.clear();
                }
            },
            (KeyCode::Char('q'), KeyModifiers::Plain) => {
                if self.diff.open {
                    self.leave_diff();
                } else if self.focus == Focus::Log {
                    self.should_quit = true;
                }
            },
            _ => {
                self.handle_pane_key(key);
            },
        }
    }
}

/// Ctrl+C quits, whatever is on top.
pub proof fn law_ctrl_c_quits(app: AppModel)
    ensures
        app.keyed(
            KeyEvent { code: KeyCode::Char('c'), modifiers: KeyModifiers::Control },
        ).should_quit,
{
    reveal(AppModel::keyed);
}

/// The key `c`, with nothing held down.
pub open spec fn plain(c: char) -> KeyEvent {
    KeyEvent { code: KeyCode::Char(c), modifiers: KeyModifiers::Plain }
}

/// The key `code`, with nothing held down.
pub open spec fn bare(code: KeyCode) -> KeyEvent {
    KeyEvent { code, modifiers: KeyModifiers::Plain }
}

/// The key `c`, with control held down.
pub open spec fn control(c: char) -> KeyEvent {
    KeyEvent { code: KeyCode::Char(c), modifiers: KeyModifiers::Control }
}

/// Nothing covers the two panes, and nothing is being typed.
pub open spec fn panes_are_free(m: AppModel) -> bool {
    &&& !m.show_help
    &&& !m.diff.search.active
    &&& !m.search.state.active
    &&& !m.diff.picker_filter.active
    &&& m.diff.file_picker is None
    &&& !m.status.open
    &&& !m.refs.open
    &&& !m.blame.open
}

/// What is typed goes to the end of the query, and is erased from there; erasing an empty
/// query leaves it empty.
pub proof fn law_erasing_undoes_typing(s: SearchModel, c: char)
    ensures
        s.typed(c).query == s.query.push(c),
        s.typed(c).erased() == s,
        s.query.len() == 0 ==> s.erased() == s,
        s.entered().query == s.query && !s.entered().active,
        new_search().active && new_search().query.len() == 0,
{
    assert(s.typed(c).erased().query =~= s.query);
}

/// While the help is shown, keys but those that close it do nothing; `q`, `?` and escape
/// close it, and change nothing else.
pub proof fn law_help_takes_every_key(m: AppModel, key: KeyEvent)
    requires
        m.show_help,
        !(key.code == KeyCode::Char('c') && key.modifiers == KeyModifiers::Control),
    ensures
        key.code == KeyCode::Char('q') || key.code == KeyCode::Char('?') || key.code == KeyCode::Esc
            ==> m.keyed(key) == (AppModel { show_help: false, ..m }),
        key.code != KeyCode::Char('q') && key.code != KeyCode::Char('?') && key.code
            != KeyCode::Esc ==> m.keyed(key) == m,
{
    reveal(AppModel::keyed);
    reveal(AppModel::help_keyed);
}

/// What is typed while a search is being typed goes into its query, whatever the key does
/// otherwise; escape gives the search up.
pub proof fn law_typing_goes_into_the_query(m: AppModel, c: char)
    requires
        !m.show_help,
    ensures
        m.diff.search.active ==> {
            &&& m.keyed(plain(c)).diff.search.query == m.diff.search.query.push(c)
            &&& m.keyed(plain(c)).log == m.log
            &&& m.keyed(bare(KeyCode::Esc)).diff.search.query.len() == 0
            &&& !m.keyed(bare(KeyCode::Esc)).diff.search.active
            &&& !m.keyed(bare(KeyCode::Enter)).diff.search.active
            &&& m.keyed(bare(KeyCode::Enter)).diff.search.query == m.diff.search.query
        },
        !m.diff.search.active && m.search.state.active ==> {
            &&& m.keyed(plain(c)).search.state.query == m.search.state.query.push(c)
            &&& m.keyed(bare(KeyCode::Esc)).search.state.query.len() == 0
            &&& !m.keyed(bare(KeyCode::Esc)).search.state.active
        },
{
    reveal(AppModel::keyed);
    reveal(AppModel::search_keyed);
    reveal(AppModel::commit_matches_updated);
    reveal(AppModel::commit_match_first);
    reveal(AppModel::commit_match_shown);
    reveal(AppModel::selecting);
    reveal(AppModel::selection_shown);
    reveal(AppModel::diff_following);
    reveal(AppModel::fetching_selected);
    reveal(AppModel::requesting_diff);
    reveal(AppModel::reloading_diff);
}

proof fn lemma_log_key(m: AppModel, key: KeyEvent)
    requires
        panes_are_free(m),
        m.focus == Focus::Log,
        key == plain('j') || key == bare(KeyCode::Down) || key == plain('k') || key == bare(
            KeyCode::Up,
        ) || key == plain('g') || key == plain('G') || key == control('d') || key == control('u')
            || key == bare(KeyCode::PageDown) || key == bare(KeyCode::PageUp) || key == bare(
            KeyCode::Enter,
        ) || key == plain('r') || key == plain('s') || key == plain('n') || key == plain('N') || key
            == plain('/'),
    ensures
        m.keyed(key) == m.log_keyed(key),
{
    reveal(AppModel::keyed);
    reveal(AppModel::main_keyed);
    reveal(AppModel::pane_keyed);
}

/// In the log `j` and the arrow down select the next row and `k` and the arrow up the one
/// before, `g` the first row and `G` the last; control with `d` or `u` moves by ten rows, and
/// the page keys by as many as are shown. The ends stop every move.
pub proof fn law_keys_move_the_log(m: AppModel)
    requires
        panes_are_free(m),
        m.focus == Focus::Log,
        0 <= m.log.selected < m.log.rows.len(),
        0 <= m.log.scroll <= m.log.selected < m.log.scroll + m.log.view_height,
    ensures
        ({
            let at = m.log.selected;
            let last = m.log.rows.len() - 1;
            &&& m.keyed(plain('j')).log.selected == vstd::math::min(at + 1, last)
            &&& m.keyed(bare(KeyCode::Down)) == m.keyed(plain('j'))
            &&& m.keyed(plain('k')).log.selected == vstd::math::max(at - 1, 0)
            &&& m.keyed(bare(KeyCode::Up)) == m.keyed(plain('k'))
            &&& m.keyed(plain('g')).log.selected == 0
            &&& m.keyed(plain('G')).log.selected == last
            &&& m.keyed(control('d')).log.selected == vstd::math::min(at + 10, last)
            &&& m.keyed(control('u')).log.selected == vstd::math::max(at - 10, 0)
            &&& m.keyed(bare(KeyCode::PageDown)).log.selected == vstd::math::min(
                at + m.log.view_height,
                last,
            )
            &&& m.keyed(bare(KeyCode::PageUp)).log.selected == vstd::math::max(
                at - m.log.view_height,
                0,
            )
        }),
{
    lemma_log_key(m, plain('j'));
    lemma_log_key(m, bare(KeyCode::Down));
    lemma_log_key(m, plain('k'));
    lemma_log_key(m, bare(KeyCode::Up));
    lemma_log_key(m, plain('g'));
    lemma_log_key(m, plain('G'));
    lemma_log_key(m, control('d'));
    lemma_log_key(m, control('u'));
    lemma_log_key(m, bare(KeyCode::PageDown));
    lemma_log_key(m, bare(KeyCode::PageUp));
    reveal(AppModel::log_keyed);
    law_the_selection_stops_at_the_ends(m, 1);
    law_the_selection_stops_at_the_ends(m, 10);
    law_the_selection_stops_at_the_ends(m, m.log.view_height);
}

/// In the log enter opens the diff of the selected row, from its top, and gives it the focus;
/// `r` opens the refs, `s` the status, and a slash starts a search.
pub proof fn law_keys_open_views_from_the_log(m: AppModel)
    requires
        panes_are_free(m),
        m.focus == Focus::Log,
        0 <= m.log.selected < m.log.rows.len(),
    ensures
        ({
            let n = m.keyed(bare(KeyCode::Enter));
            &&& n.diff.open
            &&& n.focus == Focus::Diff
            &&& n.log == m.log
            &&& match m.log.rows[m.log.selected] {
                RowModel::Commit(c) => n.diff.target == Some(DiffTarget::Commit(c.id)),
                RowModel::WorkingTree { .. } => n.diff.target == Some(DiffTarget::WorkingTree),
                RowModel::Staged { .. } => n.diff.target == Some(DiffTarget::Staged),
            }
        }),
        m.keyed(plain('r')).refs.open,
        m.keyed(plain('s')).status.open,
        m.keyed(plain('s')).status.scroll == 0,
        m.keyed(plain('/')).search.state.active,
        m.keyed(plain('/')).search.state.query.len() == 0,
{
    lemma_log_key(m, bare(KeyCode::Enter));
    lemma_log_key(m, plain('r'));
    lemma_log_key(m, plain('s'));
    lemma_log_key(m, plain('/'));
    reveal(AppModel::log_keyed);
    reveal(AppModel::diff_entered);
    reveal(AppModel::search_to_diff);
    reveal(AppModel::fetching_selected);
    reveal(AppModel::requesting_diff);
    reveal(AppModel::reloading_diff);
    reveal(AppModel::refs_opened);
    reveal(AppModel::status_opened);
}

/// In the diff pane `j` and `k` scroll by a line, control with `d` or `u` by ten, `g` goes to
/// the top and `G` to the end; `l` and `h` shift the lines by four columns, and `0` shifts
/// them back.
pub proof fn law_keys_scroll_the_diff(m: DiffModel)
    requires
        0 <= m.scroll,
        m.scroll + 10 <= usize::MAX,
        0 <= m.horizontal_scroll,
        m.horizontal_scroll + 4 <= usize::MAX,
        1 <= m.view_height,
        m.scroll + m.view_height <= usize::MAX,
    ensures
        ({
            let end = vstd::math::max(m.total_lines() - m.view_height, 0);
            &&& m.moved_by_key(plain('j')).scroll == vstd::math::min(m.scroll + 1, end)
            &&& m.moved_by_key(plain('k')).scroll == vstd::math::max(m.scroll - 1, 0)
            &&& m.moved_by_key(control('d')).scroll == vstd::math::min(m.scroll + 10, end)
            &&& m.moved_by_key(control('u')).scroll == vstd::math::max(m.scroll - 10, 0)
            &&& m.moved_by_key(bare(KeyCode::PageDown)).scroll == vstd::math::min(
                m.scroll + m.view_height,
                end,
            )
            &&& m.moved_by_key(bare(KeyCode::PageUp)).scroll == vstd::math::max(
                m.scroll - m.view_height,
                0,
            )
            &&& m.moved_by_key(plain('g')).scroll == 0
            &&& m.moved_by_key(plain('G')).scroll == end
            &&& m.moved_by_key(plain('l')).horizontal_scroll == m.horizontal_scroll + 4
            &&& m.moved_by_key(plain('h')).horizontal_scroll == vstd::math::max(
                m.horizontal_scroll - 4,
                0,
            )
            &&& m.moved_by_key(plain('0')).horizontal_scroll == 0
            &&& m.moved_by_key(plain('/')).search.active
            &&& m.moved_by_key(plain('n')) == m.match_jumped(1)
            &&& m.moved_by_key(plain('N')) == m.match_jumped(-1)
            &&& m.moved_by_key(plain(']')) == m.file_jumped(1)
            &&& m.moved_by_key(plain('[')) == m.file_jumped(-1)
        }),
{
}

/// A key that switches something on or off switches it back when it is pressed again: the
/// line numbers, the hunks and the whole ids. Three times through the dates or the authors is
/// back to the first.
pub proof fn law_a_switch_is_undone_by_its_key(m: AppModel)
    requires
        panes_are_free(m),
        m.diff.open,
    ensures
        m.keyed(plain('#')).diff.show_line_numbers == !m.diff.show_line_numbers,
        m.keyed(plain('#')).keyed(plain('#')) == m,
        m.keyed(plain('X')).display.full_hash == !m.display.full_hash,
        m.keyed(plain('X')).keyed(plain('X')) == m,
        m.keyed(plain('v')).diff.show_hunks == !m.diff.show_hunks,
        m.keyed(plain('v')).keyed(plain('v')) == m.with_diff(DiffModel { scroll: 0, ..m.diff }),
        m.keyed(plain('D')).display.date != m.display.date,
        m.keyed(plain('D')).keyed(plain('D')).keyed(plain('D')) == m,
        m.keyed(plain('A')).display.author != m.display.author,
        m.keyed(plain('A')).keyed(plain('A')).keyed(plain('A')) == m,
        m.keyed(plain('?')) == (AppModel { show_help: true, ..m }),
{
    reveal(AppModel::keyed);
    reveal(AppModel::main_keyed);
    reveal(AppModel::pane_keyed);
    reveal(AppModel::hunks_toggled);
}

/// `q` and escape close the diff pane and give the focus back to the log; with the pane closed
/// `q` quits, and escape only gives up a search.
pub proof fn law_leaving_goes_outwards(m: AppModel)
    requires
        panes_are_free(m),
        m.diff.file_view_return is None,
    ensures
        m.diff.open ==> {
            &&& !m.keyed(plain('q')).diff.open
            &&& m.keyed(plain('q')).focus == Focus::Log
            &&& m.keyed(plain('q')).should_quit == m.should_quit
            &&& m.keyed(bare(KeyCode::Esc)) == m.keyed(plain('q'))
        },
        !m.diff.open && m.focus == Focus::Log ==> {
            &&& m.keyed(plain('q')) == (AppModel { should_quit: true, ..m })
            &&& m.search.state.query.len() == 0 ==> m.keyed(bare(KeyCode::Esc)) == m
            &&& m.keyed(bare(KeyCode::Esc)).search.state.query.len() == 0
            &&& m.keyed(bare(KeyCode::Esc)).should_quit == m.should_quit
        },
{
    reveal(AppModel::keyed);
    reveal(AppModel::main_keyed);
    reveal(AppModel::diff_left);
    reveal(AppModel::search_to_log);
    reveal(AppModel::commit_matches_updated);
    reveal(AppModel::commit_match_first);
    reveal(AppModel::commit_match_shown);
    reveal(AppModel::selecting);
    reveal(AppModel::selection_shown);
    reveal(AppModel::diff_following);
}

/// In the refs view and in a blame `j` and `k` move by a line, control with `d` or `u` by ten,
/// `g` to the first line and `G` to the last; `q` and escape close the view.
pub proof fn law_keys_move_in_lists(m: AppModel)
    requires
        0 <= m.refs.selected < m.refs.entries.len() <= isize::MAX,
        m.blame.document is Some,
        0 <= m.blame.selected < m.blame.document->0.lines.len() <= isize::MAX,
    ensures
        ({
            let at = m.refs.selected;
            let last = m.refs.entries.len() - 1;
            &&& m.refs_keyed(plain('j')).refs.selected == vstd::math::min(at + 1, last)
            &&& m.refs_keyed(plain('k')).refs.selected == vstd::math::max(at - 1, 0)
            &&& m.refs_keyed(control('d')).refs.selected == vstd::math::min(at + 10, last)
            &&& m.refs_keyed(control('u')).refs.selected == vstd::math::max(at - 10, 0)
            &&& m.refs_keyed(plain('g')).refs.selected == 0
            &&& m.refs_keyed(plain('G')).refs.selected == last
            &&& !m.refs_keyed(plain('q')).refs.open
            &&& !m.refs_keyed(bare(KeyCode::Esc)).refs.open
        }),
        ({
            let at = m.blame.selected;
            let last = m.blame.document->0.lines.len() - 1;
            &&& m.blame_keyed(plain('j')).blame.selected == vstd::math::min(at + 1, last)
            &&& m.blame_keyed(plain('k')).blame.selected == vstd::math::max(at - 1, 0)
            &&& m.blame_keyed(control('d')).blame.selected == vstd::math::min(at + 10, last)
            &&& m.blame_keyed(control('u')).blame.selected == vstd::math::max(at - 10, 0)
            &&& m.blame_keyed(plain('g')).blame.selected == 0
            &&& m.blame_keyed(plain('G')).blame.selected == last
            &&& !m.blame_keyed(plain('q')).blame.open
            &&& !m.blame_keyed(bare(KeyCode::Esc)).blame.open
        }),
{
    reveal(AppModel::refs_keyed);
    reveal(AppModel::refs_moved);
    reveal(AppModel::blame_keyed);
    reveal(AppModel::blame_moved);
}

/// In the status `j` and `k` scroll by a line, control with `d` or `u` by ten, `g` goes to the
/// top and `G` to the last line; `q`, `s` and escape close it.
pub proof fn law_keys_scroll_the_status(s: StatusModel)
    requires
        0 <= s.scroll,
        s.scroll + 10 <= usize::MAX,
    ensures
        s.keyed(plain('j')).scroll == s.scroll + 1,
        s.keyed(plain('k')).scroll == vstd::math::max(s.scroll - 1, 0),
        s.keyed(control('d')).scroll == s.scroll + 10,
        s.keyed(control('u')).scroll == vstd::math::max(s.scroll - 10, 0),
        s.keyed(plain('g')).scroll == 0,
        s.document matches Some(lines) ==> s.keyed(plain('G')).scroll == vstd::math::max(
            lines.len() - 1,
            0,
        ),
        s.document is None ==> s.keyed(plain('G')).scroll == 0,
        !s.keyed(plain('q')).open && !s.keyed(plain('s')).open && !s.keyed(bare(KeyCode::Esc)).open,
        s.keyed(plain('j')).document == s.document,
{
}

/// In the picker `j` and `k` move by one file, `g` and `G` go to the first and the last, enter
/// shows the file picked and `o` opens it; escape first gives up a filter and then closes the
/// picker, and `q` closes it at once.
pub proof fn law_keys_of_the_picker(m: AppModel)
    requires
        m.diff.file_picker is Some,
    ensures
        m.picker_keyed(plain('j')) == m.with_diff(m.diff.picker_moved(1)),
        m.picker_keyed(plain('k')) == m.with_diff(m.diff.picker_moved(-1)),
        m.picker_keyed(bare(KeyCode::Enter)) == m.pick_shown(),
        m.picker_keyed(plain('o')) == m.pick_opened(),
        m.picker_keyed(plain('q')).diff.file_picker is None,
        m.diff.picker_filter.query.len() > 0 ==> m.picker_keyed(bare(KeyCode::Esc)).diff.file_picker
            == m.diff.file_picker && m.picker_keyed(
            bare(KeyCode::Esc),
        ).diff.picker_filter.query.len() == 0,
        m.diff.picker_filter.query.len() == 0 ==> m.picker_keyed(
            bare(KeyCode::Esc),
        ).diff.file_picker is None,
        m.picker_keyed(plain('/')).diff.picker_filter.active,
{
    reveal(AppModel::picker_keyed);
}

/// Whatever pane has the focus, `R` reloads the log from where it began, `y` copies the
/// selected commit, and with the diff pane open tab changes the focus and `f` switches the
/// path filter; without it the last two do nothing.
pub proof fn law_keys_of_both_panes(m: AppModel)
    requires
        panes_are_free(m),
    ensures
        m.keyed(plain('R')) == m.reloading(None),
        m.keyed(plain('y')) == m.selected_yanked(),
        m.diff.open ==> m.keyed(bare(KeyCode::Tab)) == m.focus_cycled(),
        m.diff.open ==> m.keyed(plain('f')) == m.scope_toggled(),
        !m.diff.open ==> m.keyed(bare(KeyCode::Tab)) == m,
        !m.diff.open ==> m.keyed(plain('f')) == m,
        !m.diff.open ==> m.keyed(plain('v')) == m,
{
    reveal(AppModel::keyed);
    reveal(AppModel::main_keyed);
}

/// In the diff pane `o` opens the file at the top on its own and `b` blames it; `t` opens the
/// picker.
pub proof fn law_keys_of_the_diff_pane(m: AppModel)
    requires
        panes_are_free(m),
        m.focus == Focus::Diff,
    ensures
        m.keyed(plain('o')) == m.file_view_opened_at_top(),
        m.keyed(plain('b')) == m.blame_of_diff(),
        m.keyed(plain('t')) == m.with_diff(m.diff.picker_opened()),
        m.keyed(plain('j')) == m.with_diff(m.diff.moved_by_key(plain('j'))),
        m.keyed(control('d')) == m.with_diff(m.diff.moved_by_key(control('d'))),
{
    reveal(AppModel::keyed);
    reveal(AppModel::main_keyed);
    reveal(AppModel::pane_keyed);
    reveal(AppModel::diff_keyed);
}

/// In the picker `g` and `G` go to the ends, and control with `d` or `u` moves by ten files.
pub proof fn law_keys_of_the_picker_go_far(m: AppModel)
    requires
        m.diff.document is Some,
        m.diff.file_picker is Some,
        m.diff.picker_filter.query.len() == 0,
        0 <= m.diff.file_picker->0 < m.diff.document->0.files.len() <= isize::MAX,
        m.diff.document->0.files.len() > 1,
    ensures
        ({
            let at = m.diff.file_picker->0;
            let last = m.diff.document->0.files.len() - 1;
            &&& m.picker_keyed(plain('g')).diff.file_picker == Some(0int)
            &&& m.picker_keyed(plain('G')).diff.file_picker == Some(last)
            &&& m.picker_keyed(control('d')).diff.file_picker == Some(
                vstd::math::min(at + 10, last),
            )
            &&& m.picker_keyed(control('u')).diff.file_picker == Some(vstd::math::max(at - 10, 0))
        }),
{
    reveal(AppModel::picker_keyed);
}

/// Enter ends the typing of a query and goes to the next match; backspace erases the last
/// character and searches anew.
pub proof fn law_enter_goes_to_the_next_match(m: AppModel, d: DiffModel)
    ensures
        d.search_keyed(bare(KeyCode::Enter)) == (DiffModel {
            search: SearchModel { active: false, ..d.search },
            ..d
        }).match_jumped(1),
        d.search.query.len() > 0 ==> d.search_keyed(bare(KeyCode::Backspace)).search.query
            == d.search.query.drop_last(),
        m.search_keyed(bare(KeyCode::Enter)) == m.with_search(
            SearchModel { active: false, ..m.search.state },
        ).commit_match_jumped(1),
        m.search.state.query.len() > 0 ==> m.search_keyed(
            bare(KeyCode::Backspace),
        ).search.state.query == m.search.state.query.drop_last(),
{
    reveal(AppModel::search_keyed);
    reveal(AppModel::commit_matches_updated);
}

/// What is typed into the filter of the picker goes into its text; enter keeps the filter and
/// ends the typing, and escape gives it up.
pub proof fn law_typing_goes_into_the_filter(d: DiffModel, c: char)
    requires
        d.document is Some,
    ensures
        d.filter_keyed(plain(c)).picker_filter.query == d.picker_filter.query.push(c),
        d.filter_keyed(bare(KeyCode::Enter)).picker_filter.query == d.picker_filter.query,
        !d.filter_keyed(bare(KeyCode::Enter)).picker_filter.active,
        d.filter_keyed(bare(KeyCode::Esc)).picker_filter.query.len() == 0,
        !d.filter_keyed(bare(KeyCode::Esc)).picker_filter.active,
        d.filter_keyed(bare(KeyCode::Esc)).file_picker == d.file_picker,
        d.picker_filter.query.len() > 0 ==> d.filter_keyed(
            bare(KeyCode::Backspace),
        ).picker_filter.query == d.picker_filter.query.drop_last(),
{
}

/// In the log `n` and `N` go to the next and to the previous match.
pub proof fn law_keys_go_round_the_matches(m: AppModel)
    requires
        panes_are_free(m),
        m.focus == Focus::Log,
    ensures
        m.keyed(plain('n')) == m.commit_match_jumped(1),
        m.keyed(plain('N')) == m.commit_match_jumped(-1),
{
    lemma_log_key(m, plain('n'));
    lemma_log_key(m, plain('N'));
    reveal(AppModel::log_keyed);
}

/// In the refs view enter chooses the selected ref and `r` closes the view. In a blame enter
/// opens the commit of the line, a comma blames from before it, backspace goes back, and `y`
/// copies the commit.
pub proof fn law_keys_choose_in_lists(m: AppModel)
    ensures
        m.refs_keyed(bare(KeyCode::Enter)) == m.ref_chosen(),
        !m.refs_keyed(plain('r')).refs.open,
        m.refs_keyed(plain('g')).refs.scroll == 0,
        m.blame_keyed(bare(KeyCode::Enter)) == m.blame_commit_opened(),
        m.blame_keyed(plain(',')) == m.blame_at_parent(),
        m.blame_keyed(bare(KeyCode::Backspace)) == m.blame_back_step(),
        m.blame_keyed(plain('y')) == m.blamed_yanked(),
        m.blame_keyed(plain('g')).blame.scroll == 0,
        1 <= m.refs.view_height <= isize::MAX ==> m.refs_keyed(bare(KeyCode::PageDown))
            == m.refs_moved(m.refs.view_height) && m.refs_keyed(bare(KeyCode::PageUp))
            == m.refs_moved(-m.refs.view_height),
        1 <= m.blame.view_height <= isize::MAX ==> m.blame_keyed(bare(KeyCode::PageDown))
            == m.blame_moved(m.blame.view_height) && m.blame_keyed(bare(KeyCode::PageUp))
            == m.blame_moved(-m.blame.view_height),
{
    reveal(AppModel::refs_keyed);
    reveal(AppModel::blame_keyed);
}

/// The status is asked for when it is opened, unless it is there already or on its way; it
/// opens at its top.
pub proof fn law_the_status_is_asked_for_once(m: AppModel)
    ensures
        ({
            let n = m.status_opened();
            let needed = m.status.document is None && !m.status.loading;
            &&& n.status.open
            &&& n.status.scroll == 0
            &&& needed ==> n.status.loading && n.outbox == m.outbox.push(
                GitReqModel::Inspect(InspectReqModel::LoadStatus),
            )
            &&& !needed ==> n.outbox == m.outbox && n.status.loading == m.status.loading
            &&& n.status.document == m.status.document
        }),
{
    reveal(AppModel::status_opened);
}

} // verus!
