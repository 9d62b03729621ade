//! Moving through the log, the diff pane, the refs view and the blame view.

use crate::app::state::{
    larger, less, no_search, sat, smaller, step_clamped, stepped, BlameModel, DiffModel, LogModel,
    PlaceModel, RefsModel, RowModel,
};
use crate::app::{bump, next_seq, App, AppModel, BlamePlace, DiffState, Focus, LogRow};
use crate::git::{BlameAt, GitReqModel, InspectReq, InspectReqModel};
use crate::model::{DiffTarget, ObjectId};
use vstd::prelude::*;

verus! {

/// What the diff pane shows for a row.
pub open spec fn row_target(row: RowModel) -> DiffTarget {
    match row {
        RowModel::Commit(c) => DiffTarget::Commit(c.id),
        RowModel::WorkingTree { .. } => DiffTarget::WorkingTree,
        RowModel::Staged { .. } => DiffTarget::Staged,
    }
}

/// The first line shown of a list with line `selected` in view: it scrolls only as far as it
/// has to.
pub open spec fn scroll_to(selected: int, scroll: int, view_height: int) -> int {
    let h = larger(view_height, 1);
    if selected < scroll {
        selected
    } else if selected >= scroll + h {
        less(selected, h - 1)
    } else {
        scroll
    }
}

/// The first line shown of a list with line `selected` in view.
pub(crate) fn scrolled_to(selected: usize, scroll: usize, view_height: usize) -> (r: usize)
    ensures
        r == scroll_to(selected as int, scroll as int, view_height as int),
{
    let h: usize = if view_height == 0 {
        1
    } else {
        view_height
    };
    if selected < scroll {
        selected
    } else if selected - scroll >= h {
        selected - (h - 1)
    } else {
        scroll
    }
}

/// The line that is scrolled to is in view.
pub proof fn law_selection_is_in_view(selected: int, scroll: int, view_height: int)
    requires
        0 <= selected,
        0 <= scroll,
        0 <= view_height,
    ensures
        scroll_to(selected, scroll, view_height) <= selected < scroll_to(
            selected,
            scroll,
            view_height,
        ) + larger(view_height, 1),
{
}

impl DiffModel {
    /// The pane is scrolled to `pos`, or as far as it goes.
    pub open spec fn scrolled(self, pos: int) -> DiffModel {
        DiffModel { scroll: smaller(pos, self.max_scroll()), ..self }
    }

    /// The pane scrolls down by `n` lines, at most to its end.
    pub open spec fn down(self, n: int) -> DiffModel {
        self.scrolled(sat(self.scroll + n))
    }

    /// The pane scrolls up by `n` lines, at most to its start.
    pub open spec fn up(self, n: int) -> DiffModel {
        DiffModel { scroll: less(self.scroll, n), ..self }
    }

    /// The pane shows its end.
    pub open spec fn bottom(self) -> DiffModel {
        DiffModel { scroll: self.max_scroll(), ..self }
    }

    /// The pane is to show `target`: what it showed is gone.
    pub open spec fn turned_to(self, target: DiffTarget) -> DiffModel {
        DiffModel {
            target: Some(target),
            document: None,
            file_view_return: None,
            ..self
        }.content_changed().picker_closed()
    }

    /// Commit diffs are shown whole instead of within the path filter, or the other way
    /// round.
    pub open spec fn scope_flipped(self) -> DiffModel {
        DiffModel { scoped: !self.scoped, ..self }
    }

    /// No single-file view is open any more, and no picker.
    pub open spec fn view_dropped(self) -> DiffModel {
        DiffModel { file_view_return: None, ..self }.picker_closed()
    }

    /// The pane has nothing to show, and no search.
    pub open spec fn emptied(self) -> DiffModel {
        DiffModel {
            document: None,
            header_lower: None,
            body_lower: None,
            target: None,
            loading: false,
            file_view_return: None,
            search: no_search(),
            ..self
        }.picker_closed()
    }

    /// The pane is open, at its top.
    pub open spec fn opened(self) -> DiffModel {
        DiffModel { open: true, scroll: 0, ..self }
    }
}

impl DiffState {
    /// Scrolls to `pos`, or as far as the pane goes.
    pub fn scroll_to_line(&mut self, pos: usize)
        ensures
            final(self)@ == old(self)@.scrolled(pos as int),
    {
        let max: usize = self.max_scroll();
        self.scroll = if pos <= max {
            pos
        } else {
            max
        };
    }

    pub(crate) fn scroll_up(&mut self, n: usize)
        ensures
            final(self)@ == old(self)@.up(n as int),
    {
        self.scroll = self.scroll.saturating_sub(n);
    }

    pub(crate) fn scroll_down(&mut self, n: usize)
        ensures
            final(self)@ == old(self)@.down(n as int),
    {
        let pos: usize = self.scroll.saturating_add(n);
        self.scroll_to_line(pos);
    }

    pub(crate) fn scroll_to_end(&mut self)
        ensures
            final(self)@ == old(self)@.bottom(),
    {
        self.scroll = self.max_scroll();
    }

    pub(crate) fn turn_to(&mut self, target: DiffTarget)
        ensures
            final(self)@ == old(self)@.turned_to(target),
    {
        self.target = Some(target);
        self.document = None;
        self.file_view_return = None;
        self.forget_content();
        self.close_picker();
    }

    pub(crate) fn flip_scope(&mut self)
        ensures
            final(self)@ == old(self)@.scope_flipped(),
    {
        self.scoped = !self.scoped;
    }

    pub(crate) fn drop_view(&mut self)
        ensures
            final(self)@ == old(self)@.view_dropped(),
    {
        self.file_view_return = None;
        self.close_picker();
    }

    pub(crate) fn empty_out(&mut self)
        ensures
            final(self)@ == old(self)@.emptied(),
    {
        self.document = None;
        self.header_lower = None;
        self.body_lower = None;
        self.target = None;
        self.loading = false;
        self.file_view_return = None;
        self.close_picker();
        self.search.clear();
    }

    pub(crate) fn open_at_top(&mut self)
        ensures
            final(self)@ == old(self)@.opened(),
    {
        self.open = true;
        self.scroll = 0;
    }

    pub(crate) fn set_loading(&mut self)
        ensures
            final(self)@ == (DiffModel { loading: true, ..old(self)@ }),
    {
        self.loading = true;
    }
}

impl AppModel {
    /// The selected row is in view.
    #[verifier::opaque]
    pub open spec fn selection_shown(self) -> AppModel {
        AppModel {
            log: LogModel {
                scroll: scroll_to(self.log.selected, self.log.scroll, self.log.view_height),
                ..self.log
            },
            ..self
        }
    }

    /// Row `pos` is selected and in view.
    #[verifier::opaque]
    pub open spec fn selecting(self, pos: int) -> AppModel {
        AppModel { log: LogModel { selected: pos, ..self.log }, ..self }.selection_shown()
    }

    /// Commit `id` is selected and in view, if the log has it.
    #[verifier::opaque]
    pub open spec fn selecting_commit(self, id: ObjectId) -> AppModel {
        if commit_row(self.log.rows, id, 0) < self.log.rows.len() {
            self.selecting(commit_row(self.log.rows, id, 0))
        } else {
            self
        }
    }

    /// The diff pane is open, at its top, and has the focus.
    pub open spec fn diff_pane_opened(self) -> AppModel {
        AppModel { diff: self.diff.opened(), focus: Focus::Diff, ..self }
    }

    /// The diff of `target` is asked for anew, whatever the pane shows.
    #[verifier::opaque]
    pub open spec fn reloading_diff(self, target: DiffTarget) -> AppModel {
        AppModel {
            diff: DiffModel { loading: true, ..self.diff },
            diff_seq: next_seq(self.diff_seq),
            ..self
        }.asking(
            InspectReqModel::LoadDiff {
                target,
                seq: next_seq(self.diff_seq),
                scoped: self.diff.scoped,
            },
        )
    }

    /// The pane turns to `target`: what it showed is gone, and the new diff is asked for. If
    /// it shows that target already, nothing happens.
    #[verifier::opaque]
    pub open spec fn requesting_diff(self, target: DiffTarget) -> AppModel {
        if self.diff.target == Some(target) {
            self
        } else {
            self.with_diff(self.diff.turned_to(target)).reloading_diff(target)
        }
    }

    /// The pane turns to the selected row.
    #[verifier::opaque]
    pub open spec fn fetching_selected(self) -> AppModel {
        if 0 <= self.log.selected < self.log.rows.len() {
            self.requesting_diff(row_target(self.log.rows[self.log.selected]))
        } else {
            self
        }
    }

    /// An open diff pane follows the selection.
    #[verifier::opaque]
    pub open spec fn diff_following(self) -> AppModel {
        if self.diff.open {
            self.fetching_selected()
        } else {
            self
        }
    }

    /// The selection moves down by `n` rows, at most to the last.
    #[verifier::opaque]
    pub open spec fn log_down(self, n: int) -> AppModel {
        let new_sel = smaller(self.log.selected + n, self.log.rows.len() - 1);
        if self.log.rows.len() == 0 || new_sel == self.log.selected {
            self
        } else {
            self.selecting(new_sel).diff_following()
        }
    }

    /// The selection moves up by `n` rows, at most to the first.
    #[verifier::opaque]
    pub open spec fn log_up(self, n: int) -> AppModel {
        let new_sel = less(self.log.selected, n);
        if new_sel == self.log.selected {
            self
        } else {
            self.selecting(new_sel).diff_following()
        }
    }

    /// The first row is selected.
    #[verifier::opaque]
    pub open spec fn log_top(self) -> AppModel {
        AppModel { log: LogModel { selected: 0, scroll: 0, ..self.log }, ..self }.diff_following()
    }

    /// The last row is selected.
    #[verifier::opaque]
    pub open spec fn log_bottom(self) -> AppModel {
        if self.log.rows.len() == 0 {
            self
        } else {
            self.selecting(self.log.rows.len() - 1).diff_following()
        }
    }

    /// Commit diffs are shown whole instead of within the path filter, or the other way
    /// round. Without a path filter nothing happens.
    #[verifier::opaque]
    pub open spec fn scope_toggled(self) -> AppModel {
        if self.path_filter is None {
            self
        } else {
            match self.diff.target {
                Some(target) => self.with_diff(
                    self.diff.scope_flipped().view_dropped(),
                ).reloading_diff(target),
                None => self.with_diff(self.diff.scope_flipped()),
            }
        }
    }

    /// The log starts over, from `root` if it is given; the working-tree row stays, without
    /// its mark.
    #[verifier::opaque]
    pub open spec fn reloading(self, root: Option<ObjectId>) -> AppModel {
        let author = if self.log.rows.len() > 0 {
            match self.log.rows[0] {
                RowModel::WorkingTree { author, .. } => author,
                _ => "you"@,
            }
        } else {
            "you"@
        };
        AppModel {
            log: LogModel {
                rows: seq![RowModel::WorkingTree { author, dirty: None }],
                selected: 0,
                scroll: 0,
                ..self.log
            },
            diff: self.diff.emptied(),
            status: crate::app::state::StatusModel {
                document: None,
                loading: false,
                ..self.status
            },
            search: self.search.cleared(),
            walk_done: false,
            walk_gen: next_seq(self.walk_gen),
            error: None,
            ..self
        }.asking_history(
            crate::git::HistoryReq::Reload { generation: next_seq(self.walk_gen), root },
        ).asking(InspectReqModel::RefreshWorkingTreeMeta)
    }

    /// The refs view opens, and its listing is asked for.
    #[verifier::opaque]
    pub open spec fn refs_opened(self) -> AppModel {
        AppModel {
            refs: RefsModel { open: true, loading: true, selected: 0, scroll: 0, ..self.refs },
            ..self
        }.asking(InspectReqModel::LoadRefs)
    }

    /// The selection of the refs view moves by `delta`, and stays in view.
    #[verifier::opaque]
    pub open spec fn refs_moved(self, delta: int) -> AppModel {
        if self.refs.entries.len() == 0 {
            self
        } else {
            let sel = stepped(self.refs.selected, delta, self.refs.entries.len() - 1);
            AppModel {
                refs: RefsModel {
                    selected: sel,
                    scroll: scroll_to(sel, self.refs.scroll, self.refs.view_height),
                    ..self.refs
                },
                ..self
            }
        }
    }

    /// The log starts over from the selected ref.
    #[verifier::opaque]
    pub open spec fn ref_chosen(self) -> AppModel {
        if 0 <= self.refs.selected < self.refs.entries.len() {
            let entry = self.refs.entries[self.refs.selected];
            AppModel {
                branch_name: entry.name,
                refs: RefsModel { open: false, ..self.refs },
                ..self
            }.reloading(Some(entry.target))
        } else {
            self
        }
    }

    /// A blame of `path` is asked for, and its view opens.
    #[verifier::opaque]
    pub open spec fn blame_opened(self, path: Seq<char>, at: BlameAt) -> AppModel {
        AppModel {
            blame: BlameModel { open: true, loading: true, error: None, ..self.blame },
            blame_seq: next_seq(self.blame_seq),
            ..self
        }.asking(InspectReqModel::LoadBlame { path, at, seq: next_seq(self.blame_seq) })
    }

    /// Lines of the blame view.
    pub open spec fn blame_total(self) -> int {
        match self.blame.document {
            Some(d) => d.lines.len() as int,
            None => 0,
        }
    }

    /// The blame view is on one of its lines.
    pub open spec fn blame_on_line(self) -> bool {
        0 <= self.blame.selected < self.blame_total()
    }

    /// The cursor of the blame view moves by `delta`, and stays in view.
    #[verifier::opaque]
    pub open spec fn blame_moved(self, delta: int) -> AppModel {
        if self.blame_total() == 0 {
            self
        } else {
            let sel = stepped(self.blame.selected, delta, self.blame_total() - 1);
            AppModel {
                blame: BlameModel {
                    selected: sel,
                    scroll: scroll_to(sel, self.blame.scroll, self.blame.view_height),
                    ..self.blame
                },
                ..self
            }
        }
    }

    /// The blame view closes and the diff of the line's commit opens; the log selects that
    /// commit if it has it.
    #[verifier::opaque]
    pub open spec fn blame_commit_opened(self) -> AppModel {
        if self.blame_on_line() {
            let id = self.blame.document->0.lines[self.blame.selected].commit_id;
            AppModel {
                blame: BlameModel { open: false, ..self.blame },
                ..self
            }.selecting_commit(id).diff_pane_opened().requesting_diff(DiffTarget::Commit(id))
        } else {
            self
        }
    }

    /// The file is blamed as of the parent of the line's commit; the way back leads here
    /// once that succeeds.
    #[verifier::opaque]
    pub open spec fn blame_at_parent(self) -> AppModel {
        if self.blame_on_line() {
            let doc = self.blame.document->0;
            let l = doc.lines[self.blame.selected];
            let path = match l.source_path {
                Some(p) => p,
                None => doc.path,
            };
            AppModel {
                blame: BlameModel {
                    pending_return: Some(PlaceModel { at: doc.at, path: doc.path }),
                    ..self.blame
                },
                ..self
            }.blame_opened(path, BlameAt::ParentOfCommit(l.commit_id))
        } else {
            self
        }
    }

    /// One step on the way back.
    #[verifier::opaque]
    pub open spec fn blame_back_step(self) -> AppModel {
        if self.blame.history.len() > 0 {
            let place = self.blame.history.last();
            AppModel {
                blame: BlameModel {
                    history: self.blame.history.drop_last(),
                    pending_return: None,
                    ..self.blame
                },
                ..self
            }.blame_opened(place.path, BlameAt::Commit(place.at))
        } else {
            self
        }
    }
}

/// The first row at or behind `from` that is commit `id`; their number if there is none.
pub open spec fn commit_row(rows: Seq<RowModel>, id: ObjectId, from: int) -> int
    decreases rows.len() - from,
{
    if from >= rows.len() {
        rows.len() as int
    } else if rows[from] matches RowModel::Commit(c) && c.id == id {
        from
    } else {
        commit_row(rows, id, from + 1)
    }
}

impl App {
    /// Scrolls the log so that the selected row is in view.
    pub fn ensure_selected_visible(&mut self)
        ensures
            final(self)@ == old(self)@.selection_shown(),
    {
        proof {
            reveal(AppModel::selection_shown);
        }
        self.log.scroll = scrolled_to(self.log.selected, self.log.scroll, self.log.view_height);
    }

    pub(crate) fn select_row(&mut self, pos: usize)
        ensures
            final(self)@ == old(self)@.selecting(pos as int),
    {
        proof {
            reveal(AppModel::selecting);
        }
        self.log.selected = pos;
        self.ensure_selected_visible();
    }

    pub(crate) fn select_commit(&mut self, id: ObjectId)
        ensures
            final(self)@ == old(self)@.selecting_commit(id),
    {
        proof {
            reveal(AppModel::selecting_commit);
        }
        let at: usize = find_commit_row(&self.log.rows, id);
        if at < self.log.rows.len() {
            self.select_row(at);
        }
    }

    pub(crate) fn open_diff_pane(&mut self)
        ensures
            final(self)@ == old(self)@.diff_pane_opened(),
    {
        self.diff.open_at_top();
        self.focus = Focus::Diff;
    }

    pub(crate) fn reload_diff(&mut self, target: DiffTarget)
        ensures
            final(self)@ == old(self)@.reloading_diff(target),
    {
        proof {
            reveal(AppModel::reloading_diff);
        }
        self.diff.set_loading();
        self.diff_seq = bump(self.diff_seq);
        let seq: u64 = self.diff_seq;
        let scoped: bool = self.diff.scoped;
        self.send_inspect(InspectReq::LoadDiff { target, seq, scoped });
    }

    /// Turns the diff pane to `target`, unless it shows it already.
    pub fn request_diff(&mut self, target: DiffTarget)
        ensures
            final(self)@ == old(self)@.requesting_diff(target),
    {
        proof {
            reveal(AppModel::requesting_diff);
        }
        let same: bool = match self.diff.target {
            Some(t) => t == target,
            None => false,
        };
        if !same {
            self.diff.turn_to(target);
            self.reload_diff(target);
        }
    }

    /// Turns the diff pane to the selected row.
    pub fn fetch_diff_for_selected(&mut self)
        ensures
            final(self)@ == old(self)@.fetching_selected(),
    {
        proof {
            reveal(AppModel::fetching_selected);
        }
        if self.log.selected < self.log.rows.len() {
            let target: DiffTarget = match &self.log.rows[self.log.selected] {
                LogRow::Commit(c) => DiffTarget::Commit(c.id),
                LogRow::WorkingTree(_) => DiffTarget::WorkingTree,
                LogRow::Staged(_) => DiffTarget::Staged,
            };
            assert(target == row_target(self@.log.rows[self@.log.selected]));
            self.request_diff(target);
        }
    }

    pub(crate) fn follow_selection(&mut self)
        ensures
            final(self)@ == old(self)@.diff_following(),
    {
        proof {
            reveal(AppModel::diff_following);
        }
        if self.diff.open {
            self.fetch_diff_for_selected();
        }
    }

    /// Moves the selection down by `n` rows.
    pub fn move_log_down(&mut self, n: usize)
        ensures
            final(self)@ == old(self)@.log_down(n as int),
    {
        proof {
            reveal(AppModel::log_down);
        }
        if self.log.rows.len() == 0 {
            return;
        }
        let last: usize = self.log.rows.len() - 1;
        let new_sel: usize = if self.log.selected >= last || n >= last - self.log.selected {
            last
        } else {
            self.log.selected + n
        };
        if new_sel != self.log.selected {
            self.select_row(new_sel);
            self.follow_selection();
        }
    }

    /// Moves the selection up by `n` rows.
    pub fn move_log_up(&mut self, n: usize)
        ensures
            final(self)@ == old(self)@.log_up(n as int),
    {
        proof {
            reveal(AppModel::log_up);
        }
        let new_sel: usize = self.log.selected.saturating_sub(n);
        if new_sel != self.log.selected {
            self.select_row(new_sel);
            self.follow_selection();
        }
    }

    /// Selects the first row.
    pub fn jump_log_top(&mut self)
        ensures
            final(self)@ == old(self)@.log_top(),
    {
        proof {
            reveal(AppModel::log_top);
        }
        self.log.selected = 0;
        self.log.scroll = 0;
        self.follow_selection();
    }

    /// Selects the last row.
    pub fn jump_log_bottom(&mut self)
        ensures
            final(self)@ == old(self)@.log_bottom(),
    {
        proof {
            reveal(AppModel::log_bottom);
        }
        if self.log.rows.len() == 0 {
            return;
        }
        let last: usize = self.log.rows.len() - 1;
        self.select_row(last);
        self.follow_selection();
    }

    /// Scrolls the diff pane down by `n` lines.
    pub fn diff_scroll_down(&mut self, n: usize)
        ensures
            final(self)@ == old(self)@.with_diff(old(self)@.diff.down(n as int)),
    {
        self.diff.scroll_down(n);
    }

    /// Scrolls the diff pane up by `n` lines.
    pub fn diff_scroll_up(&mut self, n: usize)
        ensures
            final(self)@ == old(self)@.with_diff(old(self)@.diff.up(n as int)),
    {
        self.diff.scroll_up(n);
    }

    /// Scrolls the diff pane to its end.
    pub fn diff_scroll_to_bottom(&mut self)
        ensures
            final(self)@ == old(self)@.with_diff(old(self)@.diff.bottom()),
    {
        self.diff.scroll_to_end();
    }

    /// Switches between whole commit diffs and those within the path filter.
    pub fn toggle_diff_scope(&mut self)
        ensures
            final(self)@ == old(self)@.scope_toggled(),
    {
        proof {
            reveal(AppModel::scope_toggled);
        }
        if self.path_filter.is_none() {
            return;
        }
        self.diff.flip_scope();
        if let Some(target) = self.diff.target {
            self.diff.drop_view();
            self.reload_diff(target);
        }
    }

    /// Starts the log over, from where it started.
    pub fn reload(&mut self)
        ensures
            final(self)@ == old(self)@.reloading(None),
    {
        proof {
            reveal(AppModel::reloading);
        }
        self.reload_with_root(None);
    }

    /// Starts the log over, from `root` if it is given.
    pub fn reload_with_root(&mut self, root: Option<ObjectId>)
        ensures
            final(self)@ == old(self)@.reloading(root),
    {
        proof {
            reveal(AppModel::reloading);
        }
        let ghost start = self@;
        let mut author: String = "you".to_owned();
        if self.log.rows.len() > 0 {
            if let LogRow::WorkingTree(w) = &self.log.rows[0] {
                author = w.author.clone();
            }
            assert(start.log.rows[0] == self.log.rows@[0]@);
        }
        let ghost name = author@;
        let mut rows: Vec<LogRow> = Vec::new();
        rows.push(LogRow::WorkingTree(crate::app::WorkingTreeRow { author, dirty: None }));
        assert(rows.deep_view() =~= seq![RowModel::WorkingTree { author: name, dirty: None }]);
        self.log.rows = rows;
        self.log.selected = 0;
        self.log.scroll = 0;
        self.diff.empty_out();
        self.status.document = None;
        self.status.loading = false;
        self.search.clear();
        self.walk_done = false;
        self.walk_gen = bump(self.walk_gen);
        self.error = None;
        let generation: u64 = self.walk_gen;
        self.send_history(crate::git::HistoryReq::Reload { generation, root });
        self.send_inspect(InspectReq::RefreshWorkingTreeMeta);
    }

    /// Opens the refs view.
    pub fn open_refs_view(&mut self)
        ensures
            final(self)@ == old(self)@.refs_opened(),
    {
        proof {
            reveal(AppModel::refs_opened);
        }
        self.refs.open = true;
        self.refs.loading = true;
        self.refs.selected = 0;
        self.refs.scroll = 0;
        self.send_inspect(InspectReq::LoadRefs);
    }

    /// Moves the selection of the refs view by `delta`.
    pub fn refs_move(&mut self, delta: isize)
        ensures
            final(self)@ == old(self)@.refs_moved(delta as int),
    {
        proof {
            reveal(AppModel::refs_moved);
        }
        if self.refs.entries.len() == 0 {
            return;
        }
        let last: usize = self.refs.entries.len() - 1;
        self.refs.selected = step_clamped(self.refs.selected, delta, last);
        self.refs.scroll = scrolled_to(
            self.refs.selected,
            self.refs.scroll,
            self.refs.view_height,
        );
    }

    /// Starts the log over from the selected ref.
    pub fn refs_activate_selected(&mut self)
        ensures
            final(self)@ == old(self)@.ref_chosen(),
    {
        proof {
            reveal(AppModel::ref_chosen);
        }
        if self.refs.selected < self.refs.entries.len() {
            let target: ObjectId = self.refs.entries[self.refs.selected].target;
            let name: String = self.refs.entries[self.refs.selected].name.clone();
            assert(self@.refs.entries[self@.refs.selected]
                == self.refs.entries@[self.refs.selected as int]@);
            self.branch_name = name;
            self.refs.open = false;
            self.reload_with_root(Some(target));
        }
    }

    /// Opens the blame view for `path`.
    pub fn open_blame(&mut self, path: String, at: BlameAt)
        ensures
            final(self)@ == old(self)@.blame_opened(path@, at),
    {
        proof {
            reveal(AppModel::blame_opened);
        }
        self.blame.open = true;
        self.blame.loading = true;
        self.blame.error = None;
        self.blame_seq = bump(self.blame_seq);
        let seq: u64 = self.blame_seq;
        self.send_inspect(InspectReq::LoadBlame { path, at, seq });
    }

    /// Moves the cursor of the blame view by `delta`.
    pub fn blame_move(&mut self, delta: isize)
        ensures
            final(self)@ == old(self)@.blame_moved(delta as int),
    {
        proof {
            reveal(AppModel::blame_moved);
        }
        let total: usize = match &self.blame.document {
            Some(d) => d.lines.len(),
            None => 0,
        };
        if total == 0 {
            return;
        }
        self.blame.selected = step_clamped(self.blame.selected, delta, total - 1);
        self.blame.scroll = scrolled_to(
            self.blame.selected,
            self.blame.scroll,
            self.blame.view_height,
        );
    }

    /// The commit that wrote the line under the cursor of the blame view.
    pub(crate) fn blamed_commit(&self) -> (r: Option<ObjectId>)
        ensures
            r == (if self@.blame_on_line() {
                Some(self@.blame.document->0.lines[self@.blame.selected].commit_id)
            } else {
                None
            }),
    {
        match &self.blame.document {
            Some(doc) => if self.blame.selected < doc.lines.len() {
                assert(doc@.lines[self.blame.selected as int]
                    == doc.lines@[self.blame.selected as int]@);
                Some(doc.lines[self.blame.selected].commit_id)
            } else {
                None
            },
            None => None,
        }
    }

    /// Opens the diff of the commit that wrote the line under the cursor.
    pub fn blame_open_commit(&mut self)
        ensures
            final(self)@ == old(self)@.blame_commit_opened(),
    {
        proof {
            reveal(AppModel::blame_commit_opened);
        }
        let found: Option<ObjectId> = self.blamed_commit();
        if let Some(id) = found {
            self.blame.open = false;
            self.select_commit(id);
            self.open_diff_pane();
            self.request_diff(DiffTarget::Commit(id));
        }
    }

    /// Blames the file as of the parent of the commit that wrote the line under the cursor.
    pub fn blame_reblame_at_parent(&mut self)
        ensures
            final(self)@ == old(self)@.blame_at_parent(),
    {
        proof {
            reveal(AppModel::blame_at_parent);
        }
        let ghost start = self@;
        let mut next: Option<(BlamePlace, String, ObjectId)> = None;
        if let Some(doc) = &self.blame.document {
            if self.blame.selected < doc.lines.len() {
                let l = &doc.lines[self.blame.selected];
                assert(start.blame.document->0.lines[start.blame.selected] == l@);
                let path: String = match &l.source_path {
                    Some(p) => p.clone(),
                    None => doc.path.clone(),
                };
                let place = BlamePlace { at: doc.at, path: doc.path.clone() };
                next = Some((place, path, l.commit_id));
            }
        }
        if let Some((place, path, commit)) = next {
            self.blame.pending_return = Some(place);
            self.open_blame(path, BlameAt::ParentOfCommit(commit));
        }
    }

    /// Goes one step back.
    pub fn blame_back(&mut self)
        ensures
            final(self)@ == old(self)@.blame_back_step(),
    {
        proof {
            reveal(AppModel::blame_back_step);
        }
        let ghost start = self@;
        if let Some(place) = self.blame.history.pop() {
            assert(self.blame.history.deep_view() =~= start.blame.history.drop_last());
            assert(place@ == start.blame.history.last());
            self.blame.pending_return = None;
            let at: ObjectId = place.at;
            self.open_blame(place.path, BlameAt::Commit(at));
        } else {
            assert(self.blame.history.deep_view() =~= start.blame.history);
        }
    }
}

/// The first row that is commit `id`; their number if there is none.
pub(crate) fn find_commit_row(rows: &Vec<LogRow>, id: ObjectId) -> (r: usize)
    ensures
        r == commit_row(rows.deep_view(), id, 0),
{
    let ghost all = rows.deep_view();
    let mut i: usize = 0;
    while i < rows.len() && !is_commit_row(&rows[i], id)
        invariant
            i <= rows@.len(),
            all == rows.deep_view(),
            commit_row(all, id, 0) == commit_row(all, id, i as int),
        decreases rows@.len() - i,
    {
        assert(all[i as int] == rows@[i as int]@);
        i += 1;
    }
    if i < rows.len() {
        assert(all[i as int] == rows@[i as int]@);
    }
    i
}

fn is_commit_row(row: &LogRow, id: ObjectId) -> (r: bool)
    ensures
        r == (row@ matches RowModel::Commit(c) && c.id == id),
{
    match row {
        LogRow::Commit(c) => c.id == id,
        _ => false,
    }
}

/// The view moves no further than it must: a line in view leaves it where it is, one above
/// becomes the first line shown, and one below the last.
pub proof fn law_the_view_moves_no_further_than_it_must(
    selected: int,
    scroll: int,
    view_height: int,
)
    requires
        0 <= selected,
        0 <= scroll,
        1 <= view_height,
    ensures
        scroll <= selected < scroll + view_height ==> scroll_to(selected, scroll, view_height)
            == scroll,
        selected < scroll ==> scroll_to(selected, scroll, view_height) == selected,
        selected >= scroll + view_height ==> scroll_to(selected, scroll, view_height) + view_height
            - 1 == selected,
{
}

/// A new number differs from the one before it, and follows it as long as there is room.
pub proof fn law_a_new_number_is_another(s: u64)
    ensures
        next_seq(s) != s,
        s < u64::MAX ==> next_seq(s) == s + 1,
{
}

/// Following the selection touches nothing but the diff pane and what is asked for.
pub proof fn law_following_touches_the_diff_only(m: AppModel)
    ensures
        ({
            let n = m.diff_following();
            n == (AppModel { diff: n.diff, diff_seq: n.diff_seq, outbox: n.outbox, ..m })
        }),
        !m.diff.open ==> m.diff_following() == m,
{
    reveal(AppModel::selecting);
    reveal(AppModel::selection_shown);
    reveal(AppModel::diff_following);
    reveal(AppModel::fetching_selected);
    reveal(AppModel::requesting_diff);
    reveal(AppModel::reloading_diff);
}

/// A move down or up in the log selects the row that is so many rows away, or the last or the
/// first row if there is none that far; the rows stay as they are, and the row is in view.
pub proof fn law_the_selection_stops_at_the_ends(m: AppModel, n: int)
    requires
        0 <= m.log.selected < m.log.rows.len(),
        0 <= m.log.scroll <= m.log.selected < m.log.scroll + m.log.view_height,
        0 <= n,
    ensures
        m.log_down(n).log.selected == vstd::math::min(m.log.selected + n, m.log.rows.len() - 1),
        m.log_up(n).log.selected == vstd::math::max(m.log.selected - n, 0),
        m.log_top().log.selected == 0,
        m.log_top().log.scroll == 0,
        m.log_bottom().log.selected == m.log.rows.len() - 1,
        ({
            let moved = m.log_down(n).log;
            moved.rows == m.log.rows && moved.scroll <= moved.selected < moved.scroll
                + moved.view_height
        }),
        ({
            let moved = m.log_up(n).log;
            moved.rows == m.log.rows && moved.scroll <= moved.selected < moved.scroll
                + moved.view_height
        }),
        ({
            let moved = m.log_bottom().log;
            moved.rows == m.log.rows && moved.scroll <= moved.selected < moved.scroll
                + moved.view_height
        }),
{
    reveal(AppModel::log_down);
    reveal(AppModel::log_up);
    reveal(AppModel::log_top);
    reveal(AppModel::log_bottom);
    reveal(AppModel::selecting);
    reveal(AppModel::selection_shown);
    reveal(AppModel::diff_following);
    reveal(AppModel::fetching_selected);
    reveal(AppModel::requesting_diff);
    reveal(AppModel::reloading_diff);
}

/// An open diff pane shows the selected row after every move, and a closed one is left alone.
/// A row that is shown already is not asked for again.
pub proof fn law_an_open_diff_follows_the_selection(m: AppModel, pos: int)
    requires
        0 <= pos < m.log.rows.len(),
    ensures
        ({
            let n = m.selecting(pos).diff_following();
            &&& n.log.selected == pos
            &&& n.log.rows == m.log.rows
            &&& m.diff.open ==> match m.log.rows[pos] {
                RowModel::Commit(c) => n.diff.target == Some(DiffTarget::Commit(c.id)),
                RowModel::WorkingTree { .. } => n.diff.target == Some(DiffTarget::WorkingTree),
                RowModel::Staged { .. } => n.diff.target == Some(DiffTarget::Staged),
            }
            &&& !m.diff.open ==> n.diff == m.diff && n.outbox == m.outbox
        }),
{
    reveal(AppModel::selecting);
    reveal(AppModel::selection_shown);
    reveal(AppModel::diff_following);
    reveal(AppModel::fetching_selected);
    reveal(AppModel::requesting_diff);
    reveal(AppModel::reloading_diff);
}

/// To turn to something else is to ask for its diff once, under a new number: what was shown
/// is gone, with what was selected or picked in it. To turn to what is shown changes nothing.
pub proof fn law_a_new_target_is_asked_for_once(m: AppModel, target: DiffTarget)
    ensures
        m.diff.target == Some(target) ==> m.requesting_diff(target) == m,
        m.diff.target != Some(target) ==> {
            let n = m.requesting_diff(target);
            &&& n.diff.target == Some(target)
            &&& n.diff.document is None
            &&& n.diff.loading
            &&& n.diff.selection is None
            &&& n.diff.file_picker is None
            &&& n.diff.file_view_return is None
            &&& n.diff.open == m.diff.open
            &&& n.diff_seq != m.diff_seq
            &&& n.outbox == m.outbox.push(
                GitReqModel::Inspect(
                    InspectReqModel::LoadDiff { target, seq: n.diff_seq, scoped: m.diff.scoped },
                ),
            )
            &&& n.requesting_diff(target) == n
        },
{
    reveal(AppModel::requesting_diff);
    reveal(AppModel::reloading_diff);
}

/// The diff pane scrolls as far as asked, but not beyond its ends; up undoes down where down
/// did not run into the end.
pub proof fn law_the_diff_scrolls_within_its_ends(m: DiffModel, n: int)
    requires
        0 <= n,
        0 <= m.scroll,
        m.scroll + n <= usize::MAX,
        0 <= m.view_height,
    ensures
        ({
            let end = vstd::math::max(m.total_lines() - m.view_height, 0);
            &&& m.down(n).scroll == vstd::math::min(m.scroll + n, end)
            &&& m.up(n).scroll == vstd::math::max(m.scroll - n, 0)
            &&& m.bottom().scroll == end
            &&& m.scroll + n <= end ==> m.down(n).up(n) == m
            &&& m.opened().scroll == 0 && m.opened().open
        }),
{
}

/// The path filter is switched off and on again by the same key; without a filter there is
/// nothing to switch. A diff on show is asked for anew, with the switch as it is then.
pub proof fn law_the_filter_is_switched_off_and_on(m: AppModel)
    ensures
        m.path_filter is None ==> m.scope_toggled() == m,
        m.path_filter is Some ==> {
            let n = m.scope_toggled();
            &&& n.diff.scoped == !m.diff.scoped
            &&& n.scope_toggled().diff.scoped == m.diff.scoped
            &&& n.path_filter == m.path_filter
            &&& n.diff.target == m.diff.target
            &&& n.log == m.log
            &&& m.diff.target matches Some(target) ==> n.outbox == m.outbox.push(
                GitReqModel::Inspect(
                    InspectReqModel::LoadDiff {
                        target,
                        seq: n.diff_seq,
                        scoped: !m.diff.scoped,
                    },
                ),
            ) && n.diff_seq != m.diff_seq
            &&& m.diff.target is None ==> n.outbox == m.outbox
        },
{
    reveal(AppModel::scope_toggled);
    reveal(AppModel::reloading_diff);
}

/// A reload leaves one row, that of the working tree, under the same author; it asks for the
/// walk under a new number and then for the state of the working tree. What was shown, found
/// or wrong before is gone.
pub proof fn law_a_reload_starts_over(m: AppModel, root: Option<ObjectId>)
    ensures
        ({
            let n = m.reloading(root);
            &&& n.log.rows.len() == 1
            &&& n.log.rows[0] matches RowModel::WorkingTree { author: kept, dirty } && dirty is None
                && (m.log.rows.len() > 0 ==> (m.log.rows[0] matches RowModel::WorkingTree {
                author: known,
                dirty: _,
            } ==> kept == known))
            &&& n.log.selected == 0
            &&& n.log.scroll == 0
            &&& n.walk_gen != m.walk_gen
            &&& !n.walk_done
            &&& n.error is None
            &&& n.diff.document is None
            &&& n.diff.target is None
            &&& n.diff.search.query.len() == 0
            &&& n.search.state.query.len() == 0
            &&& n.search.state.matches.len() == 0
            &&& n.status.document is None
            &&& n.outbox == m.outbox + seq![
                GitReqModel::History(
                    crate::git::HistoryReq::Reload { generation: n.walk_gen, root },
                ),
                GitReqModel::Inspect(InspectReqModel::RefreshWorkingTreeMeta),
            ]
        }),
{
    reveal(AppModel::reloading);
    let n = m.reloading(root);
    assert(n.outbox =~= m.outbox + seq![
        GitReqModel::History(crate::git::HistoryReq::Reload { generation: n.walk_gen, root }),
        GitReqModel::Inspect(InspectReqModel::RefreshWorkingTreeMeta),
    ]);
}

/// A move in the refs view stays within the entries, and the entry is in view.
pub proof fn law_moves_among_refs_stop_at_the_ends(m: AppModel, delta: int)
    requires
        0 <= m.refs.selected < m.refs.entries.len(),
        0 <= m.refs.scroll,
        1 <= m.refs.view_height,
    ensures
        ({
            let n = m.refs_moved(delta).refs;
            &&& n.selected == vstd::math::max(
                0,
                vstd::math::min(m.refs.selected + delta, m.refs.entries.len() - 1),
            )
            &&& n.scroll <= n.selected < n.scroll + n.view_height
            &&& n.entries == m.refs.entries
        }),
{
    reveal(AppModel::refs_moved);
}

/// To choose a ref is to reload the log from the commit it points at, under its name, and to
/// close the view.
pub proof fn law_a_chosen_ref_becomes_the_root(m: AppModel)
    requires
        0 <= m.refs.selected < m.refs.entries.len(),
    ensures
        ({
            let n = m.ref_chosen();
            let entry = m.refs.entries[m.refs.selected];
            &&& n.branch_name == entry.name
            &&& !n.refs.open
            &&& n.outbox.contains(
                GitReqModel::History(
                    crate::git::HistoryReq::Reload {
                        generation: n.walk_gen,
                        root: Some(entry.target),
                    },
                ),
            )
            &&& n.walk_gen != m.walk_gen
        }),
{
    reveal(AppModel::ref_chosen);
    let entry = m.refs.entries[m.refs.selected];
    let start = AppModel {
        branch_name: entry.name,
        refs: RefsModel { open: false, ..m.refs },
        ..m
    };
    law_a_reload_starts_over(start, Some(entry.target));
    reveal(AppModel::reloading);
    let n = m.ref_chosen();
    assert(n.outbox[m.outbox.len() as int] == GitReqModel::History(
        crate::git::HistoryReq::Reload { generation: n.walk_gen, root: Some(entry.target) },
    ));
}

/// To open the refs view is to ask for the refs, from the top.
pub proof fn law_the_refs_view_opens_at_the_top(m: AppModel)
    ensures
        ({
            let n = m.refs_opened();
            &&& n.refs.open && n.refs.loading
            &&& n.refs.selected == 0 && n.refs.scroll == 0
            &&& n.outbox == m.outbox.push(GitReqModel::Inspect(InspectReqModel::LoadRefs))
        }),
{
    reveal(AppModel::refs_opened);
}

/// A blame is asked for once, of the file and the place given, under a new number.
pub proof fn law_a_blame_is_asked_for_once(m: AppModel, path: Seq<char>, at: BlameAt)
    ensures
        ({
            let n = m.blame_opened(path, at);
            &&& n.blame.open && n.blame.loading && n.blame.error is None
            &&& n.blame_seq != m.blame_seq
            &&& n.outbox == m.outbox.push(
                GitReqModel::Inspect(InspectReqModel::LoadBlame { path, at, seq: n.blame_seq }),
            )
        }),
{
    reveal(AppModel::blame_opened);
}

/// A move in a blame stays within its lines, and the line is in view.
pub proof fn law_moves_in_a_blame_stop_at_the_ends(m: AppModel, delta: int)
    requires
        m.blame.document is Some,
        0 <= m.blame.selected < m.blame.document->0.lines.len(),
        0 <= m.blame.scroll,
        1 <= m.blame.view_height,
    ensures
        ({
            let n = m.blame_moved(delta).blame;
            &&& n.selected == vstd::math::max(
                0,
                vstd::math::min(m.blame.selected + delta, m.blame.document->0.lines.len() - 1),
            )
            &&& n.scroll <= n.selected < n.scroll + n.view_height
            &&& n.document == m.blame.document
        }),
{
    reveal(AppModel::blame_moved);
}

/// From a line of a blame one gets to the commit that wrote it: the diff pane shows it, and so
/// does the log, if it has it. Or one gets to the blame from before that commit, of the name
/// that the file had then, and the way back leads to where one was.
pub proof fn law_a_blamed_line_leads_to_its_commit(m: AppModel)
    requires
        m.blame.document is Some,
        0 <= m.blame.selected < m.blame.document->0.lines.len(),
    ensures
        ({
            let doc = m.blame.document->0;
            let l = doc.lines[m.blame.selected];
            let shown = m.blame_commit_opened();
            let before = m.blame_at_parent();
            &&& !shown.blame.open
            &&& shown.diff.open
            &&& shown.focus == Focus::Diff
            &&& shown.diff.target == Some(DiffTarget::Commit(l.commit_id))
            &&& before.blame.open && before.blame.loading
            &&& before.blame.pending_return matches Some(place) && place.at == doc.at && place.path
                == doc.path
            &&& before.outbox == m.outbox.push(
                GitReqModel::Inspect(
                    InspectReqModel::LoadBlame {
                        path: if l.source_path is Some {
                            l.source_path->0
                        } else {
                            doc.path
                        },
                        at: BlameAt::ParentOfCommit(l.commit_id),
                        seq: before.blame_seq,
                    },
                ),
            )
        }),
{
    reveal(AppModel::blame_commit_opened);
    reveal(AppModel::blame_at_parent);
    reveal(AppModel::blame_opened);
    reveal(AppModel::selecting_commit);
    reveal(AppModel::selecting);
    reveal(AppModel::selection_shown);
    reveal(AppModel::diff_following);
    reveal(AppModel::fetching_selected);
    reveal(AppModel::requesting_diff);
    reveal(AppModel::reloading_diff);
}

/// The way back leads to the last place left, and only once; without such a place it leads
/// nowhere.
pub proof fn law_the_way_back_leads_to_the_last_place(m: AppModel)
    ensures
        m.blame.history.len() == 0 ==> m.blame_back_step() == m,
        m.blame.history.len() > 0 ==> {
            let n = m.blame_back_step();
            let place = m.blame.history.last();
            &&& n.blame.history == m.blame.history.drop_last()
            &&& n.blame.pending_return is None
            &&& n.outbox == m.outbox.push(
                GitReqModel::Inspect(
                    InspectReqModel::LoadBlame {
                        path: place.path,
                        at: BlameAt::Commit(place.at),
                        seq: n.blame_seq,
                    },
                ),
            )
        },
{
    reveal(AppModel::blame_back_step);
    reveal(AppModel::blame_opened);
}

/// The row of a commit is the first one that holds it.
pub proof fn law_a_commit_is_found_in_its_row(rows: Seq<RowModel>, id: ObjectId, from: int)
    requires
        0 <= from <= rows.len(),
    ensures
        from <= commit_row(rows, id, from) <= rows.len(),
        commit_row(rows, id, from) < rows.len() ==> (rows[commit_row(
            rows,
            id,
            from,
        )] matches RowModel::Commit(c) && c.id == id),
        forall|i: int|
            from <= i < commit_row(rows, id, from) ==> !(#[trigger] rows[i] matches RowModel::Commit(
                c,
            ) && c.id == id),
    decreases rows.len() - from,
{
    if from < rows.len() && !(rows[from] matches RowModel::Commit(c) && c.id == id) {
        law_a_commit_is_found_in_its_row(rows, id, from + 1);
    }
}

} // verus!
