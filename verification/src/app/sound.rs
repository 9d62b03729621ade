//! What holds of the viewer at all times.

use crate::app::find::{matching_rows, narrowed};
use crate::app::input::{KeyCode, KeyEvent, HALF_PAGE};
use crate::app::messages::{
    commit_rows, law_working_tree_stays_on_top, message_fits, tree_on_top,
};
use crate::app::mouse::{MouseEvent, WHEEL_STEP};
use crate::app::navigate::commit_row;
use crate::app::search::{cycled, first_at_or_after, first_match_index};
use crate::app::state::{
    larger, less, no_search, sat, smaller, BlameModel, CommitSearchModel, DiffModel, LogModel,
    RefsModel, RowModel, SearchModel,
};
use crate::app::{fresh_app, AppModel, Focus};
use crate::git::{GitMsg, HistoryMsg};
use crate::model::{DiffTarget, ObjectId};
use crate::text::lower_text;
use crate::ui::layout::Areas;
use vstd::prelude::*;

verus! {

/// `matches` grow, and lie below `len`.
pub open spec fn in_order(matches: Seq<usize>, len: int) -> bool {
    &&& forall|i: int| 0 <= i < matches.len() ==> (#[trigger] matches[i]) < len
    &&& forall|i: int, j: int|
        0 <= i < j < matches.len() ==> (#[trigger] matches[i]) < (#[trigger] matches[j])
}

impl AppModel {
    /// The working-tree row is on top, the cursors are on what they point at, the log's
    /// matches are rows, in order, and the placeholders lie in their documents.
    pub open spec fn sound(self) -> bool {
        &&& tree_on_top(self.log.rows)
        &&& self.log.rows.len() <= usize::MAX
        &&& 0 <= self.log.selected < self.log.rows.len()
        &&& 0 <= self.log.scroll
        &&& 0 <= self.log.view_height
        &&& in_order(self.search.state.matches, self.log.rows.len() as int)
        &&& 0 <= self.search.state.current
        &&& 0 <= self.refs.selected
        &&& self.refs.entries.len() > 0 ==> self.refs.selected < self.refs.entries.len()
        &&& 0 <= self.blame.selected
        &&& self.blame_total() > 0 ==> self.blame.selected < self.blame_total()
        &&& self.diff.anchors_fit()
    }
}

proof fn lemma_matching_in_order(rows: Seq<RowModel>, q: Seq<char>, from: int, to: int)
    requires
        0 <= from,
        to <= usize::MAX,
    ensures
        in_order(matching_rows(rows, q, from, to), to),
        forall|i: int|
            0 <= i < matching_rows(rows, q, from, to).len() ==> from <= (#[trigger] matching_rows(
                rows,
                q,
                from,
                to,
            )[i]),
    decreases to - from,
{
    if from < to {
        lemma_matching_in_order(rows, q, from, to - 1);
    }
}

proof fn lemma_narrowed_in_order(rows: Seq<RowModel>, q: Seq<char>, found: Seq<usize>, len: int)
    requires
        in_order(found, len),
    ensures
        in_order(narrowed(rows, q, found), len),
        forall|i: int|
            0 <= i < narrowed(rows, q, found).len() ==> found.contains(
                #[trigger] narrowed(rows, q, found)[i],
            ),
    decreases found.len(),
{
    if found.len() > 0 {
        let rest = found.drop_last();
        lemma_narrowed_in_order(rows, q, rest, len);
        let kept = narrowed(rows, q, rest);
        assert forall|i: int| 0 <= i < kept.len() implies found.contains(#[trigger] kept[i])
            && kept[i] < found.last() by {
            let k = choose|k: int| 0 <= k < rest.len() && rest[k] == kept[i];
            assert(found[k] == kept[i]);
        }
        assert(found[found.len() - 1] == found.last());
    }
}

proof fn lemma_first_at_or_after(matches: Seq<usize>, cursor: int, from: int)
    requires
        0 <= from <= matches.len(),
    ensures
        from <= first_at_or_after(matches, cursor, from) <= matches.len(),
    decreases matches.len() - from,
{
    if from < matches.len() && matches[from] < cursor {
        lemma_first_at_or_after(matches, cursor, from + 1);
    }
}

proof fn lemma_commit_row(rows: Seq<RowModel>, id: ObjectId, from: int)
    requires
        0 <= from <= rows.len(),
    ensures
        from <= commit_row(rows, id, from) <= rows.len(),
    decreases rows.len() - from,
{
    if from < rows.len() && !(rows[from] matches RowModel::Commit(c) && c.id == id) {
        lemma_commit_row(rows, id, from + 1);
    }
}

proof fn lemma_following(app: AppModel)
    requires
        app.sound(),
    ensures
        app.fetching_selected().sound(),
        app.diff_following().sound(),
        forall|target: DiffTarget| (#[trigger] app.requesting_diff(target)).sound(),
        forall|target: DiffTarget| (#[trigger] app.reloading_diff(target)).sound(),
{
    reveal(AppModel::fetching_selected);
    reveal(AppModel::diff_following);
    reveal(AppModel::requesting_diff);
    reveal(AppModel::reloading_diff);
}

proof fn lemma_selecting(app: AppModel, pos: int)
    requires
        app.sound(),
        0 <= pos < app.log.rows.len(),
    ensures
        app.selecting(pos).sound(),
        app.selecting(pos).diff_following().sound(),
        app.commit_match_shown(pos).sound(),
{
    reveal(AppModel::selecting);
    reveal(AppModel::selection_shown);
    reveal(AppModel::commit_match_shown);
    lemma_following(app.selecting(pos));
}

proof fn lemma_log_moves(app: AppModel, n: int)
    requires
        app.sound(),
        0 <= n,
    ensures
        app.log_down(n).sound(),
        app.log_up(n).sound(),
        app.log_top().sound(),
        app.log_bottom().sound(),
{
    reveal(AppModel::log_down);
    reveal(AppModel::log_up);
    reveal(AppModel::log_top);
    reveal(AppModel::log_bottom);
    let last = app.log.rows.len() - 1;
    lemma_selecting(app, smaller(app.log.selected + n, last));
    lemma_selecting(app, less(app.log.selected, n));
    lemma_selecting(app, last);
    lemma_following(
        AppModel {
            log: LogModel { selected: 0, scroll: 0, ..app.log },
            ..app
        },
    );
}

proof fn lemma_match_jumps(app: AppModel, delta: int)
    requires
        app.sound(),
    ensures
        app.commit_match_jumped(delta).sound(),
        app.commit_match_first().sound(),
{
    reveal(AppModel::commit_match_jumped);
    reveal(AppModel::commit_match_first);
    let s = app.search.state;
    if let Some(i) = cycled(s.matches.len() as int, s.current, delta) {
        assert(0 <= i < s.matches.len());
        let turned = AppModel {
            search: CommitSearchModel {
                state: s.advanced(delta),
                ..app.search
            },
            ..app
        };
        lemma_selecting(turned, s.matches[i] as int);
    }
    lemma_first_at_or_after(s.matches, app.log.selected, 0);
    if let Some(i) = first_match_index(s.matches, app.log.selected) {
        let turned = AppModel {
            search: CommitSearchModel {
                state: SearchModel { current: i, ..s },
                ..app.search
            },
            ..app
        };
        lemma_selecting(turned, s.matches[i] as int);
    }
}

proof fn lemma_matches_updated(app: AppModel)
    requires
        app.sound(),
    ensures
        app.commit_matches_updated().sound(),
{
    reveal(AppModel::commit_matches_updated);
    let q = lower_text(app.search.state.query);
    let rows = app.log.rows;
    lemma_matching_in_order(rows, q, 0, rows.len() as int);
    lemma_narrowed_in_order(rows, q, app.search.state.matches, rows.len() as int);
}

proof fn lemma_query_moves(app: AppModel)
    requires
        app.sound(),
    ensures
        app.search_to_diff().sound(),
        app.search_to_log().sound(),
        app.focus_cycled().sound(),
{
    reveal(AppModel::search_to_diff);
    reveal(AppModel::search_to_log);
    reveal(AppModel::focus_cycled);
    let to_log = AppModel {
        diff: DiffModel { search: no_search(), ..app.diff },
        search: CommitSearchModel {
            state: SearchModel {
                query: app.diff.search.query,
                ..app.search.state
            },
            ..app.search
        },
        ..app
    };
    lemma_matches_updated(to_log);
    lemma_match_jumps(to_log.commit_matches_updated(), 1);
    let focused = AppModel { focus: Focus::Log, ..to_log };
    lemma_matches_updated(focused);
    lemma_match_jumps(focused.commit_matches_updated(), 1);
}

proof fn lemma_reloading(app: AppModel, root: Option<ObjectId>)
    requires
        app.sound(),
    ensures
        app.reloading(root).sound(),
{
    reveal(AppModel::reloading);
}

proof fn lemma_refs_keys(app: AppModel, key: KeyEvent)
    requires
        app.sound(),
    ensures
        app.refs_keyed(key).sound(),
        app.refs_opened().sound(),
        forall|delta: int| (#[trigger] app.refs_moved(delta)).sound(),
{
    reveal(AppModel::refs_keyed);
    reveal(AppModel::refs_opened);
    reveal(AppModel::refs_moved);
    reveal(AppModel::ref_chosen);
    if 0 <= app.refs.selected < app.refs.entries.len() {
        let entry = app.refs.entries[app.refs.selected];
        lemma_reloading(
            AppModel {
                branch_name: entry.name,
                refs: RefsModel { open: false, ..app.refs },
                ..app
            },
            Some(entry.target),
        );
    }
}

proof fn lemma_blame_keys(app: AppModel, key: KeyEvent)
    requires
        app.sound(),
    ensures
        app.blame_keyed(key).sound(),
        app.blame_of_diff().sound(),
        forall|delta: int| (#[trigger] app.blame_moved(delta)).sound(),
{
    reveal(AppModel::blame_moved);
    reveal(AppModel::blame_opened);
    reveal(AppModel::blame_of_diff);
    assert(app.blame_commit_opened().sound()) by {
        reveal(AppModel::blame_commit_opened);
        reveal(AppModel::selecting_commit);
        if app.blame_on_line() {
            let id = app.blame.document->0.lines[app.blame.selected].commit_id;
            let closed = AppModel {
                blame: BlameModel { open: false, ..app.blame },
                ..app
            };
            lemma_commit_row(closed.log.rows, id, 0);
            if commit_row(closed.log.rows, id, 0) < closed.log.rows.len() {
                lemma_selecting(closed, commit_row(closed.log.rows, id, 0));
            }
            lemma_following(closed.selecting_commit(id).diff_pane_opened());
        }
    }
    assert(app.blame_at_parent().sound()) by {
        reveal(AppModel::blame_at_parent);
    }
    assert(app.blame_back_step().sound()) by {
        reveal(AppModel::blame_back_step);
    }
    assert(app.blamed_yanked().sound()) by {
        reveal(AppModel::blamed_yanked);
        reveal(AppModel::hash_yanked);
    }
    reveal(AppModel::blame_keyed);
}

proof fn lemma_file_views(app: AppModel)
    requires
        app.sound(),
    ensures
        forall|path: Seq<char>| (#[trigger] app.file_view_opened(path)).sound(),
        app.file_view_opened_at_top().sound(),
        app.file_view_left().sound(),
{
    reveal(AppModel::file_view_opened);
    reveal(AppModel::file_view_opened_at_top);
    reveal(AppModel::file_view_left);
    let closed = app.with_diff(app.diff.file_view_closed());
    assert(closed.sound());
    lemma_following(closed);
}

proof fn lemma_picker_keys(app: AppModel, key: KeyEvent)
    requires
        app.sound(),
    ensures
        app.picker_keyed(key).sound(),
{
    let closed = app.with_diff(app.diff.picker_closed());
    lemma_file_views(closed);
    assert(app.pick_shown().sound()) by {
        reveal(AppModel::pick_shown);
    }
    assert(app.pick_opened().sound()) by {
        reveal(AppModel::pick_opened);
    }
    reveal(AppModel::picker_keyed);
}

proof fn lemma_search_keys(app: AppModel, key: KeyEvent)
    requires
        app.sound(),
    ensures
        app.search_keyed(key).sound(),
{
    reveal(AppModel::search_keyed);
    let s = app.search.state;
    lemma_match_jumps(app.with_search(s.entered()), 1);
    lemma_matches_updated(app.with_search(s.erased()));
    if let KeyCode::Char(c) = key.code {
        lemma_matches_updated(app.with_search(s.typed(c)));
        lemma_match_jumps(app.with_search(s.typed(c)).commit_matches_updated(), 1);
    }
}

proof fn lemma_log_keys(app: AppModel, key: KeyEvent)
    requires
        app.sound(),
    ensures
        app.log_keyed(key).sound(),
{
    lemma_match_jumps(app, 1);
    lemma_match_jumps(app, -1);
    lemma_refs_keys(app, key);
    assert(app.status_opened().sound()) by {
        reveal(AppModel::status_opened);
    }
    assert(app.diff_entered().sound()) by {
        reveal(AppModel::diff_entered);
        let opened = AppModel {
            diff: app.diff.opened(),
            focus: Focus::Diff,
            ..app
        };
        lemma_query_moves(opened);
        lemma_following(opened.search_to_diff());
    }
    lemma_log_moves(app, 1);
    lemma_log_moves(app, HALF_PAGE as int);
    lemma_log_moves(app, larger(app.log.view_height, 1));
    reveal(AppModel::log_keyed);
}

proof fn lemma_diff_keys(app: AppModel, key: KeyEvent)
    requires
        app.sound(),
    ensures
        app.diff_keyed(key).sound(),
        app.with_diff(app.diff.search_keyed(key)).sound(),
        app.with_diff(app.diff.filter_keyed(key)).sound(),
{
    lemma_file_views(app);
    lemma_blame_keys(app, key);
    reveal(AppModel::diff_keyed);
}

proof fn lemma_main_keys(app: AppModel, key: KeyEvent)
    requires
        app.sound(),
    ensures
        app.main_keyed(key).sound(),
{
    assert(app.pane_keyed(key).sound()) by {
        lemma_log_keys(app, key);
        lemma_diff_keys(app, key);
        reveal(AppModel::pane_keyed);
    }
    assert(app.scope_toggled().sound()) by {
        reveal(AppModel::scope_toggled);
        if app.diff.target is Some {
            lemma_following(app.with_diff(app.diff.scope_flipped().view_dropped()));
        }
    }
    assert(app.selected_yanked().sound()) by {
        reveal(AppModel::selected_yanked);
        reveal(AppModel::hash_yanked);
    }
    lemma_reloading(app, None);
    lemma_query_moves(app);
    assert(app.diff_left().sound()) by {
        reveal(AppModel::diff_left);
        lemma_file_views(app);
        lemma_query_moves(
            AppModel {
                diff: DiffModel { open: false, ..app.diff },
                focus: Focus::Log,
                ..app
            },
        );
    }
    reveal(AppModel::main_keyed);
}

/// The viewer starts sound, and every key leaves it so.
pub proof fn law_keys_keep_the_viewer_sound(app: AppModel, key: KeyEvent)
    requires
        app.sound(),
    ensures
        fresh_app().sound(),
        app.keyed(key).sound(),
{
    lemma_search_keys(app, key);
    lemma_diff_keys(app, key);
    lemma_picker_keys(app, key);
    lemma_refs_keys(app, key);
    lemma_blame_keys(app, key);
    lemma_main_keys(app, key);
    reveal(AppModel::keyed);
}

/// Whatever the mouse does, the viewer stays sound.
pub proof fn law_the_mouse_keeps_the_viewer_sound(app: AppModel, event: MouseEvent)
    requires
        app.sound(),
    ensures
        app.moused(event).sound(),
{
    let column = event.column as int;
    let row = event.row as int;
    assert(app.wheeled(true, column, row).sound() && app.wheeled(false, column, row).sound()) by {
        reveal(AppModel::wheeled);
        lemma_log_moves(app, WHEEL_STEP as int);
    }
    assert(app.pressed(column, row).sound()) by {
        reveal(AppModel::pressed);
        reveal(AppModel::pressed_in_pane);
        reveal(AppModel::diff_pressed);
        reveal(AppModel::log_pressed);
        let clear = app.with_diff(app.diff.unselected());
        if let Some(inner) = clear.panes.log {
            let idx = sat(
                clear.log.scroll + less(row, inner.y as int),
            );
            if idx < clear.log.rows.len() {
                lemma_following(
                    AppModel {
                        focus: Focus::Log,
                        log: LogModel { selected: idx, ..clear.log },
                        ..clear
                    },
                );
            }
        }
    }
    assert(app.dragged(column, row).sound()) by {
        reveal(AppModel::dragged);
    }
    assert(app.released().sound()) by {
        reveal(AppModel::released);
    }
    reveal(AppModel::refs_moved);
    reveal(AppModel::blame_moved);
    reveal(AppModel::moused);
}

/// Every message of the worker, and every change of the screen, leaves the viewer sound, as
/// long as the rows can be counted.
pub proof fn law_messages_keep_the_viewer_sound(app: AppModel, msg: GitMsg, areas: Areas)
    requires
        app.sound(),
        message_fits(msg),
        app.told(msg).log.rows.len() <= usize::MAX,
    ensures
        app.told(msg).sound(),
        app.placed(areas).sound(),
{
    law_working_tree_stays_on_top(app, msg, None);
    assert(app.told(msg).sound()) by {
        reveal(AppModel::history_told);
        reveal(AppModel::inspect_told);
        reveal(AppModel::tree_known);
        reveal(AppModel::refs_listed);
        match msg {
            GitMsg::History(HistoryMsg::Commits { generation, commits }) => {
                reveal(AppModel::commits_arrived);
                reveal(AppModel::commit_matches_extended);
                if generation == app.walk_gen {
                    let rows = app.log.rows + commit_rows(commits.deep_view());
                    let from = app.log.rows.len() as int;
                    lemma_matching_in_order(rows, app.search.last_query, from, rows.len() as int);
                }
            },
            GitMsg::History(HistoryMsg::RefsLoaded { .. }) => {
                reveal(AppModel::labels_arrived);
            },
            _ => {},
        }
    }
    reveal(AppModel::placed);
    reveal(AppModel::panes_placed);
    reveal(AppModel::selection_shown);
}

} // verus!
