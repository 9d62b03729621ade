//! ASCII commit graph: which commit each lane column waits for, and the prefix
//! drawn in front of a commit row.

use crate::model::ObjectId;
use vstd::prelude::*;

verus! {

/// Tracks which commit is expected in each lane column.
#[derive(Debug)]
pub struct GraphState {
    /// `lanes[i] == Some(id)` means that commit `id` is expected in column `i`.
    pub lanes: Vec<Option<ObjectId>>,
}

/// The first column at or after `from` that holds `slot`; `lanes.len()` if there is none.
pub open spec fn lane_index_from(
    lanes: Seq<Option<ObjectId>>,
    slot: Option<ObjectId>,
    from: nat,
) -> nat
    decreases lanes.len() - from,
{
    if from >= lanes.len() {
        lanes.len()
    } else if lanes[from as int] == slot {
        from
    } else {
        lane_index_from(lanes, slot, from + 1)
    }
}

/// The first column that holds `slot`; `lanes.len()` if there is none.
pub open spec fn lane_index(lanes: Seq<Option<ObjectId>>, slot: Option<ObjectId>) -> nat {
    lane_index_from(lanes, slot, 0)
}

/// The column in which commit `id` is drawn: the first lane that waits for it, else the
/// first free lane, else a new one at the right.
pub open spec fn commit_column(lanes: Seq<Option<ObjectId>>, id: ObjectId) -> nat {
    if lane_index(lanes, Some(id)) < lanes.len() {
        lane_index(lanes, Some(id))
    } else {
        lane_index(lanes, None)
    }
}

/// `lanes` with a free lane appended if column `col` does not exist yet.
pub open spec fn with_column(lanes: Seq<Option<ObjectId>>, col: nat) -> Seq<Option<ObjectId>> {
    if col < lanes.len() {
        lanes
    } else {
        lanes.push(None)
    }
}

/// The character drawn in one column.
pub open spec fn lane_mark(lanes: Seq<Option<ObjectId>>, col: nat, commit_col: nat) -> char {
    if col == commit_col {
        '*'
    } else if lanes[col as int] is Some {
        '|'
    } else {
        ' '
    }
}

/// The whole row: every column's mark, each followed by a space.
pub open spec fn graph_row(lanes: Seq<Option<ObjectId>>, commit_col: nat) -> Seq<char> {
    Seq::new(
        2 * lanes.len(),
        |k: int|
            if k % 2 == 0 {
                lane_mark(lanes, (k / 2) as nat, commit_col)
            } else {
                ' '
            },
    )
}

/// `row` without the spaces at its end.
pub open spec fn trim_spaces(row: Seq<char>) -> Seq<char>
    decreases row.len(),
{
    if row.len() > 0 && row.last() == ' ' {
        trim_spaces(row.drop_last())
    } else {
        row
    }
}

/// The prefix drawn for commit `id`.
pub open spec fn graph_prefix(lanes: Seq<Option<ObjectId>>, id: ObjectId) -> Seq<char> {
    let col = commit_column(lanes, id);
    trim_spaces(graph_row(with_column(lanes, col), col))
}

/// Every lane that waited for `id` is free.
pub open spec fn close_lanes(lanes: Seq<Option<ObjectId>>, id: ObjectId) -> Seq<Option<ObjectId>> {
    lanes.map_values(
        |s: Option<ObjectId>|
            if s == Some(id) {
                None
            } else {
                s
            },
    )
}

/// Commit `parent` gets a lane, unless one waits for it already: the first free one, else a
/// new one at the right.
pub open spec fn place_parent(
    lanes: Seq<Option<ObjectId>>,
    parent: ObjectId,
) -> Seq<Option<ObjectId>> {
    if lane_index(lanes, Some(parent)) < lanes.len() {
        lanes
    } else if lane_index(lanes, None) < lanes.len() {
        lanes.update(lane_index(lanes, None) as int, Some(parent))
    } else {
        lanes.push(Some(parent))
    }
}

/// `place_parent` for each of `parents`, in order.
pub open spec fn place_parents(
    lanes: Seq<Option<ObjectId>>,
    parents: Seq<ObjectId>,
) -> Seq<Option<ObjectId>>
    decreases parents.len(),
{
    if parents.len() == 0 {
        lanes
    } else {
        place_parent(place_parents(lanes, parents.drop_last()), parents.last())
    }
}

/// `lanes` without the free lanes at its end.
pub open spec fn trim_lanes(lanes: Seq<Option<ObjectId>>) -> Seq<Option<ObjectId>>
    decreases lanes.len(),
{
    if lanes.len() > 0 && lanes.last() is None {
        trim_lanes(lanes.drop_last())
    } else {
        lanes
    }
}

/// The lanes once commit `id` is drawn and its own lane waits for its first parent.
pub open spec fn first_parent_lanes(
    lanes: Seq<Option<ObjectId>>,
    id: ObjectId,
    parents: Seq<ObjectId>,
) -> Seq<Option<ObjectId>> {
    let col = commit_column(lanes, id);
    close_lanes(with_column(lanes, col), id).update(
        col as int,
        if parents.len() > 0 {
            Some(parents[0])
        } else {
            None
        },
    )
}

/// The lanes after commit `id` with `parents` was drawn.
pub open spec fn next_lanes(
    lanes: Seq<Option<ObjectId>>,
    id: ObjectId,
    parents: Seq<ObjectId>,
) -> Seq<Option<ObjectId>> {
    trim_lanes(
        place_parents(
            first_parent_lanes(lanes, id, parents),
            if parents.len() > 0 {
                parents.skip(1)
            } else {
                parents
            },
        ),
    )
}

proof fn lemma_lane_index_from(lanes: Seq<Option<ObjectId>>, slot: Option<ObjectId>, from: nat)
    requires
        from <= lanes.len(),
    ensures
        from <= lane_index_from(lanes, slot, from) <= lanes.len(),
        lane_index_from(lanes, slot, from) < lanes.len() ==> lanes[lane_index_from(
            lanes,
            slot,
            from,
        ) as int] == slot,
        forall|j: int| from <= j < lane_index_from(lanes, slot, from) ==> lanes[j] != slot,
    decreases lanes.len() - from,
{
    if from < lanes.len() && lanes[from as int] != slot {
        lemma_lane_index_from(lanes, slot, from + 1);
    }
}

proof fn lemma_trim_lanes(lanes: Seq<Option<ObjectId>>)
    ensures
        trim_lanes(lanes).len() <= lanes.len(),
        trim_lanes(lanes) == lanes.take(trim_lanes(lanes).len() as int),
        trim_lanes(lanes).len() > 0 ==> trim_lanes(lanes).last() is Some,
        forall|j: int| trim_lanes(lanes).len() <= j < lanes.len() ==> lanes[j] is None,
    decreases lanes.len(),
{
    if lanes.len() > 0 && lanes.last() is None {
        let less = lanes.drop_last();
        lemma_trim_lanes(less);
        assert forall|j: int| trim_lanes(lanes).len() <= j < lanes.len() implies lanes[j] is None by {
            if j < less.len() {
                assert(less[j] is None);
            }
        }
    }
}

proof fn lemma_place_parents(lanes: Seq<Option<ObjectId>>, parents: Seq<ObjectId>)
    ensures
        place_parents(lanes, parents).len() >= lanes.len(),
        forall|j: int|
            0 <= j < lanes.len() && lanes[j] is Some ==> place_parents(lanes, parents)[j]
                == lanes[j],
        forall|k: int|
            0 <= k < parents.len() ==> place_parents(lanes, parents).contains(
                Some(#[trigger] parents[k]),
            ),
    decreases parents.len(),
{
    if parents.len() > 0 {
        let before = place_parents(lanes, parents.drop_last());
        let after = place_parents(lanes, parents);
        let p = parents.last();
        lemma_place_parents(lanes, parents.drop_last());
        lemma_lane_index_from(before, Some(p), 0);
        lemma_lane_index_from(before, None, 0);
        assert forall|k: int| 0 <= k < parents.len() implies after.contains(
            Some(#[trigger] parents[k]),
        ) by {
            if k < parents.len() - 1 {
                assert(parents.drop_last()[k] == parents[k]);
                let j = choose|j: int| 0 <= j < before.len() && before[j] == Some(parents[k]);
                assert(after[j] == Some(parents[k]));
            } else if lane_index(before, Some(p)) < before.len() {
                assert(after[lane_index(before, Some(p)) as int] == Some(p));
            } else if lane_index(before, None) < before.len() {
                assert(after[lane_index(before, None) as int] == Some(p));
            } else {
                assert(after[before.len() as int] == Some(p));
            }
        }
    }
}

proof fn lemma_trim_spaces(row: Seq<char>)
    ensures
        trim_spaces(row).len() <= row.len(),
        trim_spaces(row) == row.take(trim_spaces(row).len() as int),
        trim_spaces(row).len() > 0 ==> trim_spaces(row).last() != ' ',
        forall|j: int| trim_spaces(row).len() <= j < row.len() ==> row[j] == ' ',
    decreases row.len(),
{
    if row.len() > 0 && row.last() == ' ' {
        let less = row.drop_last();
        lemma_trim_spaces(less);
        assert forall|j: int| trim_spaces(row).len() <= j < row.len() implies row[j] == ' ' by {
            if j < less.len() {
                assert(less[j] == ' ');
            }
        }
    }
}

/// A row marks its commit once, in the commit's own column, and does not end in a space.
pub proof fn law_one_commit_mark(lanes: Seq<Option<ObjectId>>, id: ObjectId, k: int)
    requires
        0 <= k < graph_prefix(lanes, id).len(),
    ensures
        2 * commit_column(lanes, id) < graph_prefix(lanes, id).len(),
        graph_prefix(lanes, id)[k] == '*' <==> k == 2 * commit_column(lanes, id),
        graph_prefix(lanes, id).last() != ' ',
{
    let col = commit_column(lanes, id);
    let row = graph_row(with_column(lanes, col), col);
    lemma_lane_index_from(lanes, Some(id), 0);
    lemma_lane_index_from(lanes, None, 0);
    lemma_trim_spaces(row);
    assert(row[2 * col as int] == '*');
}

/// After a commit is drawn, the last lane waits for a commit: no free lane trails.
pub proof fn law_no_trailing_free_lane(
    lanes: Seq<Option<ObjectId>>,
    id: ObjectId,
    parents: Seq<ObjectId>,
)
    ensures
        next_lanes(lanes, id, parents).len() > 0 ==> next_lanes(lanes, id, parents).last() is Some,
{
    lemma_trim_lanes(
        place_parents(
            first_parent_lanes(lanes, id, parents),
            if parents.len() > 0 {
                parents.skip(1)
            } else {
                parents
            },
        ),
    );
}

/// After a commit is drawn, some lane waits for each of its parents.
pub proof fn law_every_parent_has_a_lane(
    lanes: Seq<Option<ObjectId>>,
    id: ObjectId,
    parents: Seq<ObjectId>,
    k: int,
)
    requires
        0 <= k < parents.len(),
    ensures
        next_lanes(lanes, id, parents).contains(Some(parents[k])),
{
    let first = first_parent_lanes(lanes, id, parents);
    let placed = place_parents(first, parents.skip(1));
    let col = commit_column(lanes, id) as int;
    lemma_lane_index_from(lanes, Some(id), 0);
    lemma_lane_index_from(lanes, None, 0);
    lemma_place_parents(first, parents.skip(1));
    lemma_trim_lanes(placed);
    let j = if k == 0 {
        col
    } else {
        choose|j: int| 0 <= j < placed.len() && placed[j] == Some(parents[k])
    };
    if k == 0 {
        assert(first[col] == Some(parents[0]));
    } else {
        assert(placed.contains(Some(parents.skip(1)[k - 1])));
    }
    assert(placed[j] == Some(parents[k]));
    assert(next_lanes(lanes, id, parents)[j] == Some(parents[k]));
}

/// A lane that waits for another commit keeps waiting for it, in the same column.
pub proof fn law_other_lanes_stay(
    lanes: Seq<Option<ObjectId>>,
    id: ObjectId,
    parents: Seq<ObjectId>,
    col: int,
)
    requires
        0 <= col < lanes.len(),
        lanes[col] is Some,
        lanes[col] != Some(id),
    ensures
        col < next_lanes(lanes, id, parents).len(),
        next_lanes(lanes, id, parents)[col] == lanes[col],
{
    let first = first_parent_lanes(lanes, id, parents);
    let rest = if parents.len() > 0 {
        parents.skip(1)
    } else {
        parents
    };
    lemma_lane_index_from(lanes, Some(id), 0);
    lemma_lane_index_from(lanes, None, 0);
    assert(first[col] == lanes[col]);
    lemma_place_parents(first, rest);
    lemma_trim_lanes(place_parents(first, rest));
}

fn find_lane(lanes: &Vec<Option<ObjectId>>, slot: Option<ObjectId>) -> (r: usize)
    ensures
        r == lane_index(lanes@, slot),
        r <= lanes@.len(),
{
    let mut i: usize = 0;
    proof {
        lemma_lane_index_from(lanes@, slot, 0);
    }
    while i < lanes.len()
        invariant
            i <= lanes@.len(),
            lane_index(lanes@, slot) == lane_index_from(lanes@, slot, i as nat),
        decreases lanes@.len() - i,
    {
        let here: bool = match (lanes[i], slot) {
            (Some(a), Some(b)) => a == b,
            (None, None) => true,
            _ => false,
        };
        if here {
            return i;
        }
        i += 1;
    }
    i
}

impl GraphState {
    /// No lane is open yet.
    pub fn new() -> (r: GraphState)
        ensures
            r.lanes@ == Seq::<Option<ObjectId>>::empty(),
    {
        GraphState { lanes: Vec::new() }
    }

    fn row_text(&self, commit_col: usize) -> (r: String)
        requires
            commit_col < self.lanes@.len(),
        ensures
            r@ == trim_spaces(graph_row(self.lanes@, commit_col as nat)),
    {
        let ghost row = graph_row(self.lanes@, commit_col as nat);
        let mut cells: Vec<char> = Vec::new();
        let mut col: usize = 0;
        while col < self.lanes.len()
            invariant
                col <= self.lanes@.len(),
                row == graph_row(self.lanes@, commit_col as nat),
                cells@ == row.take(2 * col),
            decreases self.lanes@.len() - col,
        {
            if col == commit_col {
                cells.push('*');
            } else if self.lanes[col].is_some() {
                cells.push('|');
            } else {
                cells.push(' ');
            }
            cells.push(' ');
            assert(cells@ == row.take(2 * (col + 1)));
            col += 1;
        }
        assert(row.take(2 * col) == row);
        let mut end: usize = cells.len();
        while end > 0 && cells[end - 1] == ' '
            invariant
                end <= cells@.len(),
                cells@ == row,
                trim_spaces(row.take(end as int)) == trim_spaces(row),
            decreases end,
        {
            assert(row.take(end as int).drop_last() == row.take(end - 1));
            end -= 1;
        }
        let mut out: String = String::new();
        crate::text::push_chars(&mut out, &cells, 0, end);
        assert(row.take(end as int) == row.subrange(0, end as int));
        out
    }

    /// Advances the lanes past commit `id` with parents `parents`, and returns the prefix of
    /// its row.
    pub fn next(&mut self, id: ObjectId, parents: &[ObjectId]) -> (r: String)
        ensures
            r@ == graph_prefix(old(self).lanes@, id),
            final(self).lanes@ == next_lanes(old(self).lanes@, id, parents@),
    {
        let ghost start = self.lanes@;
        let hit: usize = find_lane(&self.lanes, Some(id));
        let col: usize = if hit < self.lanes.len() {
            hit
        } else {
            find_lane(&self.lanes, None)
        };
        if col == self.lanes.len() {
            self.lanes.push(None);
        }
        let ghost wide = self.lanes@;
        assert(wide == with_column(start, col as nat));
        let out: String = self.row_text(col);

        let mut i: usize = 0;
        while i < self.lanes.len()
            invariant
                i <= self.lanes@.len(),
                self.lanes@.len() == wide.len(),
                forall|j: int| 0 <= j < i ==> self.lanes@[j] == close_lanes(wide, id)[j],
                forall|j: int| i <= j < wide.len() ==> self.lanes@[j] == wide[j],
            decreases self.lanes@.len() - i,
        {
            if let Some(waiting) = self.lanes[i] {
                if waiting == id {
                    self.lanes.set(i, None);
                }
            }
            i += 1;
        }
        assert(self.lanes@ == close_lanes(wide, id));
        if parents.len() > 0 {
            self.lanes.set(col, Some(parents[0]));
        } else {
            self.lanes.set(col, None);
        }
        let ghost first = self.lanes@;
        assert(first == first_parent_lanes(start, id, parents@));

        let ghost rest = if parents@.len() > 0 { parents@.skip(1) } else { parents@ };
        let mut k: usize = 1;
        assert(rest.take(0) == Seq::<ObjectId>::empty());
        while k < parents.len()
            invariant
                1 <= k,
                parents@.len() > 0 ==> k <= parents@.len() && rest == parents@.skip(1),
                parents@.len() == 0 ==> k == 1 && rest == parents@,
                self.lanes@ == place_parents(first, rest.take(k - 1)),
            decreases parents@.len() - k,
        {
            let parent: ObjectId = parents[k];
            proof {
                assert(rest.take(k as int).drop_last() == rest.take(k - 1));
                assert(rest.take(k as int).last() == parents@[k as int]);
            }
            if find_lane(&self.lanes, Some(parent)) == self.lanes.len() {
                let free: usize = find_lane(&self.lanes, None);
                if free < self.lanes.len() {
                    self.lanes.set(free, Some(parent));
                } else {
                    self.lanes.push(Some(parent));
                }
            }
            k += 1;
        }
        assert(rest.take(k - 1) == rest);
        let ghost placed = self.lanes@;
        while self.lanes.len() > 0 && self.lanes[self.lanes.len() - 1].is_none()
            invariant
                trim_lanes(self.lanes@) == trim_lanes(placed),
            decreases self.lanes@.len(),
        {
            self.lanes.pop();
        }
        out
    }
}

impl Default for GraphState {
    fn default() -> (r: GraphState)
        ensures
            r.lanes@ == Seq::<Option<ObjectId>>::empty(),
    {
        GraphState::new()
    }
}

/// In a row, each lane but the commit's own has its place at twice its column: a bar while a
/// commit is awaited in it, and a blank while it is free. Between the places there are blanks,
/// and what is left out at the end is blank too.
pub proof fn law_bars_stand_where_commits_are_awaited(
    lanes: Seq<Option<ObjectId>>,
    id: ObjectId,
    col: int,
)
    requires
        0 <= col,
        col != commit_column(lanes, id),
    ensures
        ({
            let row = graph_prefix(lanes, id);
            let awaited = col < lanes.len() && lanes[col] is Some;
            &&& 2 * col < row.len() ==> row[2 * col] == (if awaited {
                '|'
            } else {
                ' '
            })
            &&& 2 * col >= row.len() ==> !awaited
            &&& 2 * col + 1 < row.len() ==> row[2 * col + 1] == ' '
        }),
{
    let at = commit_column(lanes, id);
    let wide = with_column(lanes, at);
    let row = graph_row(wide, at);
    lemma_lane_index_from(lanes, Some(id), 0);
    lemma_lane_index_from(lanes, None, 0);
    lemma_trim_spaces(row);
    if col < lanes.len() {
        assert(wide[col] == lanes[col]);
        assert(row[2 * col] == lane_mark(wide, col as nat, at));
        assert(row[2 * col + 1] == ' ');
    }
}

/// A commit is drawn in the first lane that awaits it. One that no lane awaits is drawn in
/// the first free lane, or to the right of all lanes.
pub proof fn law_a_commit_is_drawn_where_it_is_awaited(lanes: Seq<Option<ObjectId>>, id: ObjectId)
    ensures
        commit_column(lanes, id) <= lanes.len(),
        lanes.contains(Some(id)) ==> commit_column(lanes, id) < lanes.len()
            && lanes[commit_column(lanes, id) as int] == Some(id),
        !lanes.contains(Some(id)) && commit_column(lanes, id) < lanes.len()
            ==> lanes[commit_column(lanes, id) as int] is None,
        forall|c: int|
            0 <= c < commit_column(lanes, id) ==> #[trigger] lanes[c] != Some(id) && (
            lanes.contains(Some(id)) || lanes[c] is Some),
{
    lemma_lane_index_from(lanes, Some(id), 0);
    lemma_lane_index_from(lanes, None, 0);
    if lanes.contains(Some(id)) {
        let k = choose|k: int| 0 <= k < lanes.len() && lanes[k] == Some(id);
        assert(lanes[k] == Some(id));
    }
}

/// The commit's lane goes on to its first parent, in the same column; a commit without
/// parents leaves it free. No lane awaits the commit itself any more, and each lane awaits a
/// commit that was awaited before or a parent.
pub proof fn law_a_lane_goes_on_to_the_first_parent(
    lanes: Seq<Option<ObjectId>>,
    id: ObjectId,
    parents: Seq<ObjectId>,
)
    ensures
        ({
            let next = next_lanes(lanes, id, parents);
            let col = commit_column(lanes, id) as int;
            &&& parents.len() > 0 ==> col < next.len() && next[col] == Some(parents[0])
            &&& parents.len() == 0 && col < next.len() ==> next[col] is None
            &&& !parents.contains(id) ==> !next.contains(Some(id))
            &&& forall|c: int, waiting: ObjectId|
                0 <= c < next.len() && #[trigger] next[c] == Some(waiting) ==> (#[trigger] parents.contains(
                    waiting,
                )) || (c < lanes.len() && lanes[c] == Some(waiting))
        }),
{
    let next = next_lanes(lanes, id, parents);
    let col = commit_column(lanes, id) as int;
    let first = first_parent_lanes(lanes, id, parents);
    let rest = if parents.len() > 0 {
        parents.skip(1)
    } else {
        parents
    };
    lemma_lane_index_from(lanes, Some(id), 0);
    lemma_lane_index_from(lanes, None, 0);
    lemma_place_parents(first, rest);
    lemma_placed_from(first, rest);
    let placed = place_parents(first, rest);
    lemma_trim_lanes(placed);
    if parents.len() > 0 {
        assert(first[col] == Some(parents[0]));
    } else {
        assert(placed =~= first);
    }
    assert forall|c: int, waiting: ObjectId|
        0 <= c < next.len() && #[trigger] next[c] == Some(waiting) implies (
    #[trigger] parents.contains(waiting)) || (c < lanes.len() && lanes[c] == Some(waiting)) by {
        assert(placed[c] == Some(waiting));
        if rest.contains(waiting) {
            let k = choose|k: int| 0 <= k < rest.len() && rest[k] == waiting;
            if parents.len() > 0 {
                assert(parents[k + 1] == waiting);
            }
        } else {
            assert(first[c] == Some(waiting));
            if c == col {
                assert(parents[0] == waiting);
            }
        }
    }
    if !parents.contains(id) && next.contains(Some(id)) {
        let c = choose|c: int| 0 <= c < next.len() && next[c] == Some(id);
        assert(placed[c] == Some(id));
        if rest.contains(id) {
            let k = choose|k: int| 0 <= k < rest.len() && rest[k] == id;
            if parents.len() > 0 {
                assert(parents[k + 1] == id);
            }
        }
        assert(first[c] == Some(id));
        if c == col && parents.len() > 0 {
            assert(parents.contains(parents[0]));
        }
    }
}

proof fn lemma_placed_from(lanes: Seq<Option<ObjectId>>, parents: Seq<ObjectId>)
    ensures
        forall|c: int, waiting: ObjectId|
            0 <= c < place_parents(lanes, parents).len() && #[trigger] place_parents(
                lanes,
                parents,
            )[c] == Some(waiting) ==> (#[trigger] parents.contains(waiting)) || (c < lanes.len()
                && lanes[c] == Some(waiting)),
    decreases parents.len(),
{
    if parents.len() > 0 {
        let less = parents.drop_last();
        let before = place_parents(lanes, less);
        let after = place_parents(lanes, parents);
        let p = parents.last();
        lemma_placed_from(lanes, less);
        lemma_lane_index_from(before, Some(p), 0);
        lemma_lane_index_from(before, None, 0);
        assert forall|c: int, waiting: ObjectId|
            0 <= c < after.len() && #[trigger] after[c] == Some(waiting) implies (
        #[trigger] parents.contains(waiting)) || (c < lanes.len() && lanes[c] == Some(
            waiting,
        )) by {
            if waiting == p {
                assert(parents[parents.len() - 1] == p);
            } else {
                assert(before[c] == Some(waiting));
                if less.contains(waiting) {
                    let k = choose|k: int| 0 <= k < less.len() && less[k] == waiting;
                    assert(parents[k] == waiting);
                }
            }
        }
    }
}

/// A parent that a lane awaits already gets no second lane, and a new lane is opened at the
/// right only where none is free: the graph is no wider than it must be.
pub proof fn law_lanes_are_not_opened_needlessly(lanes: Seq<Option<ObjectId>>, parent: ObjectId)
    ensures
        lanes.contains(Some(parent)) ==> place_parent(lanes, parent) == lanes,
        !lanes.contains(Some(parent)) && lanes.contains(None) ==> place_parent(
            lanes,
            parent,
        ).len() == lanes.len(),
        !lanes.contains(Some(parent)) && !lanes.contains(None) ==> place_parent(lanes, parent)
            == lanes.push(Some(parent)),
{
    lemma_lane_index_from(lanes, Some(parent), 0);
    lemma_lane_index_from(lanes, None, 0);
    if lanes.contains(Some(parent)) {
        let k = choose|k: int| 0 <= k < lanes.len() && lanes[k] == Some(parent);
        assert(lanes[k] == Some(parent));
    }
    if lanes.contains(None) {
        let k = choose|k: int| 0 <= k < lanes.len() && lanes[k] is None;
        assert(lanes[k] is None);
    }
}

} // verus!
