//! Working-tree status: one sweep over the status items gives the short status,
//! the staged section and the unstaged section of one document.

use crate::git::diff::{
    all_wf, blob_view, change_diffed, document_of_sink, document_or_error, empty_sink,
    error_document, file_full_context_output, file_view_lines, fold_outputs, headroom, is_diffed,
    item_output, law_changes_are_listed_in_order, law_folding_keeps_earlier_lines,
    law_the_file_view_holds_both_files, listed_paths,
    output_of, output_view, outputs_of, readable_paths, render_change, single_file_document, sink_document,
    skip_reason, ChangeKind, DiffSink, FileDiffOutput, ItemModel, OutputModel, SidesModel,
    SinkModel,
};
use crate::git::hunks::{byte_lines, is_line_diff, new_side, old_side, token_texts};
use crate::git::MAX_FILE_VIEW_DIFF_BYTES;
use crate::model::{
    line, DiffDocument, DiffLine, DiffLineKind, DiffTarget, DocumentModel, LineModel, ObjectId,
    StatusDocument,
};
use crate::text::{
    comes_before, lemma_text_before_irreflexive, lemma_text_before_total,
    lemma_text_before_transitive, same_text, text_before,
};
use vstd::prelude::*;
use vstd::string::StringExecFns;

verus! {

/// How a file in the worktree differs from the index.
#[derive(Clone, Copy, PartialEq, Eq, Structural, Debug)]
pub enum WorktreeStatus {
    Removed,
    Modification,
    TypeChange,
    SubmoduleModification,
    Conflict,
    IntentToAdd,
    /// The cached file data is out of date; the file itself did not change.
    NeedsUpdate,
}

/// How a file in the index differs from the last commit.
#[derive(Clone, Copy, PartialEq, Eq, Structural, Debug)]
pub enum IndexChange {
    Addition { id: ObjectId },
    Deletion { id: ObjectId },
    Modification { previous_id: ObjectId, id: ObjectId },
    Rewrite { source_id: ObjectId, id: ObjectId, copy: bool },
}

/// One finding of a status query.
#[derive(Debug)]
pub enum StatusItem {
    Staged { path: String, change: IndexChange },
    Worktree { path: String, status: WorktreeStatus, index_id: ObjectId },
    Directory { path: String, untracked: bool },
    /// A rename between index and worktree; its two halves come as items of their own.
    Rewrite,
}

/// What a `StatusItem` says.
#[verifier::ext_equal]
pub enum StatusItemModel {
    Staged { path: Seq<char>, change: IndexChange },
    Worktree { path: Seq<char>, status: WorktreeStatus, index_id: ObjectId },
    Directory { path: Seq<char>, untracked: bool },
    Rewrite,
}

impl View for StatusItem {
    type V = StatusItemModel;

    open spec fn view(&self) -> StatusItemModel {
        match *self {
            StatusItem::Staged { path, change } => StatusItemModel::Staged { path: path@, change },
            StatusItem::Worktree { path, status, index_id } => StatusItemModel::Worktree {
                path: path@,
                status,
                index_id,
            },
            StatusItem::Directory { path, untracked } => StatusItemModel::Directory {
                path: path@,
                untracked,
            },
            StatusItem::Rewrite => StatusItemModel::Rewrite,
        }
    }
}

impl DeepView for StatusItem {
    type V = StatusItemModel;

    open spec fn deep_view(&self) -> StatusItemModel {
        self@
    }
}

/// Whether the item makes the working tree dirty.
pub open spec fn is_change(item: StatusItemModel) -> bool {
    match item {
        StatusItemModel::Staged { .. } => true,
        StatusItemModel::Worktree { status, .. } => status != WorktreeStatus::NeedsUpdate,
        StatusItemModel::Directory { untracked, .. } => untracked,
        StatusItemModel::Rewrite => true,
    }
}

/// Whether the item makes the working tree dirty.
pub fn item_is_change(item: &StatusItem) -> (r: bool)
    ensures
        r == is_change(item@),
{
    match item {
        StatusItem::Staged { .. } => true,
        StatusItem::Worktree { status, .. } => *status != WorktreeStatus::NeedsUpdate,
        StatusItem::Directory { untracked, .. } => *untracked,
        StatusItem::Rewrite => true,
    }
}

/// Whether the item is a staged change.
pub fn item_is_staged(item: &StatusItem) -> (r: bool)
    ensures
        r == (item@ is Staged),
{
    match item {
        StatusItem::Staged { .. } => true,
        _ => false,
    }
}

/// One line of the short status: a path and its staged and unstaged marks.
#[derive(Debug)]
pub struct ShortEntry {
    pub path: String,
    pub staged: char,
    pub unstaged: char,
}

/// What a `ShortEntry` says.
#[verifier::ext_equal]
pub struct ShortModel {
    pub path: Seq<char>,
    pub staged: char,
    pub unstaged: char,
}

impl View for ShortEntry {
    type V = ShortModel;

    open spec fn view(&self) -> ShortModel {
        ShortModel { path: self.path@, staged: self.staged, unstaged: self.unstaged }
    }
}

impl DeepView for ShortEntry {
    type V = ShortModel;

    open spec fn deep_view(&self) -> ShortModel {
        self@
    }
}

/// The short status: one entry for each path, in path order.
#[derive(Debug)]
pub struct ShortStatus {
    pub entries: Vec<ShortEntry>,
}

/// The entries come in path order, and no path occurs twice.
pub open spec fn short_sorted(entries: Seq<ShortModel>) -> bool {
    forall|i: int, j: int|
        0 <= i < j < entries.len() ==> text_before(
            (#[trigger] entries[i]).path,
            (#[trigger] entries[j]).path,
        )
}

/// `i` is where `path` stands in `entries`.
pub open spec fn short_at(entries: Seq<ShortModel>, path: Seq<char>, i: int) -> bool {
    0 <= i < entries.len() && entries[i].path == path
}

/// The marks by path.
pub open spec fn short_map(entries: Seq<ShortModel>) -> Map<Seq<char>, (char, char)> {
    Map::new(
        |path: Seq<char>| exists|i: int| short_at(entries, path, i),
        |path: Seq<char>|
            {
                let i = choose|i: int| short_at(entries, path, i);
                (entries[i].staged, entries[i].unstaged)
            },
    )
}

/// The marks of `path`, or `default` if it has none.
pub open spec fn marks_or(
    map: Map<Seq<char>, (char, char)>,
    path: Seq<char>,
    default: (char, char),
) -> (char, char) {
    if map.contains_key(path) {
        map[path]
    } else {
        default
    }
}

proof fn lemma_short_map(entries: Seq<ShortModel>, i: int)
    requires
        short_sorted(entries),
        0 <= i < entries.len(),
    ensures
        short_map(entries).contains_key(entries[i].path),
        short_map(entries)[entries[i].path] == (entries[i].staged, entries[i].unstaged),
{
    let path = entries[i].path;
    assert(short_at(entries, path, i));
    let k = choose|k: int| short_at(entries, path, k);
    lemma_text_before_irreflexive(path);
    assert(k == i);
}

proof fn lemma_short_absent(entries: Seq<ShortModel>, path: Seq<char>)
    requires
        forall|i: int| 0 <= i < entries.len() ==> (#[trigger] entries[i]).path != path,
    ensures
        !short_map(entries).contains_key(path),
{
}

/// Replacing the marks at `i`, or inserting an entry at `i`, updates the map.
proof fn lemma_short_update(before: Seq<ShortModel>, after: Seq<ShortModel>, i: int, fresh: bool)
    requires
        short_sorted(before),
        short_sorted(after),
        0 <= i < after.len(),
        fresh ==> i <= before.len() && after == before.insert(i, after[i]),
        !fresh ==> i < before.len() && after == before.update(i, after[i]) && after[i].path
            == before[i].path,
    ensures
        short_map(after) == short_map(before).insert(
            after[i].path,
            (after[i].staged, after[i].unstaged),
        ),
{
    let path = after[i].path;
    let target = short_map(before).insert(path, (after[i].staged, after[i].unstaged));
    assert forall|p: Seq<char>| short_map(after).contains_key(p) <==> target.contains_key(p) by {
        if short_map(after).contains_key(p) {
            let k = choose|k: int| short_at(after, p, k);
            if k != i {
                let src = if fresh && k > i {
                    k - 1
                } else {
                    k
                };
                assert(short_at(before, p, src));
            }
        }
        if target.contains_key(p) {
            if p == path {
                assert(short_at(after, p, i));
            } else {
                let k = choose|k: int| short_at(before, p, k);
                let dst = if fresh && k >= i {
                    k + 1
                } else {
                    k
                };
                assert(short_at(after, p, dst));
            }
        }
    }
    assert forall|p: Seq<char>| short_map(after).contains_key(p) implies short_map(after)[p]
        == target[p] by {
        let k = choose|k: int| short_at(after, p, k);
        lemma_short_map(after, k);
        if p == path {
            lemma_short_map(after, i);
        } else {
            let src = if fresh && k > i {
                k - 1
            } else {
                k
            };
            assert(before[src] == after[k]);
            lemma_short_map(before, src);
        }
    }
    assert(short_map(after) =~= target);
}

impl ShortStatus {
    pub open spec fn wf(self) -> bool {
        short_sorted(self.entries.deep_view())
    }

    /// The marks by path.
    pub open spec fn marks(self) -> Map<Seq<char>, (char, char)> {
        short_map(self.entries.deep_view())
    }

    pub fn new() -> (r: ShortStatus)
        ensures
            r.wf(),
            r.marks() == Map::<Seq<char>, (char, char)>::empty(),
    {
        let r = ShortStatus { entries: Vec::new() };
        assert(r.marks() =~= Map::<Seq<char>, (char, char)>::empty());
        r
    }

    /// The position of `path`, or the one where it belongs.
    fn position(&self, path: &str) -> (r: (usize, bool))
        requires
            self.wf(),
        ensures
            r.0 <= self.entries@.len(),
            r.1 ==> r.0 < self.entries@.len() && self.entries@[r.0 as int].path@ == path@,
            !r.1 ==> forall|j: int|
                0 <= j < self.entries@.len() ==> (#[trigger] self.entries.deep_view()[j]).path
                    != path@,
            forall|j: int|
                0 <= j < r.0 ==> text_before(
                    (#[trigger] self.entries.deep_view()[j]).path,
                    path@,
                ),
            forall|j: int|
                r.0 + (if r.1 {
                    1int
                } else {
                    0int
                }) <= j < self.entries@.len() ==> text_before(
                    path@,
                    (#[trigger] self.entries.deep_view()[j]).path,
                ),
    {
        let ghost all = self.entries.deep_view();
        let mut pos: usize = self.entries.len();
        while pos > 0 && comes_before(path, self.entries[pos - 1].path.as_str())
            invariant
                pos <= self.entries@.len(),
                all == self.entries.deep_view(),
                forall|j: int| pos <= j < all.len() ==> text_before(path@, (#[trigger] all[j]).path),
            decreases pos,
        {
            assert(all[pos - 1].path == self.entries@[pos - 1].path@);
            pos -= 1;
        }
        if pos > 0 && same_text(path, self.entries[pos - 1].path.as_str()) {
            assert(all[pos - 1].path == path@);
            return (pos - 1, true);
        }
        proof {
            assert forall|j: int| 0 <= j < pos implies text_before((#[trigger] all[j]).path, path@)
                by {
                lemma_text_before_total(all[pos - 1].path, path@);
                assert(all[pos - 1].path == self.entries@[pos - 1].path@);
                if j < pos - 1 {
                    lemma_text_before_transitive(all[j].path, all[pos - 1].path, path@);
                }
            }
            lemma_text_before_irreflexive(path@);
        }
        (pos, false)
    }

    /// Puts `marks` in for `path`.
    fn put(&mut self, path: String, staged: char, unstaged: char)
        requires
            old(self).wf(),
        ensures
            final(self).wf(),
            final(self).marks() == old(self).marks().insert(path@, (staged, unstaged)),
    {
        let ghost before = self.entries.deep_view();
        let ghost p = path@;
        let at: (usize, bool) = self.position(path.as_str());
        let entry = ShortEntry { path, staged, unstaged };
        if at.1 {
            self.entries.set(at.0, entry);
            assert(self.entries.deep_view() =~= before.update(at.0 as int, entry@));
        } else {
            self.entries.insert(at.0, entry);
            assert(self.entries.deep_view() =~= before.insert(at.0 as int, entry@));
        }
        let ghost after = self.entries.deep_view();
        proof {
            assert forall|i: int, j: int| 0 <= i < j < after.len() implies text_before(
                (#[trigger] after[i]).path,
                (#[trigger] after[j]).path,
            ) by {
                let k = at.0 as int;
                if at.1 {
                    assert(before[k].path == p);
                    assert(before[i].path == after[i].path);
                    assert(before[j].path == after[j].path);
                } else if i == k {
                    assert(before[j - 1] == after[j]);
                } else if j == k {
                    assert(before[i] == after[i]);
                } else {
                    let si = if i < k {
                        i
                    } else {
                        i - 1
                    };
                    let sj = if j < k {
                        j
                    } else {
                        j - 1
                    };
                    assert(before[si] == after[i]);
                    assert(before[sj] == after[j]);
                }
            }
            lemma_short_update(before, after, at.0 as int, !at.1);
        }
    }

    /// The marks of `path`, or `default`.
    fn get_or(&self, path: &str, default: (char, char)) -> (r: (char, char))
        requires
            self.wf(),
        ensures
            r == marks_or(self.marks(), path@, default),
    {
        let at: (usize, bool) = self.position(path);
        if at.1 {
            proof {
                assert(self.entries.deep_view()[at.0 as int].path == path@);
                lemma_short_map(self.entries.deep_view(), at.0 as int);
            }
            (self.entries[at.0].staged, self.entries[at.0].unstaged)
        } else {
            proof {
                lemma_short_absent(self.entries.deep_view(), path@);
            }
            default
        }
    }

    /// Sets the staged mark of `path`.
    pub fn set_staged(&mut self, path: String, mark: char)
        requires
            old(self).wf(),
        ensures
            final(self).wf(),
            final(self).marks() == old(self).marks().insert(
                path@,
                (mark, marks_or(old(self).marks(), path@, (' ', ' ')).1),
            ),
    {
        let now: (char, char) = self.get_or(path.as_str(), (' ', ' '));
        self.put(path, mark, now.1);
    }

    /// Sets the unstaged mark of `path`.
    pub fn set_unstaged(&mut self, path: String, mark: char)
        requires
            old(self).wf(),
        ensures
            final(self).wf(),
            final(self).marks() == old(self).marks().insert(
                path@,
                (marks_or(old(self).marks(), path@, (' ', ' ')).0, mark),
            ),
    {
        let now: (char, char) = self.get_or(path.as_str(), (' ', ' '));
        self.put(path, now.0, mark);
    }

    /// Marks `path` as untracked, unless it has marks already.
    pub fn add_untracked(&mut self, path: String)
        requires
            old(self).wf(),
        ensures
            final(self).wf(),
            final(self).marks() == (if old(self).marks().contains_key(path@) {
                old(self).marks()
            } else {
                old(self).marks().insert(path@, ('?', '?'))
            }),
    {
        let at: (usize, bool) = self.position(path.as_str());
        if at.1 {
            proof {
                assert(self.entries.deep_view()[at.0 as int].path == path@);
                lemma_short_map(self.entries.deep_view(), at.0 as int);
            }
        } else {
            proof {
                lemma_short_absent(self.entries.deep_view(), path@);
            }
            self.put(path, '?', '?');
        }
    }
}

/// A staged change to show.
#[derive(Debug)]
pub struct StagedRender {
    pub path: String,
    pub kind: ChangeKind,
}

/// What a `StagedRender` says.
#[verifier::ext_equal]
pub struct StagedModel {
    pub path: Seq<char>,
    pub kind: ChangeKind,
}

impl View for StagedRender {
    type V = StagedModel;

    open spec fn view(&self) -> StagedModel {
        StagedModel { path: self.path@, kind: self.kind }
    }
}

impl DeepView for StagedRender {
    type V = StagedModel;

    open spec fn deep_view(&self) -> StagedModel {
        self@
    }
}

/// An unstaged change to show: the file is gone, or differs from its index entry.
#[derive(Debug)]
pub struct UnstagedRender {
    pub path: String,
    pub index_id: ObjectId,
    pub removed: bool,
}

/// What an `UnstagedRender` says.
#[verifier::ext_equal]
pub struct UnstagedModel {
    pub path: Seq<char>,
    pub index_id: ObjectId,
    pub removed: bool,
}

impl View for UnstagedRender {
    type V = UnstagedModel;

    open spec fn view(&self) -> UnstagedModel {
        UnstagedModel { path: self.path@, index_id: self.index_id, removed: self.removed }
    }
}

impl DeepView for UnstagedRender {
    type V = UnstagedModel;

    open spec fn deep_view(&self) -> UnstagedModel {
        self@
    }
}

/// All that one status query gives.
#[derive(Debug)]
pub struct StatusSweep {
    pub short: ShortStatus,
    pub staged: Vec<StagedRender>,
    pub unstaged: Vec<UnstagedRender>,
}

/// What a `StatusSweep` holds.
#[verifier::ext_equal]
pub struct SweepModel {
    pub marks: Map<Seq<char>, (char, char)>,
    pub staged: Seq<StagedModel>,
    pub unstaged: Seq<UnstagedModel>,
}

impl View for StatusSweep {
    type V = SweepModel;

    open spec fn view(&self) -> SweepModel {
        SweepModel {
            marks: self.short.marks(),
            staged: self.staged.deep_view(),
            unstaged: self.unstaged.deep_view(),
        }
    }
}

/// The mark of a staged change.
pub open spec fn staged_mark(change: IndexChange) -> char {
    match change {
        IndexChange::Addition { .. } => 'A',
        IndexChange::Deletion { .. } => 'D',
        IndexChange::Modification { .. } => 'M',
        IndexChange::Rewrite { copy, .. } => if copy {
            'C'
        } else {
            'R'
        },
    }
}

/// The change to show for a staged change: a rewrite is a modification at its new path.
pub open spec fn staged_kind(change: IndexChange) -> ChangeKind {
    match change {
        IndexChange::Addition { id } => ChangeKind::Addition { oid: id },
        IndexChange::Deletion { id } => ChangeKind::Deletion { oid: id },
        IndexChange::Modification { previous_id, id } => ChangeKind::Modification {
            previous_oid: previous_id,
            oid: id,
        },
        IndexChange::Rewrite { source_id, id, .. } => ChangeKind::Modification {
            previous_oid: source_id,
            oid: id,
        },
    }
}

/// The mark of an unstaged change, if it has one.
pub open spec fn unstaged_mark(status: WorktreeStatus) -> Option<char> {
    match status {
        WorktreeStatus::Removed => Some('D'),
        WorktreeStatus::Modification => Some('M'),
        WorktreeStatus::TypeChange => Some('M'),
        WorktreeStatus::SubmoduleModification => Some('M'),
        WorktreeStatus::Conflict => Some('U'),
        WorktreeStatus::IntentToAdd => Some('A'),
        WorktreeStatus::NeedsUpdate => None,
    }
}

/// Whether an unstaged change is shown as a diff.
pub open spec fn is_rendered(status: WorktreeStatus) -> bool {
    status == WorktreeStatus::Removed || status == WorktreeStatus::Modification || status
        == WorktreeStatus::TypeChange
}

impl SweepModel {
    /// The sweep with one more item.
    pub open spec fn with(self, item: StatusItemModel) -> SweepModel {
        match item {
            StatusItemModel::Staged { path, change } => SweepModel {
                marks: self.marks.insert(
                    path,
                    (staged_mark(change), marks_or(self.marks, path, (' ', ' ')).1),
                ),
                staged: self.staged.push(StagedModel { path, kind: staged_kind(change) }),
                ..self
            },
            StatusItemModel::Worktree { path, status, index_id } => SweepModel {
                marks: match unstaged_mark(status) {
                    Some(c) => self.marks.insert(
                        path,
                        (marks_or(self.marks, path, (' ', ' ')).0, c),
                    ),
                    None => self.marks,
                },
                unstaged: if is_rendered(status) {
                    self.unstaged.push(
                        UnstagedModel {
                            path,
                            index_id,
                            removed: status == WorktreeStatus::Removed,
                        },
                    )
                } else {
                    self.unstaged
                },
                ..self
            },
            StatusItemModel::Directory { path, untracked } => if untracked
                && !self.marks.contains_key(path) {
                SweepModel { marks: self.marks.insert(path, ('?', '?')), ..self }
            } else {
                self
            },
            StatusItemModel::Rewrite => self,
        }
    }

    /// The sweep with all of `items`, in order.
    pub open spec fn with_all(self, items: Seq<StatusItemModel>) -> SweepModel
        decreases items.len(),
    {
        if items.len() == 0 {
            self
        } else {
            self.with_all(items.drop_last()).with(items.last())
        }
    }
}

/// A sweep without items.
pub open spec fn empty_sweep() -> SweepModel {
    SweepModel { marks: Map::empty(), staged: Seq::empty(), unstaged: Seq::empty() }
}

impl StatusSweep {
    fn add(&mut self, item: StatusItem)
        requires
            old(self).short.wf(),
        ensures
            final(self).short.wf(),
            final(self)@ == old(self)@.with(item@),
    {
        let ghost before = self@;
        let ghost it = item@;
        match item {
            StatusItem::Staged { path, change } => {
                let mark: char = match change {
                    IndexChange::Addition { .. } => 'A',
                    IndexChange::Deletion { .. } => 'D',
                    IndexChange::Modification { .. } => 'M',
                    IndexChange::Rewrite { copy, .. } => if copy {
                        'C'
                    } else {
                        'R'
                    },
                };
                let kind: ChangeKind = match change {
                    IndexChange::Addition { id } => ChangeKind::Addition { oid: id },
                    IndexChange::Deletion { id } => ChangeKind::Deletion { oid: id },
                    IndexChange::Modification { previous_id, id } => ChangeKind::Modification {
                        previous_oid: previous_id,
                        oid: id,
                    },
                    IndexChange::Rewrite { source_id, id, .. } => ChangeKind::Modification {
                        previous_oid: source_id,
                        oid: id,
                    },
                };
                self.short.set_staged(path.clone(), mark);
                self.staged.push(StagedRender { path, kind });
                assert(self.staged.deep_view() =~= before.with(it).staged);
            },
            StatusItem::Worktree { path, status, index_id } => {
                let mark: Option<char> = match status {
                    WorktreeStatus::Removed => Some('D'),
                    WorktreeStatus::Modification => Some('M'),
                    WorktreeStatus::TypeChange => Some('M'),
                    WorktreeStatus::SubmoduleModification => Some('M'),
                    WorktreeStatus::Conflict => Some('U'),
                    WorktreeStatus::IntentToAdd => Some('A'),
                    WorktreeStatus::NeedsUpdate => None,
                };
                if let Some(c) = mark {
                    self.short.set_unstaged(path.clone(), c);
                }
                let removed: bool = status == WorktreeStatus::Removed;
                if removed || status == WorktreeStatus::Modification || status
                    == WorktreeStatus::TypeChange {
                    self.unstaged.push(UnstagedRender { path, index_id, removed });
                }
                assert(self.unstaged.deep_view() =~= before.with(it).unstaged);
            },
            StatusItem::Directory { path, untracked } => {
                if untracked {
                    self.short.add_untracked(path);
                }
            },
            StatusItem::Rewrite => {},
        }
        assert(self@ =~= before.with(it));
    }
}

/// Sorts the items of one status query into the short status, the staged changes and the
/// unstaged changes.
pub fn sweep_status(items: Vec<StatusItem>) -> (r: StatusSweep)
    ensures
        r.short.wf(),
        r@ == empty_sweep().with_all(items.deep_view()),
{
    let mut sweep = StatusSweep {
        short: ShortStatus::new(),
        staged: Vec::new(),
        unstaged: Vec::new(),
    };
    let ghost raw = items@;
    let ghost all = items.deep_view();
    assert(sweep@ =~= empty_sweep());
    assert(all.take(0) =~= Seq::empty());
    for item in it: items
        invariant
            it.seq() == raw,
            all == Seq::new(raw.len(), |i: int| raw[i]@),
            sweep.short.wf(),
            sweep@ == empty_sweep().with_all(all.take(it.index() as int)),
    {
        proof {
            assert(all.take(it.index() + 1).drop_last() =~= all.take(it.index() as int));
        }
        sweep.add(item);
    }
    assert(all.take(all.len() as int) =~= all);
    sweep
}

/// The line of one short-status entry.
pub open spec fn short_line(entry: ShortModel) -> LineModel {
    let text = seq![entry.staged, entry.unstaged, ' '] + entry.path;
    if entry.staged == '?' && entry.unstaged == '?' {
        line(DiffLineKind::StatusTheirs, text)
    } else if entry.staged != ' ' && entry.unstaged == ' ' {
        line(DiffLineKind::StatusOurs, text)
    } else if entry.staged == ' ' && entry.unstaged != ' ' {
        line(DiffLineKind::StatusTheirs, text)
    } else {
        line(DiffLineKind::Faint, text)
    }
}

/// The short-status block. A clean tree says so, unless untracked files may still come.
pub open spec fn short_lines(entries: Seq<ShortModel>, untracked_pending: bool) -> Seq<LineModel> {
    if entries.len() == 0 && !untracked_pending {
        seq![line(DiffLineKind::Good, "Nothing to commit, working tree clean"@)]
    } else {
        entries.map_values(|e: ShortModel| short_line(e))
    }
}

/// Renders the short-status block.
pub fn render_short_status(short: &ShortStatus, untracked_pending: bool) -> (r: Vec<DiffLine>)
    ensures
        r.deep_view() == short_lines(short.entries.deep_view(), untracked_pending),
{
    let mut out: Vec<DiffLine> = Vec::new();
    if short.entries.len() == 0 && !untracked_pending {
        out.push(DiffLine::new(DiffLineKind::Good, "Nothing to commit, working tree clean"));
        assert(out.deep_view() =~= short_lines(short.entries.deep_view(), untracked_pending));
        return out;
    }
    let ghost all = short.entries.deep_view();
    let mut i: usize = 0;
    while i < short.entries.len()
        invariant
            i <= short.entries@.len(),
            all == short.entries.deep_view(),
            out.deep_view() == all.take(i as int).map_values(|e: ShortModel| short_line(e)),
        decreases short.entries@.len() - i,
    {
        let e: &ShortEntry = &short.entries[i];
        let a: char = e.staged;
        let b: char = e.unstaged;
        let mut text: String = String::new();
        text.push(a);
        text.push(b);
        text.push(' ');
        text.append(e.path.as_str());
        let kind: DiffLineKind = if a == '?' && b == '?' {
            DiffLineKind::StatusTheirs
        } else if a != ' ' && b == ' ' {
            DiffLineKind::StatusOurs
        } else if a == ' ' && b != ' ' {
            DiffLineKind::StatusTheirs
        } else {
            DiffLineKind::Faint
        };
        assert(text@ =~= seq![a, b, ' '] + e.path@);
        let ghost before = out.deep_view();
        out.push(DiffLine { kind, text });
        proof {
            assert(out.deep_view() =~= before.push(short_line(all[i as int])));
            assert(all.take(i + 1) =~= all.take(i as int).push(all[i as int]));
            assert(out.deep_view() =~= all.take(i + 1).map_values(|e: ShortModel| short_line(e)));
        }
        i += 1;
    }
    assert(all.take(i as int) =~= all);
    out
}

/// What a staged change changes.
pub open spec fn staged_item(item: StagedModel) -> ItemModel {
    ItemModel { path: item.path, kind: item.kind, is_file: true }
}

/// What a staged change adds to a diff, given its contents; nothing if a side of it could
/// not be read.
pub fn render_staged(item: &StagedRender, old_blob: Option<&[u8]>, new_blob: Option<&[u8]>) -> (r:
    Option<FileDiffOutput>)
    ensures
        output_view(r) == item_output(
            staged_item(item@),
            (SidesModel { old: blob_view(old_blob), new: blob_view(new_blob) }),
        ),
        r matches Some(o) ==> o@.wf() && change_diffed(
            item.kind,
            blob_view(old_blob),
            blob_view(new_blob),
        ),
{
    render_change(item.path.as_str(), item.kind, old_blob, new_blob)
}

/// The change that an unstaged item shows.
pub open spec fn unstaged_kind(item: UnstagedModel) -> ChangeKind {
    if item.removed {
        ChangeKind::Deletion { oid: item.index_id }
    } else {
        ChangeKind::Modification { previous_oid: item.index_id, oid: item.index_id }
    }
}

/// What an unstaged change changes.
pub open spec fn unstaged_item(item: UnstagedModel) -> ItemModel {
    ItemModel { path: item.path, kind: unstaged_kind(item), is_file: true }
}

/// What an unstaged change adds to a diff, given the index contents and the bytes on disk
/// (empty where they could not be read); nothing without the index contents.
pub fn render_unstaged(item: &UnstagedRender, index_blob: Option<&[u8]>, disk: &[u8]) -> (r: Option<
    FileDiffOutput,
>)
    ensures
        output_view(r) == item_output(
            unstaged_item(item@),
            (SidesModel { old: blob_view(index_blob), new: Some(disk@) }),
        ),
        r matches Some(o) ==> o@.wf() && change_diffed(
            unstaged_kind(item@),
            blob_view(index_blob),
            Some(disk@),
        ),
{
    let kind: ChangeKind = if item.removed {
        ChangeKind::Deletion { oid: item.index_id }
    } else {
        ChangeKind::Modification { previous_oid: item.index_id, oid: item.index_id }
    };
    render_change(item.path.as_str(), kind, index_blob, Some(disk))
}

/// The paths of staged changes.
pub open spec fn staged_paths(items: Seq<StagedModel>) -> Seq<Seq<char>> {
    items.map_values(|i: StagedModel| i.path)
}

/// The paths of the staged changes from `from` on.
pub fn staged_past(items: &Vec<StagedRender>, from: usize) -> (r: Vec<String>)
    requires
        from <= items@.len(),
    ensures
        r.deep_view() == staged_paths(items.deep_view().skip(from as int)),
{
    let mut out: Vec<String> = Vec::new();
    let mut i: usize = from;
    while i < items.len()
        invariant
            from <= i <= items@.len(),
            out@.len() == i - from,
            forall|k: int| 0 <= k < out@.len() ==> (#[trigger] out@[k])@ == items@[from + k].path@,
        decreases items@.len() - i,
    {
        out.push(items[i].path.clone());
        i += 1;
    }
    assert(out.deep_view() =~= staged_paths(items.deep_view().skip(from as int)));
    out
}

/// The paths of unstaged changes.
pub open spec fn unstaged_paths(items: Seq<UnstagedModel>) -> Seq<Seq<char>> {
    items.map_values(|i: UnstagedModel| i.path)
}

/// The paths of the unstaged changes from `from` on.
pub fn unstaged_past(items: &Vec<UnstagedRender>, from: usize) -> (r: Vec<String>)
    requires
        from <= items@.len(),
    ensures
        r.deep_view() == unstaged_paths(items.deep_view().skip(from as int)),
{
    let mut out: Vec<String> = Vec::new();
    let mut i: usize = from;
    while i < items.len()
        invariant
            from <= i <= items@.len(),
            out@.len() == i - from,
            forall|k: int| 0 <= k < out@.len() ==> (#[trigger] out@[k])@ == items@[from + k].path@,
        decreases items@.len() - i,
    {
        out.push(items[i].path.clone());
        i += 1;
    }
    assert(out.deep_view() =~= unstaged_paths(items.deep_view().skip(from as int)));
    out
}

/// Text of the line that stands for the untracked files until they are known.
pub const UNTRACKED_PENDING_PLACEHOLDER: &'static str = "(scanning for untracked files…)";

/// The body of the working tree down to the staged changes. `short` is the short status, or
/// the error of the status query.
pub open spec fn status_top(short: Result<Seq<ShortModel>, Seq<char>>, reserve: bool) -> Seq<
    LineModel,
> {
    seq![
        line(DiffLineKind::SectionTitle, "Working Tree Status"@),
        line(DiffLineKind::Blank, ""@),
    ] + match short {
        Ok(entries) => short_lines(entries, reserve),
        Err(e) => seq![line(DiffLineKind::Faint, "Status query failed: "@ + e)],
    }
}

/// The line that stands for the untracked files, if they are still to come.
pub open spec fn placeholder_lines(reserve: bool) -> Seq<LineModel> {
    if reserve {
        seq![line(DiffLineKind::Faint, UNTRACKED_PENDING_PLACEHOLDER@)]
    } else {
        Seq::empty()
    }
}

/// The lines in front of the staged changes.
pub open spec fn staged_title() -> Seq<LineModel> {
    seq![
        line(DiffLineKind::Blank, ""@),
        line(
            DiffLineKind::SectionStaged,
            "── Staged ──────────────────────────────────────────────"@,
        ),
        line(DiffLineKind::Blank, ""@),
    ]
}

/// The lines in front of the unstaged changes.
pub open spec fn unstaged_title() -> Seq<LineModel> {
    seq![
        line(DiffLineKind::Blank, ""@),
        line(
            DiffLineKind::SectionUnstaged,
            "── Unstaged ────────────────────────────────────────────"@,
        ),
        line(DiffLineKind::Blank, ""@),
    ]
}

impl SinkModel {
    /// The sink with `lines` behind its own.
    pub open spec fn plus_lines(self, lines: Seq<LineModel>) -> SinkModel {
        SinkModel { lines: self.lines + lines, ..self }
    }

    /// A section of changed files, or the line `none` if it has no file.
    pub open spec fn section(
        self,
        outputs: Seq<OutputModel>,
        skipped: Seq<Seq<char>>,
        none: Seq<char>,
    ) -> SinkModel {
        if outputs.len() + skipped.len() == 0 {
            self.rendered(outputs, skipped).plus_lines(seq![line(DiffLineKind::Faint, none)])
        } else {
            self.rendered(outputs, skipped)
        }
    }
}

/// The whole body of the working tree.
pub open spec fn working_tree_sink(
    short: Result<Seq<ShortModel>, Seq<char>>,
    reserve: bool,
    staged: Seq<OutputModel>,
    staged_skipped: Seq<Seq<char>>,
    unstaged: Seq<OutputModel>,
    unstaged_skipped: Seq<Seq<char>>,
) -> SinkModel {
    empty_sink().plus_lines(
        status_top(short, reserve) + placeholder_lines(reserve) + staged_title(),
    ).section(staged, staged_skipped, "(no staged changes)"@).plus_lines(unstaged_title()).section(
        unstaged,
        unstaged_skipped,
        "(no unstaged changes)"@,
    )
}

fn push_section(
    sink: &mut DiffSink,
    outputs: Vec<FileDiffOutput>,
    skipped: Vec<String>,
    none: &str,
)
    requires
        old(sink)@.wf(),
        all_wf(outputs.deep_view()),
    ensures
        final(sink)@.wf(),
        final(sink)@ == old(sink)@.section(outputs.deep_view(), skipped.deep_view(), none@),
{
    let count: usize = fold_outputs(sink, outputs, skipped);
    if count == 0 {
        let ghost before = sink@;
        sink.push_line(DiffLineKind::Faint, none.to_owned());
        assert(sink@ =~= before.plus_lines(seq![line(DiffLineKind::Faint, none@)]));
    }
}

/// Appends lines none of which is an added or deleted one.
fn push_plain(sink: &mut DiffSink, kind: DiffLineKind, text: &str)
    requires
        old(sink)@.wf(),
        kind != DiffLineKind::Add,
        kind != DiffLineKind::Del,
    ensures
        final(sink)@.wf(),
        final(sink)@ == old(sink)@.plus_lines(seq![line(kind, text@)]),
{
    let ghost before = sink@;
    sink.push_line(kind, text.to_owned());
    assert(sink@ =~= before.plus_lines(seq![line(kind, text@)]));
}

/// The short status of a sweep, or the error of the query.
pub open spec fn short_view(short: Result<&ShortStatus, &str>) -> Result<
    Seq<ShortModel>,
    Seq<char>,
> {
    match short {
        Ok(s) => Ok(s.entries.deep_view()),
        Err(e) => Err(e@),
    }
}

/// Assembles the body of the working tree: the short status, then the staged and the
/// unstaged files, each as rendered files and those past the file limit. With `reserve` a
/// placeholder for the untracked files follows the short status; its index is returned.
pub fn assemble_working_tree_body(
    short: Result<&ShortStatus, &str>,
    reserve: bool,
    staged: Vec<FileDiffOutput>,
    staged_skipped: Vec<String>,
    unstaged: Vec<FileDiffOutput>,
    unstaged_skipped: Vec<String>,
) -> (r: (DiffSink, Option<usize>))
    requires
        all_wf(staged.deep_view()),
        all_wf(unstaged.deep_view()),
    ensures
        r.0@.wf(),
        r.0@ == working_tree_sink(
            short_view(short),
            reserve,
            staged.deep_view(),
            staged_skipped.deep_view(),
            unstaged.deep_view(),
            unstaged_skipped.deep_view(),
        ),
        r.1 == (if reserve {
            Some(status_top(short_view(short), reserve).len() as usize)
        } else {
            None
        }),
{
    let mut sink: DiffSink = DiffSink::new();
    push_plain(&mut sink, DiffLineKind::SectionTitle, "Working Tree Status");
    push_plain(&mut sink, DiffLineKind::Blank, "");
    let ghost two = sink@;
    match short {
        Ok(s) => {
            let lines: Vec<DiffLine> = render_short_status(s, reserve);
            proof {
                let entries = s.entries.deep_view();
                assert forall|i: int| 0 <= i < lines.deep_view().len() implies (
                #[trigger] lines.deep_view()[i]).kind != DiffLineKind::Add
                    && lines.deep_view()[i].kind != DiffLineKind::Del by {
                    if entries.len() > 0 || reserve {
                        assert(lines.deep_view()[i] == short_line(entries[i]));
                    }
                }
            }
            push_status_lines(&mut sink, lines);
        },
        Err(e) => {
            let mut text: String = "Status query failed: ".to_owned();
            text.append(e);
            push_plain(&mut sink, DiffLineKind::Faint, text.as_str());
        },
    }
    assert(sink@ =~= empty_sink().plus_lines(status_top(short_view(short), reserve)));
    let mut anchor: Option<usize> = None;
    if reserve {
        anchor = Some(sink.lines.len());
        push_plain(&mut sink, DiffLineKind::Faint, UNTRACKED_PENDING_PLACEHOLDER);
    }
    push_plain(&mut sink, DiffLineKind::Blank, "");
    push_plain(
        &mut sink,
        DiffLineKind::SectionStaged,
        "── Staged ──────────────────────────────────────────────",
    );
    push_plain(&mut sink, DiffLineKind::Blank, "");
    assert(sink@ =~= empty_sink().plus_lines(
        status_top(short_view(short), reserve) + placeholder_lines(reserve) + staged_title(),
    ));
    push_section(&mut sink, staged, staged_skipped, "(no staged changes)");
    let ghost mid = sink@;
    push_plain(&mut sink, DiffLineKind::Blank, "");
    push_plain(
        &mut sink,
        DiffLineKind::SectionUnstaged,
        "── Unstaged ────────────────────────────────────────────",
    );
    push_plain(&mut sink, DiffLineKind::Blank, "");
    assert(sink@ =~= mid.plus_lines(unstaged_title()));
    push_section(&mut sink, unstaged, unstaged_skipped, "(no unstaged changes)");
    (sink, anchor)
}

/// Appends the short-status block.
fn push_status_lines(sink: &mut DiffSink, lines: Vec<DiffLine>)
    requires
        old(sink)@.wf(),
        forall|i: int|
            0 <= i < lines.deep_view().len() ==> (#[trigger] lines.deep_view()[i]).kind
                != DiffLineKind::Add
                && lines.deep_view()[i].kind != DiffLineKind::Del,
    ensures
        final(sink)@.wf(),
        final(sink)@ == old(sink)@.plus_lines(lines.deep_view()),
{
    let ghost start = sink@;
    let ghost raw = lines@;
    let ghost all = lines.deep_view();
    assert(start.plus_lines(all.take(0)) =~= start);
    for l in it: lines
        invariant
            it.seq() == raw,
            all == Seq::new(raw.len(), |i: int| raw[i]@),
            forall|i: int|
                0 <= i < all.len() ==> (#[trigger] all[i]).kind != DiffLineKind::Add && all[i].kind
                    != DiffLineKind::Del,
            sink@.wf(),
            sink@ == start.plus_lines(all.take(it.index() as int)),
    {
        proof {
            assert(all[it.index() as int] == l@);
        }
        sink.push_line(l.kind, l.text);
        assert(sink@ =~= start.plus_lines(all.take(it.index() + 1)));
    }
    assert(all.take(all.len() as int) =~= all);
}

/// The status pane: the whole body, with the untracked files in the short status.
pub fn compute_status(
    short: Result<&ShortStatus, &str>,
    staged: Vec<FileDiffOutput>,
    staged_skipped: Vec<String>,
    unstaged: Vec<FileDiffOutput>,
    unstaged_skipped: Vec<String>,
) -> (r: StatusDocument)
    requires
        all_wf(staged.deep_view()),
        all_wf(unstaged.deep_view()),
    ensures
        r.lines.deep_view() == working_tree_sink(
            short_view(short),
            false,
            staged.deep_view(),
            staged_skipped.deep_view(),
            unstaged.deep_view(),
            unstaged_skipped.deep_view(),
        ).lines,
{
    let body: (DiffSink, Option<usize>) = assemble_working_tree_body(
        short,
        false,
        staged,
        staged_skipped,
        unstaged,
        unstaged_skipped,
    );
    StatusDocument { lines: body.0.lines }
}

/// The working-tree diff, with a placeholder for the untracked files.
pub fn compute_working_tree_diff(
    target: DiffTarget,
    short: Result<&ShortStatus, &str>,
    staged: Vec<FileDiffOutput>,
    staged_skipped: Vec<String>,
    unstaged: Vec<FileDiffOutput>,
    unstaged_skipped: Vec<String>,
) -> (r: DiffDocument)
    requires
        all_wf(staged.deep_view()),
        all_wf(unstaged.deep_view()),
    ensures
        r@ == sink_document(
            target,
            Seq::empty(),
            working_tree_sink(
                short_view(short),
                true,
                staged.deep_view(),
                staged_skipped.deep_view(),
                unstaged.deep_view(),
                unstaged_skipped.deep_view(),
            ),
            Some(status_top(short_view(short), true).len() as usize),
        ),
{
    let body: (DiffSink, Option<usize>) = assemble_working_tree_body(
        short,
        true,
        staged,
        staged_skipped,
        unstaged,
        unstaged_skipped,
    );
    let header: Vec<DiffLine> = Vec::new();
    assert(header.deep_view() =~= Seq::empty());
    document_of_sink(target, header, body.0, body.1)
}

/// The bytes at hand, or none.
pub open spec fn bytes_or_empty(blob: Option<Seq<u8>>) -> Seq<u8> {
    match blob {
        Some(b) => b,
        None => Seq::empty(),
    }
}

/// What the single-file view says of a file of the working tree.
pub open spec fn worktree_meta(old_bytes: Seq<u8>, new_bytes: Seq<u8>) -> Option<Seq<char>> {
    if old_bytes.len() == 0 {
        Some("new file"@)
    } else if new_bytes.len() == 0 {
        Some("deleted file"@)
    } else {
        None
    }
}

/// The single-file view of one side of a file against the other.
pub open spec fn two_sided_document(
    target: DiffTarget,
    path: Seq<char>,
    old_bytes: Seq<u8>,
    new_bytes: Seq<u8>,
) -> DocumentModel {
    sink_document(
        target,
        Seq::empty(),
        empty_sink().merged(
            output_of(
                path,
                file_view_lines(path, old_bytes, new_bytes, worktree_meta(old_bytes, new_bytes)),
                skip_reason(old_bytes, new_bytes, MAX_FILE_VIEW_DIFF_BYTES as int),
            ),
        ),
        None,
    )
}

fn two_sided_file(
    target: DiffTarget,
    path: &str,
    old_blob: Option<&[u8]>,
    new_blob: Option<&[u8]>,
    none: &str,
) -> (r: Result<DiffDocument, String>)
    ensures
        ({
            let old_bytes = bytes_or_empty(blob_view(old_blob));
            let new_bytes = bytes_or_empty(blob_view(new_blob));
            match r {
                Err(e) => {
                    &&& old_bytes.len() == 0 && new_bytes.len() == 0
                    &&& e@ == path@ + none@
                },
                Ok(doc) => {
                    &&& !(old_bytes.len() == 0 && new_bytes.len() == 0)
                    &&& doc@ == two_sided_document(target, path@, old_bytes, new_bytes)
                    &&& is_diffed(old_bytes, new_bytes, MAX_FILE_VIEW_DIFF_BYTES as int)
                },
            }
        }),
{
    let empty: Vec<u8> = Vec::new();
    assert(empty@ =~= Seq::empty());
    let old_bytes: &[u8] = match old_blob {
        Some(b) => b,
        None => empty.as_slice(),
    };
    let new_bytes: &[u8] = match new_blob {
        Some(b) => b,
        None => empty.as_slice(),
    };
    if old_bytes.len() == 0 && new_bytes.len() == 0 {
        let mut e: String = path.to_owned();
        e.append(none);
        return Err(e);
    }
    let meta: Option<&str> = if old_bytes.len() == 0 {
        Some("new file")
    } else if new_bytes.len() == 0 {
        Some("deleted file")
    } else {
        None
    };
    let output: FileDiffOutput = file_full_context_output(path, old_bytes, new_bytes, meta);
    Ok(single_file_document(target, output))
}

/// The single-file view of a working-tree file: the last commit's bytes, if it has the file,
/// against the bytes on disk, if there are any. Where there are neither, the document says so.
pub fn compute_worktree_file_diff(path: &str, head_blob: Option<&[u8]>, disk: Option<&[u8]>) -> (r:
    DiffDocument)
    ensures
        ({
            let old_bytes = bytes_or_empty(blob_view(head_blob));
            let new_bytes = bytes_or_empty(blob_view(disk));
            &&& r@ == (if old_bytes.len() == 0 && new_bytes.len() == 0 {
                error_document(
                    DiffTarget::WorkingTree,
                    path@ + ": not in HEAD and not on disk"@,
                )
            } else {
                two_sided_document(DiffTarget::WorkingTree, path@, old_bytes, new_bytes)
            })
            &&& old_bytes.len() > 0 || new_bytes.len() > 0 ==> is_diffed(
                old_bytes,
                new_bytes,
                MAX_FILE_VIEW_DIFF_BYTES as int,
            )
        }),
{
    let target = DiffTarget::WorkingTree;
    let none: &str = ": not in HEAD and not on disk";
    document_or_error(target, two_sided_file(target, path, head_blob, disk, none))
}

/// The single-file view of a staged file: the last commit's bytes against those in the index.
/// Where there are neither, the document says so.
pub fn compute_staged_file_diff(path: &str, head_blob: Option<&[u8]>, index_blob: Option<&[u8]>) -> (r:
    DiffDocument)
    ensures
        ({
            let old_bytes = bytes_or_empty(blob_view(head_blob));
            let new_bytes = bytes_or_empty(blob_view(index_blob));
            &&& r@ == (if old_bytes.len() == 0 && new_bytes.len() == 0 {
                error_document(
                    DiffTarget::Staged,
                    path@ + ": not in HEAD and not in the index"@,
                )
            } else {
                two_sided_document(DiffTarget::Staged, path@, old_bytes, new_bytes)
            })
            &&& old_bytes.len() > 0 || new_bytes.len() > 0 ==> is_diffed(
                old_bytes,
                new_bytes,
                MAX_FILE_VIEW_DIFF_BYTES as int,
            )
        }),
{
    let target = DiffTarget::Staged;
    let none: &str = ": not in HEAD and not in the index";
    document_or_error(target, two_sided_file(target, path, head_blob, index_blob, none))
}

/// The diff of what is staged.
pub fn compute_staged_diff(
    target: DiffTarget,
    staged: Vec<FileDiffOutput>,
    staged_skipped: Vec<String>,
) -> (r: DiffDocument)
    requires
        all_wf(staged.deep_view()),
    ensures
        r@ == sink_document(
            target,
            Seq::empty(),
            empty_sink().section(
                staged.deep_view(),
                staged_skipped.deep_view(),
                "(no staged changes)"@,
            ),
            None,
        ),
{
    let mut sink: DiffSink = DiffSink::new();
    push_section(&mut sink, staged, staged_skipped, "(no staged changes)");
    let header: Vec<DiffLine> = Vec::new();
    assert(header.deep_view() =~= Seq::empty());
    document_of_sink(target, header, sink, None)
}

/// The rendered files `outputs` and the paths `skipped` stand for the changes `items` in a
/// diff that has `files` files already: the changes within the file limit, each rendered from
/// its own contents in `sides`, and the paths of the rest.
pub open spec fn stands_for(
    items: Seq<ItemModel>,
    files: int,
    sides: Seq<SidesModel>,
    outputs: Seq<OutputModel>,
    skipped: Seq<Seq<char>>,
) -> bool {
    let shown = headroom(files, items.len() as int);
    &&& outputs == outputs_of(items.take(shown), sides)
    &&& skipped == items.skip(shown).map_values(|i: ItemModel| i.path)
}

proof fn lemma_section_lists(
    sink: SinkModel,
    items: Seq<ItemModel>,
    sides: Seq<SidesModel>,
    skipped: Seq<Seq<char>>,
    none: Seq<char>,
)
    ensures
        listed_paths(sink.section(outputs_of(items, sides), skipped, none)) == listed_paths(sink)
            + readable_paths(items, sides) + skipped,
{
    law_changes_are_listed_in_order(sink, items, sides, skipped);
    let outputs = outputs_of(items, sides);
    assert(listed_paths(sink.section(outputs, skipped, none)) =~= listed_paths(
        sink.rendered(outputs, skipped),
    ));
}

/// The working-tree diff lists the staged changes and then the unstaged ones, each in order:
/// those within the file limit that can be read, then those past it.
pub proof fn law_the_working_tree_lists_its_files(
    short: Result<Seq<ShortModel>, Seq<char>>,
    reserve: bool,
    staged: Seq<StagedModel>,
    staged_sides: Seq<SidesModel>,
    staged_outputs: Seq<OutputModel>,
    staged_skipped: Seq<Seq<char>>,
    unstaged: Seq<UnstagedModel>,
    unstaged_sides: Seq<SidesModel>,
    unstaged_outputs: Seq<OutputModel>,
    unstaged_skipped: Seq<Seq<char>>,
)
    requires
        stands_for(
            staged.map_values(|i: StagedModel| staged_item(i)),
            0,
            staged_sides,
            staged_outputs,
            staged_skipped,
        ),
        stands_for(
            unstaged.map_values(|i: UnstagedModel| unstaged_item(i)),
            (staged_outputs.len() + staged_skipped.len()) as int,
            unstaged_sides,
            unstaged_outputs,
            unstaged_skipped,
        ),
    ensures
        ({
            let first = staged.map_values(|i: StagedModel| staged_item(i));
            let second = unstaged.map_values(|i: UnstagedModel| unstaged_item(i));
            let files = (staged_outputs.len() + staged_skipped.len()) as int;
            let a = headroom(0, staged.len() as int);
            let b = headroom(files, unstaged.len() as int);
            listed_paths(
                working_tree_sink(
                    short,
                    reserve,
                    staged_outputs,
                    staged_skipped,
                    unstaged_outputs,
                    unstaged_skipped,
                ),
            ) == readable_paths(first.take(a), staged_sides) + staged_paths(staged.skip(a))
                + readable_paths(second.take(b), unstaged_sides) + unstaged_paths(
                unstaged.skip(b),
            )
        }),
{
    let first = staged.map_values(|i: StagedModel| staged_item(i));
    let second = unstaged.map_values(|i: UnstagedModel| unstaged_item(i));
    let files = (staged_outputs.len() + staged_skipped.len()) as int;
    let a = headroom(0, staged.len() as int);
    let b = headroom(files, unstaged.len() as int);
    assert(staged_skipped =~= staged_paths(staged.skip(a)));
    assert(unstaged_skipped =~= unstaged_paths(unstaged.skip(b)));
    let top = empty_sink().plus_lines(
        status_top(short, reserve) + placeholder_lines(reserve) + staged_title(),
    );
    let mid = top.section(staged_outputs, staged_skipped, "(no staged changes)"@);
    lemma_section_lists(
        top,
        first.take(a),
        staged_sides,
        staged_skipped,
        "(no staged changes)"@,
    );
    lemma_section_lists(
        mid.plus_lines(unstaged_title()),
        second.take(b),
        unstaged_sides,
        unstaged_skipped,
        "(no unstaged changes)"@,
    );
    assert(listed_paths(top) =~= Seq::empty());
    assert(listed_paths(mid.plus_lines(unstaged_title())) =~= listed_paths(mid));
    assert(listed_paths(
        working_tree_sink(
            short,
            reserve,
            staged_outputs,
            staged_skipped,
            unstaged_outputs,
            unstaged_skipped,
        ),
    ) =~= readable_paths(first.take(a), staged_sides) + staged_paths(staged.skip(a))
        + readable_paths(second.take(b), unstaged_sides) + unstaged_paths(unstaged.skip(b)));
}

/// The working-tree diff has its placeholder where its anchor says, and so in its body.
pub proof fn law_placeholder_stands_at_its_anchor(
    short: Result<Seq<ShortModel>, Seq<char>>,
    staged: Seq<OutputModel>,
    staged_skipped: Seq<Seq<char>>,
    unstaged: Seq<OutputModel>,
    unstaged_skipped: Seq<Seq<char>>,
)
    ensures
        ({
            let sink = working_tree_sink(
                short,
                true,
                staged,
                staged_skipped,
                unstaged,
                unstaged_skipped,
            );
            let anchor = status_top(short, true).len() as int;
            &&& anchor < sink.lines.len()
            &&& sink.lines[anchor] == line(DiffLineKind::Faint, UNTRACKED_PENDING_PLACEHOLDER@)
        }),
{
    let anchor = status_top(short, true).len() as int;
    let top = empty_sink().plus_lines(
        status_top(short, true) + placeholder_lines(true) + staged_title(),
    );
    let one = top.section(staged, staged_skipped, "(no staged changes)"@);
    law_folding_keeps_earlier_lines(top, staged, staged_skipped);
    let two = one.plus_lines(unstaged_title());
    let three = two.section(unstaged, unstaged_skipped, "(no unstaged changes)"@);
    law_folding_keeps_earlier_lines(two, unstaged, unstaged_skipped);
    let r1 = top.rendered(staged, staged_skipped).lines;
    let r2 = two.rendered(unstaged, unstaged_skipped).lines;
    assert(top.lines[anchor] == line(DiffLineKind::Faint, UNTRACKED_PENDING_PLACEHOLDER@));
    assert(r1.take(top.lines.len() as int)[anchor] == top.lines[anchor]);
    assert(one.lines[anchor] == top.lines[anchor]);
    assert(r2.take(two.lines.len() as int)[anchor] == two.lines[anchor]);
    assert(three.lines[anchor] == two.lines[anchor]);
}

/// `paths` come in order.
pub open spec fn texts_sorted(paths: Seq<Seq<char>>) -> bool {
    forall|i: int, j: int|
        0 <= i < j < paths.len() ==> !text_before(#[trigger] paths[j], #[trigger] paths[i])
}

/// The untracked paths among `items`, in the order of the items.
pub open spec fn untracked_of(items: Seq<StatusItemModel>) -> Seq<Seq<char>>
    decreases items.len(),
{
    if items.len() == 0 {
        Seq::empty()
    } else {
        let rest = untracked_of(items.drop_last());
        match items.last() {
            StatusItemModel::Directory { path, untracked } => if untracked {
                rest.push(path)
            } else {
                rest
            },
            _ => rest,
        }
    }
}

proof fn lemma_insert_multiset<A>(s: Seq<A>, i: int, x: A)
    requires
        0 <= i <= s.len(),
    ensures
        s.insert(i, x).to_multiset() == s.to_multiset().insert(x),
{
    broadcast use vstd::seq_lib::group_to_multiset_ensures;

    let t = s.insert(i, x);
    assert(t.remove(i) =~= s);
    assert(t[i] == x);
    assert(t.contains(x));
    assert(t.to_multiset().remove(x).insert(x) =~= t.to_multiset());
}

fn insert_sorted(paths: &mut Vec<String>, path: String)
    requires
        texts_sorted(old(paths).deep_view()),
    ensures
        texts_sorted(final(paths).deep_view()),
        final(paths).deep_view().to_multiset() == old(paths).deep_view().to_multiset().insert(path@),
{
    let ghost before = paths.deep_view();
    let ghost p = path@;
    let mut pos: usize = paths.len();
    while pos > 0 && comes_before(path.as_str(), paths[pos - 1].as_str())
        invariant
            pos <= paths@.len(),
            before == paths.deep_view(),
            p == path@,
            forall|j: int| pos <= j < before.len() ==> text_before(p, #[trigger] before[j]),
        decreases pos,
    {
        assert(before[pos - 1] == paths@[pos - 1]@);
        pos -= 1;
    }
    paths.insert(pos, path);
    let ghost after = paths.deep_view();
    proof {
        assert(after =~= before.insert(pos as int, p));
        lemma_insert_multiset(before, pos as int, p);
        assert forall|i: int, j: int| 0 <= i < j < after.len() implies !text_before(
            #[trigger] after[j],
            #[trigger] after[i],
        ) by {
            let k = pos as int;
            let si = if i < k {
                i
            } else {
                i - 1
            };
            let sj = if j < k {
                j
            } else {
                j - 1
            };
            if i == k {
                assert(after[j] == before[sj]);
                if text_before(after[j], p) {
                    lemma_text_before_transitive(p, after[j], p);
                    lemma_text_before_irreflexive(p);
                }
            } else if j == k {
                assert(after[i] == before[si]);
                if text_before(p, before[i]) {
                    lemma_text_before_total(before[k - 1], before[i]);
                    if i < k - 1 {
                        if text_before(before[i], before[k - 1]) {
                            lemma_text_before_transitive(p, before[i], before[k - 1]);
                        }
                    }
                }
            } else {
                assert(after[i] == before[si]);
                assert(after[j] == before[sj]);
            }
        }
    }
}

/// The untracked paths among `items`, sorted.
pub fn collect_untracked_paths(items: Vec<StatusItem>) -> (r: Vec<String>)
    ensures
        texts_sorted(r.deep_view()),
        r.deep_view().to_multiset() == untracked_of(items.deep_view()).to_multiset(),
{
    let mut paths: Vec<String> = Vec::new();
    let ghost raw = items@;
    let ghost all = items.deep_view();
    assert(all.take(0) =~= Seq::empty());
    assert(paths.deep_view() =~= untracked_of(all.take(0)));
    for item in it: items
        invariant
            it.seq() == raw,
            all == Seq::new(raw.len(), |i: int| raw[i]@),
            texts_sorted(paths.deep_view()),
            paths.deep_view().to_multiset() == untracked_of(
                all.take(it.index() as int),
            ).to_multiset(),
    {
        proof {
            assert(all.take(it.index() + 1).drop_last() =~= all.take(it.index() as int));
            assert(all.take(it.index() + 1).last() == item@);
            if let StatusItemModel::Directory { path, .. } = item@ {
                vstd::seq_lib::to_multiset_build(untracked_of(all.take(it.index() as int)), path);
            }
        }
        if let StatusItem::Directory { path, untracked } = item {
            if untracked {
                insert_sorted(&mut paths, path);
            }
        }
    }
    assert(all.take(all.len() as int) =~= all);
    paths
}

/// How many of `items` are staged changes.
pub open spec fn staged_count(items: Seq<StatusItemModel>) -> int
    decreases items.len(),
{
    if items.len() == 0 {
        0
    } else {
        staged_count(items.drop_last()) + if items.last() is Staged {
            1int
        } else {
            0int
        }
    }
}

/// How many of `items` are unstaged changes of a kind that has a diff.
pub open spec fn unstaged_count(items: Seq<StatusItemModel>) -> int
    decreases items.len(),
{
    if items.len() == 0 {
        0
    } else {
        unstaged_count(items.drop_last()) + match items.last() {
            StatusItemModel::Worktree { status, .. } => match status {
                WorktreeStatus::Removed => 1int,
                WorktreeStatus::Modification => 1int,
                WorktreeStatus::TypeChange => 1int,
                _ => 0int,
            },
            _ => 0int,
        }
    }
}

/// Each staged change has one entry, in the order of the items, at its own path, and keeps its
/// sides: what was there before stays the old side, and what is there now the new one. An
/// addition has a new side only, a deletion an old one only, and a rewrite has its source as
/// the old side.
pub proof fn law_staged_changes_keep_their_sides(items: Seq<StatusItemModel>, k: int)
    requires
        0 <= k < items.len(),
        items[k] is Staged,
    ensures
        ({
            let staged = empty_sweep().with_all(items).staged;
            let at = staged_count(items.take(k));
            &&& staged.len() == staged_count(items)
            &&& 0 <= at < staged.len()
            &&& items[k] matches StatusItemModel::Staged { path, change } ==> {
                &&& staged[at].path == path
                &&& change matches IndexChange::Addition { id: new } ==> staged[at].kind
                    == (ChangeKind::Addition { oid: new })
                &&& change matches IndexChange::Deletion { id: gone } ==> staged[at].kind
                    == (ChangeKind::Deletion { oid: gone })
                &&& change matches IndexChange::Modification { previous_id: was, id: is_now }
                    ==> staged[at].kind == (ChangeKind::Modification {
                    previous_oid: was,
                    oid: is_now,
                })
                &&& change matches IndexChange::Rewrite { source_id: was, id: is_now, copy: _ }
                    ==> staged[at].kind == (ChangeKind::Modification {
                    previous_oid: was,
                    oid: is_now,
                })
            }
        }),
    decreases items.len(),
{
    let less = items.drop_last();
    lemma_entry_counts(items);
    lemma_entry_counts(less);
    if k == items.len() - 1 {
        assert(items.take(k) =~= less);
    } else {
        law_staged_changes_keep_their_sides(less, k);
        assert(less.take(k) =~= items.take(k));
    }
}

proof fn lemma_entry_counts(items: Seq<StatusItemModel>)
    ensures
        empty_sweep().with_all(items).staged.len() == staged_count(items),
        empty_sweep().with_all(items).unstaged.len() == unstaged_count(items),
    decreases items.len(),
{
    if items.len() > 0 {
        lemma_entry_counts(items.drop_last());
    }
}

/// Each file that is gone from the worktree, or differs from the index, has one entry, in the
/// order of the items, at its own path, with its own index contents; it is said to be removed
/// if and only if the file is gone.
pub proof fn law_unstaged_changes_keep_their_contents(items: Seq<StatusItemModel>, k: int)
    requires
        0 <= k < items.len(),
        items[k] matches StatusItemModel::Worktree { status, .. } && (status
            == WorktreeStatus::Removed || status == WorktreeStatus::Modification || status
            == WorktreeStatus::TypeChange),
    ensures
        ({
            let unstaged = empty_sweep().with_all(items).unstaged;
            let at = unstaged_count(items.take(k));
            &&& unstaged.len() == unstaged_count(items)
            &&& 0 <= at < unstaged.len()
            &&& items[k] matches StatusItemModel::Worktree { path, status, index_id } ==> {
                &&& unstaged[at].path == path
                &&& unstaged[at].index_id == index_id
                &&& unstaged[at].removed <==> status == WorktreeStatus::Removed
            }
        }),
    decreases items.len(),
{
    let less = items.drop_last();
    lemma_entry_counts(items);
    lemma_entry_counts(less);
    if k == items.len() - 1 {
        assert(items.take(k) =~= less);
    } else {
        law_unstaged_changes_keep_their_contents(less, k);
        assert(less.take(k) =~= items.take(k));
    }
}

/// An item marks its own path and no other. A staged change sets the first mark and keeps the
/// second, an unstaged change the other way round, and an untracked file is marked on both
/// sides unless it has a mark already.
pub proof fn law_an_item_marks_its_own_path(sweep: SweepModel, item: StatusItemModel, other: Seq<char>)
    ensures
        ({
            let next = sweep.with(item).marks;
            match item {
                StatusItemModel::Staged { path, change } => {
                    &&& next.contains_key(path)
                    &&& next[path].0 == 'A' <==> change is Addition
                    &&& next[path].0 == 'D' <==> change is Deletion
                    &&& next[path].0 == 'M' <==> change is Modification
                    &&& next[path].0 == 'C' <==> change is Rewrite && change->copy
                    &&& next[path].0 == 'R' <==> change is Rewrite && !change->copy
                    &&& sweep.marks.contains_key(path) ==> next[path].1 == sweep.marks[path].1
                    &&& !sweep.marks.contains_key(path) ==> next[path].1 == ' '
                    &&& other != path ==> (next.contains_key(other) <==> sweep.marks.contains_key(
                        other,
                    )) && next[other] == sweep.marks[other]
                },
                StatusItemModel::Worktree { path, status, .. } => {
                    &&& status == WorktreeStatus::NeedsUpdate ==> next == sweep.marks
                    &&& status != WorktreeStatus::NeedsUpdate ==> {
                        &&& next.contains_key(path)
                        &&& next[path].1 == 'D' <==> status == WorktreeStatus::Removed
                        &&& next[path].1 == 'U' <==> status == WorktreeStatus::Conflict
                        &&& next[path].1 == 'A' <==> status == WorktreeStatus::IntentToAdd
                        &&& next[path].1 == 'M' <==> status == WorktreeStatus::Modification
                            || status == WorktreeStatus::TypeChange || status
                            == WorktreeStatus::SubmoduleModification
                        &&& sweep.marks.contains_key(path) ==> next[path].0 == sweep.marks[path].0
                        &&& !sweep.marks.contains_key(path) ==> next[path].0 == ' '
                    }
                    &&& other != path ==> (next.contains_key(other) <==> sweep.marks.contains_key(
                        other,
                    )) && next[other] == sweep.marks[other]
                },
                StatusItemModel::Directory { path, untracked } => {
                    &&& !untracked || sweep.marks.contains_key(path) ==> next == sweep.marks
                    &&& untracked && !sweep.marks.contains_key(path) ==> next
                        == sweep.marks.insert(path, ('?', '?'))
                },
                StatusItemModel::Rewrite => next == sweep.marks,
            }
        }),
{
}

/// A finding makes the tree dirty exactly if it leaves a mark in the short status; only a
/// rewrite is a change without one.
pub proof fn law_changes_leave_a_mark(item: StatusItemModel)
    ensures
        item is Rewrite ==> is_change(item),
        item !is Rewrite ==> (is_change(item) <==> exists|path: Seq<char>| #[trigger]
            empty_sweep().with(item).marks.contains_key(path)),
{
    let marks = empty_sweep().with(item).marks;
    match item {
        StatusItemModel::Staged { path, .. } => {
            assert(marks.contains_key(path));
        },
        StatusItemModel::Worktree { path, status, .. } => {
            if status != WorktreeStatus::NeedsUpdate {
                assert(marks.contains_key(path));
            }
        },
        StatusItemModel::Directory { path, untracked } => {
            if untracked {
                assert(marks.contains_key(path));
            }
        },
        StatusItemModel::Rewrite => {},
    }
}

/// A line of the short status is the two marks, a blank and the path. It has the colour of
/// the staged side if there is a staged mark only, that of the other side if there is an
/// unstaged mark only or the file is untracked, and is faint if there are two marks.
pub proof fn law_short_lines_show_marks_and_path(entry: ShortModel)
    ensures
        short_line(entry).text.len() == entry.path.len() + 3,
        short_line(entry).text[0] == entry.staged,
        short_line(entry).text[1] == entry.unstaged,
        short_line(entry).text[2] == ' ',
        short_line(entry).text.skip(3) == entry.path,
        entry.staged != ' ' && entry.unstaged == ' ' ==> short_line(entry).kind
            == DiffLineKind::StatusOurs,
        entry.staged == ' ' && entry.unstaged != ' ' ==> short_line(entry).kind
            == DiffLineKind::StatusTheirs,
        entry.staged == '?' && entry.unstaged == '?' ==> short_line(entry).kind
            == DiffLineKind::StatusTheirs,
        entry.staged != ' ' && entry.unstaged != ' ' && !(entry.staged == '?' && entry.unstaged
            == '?') ==> short_line(entry).kind == DiffLineKind::Faint,
{
    assert(short_line(entry).text.skip(3) =~= entry.path);
}

/// The short status has a line for each entry, in order. It says that the tree is clean only
/// if there is no entry and none can come any more.
pub proof fn law_each_entry_has_a_short_line(entries: Seq<ShortModel>, pending: bool, i: int)
    ensures
        0 <= i < entries.len() ==> short_lines(entries, pending).len() == entries.len()
            && short_lines(entries, pending)[i] == short_line(entries[i]),
        entries.len() == 0 && pending ==> short_lines(entries, pending).len() == 0,
        entries.len() == 0 && !pending ==> short_lines(entries, pending).len() == 1
            && short_lines(entries, pending)[0].kind == DiffLineKind::Good,
{
}

/// A path is listed as untracked exactly if an item says that it is.
pub proof fn law_untracked_paths_are_those_reported(items: Seq<StatusItemModel>, path: Seq<char>)
    ensures
        untracked_of(items).contains(path) <==> items.contains(
            (StatusItemModel::Directory { path, untracked: true }),
        ),
    decreases items.len(),
{
    let item = StatusItemModel::Directory { path, untracked: true };
    if items.len() > 0 {
        let less = items.drop_last();
        let rest = untracked_of(less);
        let all = untracked_of(items);
        law_untracked_paths_are_those_reported(less, path);
        if all.contains(path) {
            let k = choose|k: int| 0 <= k < all.len() && all[k] == path;
            if k < rest.len() {
                assert(rest[k] == path);
                let j = choose|j: int| 0 <= j < less.len() && less[j] == item;
                assert(items[j] == item);
            } else {
                assert(items[items.len() - 1] == item);
            }
        }
        if items.contains(item) {
            let j = choose|j: int| 0 <= j < items.len() && items[j] == item;
            if j < less.len() {
                assert(less[j] == item);
                let k = choose|k: int| 0 <= k < rest.len() && rest[k] == path;
                assert(all[k] == path);
            } else {
                assert(all[rest.len() as int] == path);
            }
        }
    }
}

/// The body of the working tree starts with a title, a blank line and the short status. The
/// staged section comes next, then the unstaged one; a section without files says so in one
/// line.
pub proof fn law_the_sections_of_the_working_tree(
    entries: Seq<ShortModel>,
    staged: Seq<OutputModel>,
    staged_skipped: Seq<Seq<char>>,
    unstaged: Seq<OutputModel>,
    unstaged_skipped: Seq<Seq<char>>,
)
    ensures
        ({
            let lines = working_tree_sink(
                Ok(entries),
                false,
                staged,
                staged_skipped,
                unstaged,
                unstaged_skipped,
            ).lines;
            let n = short_lines(entries, false).len() as int;
            &&& lines.len() >= n + 8
            &&& lines[0].kind == DiffLineKind::SectionTitle
            &&& lines[1].kind == DiffLineKind::Blank
            &&& lines.subrange(2, 2 + n) == short_lines(entries, false)
            &&& lines[2 + n].kind == DiffLineKind::Blank
            &&& lines[3 + n].kind == DiffLineKind::SectionStaged
            &&& lines[4 + n].kind == DiffLineKind::Blank
            &&& staged.len() + staged_skipped.len() == 0 ==> {
                &&& lines[5 + n].kind == DiffLineKind::Faint
                &&& lines[7 + n].kind == DiffLineKind::SectionUnstaged
            }
        }),
{
    let n = short_lines(entries, false).len() as int;
    let top = empty_sink().plus_lines(
        status_top(Ok(entries), false) + placeholder_lines(false) + staged_title(),
    );
    let one = top.section(staged, staged_skipped, "(no staged changes)"@);
    law_folding_keeps_earlier_lines(top, staged, staged_skipped);
    let two = one.plus_lines(unstaged_title());
    let three = two.section(unstaged, unstaged_skipped, "(no unstaged changes)"@);
    law_folding_keeps_earlier_lines(two, unstaged, unstaged_skipped);
    assert(top.lines.subrange(2, 2 + n) =~= short_lines(entries, false));
    let r1 = top.rendered(staged, staged_skipped).lines;
    let r2 = two.rendered(unstaged, unstaged_skipped).lines;
    assert forall|i: int| 0 <= i < top.lines.len() implies #[trigger] one.lines[i]
        == top.lines[i] by {
        assert(r1.take(top.lines.len() as int)[i] == top.lines[i]);
    }
    assert forall|i: int| 0 <= i < two.lines.len() implies #[trigger] three.lines[i]
        == two.lines[i] by {
        assert(r2.take(two.lines.len() as int)[i] == two.lines[i]);
    }
    assert forall|i: int| 0 <= i < top.lines.len() implies #[trigger] three.lines[i]
        == top.lines[i] by {
        assert(two.lines[i] == one.lines[i]);
    }
    assert(three.lines.subrange(2, 2 + n) =~= top.lines.subrange(2, 2 + n));
    if staged.len() + staged_skipped.len() == 0 {
        assert(r1 =~= top.lines);
        assert(two.lines[7 + n] == unstaged_title()[1]);
        assert(three.lines[5 + n] == two.lines[5 + n]);
        assert(three.lines[7 + n] == two.lines[7 + n]);
    }
}

/// In the single-file view a file without an old side is new, and one without a new side is
/// deleted; one with both is neither.
pub proof fn law_a_file_with_one_side_is_new_or_deleted(old: Seq<u8>, new: Seq<u8>)
    ensures
        old.len() == 0 ==> worktree_meta(old, new) == Some("new file"@),
        old.len() > 0 && new.len() == 0 ==> worktree_meta(old, new) == Some("deleted file"@),
        old.len() > 0 && new.len() > 0 ==> worktree_meta(old, new) is None,
        bytes_or_empty(None).len() == 0,
        bytes_or_empty(Some(new)) == new,
{
}

/// The single-file view of a working tree has one file, whose whole text on each side can be
/// read from it.
pub proof fn law_the_single_file_view_holds_both_sides(
    target: DiffTarget,
    path: Seq<char>,
    old: Seq<u8>,
    new: Seq<u8>,
)
    requires
        !old.contains(0),
        !new.contains(0),
        old.len() <= 8388608,
        new.len() <= 8388608,
        is_line_diff(old, new),
    ensures
        ({
            let d = two_sided_document(target, path, old, new);
            let before = byte_lines(old);
            let after = byte_lines(new);
            &&& d.target == target
            &&& d.header.len() == 0
            &&& d.files.len() == 1
            &&& d.files[0].path == path
            &&& d.sections.len() == 1
            &&& d.sections[0].path == path
            &&& d.sections[0].body_start == 0
            &&& old_side(d.body) == token_texts(before, 0, before.len() as int)
            &&& new_side(d.body) == token_texts(after, 0, after.len() as int)
            &&& !d.flags.truncated
        }),
{
    let lines = file_view_lines(path, old, new, worktree_meta(old, new));
    law_the_file_view_holds_both_files(path, old, new, worktree_meta(old, new));
    let d = two_sided_document(target, path, old, new);
    assert(d.body =~= lines);
}

/// Paths in order rise: of two of them the later never comes before the earlier.
pub proof fn law_sorted_paths_rise(paths: Seq<Seq<char>>, i: int, j: int)
    requires
        texts_sorted(paths),
        0 <= i < j < paths.len(),
    ensures
        paths[i] == paths[j] || text_before(paths[i], paths[j]),
{
    lemma_text_before_total(paths[i], paths[j]);
}

/// A staged change is rendered as it is staged; an unstaged one is rendered as a change from
/// its index contents, and as a deletion exactly if the file is gone.
pub proof fn law_changes_are_rendered_as_they_are(s: StagedModel, u: UnstagedModel)
    ensures
        staged_item(s).path == s.path && staged_item(s).kind == s.kind && staged_item(s).is_file,
        unstaged_item(u).path == u.path && unstaged_item(u).is_file,
        u.removed ==> unstaged_item(u).kind == (ChangeKind::Deletion { oid: u.index_id }),
        !u.removed ==> (unstaged_item(u).kind matches ChangeKind::Modification {
            previous_oid: was,
            oid: _,
        } && was == u.index_id),
{
}

/// The body of the working tree has fixed titles, says what went wrong if the status could not
/// be had, and keeps one line for the untracked files only while they are still to come.
pub proof fn law_the_titles_of_the_working_tree(entries: Seq<ShortModel>, e: Seq<char>, keep: bool)
    ensures
        status_top(Ok(entries), keep)[0].text == "Working Tree Status"@,
        status_top(Ok(entries), keep).len() == 2 + short_lines(entries, keep).len(),
        status_top(Err(e), keep).len() == 3,
        status_top(Err(e), keep)[2] == line(DiffLineKind::Faint, "Status query failed: "@ + e),
        staged_title().len() == 3 && unstaged_title().len() == 3,
        staged_title()[1].text == "── Staged ──────────────────────────────────────────────"@,
        unstaged_title()[1].text == "── Unstaged ────────────────────────────────────────────"@,
        placeholder_lines(false).len() == 0,
        placeholder_lines(true).len() == 1,
        placeholder_lines(true)[0].text == "(scanning for untracked files…)"@,
        short_lines(Seq::empty(), false)[0].text == "Nothing to commit, working tree clean"@,
{
}

} // verus!
