//! What the worker's messages do to the viewer.

use crate::app::state::{
    less, opt_text, sat, smaller, BlameModel, DiffModel, LogModel, RefsModel, RowModel, StatusModel,
};
use crate::app::{App, AppModel, DiffState, LogRow};
use crate::git::refs::RefsMap;
use crate::git::walk::{copy_labels, refs_lower_from_refs, refs_lower_text};
use crate::git::{GitMsg, HistoryMsg, InspectMsg};
use crate::model::{
    BlameDocument, CommitModel, CommitRecord, DiffDocument, DiffLine, DiffLineKind, DiffTarget,
    DocumentModel, FileSection, LineModel, ObjectId, RefLabelModel, RepoInfo, SearchTextModel,
    SectionModel, line,
};
use vstd::prelude::*;
use vstd::string::StringExecFns;

verus! {

/// The lines that take the place of the untracked files' placeholder in a diff of `files`
/// files.
pub open spec fn untracked_lines(paths: Seq<Seq<char>>, files: usize) -> Seq<LineModel> {
    if paths.len() > 0 {
        paths.map_values(|p: Seq<char>| line(DiffLineKind::StatusTheirs, "?? "@ + p))
    } else if files == 0 {
        seq![line(DiffLineKind::Good, "Nothing to commit, working tree clean"@)]
    } else {
        Seq::empty()
    }
}

/// A section of a body in which `count` lines take the place of line `anchor`.
pub open spec fn shifted(section: SectionModel, anchor: int, count: int) -> SectionModel {
    if section.body_start > anchor {
        SectionModel { body_start: sat(section.body_start + count - 1) as usize, ..section }
    } else {
        section
    }
}

impl DocumentModel {
    /// The placeholder for the untracked files, if there is one, lies in the body.
    pub open spec fn anchor_fits(self) -> bool {
        self.untracked_anchor matches Some(a) ==> a < self.body.len()
    }

    /// The document with `lines` in the place of line `anchor` of its body.
    pub open spec fn spliced(self, anchor: int, lines: Seq<LineModel>) -> DocumentModel {
        DocumentModel {
            untracked_anchor: None,
            body: self.body.take(anchor) + lines + self.body.skip(anchor + 1),
            sections: self.sections.map_values(
                |s: SectionModel| shifted(s, anchor, lines.len() as int),
            ),
            ..self
        }
    }
}

impl DiffModel {
    /// The placeholders of the documents that the pane holds lie in their bodies.
    pub open spec fn anchors_fit(self) -> bool {
        &&& self.document matches Some(d) ==> d.anchor_fits()
        &&& self.file_view_return matches Some(r) ==> r.document.anchor_fits()
    }

    /// The untracked files of `target` are known. They take the place of the placeholder, if
    /// the pane shows `target` and still has one.
    pub open spec fn untracked_known(self, target: DiffTarget, paths: Seq<Seq<char>>) -> DiffModel {
        match self.document {
            Some(d) => if self.target == Some(target) && d.target == target
                && d.untracked_anchor is Some {
                DiffModel {
                    document: Some(
                        d.spliced(
                            d.untracked_anchor->0 as int,
                            untracked_lines(paths, d.stats.files),
                        ),
                    ),
                    ..self
                }.content_changed().refreshed()
            } else {
                self
            },
            None => self,
        }
    }
}

fn untracked_replacement(paths: Vec<String>, files: usize) -> (r: Vec<DiffLine>)
    ensures
        r.deep_view() == untracked_lines(paths.deep_view(), files),
{
    let mut out: Vec<DiffLine> = Vec::new();
    if paths.len() == 0 {
        if files == 0 {
            out.push(DiffLine::new(DiffLineKind::Good, "Nothing to commit, working tree clean"));
        }
        assert(out.deep_view() =~= untracked_lines(paths.deep_view(), files));
        return out;
    }
    let ghost all = paths.deep_view();
    let mut i: usize = 0;
    while i < paths.len()
        invariant
            i <= paths@.len(),
            all == paths.deep_view(),
            out@.len() == i,
            forall|j: int|
                0 <= j < i ==> (#[trigger] out@[j])@ == line(
                    DiffLineKind::StatusTheirs,
                    "?? "@ + all[j],
                ),
        decreases paths@.len() - i,
    {
        let mut text: String = "?? ".to_owned();
        text.append(paths[i].as_str());
        out.push(DiffLine { kind: DiffLineKind::StatusTheirs, text });
        i += 1;
    }
    assert(out.deep_view() =~= untracked_lines(all, files));
    out
}

fn shift_sections(sections: &mut Vec<FileSection>, anchor: usize, count: usize)
    ensures
        final(sections).deep_view() == old(sections).deep_view().map_values(
            |s: SectionModel| shifted(s, anchor as int, count as int),
        ),
{
    let ghost before = sections.deep_view();
    let mut i: usize = 0;
    while i < sections.len()
        invariant
            i <= sections@.len(),
            sections@.len() == before.len(),
            forall|j: int|
                0 <= j < i ==> (#[trigger] sections@[j])@ == shifted(
                    before[j],
                    anchor as int,
                    count as int,
                ),
            forall|j: int| i <= j < before.len() ==> (#[trigger] sections@[j])@ == before[j],
        decreases sections@.len() - i,
    {
        let at: usize = sections[i].body_start;
        assert(sections@[i as int]@ == before[i as int]);
        if at > anchor {
            let section: &mut FileSection = &mut sections[i];
            section.body_start = if count == 0 {
                at - 1
            } else {
                at.saturating_add(count - 1)
            };
        }
        i += 1;
    }
    assert(sections.deep_view() =~= before.map_values(
        |s: SectionModel| shifted(s, anchor as int, count as int),
    ));
}

fn splice_document(doc: &mut DiffDocument, anchor: usize, paths: Vec<String>)
    requires
        anchor < old(doc)@.body.len(),
    ensures
        final(doc)@ == old(doc)@.spliced(
            anchor as int,
            untracked_lines(paths.deep_view(), old(doc)@.stats.files),
        ),
{
    let ghost before = doc@;
    let ghost lines = untracked_lines(paths.deep_view(), doc.stats.files);
    let mut replacement: Vec<DiffLine> = untracked_replacement(paths, doc.stats.files);
    let count: usize = replacement.len();
    doc.untracked_anchor = None;
    let mut tail: Vec<DiffLine> = doc.body.split_off(anchor);
    tail.remove(0);
    doc.body.append(&mut replacement);
    doc.body.append(&mut tail);
    assert(doc.body.deep_view() =~= before.body.take(anchor as int) + lines + before.body.skip(
        anchor + 1,
    ));
    shift_sections(&mut doc.sections, anchor, count);
    assert(doc@ =~= before.spliced(anchor as int, lines));
}

impl DiffState {
    /// Puts the untracked files of `target` in the place of their placeholder.
    pub(crate) fn untracked_arrived(&mut self, target: DiffTarget, paths: Vec<String>)
        requires
            old(self)@.anchors_fit(),
        ensures
            final(self)@ == old(self)@.untracked_known(target, paths.deep_view()),
    {
        let shown: bool = match self.target {
            Some(t) => t == target,
            None => false,
        };
        if !shown {
            return;
        }
        let spliced: bool = match &mut self.document {
            Some(doc) => {
                if doc.target != target {
                    false
                } else if let Some(anchor) = doc.untracked_anchor {
                    splice_document(doc, anchor, paths);
                    true
                } else {
                    false
                }
            },
            None => false,
        };
        if spliced {
            self.forget_content();
            self.update_matches();
        }
    }
}

/// A row of the log with the labels of its commit, if it has some.
pub open spec fn row_labelled(row: RowModel, labels: Map<ObjectId, Seq<RefLabelModel>>) -> RowModel {
    match row {
        RowModel::Commit(c) => if labels.contains_key(c.id) {
            RowModel::Commit(
                CommitModel {
                    refs: labels[c.id],
                    search: SearchTextModel {
                        refs_lower: refs_lower_text(labels[c.id]),
                        ..c.search
                    },
                    ..c
                },
            )
        } else {
            row
        },
        _ => row,
    }
}

/// The rows with labels on the first `end` of them.
pub open spec fn labelled(
    rows: Seq<RowModel>,
    labels: Map<ObjectId, Seq<RefLabelModel>>,
    end: int,
) -> Seq<RowModel> {
    Seq::new(
        rows.len(),
        |i: int|
            if i < end {
                row_labelled(rows[i], labels)
            } else {
                rows[i]
            },
    )
}

fn label_row(row: &mut LogRow, refs_map: &RefsMap)
    requires
        refs_map.wf(),
    ensures
        final(row)@ == row_labelled(old(row)@, refs_map.labels()),
{
    let ghost before = row@;
    match row {
        LogRow::Commit(c) => {
            if let Some(labels) = refs_map.get(c.id) {
                c.refs = copy_labels(labels);
                c.search.refs_lower = refs_lower_from_refs(&c.refs);
            }
        },
        _ => {},
    }
    assert(row@ =~= row_labelled(before, refs_map.labels()));
}

fn label_rows(rows: &mut Vec<LogRow>, refs_map: &RefsMap, end: usize)
    requires
        refs_map.wf(),
    ensures
        final(rows).deep_view() == labelled(
            old(rows).deep_view(),
            refs_map.labels(),
            end as int,
        ),
{
    let ghost before = rows.deep_view();
    let mut i: usize = 0;
    while i < rows.len() && i < end
        invariant
            i <= rows@.len(),
            i <= end,
            refs_map.wf(),
            rows@.len() == before.len(),
            forall|j: int|
                0 <= j < i ==> (#[trigger] rows@[j])@ == row_labelled(
                    before[j],
                    refs_map.labels(),
                ),
            forall|j: int| i <= j < before.len() ==> (#[trigger] rows@[j])@ == before[j],
        decreases rows@.len() - i,
    {
        assert(rows@[i as int]@ == before[i as int]);
        label_row(&mut rows[i], refs_map);
        i += 1;
    }
    assert(rows.deep_view() =~= labelled(before, refs_map.labels(), end as int));
}

/// The rows of commits.
pub open spec fn commit_rows(commits: Seq<CommitModel>) -> Seq<RowModel> {
    commits.map_values(|c: CommitModel| RowModel::Commit(c))
}

fn push_commits(rows: &mut Vec<LogRow>, commits: Vec<CommitRecord>)
    ensures
        final(rows).deep_view() == old(rows).deep_view() + commit_rows(commits.deep_view()),
{
    let ghost before = rows.deep_view();
    let ghost raw = commits@;
    let ghost all = commits.deep_view();
    assert(rows.deep_view() =~= before + commit_rows(all.take(0)));
    for commit in it: commits
        invariant
            it.seq() == raw,
            all == Seq::new(raw.len(), |i: int| raw[i]@),
            rows.deep_view() == before + commit_rows(all.take(it.index() as int)),
    {
        let ghost so_far = rows.deep_view();
        let ghost c = commit@;
        rows.push(LogRow::Commit(commit));
        proof {
            assert(rows.deep_view() =~= so_far.push(RowModel::Commit(c)));
            assert(all.take(it.index() + 1) =~= all.take(it.index() as int).push(c));
            assert(rows.deep_view() =~= before + commit_rows(all.take(it.index() + 1)));
        }
    }
    assert(all.take(all.len() as int) =~= all);
}

/// The view of what a blame came to.
pub open spec fn blame_result(r: Result<BlameDocument, String>) -> Result<
    crate::app::state::BlameDocumentModel,
    Seq<char>,
> {
    match r {
        Ok(d) => Ok(d@),
        Err(e) => Err(e@),
    }
}

impl BlameModel {
    /// A blame has come to `result`. A document takes the place of the one shown, and the
    /// place to come back to is kept; an error leaves the document as it is.
    pub open spec fn settled(
        self,
        result: Result<crate::app::state::BlameDocumentModel, Seq<char>>,
    ) -> BlameModel {
        match result {
            Ok(document) => BlameModel {
                loading: false,
                history: match self.pending_return {
                    Some(p) => self.history.push(p),
                    None => self.history,
                },
                pending_return: None,
                document: Some(document),
                error: None,
                selected: 0,
                scroll: 0,
                ..self
            },
            Err(e) => BlameModel {
                loading: false,
                pending_return: None,
                error: Some(e),
                ..self
            },
        }
    }
}

/// A message that the worker may send: its labels are sorted, and the placeholders of its
/// documents lie in their bodies.
pub open spec fn message_fits(msg: GitMsg) -> bool {
    match msg {
        GitMsg::History(HistoryMsg::RefsLoaded { refs_map, .. }) => refs_map.wf(),
        GitMsg::Inspect(InspectMsg::DiffLoaded { document, .. }) => document@.anchor_fits(),
        GitMsg::Inspect(InspectMsg::FileDiffLoaded { document, .. }) => document@.anchor_fits(),
        _ => true,
    }
}

/// Whether the placeholder of the document, if it has one, lies in its body.
fn anchor_in_body(document: &DiffDocument) -> (r: bool)
    ensures
        r == document@.anchor_fits(),
{
    match document.untracked_anchor {
        Some(anchor) => anchor < document.body.len(),
        None => true,
    }
}

/// Whether the viewer can take the message.
pub fn can_apply(msg: &GitMsg) -> (r: bool)
    ensures
        r == message_fits(*msg),
{
    match msg {
        GitMsg::History(HistoryMsg::RefsLoaded { refs_map, .. }) => refs_map.is_ordered(),
        GitMsg::Inspect(InspectMsg::DiffLoaded { document, .. }) => anchor_in_body(document),
        GitMsg::Inspect(InspectMsg::FileDiffLoaded { document, .. }) => anchor_in_body(document),
        _ => true,
    }
}

impl AppModel {
    /// A batch of commits has come: rows and matches grow by it.
    #[verifier::opaque]
    pub open spec fn commits_arrived(self, commits: Seq<CommitModel>) -> AppModel {
        AppModel {
            log: LogModel { rows: self.log.rows + commit_rows(commits), ..self.log },
            ..self
        }.commit_matches_extended(self.log.rows.len() as int)
    }

    /// The labels have come, behind the first `first` commits.
    #[verifier::opaque]
    pub open spec fn labels_arrived(
        self,
        labels: Map<ObjectId, Seq<RefLabelModel>>,
        first: int,
    ) -> AppModel {
        AppModel {
            log: LogModel { rows: labelled(self.log.rows, labels, first + 1), ..self.log },
            ..self
        }
    }

    /// What is known of the repository is `info`.
    pub open spec fn repo_known(self, info: RepoInfo) -> AppModel {
        AppModel {
            repo_name: info.name@,
            branch_name: info.branch@,
            path_filter: opt_text(info.path_filter),
            ..self
        }
    }

    /// The viewer behind a message of the history side. Those of another walk are dropped.
    #[verifier::opaque]
    pub open spec fn history_told(self, msg: HistoryMsg) -> AppModel {
        match msg {
            HistoryMsg::RepoInfo(info) => self.repo_known(info),
            HistoryMsg::Commits { generation, commits } => if generation == self.walk_gen {
                self.commits_arrived(commits.deep_view())
            } else {
                self
            },
            HistoryMsg::WalkDone { generation } => if generation == self.walk_gen {
                AppModel { walk_done: true, ..self }
            } else {
                self
            },
            HistoryMsg::RefsLoaded { generation, refs_map, first_batch_rows } => if generation
                == self.walk_gen {
                self.labels_arrived(refs_map.labels(), first_batch_rows as int)
            } else {
                self
            },
            HistoryMsg::Error(e) => AppModel { error: Some(e@), walk_done: true, ..self },
        }
    }

    /// What is known of the working tree has come. An unknown `dirty` leaves the mark as it
    /// is.
    #[verifier::opaque]
    pub open spec fn tree_known(self, author: Seq<char>, dirty: Option<bool>) -> AppModel {
        if self.log.rows.len() > 0 && self.log.rows[0] is WorkingTree {
            AppModel {
                log: LogModel {
                    rows: self.log.rows.update(
                        0,
                        RowModel::WorkingTree {
                            author,
                            dirty: if dirty is Some {
                                dirty
                            } else {
                                self.log.rows[0]->dirty
                            },
                        },
                    ),
                    ..self.log
                },
                ..self
            }
        } else {
            self
        }
    }

    /// The list of refs has come.
    #[verifier::opaque]
    pub open spec fn refs_listed(
        self,
        entries: Seq<crate::git::refs::RefEntryModel>,
    ) -> AppModel {
        AppModel {
            refs: RefsModel {
                loading: false,
                entries,
                selected: smaller(self.refs.selected, less(entries.len() as int, 1)),
                ..self.refs
            },
            ..self
        }
    }

    /// The viewer behind a message of the inspect side. Replies to superseded requests are
    /// dropped.
    #[verifier::opaque]
    pub open spec fn inspect_told(self, msg: InspectMsg) -> AppModel {
        match msg {
            InspectMsg::DiffLoaded { seq, document } => if seq == self.diff_seq
                && self.diff.target == Some(document.target) {
                self.with_diff(self.diff.document_shown(document@))
            } else {
                self
            },
            InspectMsg::FileDiffLoaded { seq, document } => if seq == self.diff_seq
                && self.diff.open && self.diff.target == Some(document.target) {
                self.with_diff(self.diff.file_view_shown(document@))
            } else {
                self
            },
            InspectMsg::StatusLoaded(document) => AppModel {
                status: StatusModel {
                    loading: false,
                    document: Some(document.lines.deep_view()),
                    ..self.status
                },
                ..self
            },
            InspectMsg::RefsListLoaded(entries) => self.refs_listed(entries.deep_view()),
            InspectMsg::BlameLoaded { seq, result } => if seq == self.blame_seq {
                AppModel { blame: self.blame.settled(blame_result(result)), ..self }
            } else {
                self
            },
            InspectMsg::WorkingTreeMeta { author, dirty, staged: _ } => self.tree_known(
                author@,
                dirty,
            ),
            InspectMsg::UntrackedFilesUpdate { target, seq, paths } => if seq == self.diff_seq {
                self.with_diff(self.diff.untracked_known(target, paths.deep_view()))
            } else {
                self
            },
        }
    }

    /// The viewer behind a message of the worker.
    pub open spec fn told(self, msg: GitMsg) -> AppModel {
        match msg {
            GitMsg::History(m) => self.history_told(m),
            GitMsg::Inspect(m) => self.inspect_told(m),
        }
    }
}

impl crate::app::BlameState {
    fn settle(&mut self, result: Result<BlameDocument, String>)
        ensures
            final(self)@ == old(self)@.settled(blame_result(result)),
    {
        self.loading = false;
        match result {
            Ok(document) => {
                let ghost before = self@.history;
                if let Some(place) = self.pending_return.take() {
                    let ghost p = place@;
                    self.history.push(place);
                    assert(self.history.deep_view() =~= before.push(p));
                }
                self.document = Some(document);
                self.error = None;
                self.selected = 0;
                self.scroll = 0;
            },
            Err(message) => {
                self.pending_return = None;
                self.error = Some(message);
            },
        }
    }
}

impl App {
    /// Does what a message of the worker asks for.
    pub fn apply_msg(&mut self, msg: GitMsg)
        requires
            message_fits(msg),
            old(self)@.diff.anchors_fit(),
        ensures
            final(self)@ == old(self)@.told(msg),
            final(self)@.diff.anchors_fit(),
    {
        match msg {
            GitMsg::History(m) => {
                proof {
                    lemma_history_keeps_diff(self@, m);
                }
                self.apply_history_msg(m);
            },
            GitMsg::Inspect(m) => {
                proof {
                    lemma_inspect_keeps_anchors(self@, m);
                }
                self.apply_inspect_msg(m);
            },
        }
    }

    fn add_commits(&mut self, commits: Vec<CommitRecord>)
        ensures
            final(self)@ == old(self)@.commits_arrived(commits.deep_view()),
    {
        proof {
            reveal(AppModel::commits_arrived);
        }
        let before: usize = self.log.rows.len();
        let ghost rows = self.log.rows.deep_view();
        push_commits(&mut self.log.rows, commits);
        assert(self.log.rows.deep_view().len() >= rows.len());
        self.extend_commit_matches(before);
    }

    fn add_labels(&mut self, refs_map: &RefsMap, first: usize)
        requires
            refs_map.wf(),
        ensures
            final(self)@ == old(self)@.labels_arrived(refs_map.labels(), first as int),
    {
        proof {
            reveal(AppModel::labels_arrived);
        }
        let ghost before = self@.log.rows;
        let end: usize = first.saturating_add(1);
        assert(before.len() == self.log.rows.len());
        label_rows(&mut self.log.rows, refs_map, end);
        assert(self@.log.rows =~= labelled(before, refs_map.labels(), first + 1));
    }

    /// Does what a message of the history side asks for.
    pub fn apply_history_msg(&mut self, msg: HistoryMsg)
        requires
            message_fits(GitMsg::History(msg)),
        ensures
            final(self)@ == old(self)@.history_told(msg),
    {
        proof {
            reveal(AppModel::history_told);
        }
        match msg {
            HistoryMsg::RepoInfo(info) => {
                self.repo_name = info.name;
                self.branch_name = info.branch;
                self.path_filter = info.path_filter;
            },
            HistoryMsg::Commits { generation, commits } => {
                if generation == self.walk_gen {
                    self.add_commits(commits);
                }
            },
            HistoryMsg::WalkDone { generation } => {
                if generation == self.walk_gen {
                    self.walk_done = true;
                }
            },
            HistoryMsg::RefsLoaded { generation, refs_map, first_batch_rows } => {
                if generation == self.walk_gen {
                    self.add_labels(&refs_map, first_batch_rows);
                }
            },
            HistoryMsg::Error(e) => {
                self.error = Some(e);
                self.walk_done = true;
            },
        }
    }

    fn show_diff(&mut self, seq: u64, document: DiffDocument)
        ensures
            final(self)@ == (if seq == old(self)@.diff_seq && old(self)@.diff.target == Some(
                document.target,
            ) {
                old(self)@.with_diff(old(self)@.diff.document_shown(document@))
            } else {
                old(self)@
            }),
    {
        if seq == self.diff_seq {
            if let Some(target) = self.diff.target {
                if target == document.target {
                    self.diff.show_document(document);
                }
            }
        }
    }

    fn show_file_diff(&mut self, seq: u64, document: DiffDocument)
        ensures
            final(self)@ == (if seq == old(self)@.diff_seq && old(self)@.diff.open
                && old(self)@.diff.target == Some(document.target) {
                old(self)@.with_diff(old(self)@.diff.file_view_shown(document@))
            } else {
                old(self)@
            }),
    {
        if seq == self.diff_seq && self.diff.open {
            if let Some(target) = self.diff.target {
                if target == document.target {
                    self.diff.show_file_view(document);
                }
            }
        }
    }

    fn set_tree_meta(&mut self, author: String, dirty: Option<bool>)
        ensures
            final(self)@ == old(self)@.tree_known(author@, dirty),
    {
        proof {
            reveal(AppModel::tree_known);
        }
        let ghost before = self@.log.rows;
        let ghost name = author@;
        if self.log.rows.len() > 0 {
            assert(before[0] == self.log.rows@[0]@);
            set_row_meta(&mut self.log.rows[0], author, dirty);
            assert(self@.log.rows =~= before.update(0, self.log.rows@[0]@));
            assert(before[0] !is WorkingTree ==> self@.log.rows =~= before);
        }
    }

    fn set_refs(&mut self, entries: Vec<crate::model::RefEntry>)
        ensures
            final(self)@ == old(self)@.refs_listed(entries.deep_view()),
    {
        proof {
            reveal(AppModel::refs_listed);
        }
        let last: usize = entries.len().saturating_sub(1);
        self.refs.loading = false;
        self.refs.entries = entries;
        if self.refs.selected > last {
            self.refs.selected = last;
        }
    }

    /// Does what a message of the inspect side asks for.
    pub fn apply_inspect_msg(&mut self, msg: InspectMsg)
        requires
            message_fits(GitMsg::Inspect(msg)),
            old(self)@.diff.anchors_fit(),
        ensures
            final(self)@ == old(self)@.inspect_told(msg),
    {
        proof {
            reveal(AppModel::inspect_told);
        }
        match msg {
            InspectMsg::DiffLoaded { seq, document } => {
                self.show_diff(seq, document);
            },
            InspectMsg::FileDiffLoaded { seq, document } => {
                self.show_file_diff(seq, document);
            },
            InspectMsg::StatusLoaded(document) => {
                self.status.loading = false;
                self.status.document = Some(document);
            },
            InspectMsg::RefsListLoaded(entries) => {
                self.set_refs(entries);
            },
            InspectMsg::BlameLoaded { seq, result } => {
                if seq == self.blame_seq {
                    self.blame.settle(result);
                }
            },
            InspectMsg::WorkingTreeMeta { author, dirty, staged: _ } => {
                self.set_tree_meta(author, dirty);
            },
            InspectMsg::UntrackedFilesUpdate { target, seq, paths } => {
                self.apply_untracked_update(target, seq, paths);
            },
        }
    }

    /// Puts the untracked files of `target` in the place of their placeholder, if they belong
    /// to the newest diff request.
    pub fn apply_untracked_update(&mut self, target: DiffTarget, seq: u64, paths: Vec<String>)
        requires
            old(self)@.diff.anchors_fit(),
        ensures
            final(self)@ == (if seq == old(self)@.diff_seq {
                old(self)@.with_diff(
                    old(self)@.diff.untracked_known(target, paths.deep_view()),
                )
            } else {
                old(self)@
            }),
    {
        if seq == self.diff_seq {
            self.diff.untracked_arrived(target, paths);
        }
    }
}

fn set_row_meta(row: &mut LogRow, author: String, dirty: Option<bool>)
    ensures
        final(row)@ == (match old(row)@ {
            RowModel::WorkingTree { author: _, dirty: was } => RowModel::WorkingTree {
                author: author@,
                dirty: if dirty is Some {
                    dirty
                } else {
                    was
                },
            },
            _ => old(row)@,
        }),
{
    match row {
        LogRow::WorkingTree(w) => {
            w.author = author;
            if dirty.is_some() {
                w.dirty = dirty;
            }
        },
        _ => {},
    }
}

proof fn lemma_history_keeps_diff(app: AppModel, msg: HistoryMsg)
    ensures
        app.history_told(msg).diff == app.diff,
{
    reveal(AppModel::history_told);
    reveal(AppModel::commits_arrived);
    reveal(AppModel::commit_matches_extended);
    reveal(AppModel::labels_arrived);
}

proof fn lemma_inspect_keeps_anchors(app: AppModel, msg: InspectMsg)
    requires
        message_fits(GitMsg::Inspect(msg)),
        app.diff.anchors_fit(),
    ensures
        app.inspect_told(msg).diff.anchors_fit(),
{
    reveal(AppModel::inspect_told);
    reveal(AppModel::tree_known);
    reveal(AppModel::refs_listed);
}

/// What belongs to an older walk, or answers a superseded request, changes nothing.
pub proof fn law_stale_messages_are_dropped(app: AppModel, msg: GitMsg)
    requires
        match msg {
            GitMsg::History(HistoryMsg::Commits { generation, .. }) => generation
                != app.walk_gen,
            GitMsg::History(HistoryMsg::WalkDone { generation }) => generation != app.walk_gen,
            GitMsg::History(HistoryMsg::RefsLoaded { generation, .. }) => generation
                != app.walk_gen,
            GitMsg::Inspect(InspectMsg::DiffLoaded { seq, document }) => seq != app.diff_seq
                || app.diff.target != Some(document.target),
            GitMsg::Inspect(InspectMsg::FileDiffLoaded { seq, document }) => seq != app.diff_seq
                || !app.diff.open || app.diff.target != Some(document.target),
            GitMsg::Inspect(InspectMsg::BlameLoaded { seq, .. }) => seq != app.blame_seq,
            GitMsg::Inspect(InspectMsg::UntrackedFilesUpdate { target, seq, .. }) => seq
                != app.diff_seq || app.diff.target != Some(target),
            _ => false,
        },
    ensures
        app.told(msg) == app,
{
    reveal(AppModel::history_told);
    reveal(AppModel::inspect_told);
}

/// The log has the working-tree row on top, and commits below it.
pub open spec fn tree_on_top(rows: Seq<RowModel>) -> bool {
    &&& rows.len() > 0
    &&& rows[0] is WorkingTree
    &&& forall|i: int| 0 < i < rows.len() ==> (#[trigger] rows[i]) is Commit
}

/// The log has the working-tree row on top and commits below it: from the start, behind
/// every message, and behind every reload. So all its rows but one are commits.
pub proof fn law_working_tree_stays_on_top(app: AppModel, msg: GitMsg, root: Option<ObjectId>)
    requires
        tree_on_top(app.log.rows),
    ensures
        tree_on_top(crate::app::fresh_app().log.rows),
        tree_on_top(app.told(msg).log.rows),
        tree_on_top(app.reloading(root).log.rows),
{
    reveal(AppModel::history_told);
    reveal(AppModel::inspect_told);
    reveal(AppModel::commits_arrived);
    reveal(AppModel::commit_matches_extended);
    reveal(AppModel::labels_arrived);
    reveal(AppModel::tree_known);
    reveal(AppModel::refs_listed);
    reveal(AppModel::reloading);
    let rows = app.log.rows;
    assert forall|labels: Map<ObjectId, Seq<RefLabelModel>>, end: int|
        tree_on_top(#[trigger] labelled(rows, labels, end)) by {
        let after = labelled(rows, labels, end);
        assert forall|i: int| 0 < i < after.len() implies (#[trigger] after[i]) is Commit by {
            assert(rows[i] is Commit);
        }
    }
}

/// The untracked files come once: a second update of the same diff changes nothing.
pub proof fn law_untracked_files_come_once(
    d: DiffModel,
    target: DiffTarget,
    first: Seq<Seq<char>>,
    second: Seq<Seq<char>>,
)
    requires
        d.target == Some(target),
        d.document is Some,
        d.document->0.target == target,
    ensures
        d.untracked_known(target, first).untracked_known(target, second)
            == d.untracked_known(target, first),
{
}

/// The update leaves every file's section on the line it started with.
pub proof fn law_untracked_files_move_sections(
    d: DocumentModel,
    anchor: int,
    lines: Seq<LineModel>,
    i: int,
)
    requires
        0 <= anchor < d.body.len(),
        0 <= i < d.sections.len(),
        d.sections[i].body_start < d.body.len(),
        d.sections[i].body_start != anchor,
        d.sections[i].body_start + lines.len() <= usize::MAX,
    ensures
        d.spliced(anchor, lines).sections[i].path == d.sections[i].path,
        d.spliced(anchor, lines).body[d.spliced(anchor, lines).sections[i].body_start as int]
            == d.body[d.sections[i].body_start as int],
{
}

/// The lowercase mirrors that searches read are those of the document shown, whatever
/// document comes, and whatever view opens or closes.
pub proof fn law_mirrors_follow_the_document(
    d: DiffModel,
    document: DocumentModel,
    target: DiffTarget,
    paths: Seq<Seq<char>>,
)
    requires
        d.lower_is_current(),
    ensures
        d.refreshed().lower_is_current(),
        d.document_shown(document).lower_is_current(),
        d.file_view_shown(document).lower_is_current(),
        d.file_view_closed().lower_is_current(),
        d.untracked_known(target, paths).lower_is_current(),
        d.turned_to(target).lower_is_current(),
        d.emptied().lower_is_current(),
{
}

/// A blame that failed leaves the document, the cursor and the way back as they are.
pub proof fn law_failed_blame_keeps_the_view(b: BlameModel, message: Seq<char>)
    ensures
        b.settled(Err(message)).document == b.document,
        b.settled(Err(message)).selected == b.selected,
        b.settled(Err(message)).scroll == b.scroll,
        b.settled(Err(message)).history == b.history,
        b.settled(Err(message)).pending_return is None,
{
}

/// Each untracked file gets one line that ends in its path, in order. If there is none and
/// nothing else changed, the tree is said to be clean.
pub proof fn law_each_untracked_file_has_a_line(paths: Seq<Seq<char>>, files: usize, i: int)
    ensures
        0 <= i < paths.len() ==> {
            let lines = untracked_lines(paths, files);
            &&& lines.len() == paths.len()
            &&& lines[i].kind == DiffLineKind::StatusTheirs
            &&& lines[i].text == seq!['?', '?', ' '] + paths[i]
        },
        paths.len() == 0 && files > 0 ==> untracked_lines(paths, files).len() == 0,
        paths.len() == 0 && files == 0 ==> untracked_lines(paths, files).len() == 1
            && untracked_lines(paths, files)[0].kind == DiffLineKind::Good,
{
    reveal_strlit("?? ");
    assert("?? "@ =~= seq!['?', '?', ' ']);
}

/// The lines of the untracked files take the place of the one that stood for them; all other
/// lines stay, in order, and so does everything else.
pub proof fn law_untracked_files_take_the_place_kept(
    d: DocumentModel,
    anchor: int,
    lines: Seq<LineModel>,
    i: int,
)
    requires
        0 <= anchor < d.body.len(),
    ensures
        ({
            let n = d.spliced(anchor, lines);
            &&& n.body.len() == d.body.len() - 1 + lines.len()
            &&& 0 <= i < anchor ==> n.body[i] == d.body[i]
            &&& 0 <= i < lines.len() ==> n.body[anchor + i] == lines[i]
            &&& anchor < i < d.body.len() ==> n.body[i + lines.len() - 1] == d.body[i]
            &&& n.untracked_anchor is None
            &&& n.header == d.header
            &&& n.files == d.files
            &&& n.stats == d.stats
            &&& n.target == d.target
            &&& n.sections.len() == d.sections.len()
        }),
{
}

/// New labels replace those of their commit, in the log and in what is searched, and change
/// nothing else; rows past the first batch keep their own.
pub proof fn law_labels_reach_the_first_rows(
    m: AppModel,
    labels: Map<ObjectId, Seq<RefLabelModel>>,
    first: int,
    i: int,
)
    requires
        0 <= i < m.log.rows.len(),
    ensures
        ({
            let n = m.labels_arrived(labels, first);
            &&& n.log.rows.len() == m.log.rows.len()
            &&& i > first ==> n.log.rows[i] == m.log.rows[i]
            &&& i <= first ==> (m.log.rows[i] matches RowModel::Commit(c) ==> {
                &&& !labels.contains_key(c.id) ==> n.log.rows[i] == m.log.rows[i]
                &&& labels.contains_key(c.id) ==> (n.log.rows[i] matches RowModel::Commit(r) && r.id
                    == c.id && r.refs == labels[c.id] && r.search.refs_lower == refs_lower_text(
                    labels[c.id],
                ) && r.search.summary_lower == c.search.summary_lower && r.search.author_lower
                    == c.search.author_lower && r.summary == c.summary && r.author == c.author
                    && r.graph == c.graph)
            })
            &&& m.log.rows[i] !is Commit ==> n.log.rows[i] == m.log.rows[i]
            &&& n.log.selected == m.log.selected
        }),
{
    reveal(AppModel::labels_arrived);
}

/// Commits that arrive are added below the rows that are there, in order; the selection stays.
pub proof fn law_commits_are_added_at_the_end(m: AppModel, commits: Seq<CommitModel>, i: int)
    ensures
        ({
            let n = m.commits_arrived(commits);
            &&& n.log.rows.len() == m.log.rows.len() + commits.len()
            &&& 0 <= i < m.log.rows.len() ==> n.log.rows[i] == m.log.rows[i]
            &&& 0 <= i < commits.len() ==> n.log.rows[m.log.rows.len() + i] == RowModel::Commit(
                commits[i],
            )
            &&& n.log.selected == m.log.selected
            &&& n.log.scroll == m.log.scroll
        }),
{
    reveal(AppModel::commits_arrived);
    reveal(AppModel::commit_matches_extended);
}

/// A blame that arrives is shown from its first line, without the error of an earlier one,
/// and the place that was left for it is the first on the way back.
pub proof fn law_a_blame_is_shown_from_its_first_line(
    b: BlameModel,
    document: crate::app::state::BlameDocumentModel,
)
    ensures
        ({
            let n = b.settled(Ok(document));
            &&& n.document == Some(document)
            &&& !n.loading
            &&& n.error is None
            &&& n.selected == 0
            &&& n.scroll == 0
            &&& n.pending_return is None
            &&& b.pending_return matches Some(p) ==> n.history == b.history.push(p)
            &&& b.pending_return is None ==> n.history == b.history
            &&& n.open == b.open
        }),
        forall|message: Seq<char>| #[trigger] b.settled(Err(message)).error == Some(message),
        forall|message: Seq<char>| !(#[trigger] b.settled(Err(message))).loading,
{
}

/// The selection of the refs view stays within the refs that arrive.
pub proof fn law_the_selected_ref_stays_within_the_list(
    m: AppModel,
    entries: Seq<crate::git::refs::RefEntryModel>,
)
    requires
        0 <= m.refs.selected,
    ensures
        ({
            let n = m.refs_listed(entries);
            &&& n.refs.entries == entries
            &&& !n.refs.loading
            &&& entries.len() > 0 ==> n.refs.selected < entries.len()
            &&& m.refs.selected < entries.len() ==> n.refs.selected == m.refs.selected
            &&& n.log == m.log
        }),
{
    reveal(AppModel::refs_listed);
}

/// What is known of the working tree goes into its row and nowhere else; an unknown state
/// leaves the known one.
pub proof fn law_the_tree_row_tells_its_state(m: AppModel, author: Seq<char>, dirty: Option<bool>)
    requires
        m.log.rows.len() > 0,
        m.log.rows[0] is WorkingTree,
    ensures
        ({
            let n = m.tree_known(author, dirty);
            &&& n.log.rows.len() == m.log.rows.len()
            &&& n.log.rows.skip(1) == m.log.rows.skip(1)
            &&& n.log.rows[0] matches RowModel::WorkingTree { author: a, dirty: d } && a == author
                && (dirty is Some ==> d == dirty) && (dirty is None ==> (
            m.log.rows[0] matches RowModel::WorkingTree { author: _, dirty: known } ==> d == known))
        }),
{
    reveal(AppModel::tree_known);
    assert(m.tree_known(author, dirty).log.rows.skip(1) =~= m.log.rows.skip(1));
}

/// The walk's messages of the present number take effect: the end of the walk is noted, and an
/// error ends it and is shown.
pub proof fn law_the_walk_reports_its_end(m: AppModel, e: String)
    ensures
        m.history_told(HistoryMsg::WalkDone { generation: m.walk_gen }) == (AppModel {
            walk_done: true,
            ..m
        }),
        m.history_told(HistoryMsg::Error(e)).error == Some(e@),
        m.history_told(HistoryMsg::Error(e)).walk_done,
        m.history_told(HistoryMsg::Error(e)).log == m.log,
{
    reveal(AppModel::history_told);
}

} // verus!
