//! The worker's decisions: which requests of a burst are served, what each one
//! asks for, and when the walk goes on.

use crate::git::inspect::{BlameAt, InspectMsg, InspectReq, InspectReqModel};
use crate::git::history::{HistoryMsg, HistoryReq};
use crate::git::{GitMsg, GitReq, GitReqModel};
use crate::model::{DiffDocument, DiffTarget, ObjectId, PathFilter, RepoInfo};
use vstd::prelude::*;
use vstd::string::StringExecFns;

verus! {

/// Commits of the first batch: few, for a fast first paint.
pub const INITIAL_BATCH: usize = 64;

/// Commits of each further batch.
pub const PAGE_BATCH: usize = 256;

/// Whether the request asks for a diff.
pub open spec fn is_load_diff(req: GitReq) -> bool {
    req matches GitReq::Inspect(InspectReq::LoadDiff { .. })
}

/// The requests of a burst that are served: of those for a diff only the newest, of the
/// others all, in order. `seen` says that a newer diff is asked for behind `reqs`.
pub open spec fn coalesced(reqs: Seq<GitReq>, seen: bool) -> Seq<GitReq>
    decreases reqs.len(),
{
    if reqs.len() == 0 {
        Seq::empty()
    } else if is_load_diff(reqs.last()) {
        if seen {
            coalesced(reqs.drop_last(), true)
        } else {
            coalesced(reqs.drop_last(), true).push(reqs.last())
        }
    } else {
        coalesced(reqs.drop_last(), seen).push(reqs.last())
    }
}

fn asks_for_diff(req: &GitReq) -> (r: bool)
    ensures
        r == is_load_diff(*req),
{
    match req {
        GitReq::Inspect(InspectReq::LoadDiff { .. }) => true,
        _ => false,
    }
}

proof fn lemma_coalesced_without(reqs: Seq<GitReq>, seen: bool)
    requires
        forall|i: int| 0 <= i < reqs.len() ==> !is_load_diff(#[trigger] reqs[i]),
    ensures
        coalesced(reqs, seen) == reqs,
    decreases reqs.len(),
{
    if reqs.len() > 0 {
        lemma_coalesced_without(reqs.drop_last(), seen);
        assert(reqs.drop_last().push(reqs.last()) =~= reqs);
    } else {
        assert(reqs =~= Seq::empty());
    }
}

proof fn lemma_coalesced_tail(reqs: Seq<GitReq>, tail: Seq<GitReq>, seen: bool)
    requires
        forall|i: int| 0 <= i < tail.len() ==> !is_load_diff(#[trigger] tail[i]),
    ensures
        coalesced(reqs + tail, seen) == coalesced(reqs, seen) + tail,
    decreases tail.len(),
{
    if tail.len() == 0 {
        assert(reqs + tail =~= reqs);
        assert(coalesced(reqs, seen) + tail =~= coalesced(reqs, seen));
    } else {
        lemma_coalesced_tail(reqs, tail.drop_last(), seen);
        assert((reqs + tail).drop_last() =~= reqs + tail.drop_last());
        assert(coalesced(reqs + tail, seen) =~= coalesced(reqs, seen) + tail);
    }
}

/// Drops every request for a diff but the newest one; the others keep their order.
pub fn coalesce_requests(batch: &mut Vec<GitReq>)
    ensures
        final(batch)@ == coalesced(old(batch)@, false),
{
    let ghost start = batch@;
    let n: usize = batch.len();
    let mut last: usize = n;
    let mut i: usize = n;
    while i > 0 && last == n
        invariant
            i <= n == batch@.len(),
            last <= n,
            batch@ == start,
            last == n ==> forall|j: int| i <= j < n ==> !is_load_diff(#[trigger] batch@[j]),
            last < n ==> {
                &&& last == i
                &&& is_load_diff(batch@[last as int])
                &&& forall|j: int| last < j < n ==> !is_load_diff(#[trigger] batch@[j])
            },
        decreases i,
    {
        i -= 1;
        if asks_for_diff(&batch[i]) {
            last = i;
        }
    }
    if last == n {
        proof {
            lemma_coalesced_without(start, false);
        }
        return;
    }
    let mut tail: Vec<GitReq> = batch.split_off(last);
    let ghost head = batch@;
    let ghost newest = tail@;
    assert(head =~= start.take(last as int));
    assert(newest =~= start.skip(last as int));
    proof {
        let one = seq![newest[0]];
        let rest = newest.skip(1);
        assert(start =~= (head + one) + rest);
        assert forall|j: int| 0 <= j < rest.len() implies !is_load_diff(#[trigger] rest[j]) by {
            assert(rest[j] == start[last + 1 + j]);
        }
        lemma_coalesced_tail(head + one, rest, false);
        assert((head + one).drop_last() =~= head);
        assert(coalesced(head + one, false) == coalesced(head, true).push(newest[0]));
        assert(coalesced(head, true).push(newest[0]) + rest =~= coalesced(head, true) + newest);
    }
    let mut kept: Vec<GitReq> = Vec::new();
    let mut old_head: Vec<GitReq> = Vec::new();
    old_head.append(batch);
    assert(old_head@ =~= head);
    assert(head.take(0) =~= Seq::empty());
    for req in it: old_head
        invariant
            it.seq() == head,
            kept@ == coalesced(head.take(it.index() as int), true),
    {
        proof {
            assert(head.take(it.index() + 1).drop_last() =~= head.take(it.index() as int));
        }
        if !asks_for_diff(&req) {
            kept.push(req);
        }
    }
    assert(head.take(head.len() as int) =~= head);
    batch.append(&mut kept);
    batch.append(&mut tail);
    assert(batch@ =~= coalesced(head, true) + newest);
}

/// How many of `reqs` ask for a diff.
pub open spec fn count_load_diff(reqs: Seq<GitReq>) -> nat
    decreases reqs.len(),
{
    if reqs.len() == 0 {
        0
    } else {
        count_load_diff(reqs.drop_last()) + if is_load_diff(reqs.last()) {
            1nat
        } else {
            0nat
        }
    }
}

/// Those of `reqs` that do not ask for a diff, in order.
pub open spec fn other_requests(reqs: Seq<GitReq>) -> Seq<GitReq>
    decreases reqs.len(),
{
    if reqs.len() == 0 {
        Seq::empty()
    } else if is_load_diff(reqs.last()) {
        other_requests(reqs.drop_last())
    } else {
        other_requests(reqs.drop_last()).push(reqs.last())
    }
}

/// Of a burst, one request for a diff is served if there is any, and all other requests
/// are, in order.
pub proof fn law_coalescing_keeps_one_diff(reqs: Seq<GitReq>, seen: bool)
    ensures
        count_load_diff(coalesced(reqs, seen)) == if seen || count_load_diff(reqs) == 0 {
            0nat
        } else {
            1nat
        },
        other_requests(coalesced(reqs, seen)) == other_requests(reqs),
    decreases reqs.len(),
{
    if reqs.len() > 0 {
        let less = reqs.drop_last();
        let last = reqs.last();
        law_coalescing_keeps_one_diff(less, true);
        law_coalescing_keeps_one_diff(less, seen);
        assert(coalesced(less, true).push(last).drop_last() =~= coalesced(less, true));
        assert(coalesced(less, seen).push(last).drop_last() =~= coalesced(less, seen));
    }
}

/// A burst that was thinned out stays as it is when it is thinned out again.
pub proof fn law_coalescing_twice_changes_nothing(reqs: Seq<GitReq>, seen: bool)
    ensures
        coalesced(coalesced(reqs, seen), seen) == coalesced(reqs, seen),
    decreases reqs.len(),
{
    if reqs.len() > 0 {
        let less = reqs.drop_last();
        let last = reqs.last();
        law_coalescing_twice_changes_nothing(less, true);
        law_coalescing_twice_changes_nothing(less, seen);
        assert(coalesced(less, true).push(last).drop_last() =~= coalesced(less, true));
        assert(coalesced(less, seen).push(last).drop_last() =~= coalesced(less, seen));
    }
}

/// The diff request that is served is the newest one.
pub proof fn law_coalescing_keeps_the_newest_diff(reqs: Seq<GitReq>, k: int)
    requires
        0 <= k < reqs.len(),
        is_load_diff(reqs[k]),
        forall|j: int| k < j < reqs.len() ==> !is_load_diff(#[trigger] reqs[j]),
    ensures
        coalesced(reqs, false).contains(reqs[k]),
{
    let head = reqs.take(k + 1);
    let tail = reqs.skip(k + 1);
    assert(reqs =~= head + tail);
    assert forall|i: int| 0 <= i < tail.len() implies !is_load_diff(#[trigger] tail[i]) by {
        assert(tail[i] == reqs[k + 1 + i]);
    }
    lemma_coalesced_tail(head, tail, false);
    assert(head.last() == reqs[k]);
    let kept = coalesced(head.drop_last(), true);
    assert(coalesced(head, false) == kept.push(reqs[k]));
    assert(coalesced(reqs, false)[kept.len() as int] == reqs[k]);
}

/// What a request asks the worker to do.
#[derive(Debug)]
pub enum WorkerAction {
    /// Load the refs anew and restart the walk at `root`, or at the checked-out commit.
    Restart { generation: u64, root: Option<ObjectId> },
    CommitDiff { id: ObjectId, seq: u64, scoped: bool },
    WorkingTreeDiff { seq: u64 },
    StagedDiff { seq: u64 },
    CommitFileDiff { id: ObjectId, path: String, seq: u64 },
    WorktreeFileDiff { path: String, seq: u64 },
    StagedFileDiff { path: String, seq: u64 },
    Status,
    ListRefs,
    Blame { path: String, at: BlameAt, seq: u64 },
    DirtyCheck,
}

/// What a `WorkerAction` says.
#[verifier::ext_equal]
pub enum WorkerActionModel {
    Restart { generation: u64, root: Option<ObjectId> },
    CommitDiff { id: ObjectId, seq: u64, scoped: bool },
    WorkingTreeDiff { seq: u64 },
    StagedDiff { seq: u64 },
    CommitFileDiff { id: ObjectId, path: Seq<char>, seq: u64 },
    WorktreeFileDiff { path: Seq<char>, seq: u64 },
    StagedFileDiff { path: Seq<char>, seq: u64 },
    Status,
    ListRefs,
    Blame { path: Seq<char>, at: BlameAt, seq: u64 },
    DirtyCheck,
}

impl View for WorkerAction {
    type V = WorkerActionModel;

    open spec fn view(&self) -> WorkerActionModel {
        match *self {
            WorkerAction::Restart { generation, root } => WorkerActionModel::Restart {
                generation,
                root,
            },
            WorkerAction::CommitDiff { id, seq, scoped } => WorkerActionModel::CommitDiff {
                id,
                seq,
                scoped,
            },
            WorkerAction::WorkingTreeDiff { seq } => WorkerActionModel::WorkingTreeDiff { seq },
            WorkerAction::StagedDiff { seq } => WorkerActionModel::StagedDiff { seq },
            WorkerAction::CommitFileDiff { id, path, seq } => WorkerActionModel::CommitFileDiff {
                id,
                path: path@,
                seq,
            },
            WorkerAction::WorktreeFileDiff { path, seq } => WorkerActionModel::WorktreeFileDiff {
                path: path@,
                seq,
            },
            WorkerAction::StagedFileDiff { path, seq } => WorkerActionModel::StagedFileDiff {
                path: path@,
                seq,
            },
            WorkerAction::Status => WorkerActionModel::Status,
            WorkerAction::ListRefs => WorkerActionModel::ListRefs,
            WorkerAction::Blame { path, at, seq } => WorkerActionModel::Blame {
                path: path@,
                at,
                seq,
            },
            WorkerAction::DirtyCheck => WorkerActionModel::DirtyCheck,
        }
    }
}

/// What the worker keeps between requests.
#[derive(Clone, Copy, PartialEq, Eq, Structural, Debug)]
pub struct WorkerState {
    /// Where the walk starts; `None` for the checked-out commit.
    pub walk_root: Option<ObjectId>,
    /// The refs are known, so the batches carry labels.
    pub refs_loaded: bool,
    /// The walk has ended.
    pub walk_done: bool,
    /// A path filter restricts the diffs that ask for it.
    pub has_scope: bool,
}

/// What `req` asks for, given the worker's state.
pub open spec fn action_for(state: WorkerState, req: GitReqModel) -> WorkerActionModel {
    match req {
        GitReqModel::History(HistoryReq::Reload { generation, root }) => WorkerActionModel::Restart {
            generation,
            root: if root is Some {
                root
            } else {
                state.walk_root
            },
        },
        GitReqModel::Inspect(InspectReqModel::LoadDiff { target, seq, scoped }) => match target {
            DiffTarget::Commit(id) => WorkerActionModel::CommitDiff {
                id,
                seq,
                scoped: scoped && state.has_scope,
            },
            DiffTarget::WorkingTree => WorkerActionModel::WorkingTreeDiff { seq },
            DiffTarget::Staged => WorkerActionModel::StagedDiff { seq },
        },
        GitReqModel::Inspect(InspectReqModel::LoadFileDiff { target, path, seq }) => match target {
            DiffTarget::Commit(id) => WorkerActionModel::CommitFileDiff { id, path, seq },
            DiffTarget::WorkingTree => WorkerActionModel::WorktreeFileDiff { path, seq },
            DiffTarget::Staged => WorkerActionModel::StagedFileDiff { path, seq },
        },
        GitReqModel::Inspect(InspectReqModel::LoadStatus) => WorkerActionModel::Status,
        GitReqModel::Inspect(InspectReqModel::LoadRefs) => WorkerActionModel::ListRefs,
        GitReqModel::Inspect(InspectReqModel::LoadBlame { path, at, seq }) => {
            WorkerActionModel::Blame { path, at, seq }
        },
        GitReqModel::Inspect(InspectReqModel::RefreshWorkingTreeMeta) => {
            WorkerActionModel::DirtyCheck
        },
    }
}

/// The worker's state once `req` is taken up: a reload moves the root if it names one, and
/// brings the labels with it.
pub open spec fn state_after(state: WorkerState, req: GitReqModel) -> WorkerState {
    match req {
        GitReqModel::History(HistoryReq::Reload { root, .. }) => WorkerState {
            walk_root: if root is Some {
                root
            } else {
                state.walk_root
            },
            refs_loaded: true,
            ..state
        },
        GitReqModel::Inspect(_) => state,
    }
}

/// What the worker does once it has drained its queue without waiting.
#[derive(Clone, Copy, PartialEq, Eq, Structural, Debug)]
pub enum DrainStep {
    /// The viewer is gone.
    Exit,
    /// Nothing is asked for and the walk has ended: wait for a request.
    Wait,
    /// Serve what was drained, then walk on.
    Serve,
}

impl WorkerState {
    /// The state before the first request. `has_start` says that there is a commit to walk
    /// from.
    pub fn new(walk_root: Option<ObjectId>, has_start: bool, has_scope: bool) -> (r: WorkerState)
        ensures
            r == (WorkerState {
                walk_root,
                refs_loaded: false,
                walk_done: !has_start,
                has_scope,
            }),
    {
        WorkerState { walk_root, refs_loaded: false, walk_done: !has_start, has_scope }
    }

    /// Takes up one request.
    pub fn process_request(&mut self, req: GitReq) -> (r: WorkerAction)
        ensures
            r@ == action_for(*old(self), req@),
            *final(self) == state_after(*old(self), req@),
    {
        match req {
            GitReq::History(HistoryReq::Reload { generation, root }) => {
                if root.is_some() {
                    self.walk_root = root;
                }
                self.refs_loaded = true;
                WorkerAction::Restart { generation, root: self.walk_root }
            },
            GitReq::Inspect(InspectReq::LoadDiff { target, seq, scoped }) => match target {
                DiffTarget::Commit(id) => WorkerAction::CommitDiff {
                    id,
                    seq,
                    scoped: scoped && self.has_scope,
                },
                DiffTarget::WorkingTree => WorkerAction::WorkingTreeDiff { seq },
                DiffTarget::Staged => WorkerAction::StagedDiff { seq },
            },
            GitReq::Inspect(InspectReq::LoadFileDiff { target, path, seq }) => match target {
                DiffTarget::Commit(id) => WorkerAction::CommitFileDiff { id, path, seq },
                DiffTarget::WorkingTree => WorkerAction::WorktreeFileDiff { path, seq },
                DiffTarget::Staged => WorkerAction::StagedFileDiff { path, seq },
            },
            GitReq::Inspect(InspectReq::LoadStatus) => WorkerAction::Status,
            GitReq::Inspect(InspectReq::LoadRefs) => WorkerAction::ListRefs,
            GitReq::Inspect(InspectReq::LoadBlame { path, at, seq }) => WorkerAction::Blame {
                path,
                at,
                seq,
            },
            GitReq::Inspect(InspectReq::RefreshWorkingTreeMeta) => WorkerAction::DirtyCheck,
        }
    }

    /// What follows once the queue is drained: `pending` requests came, and `disconnected`
    /// says that no more can.
    pub fn after_drain(&self, pending: usize, disconnected: bool) -> (r: DrainStep)
        ensures
            r == (if disconnected {
                DrainStep::Exit
            } else if pending == 0 && self.walk_done {
                DrainStep::Wait
            } else {
                DrainStep::Serve
            }),
    {
        if disconnected {
            DrainStep::Exit
        } else if pending == 0 && self.walk_done {
            DrainStep::Wait
        } else {
            DrainStep::Serve
        }
    }

    /// How many commits the next batch covers; `None` once the walk has ended.
    pub fn next_batch(&self) -> (r: Option<usize>)
        ensures
            r == (if self.walk_done {
                None
            } else if self.refs_loaded {
                Some(PAGE_BATCH)
            } else {
                Some(INITIAL_BATCH)
            }),
    {
        if self.walk_done {
            None
        } else if self.refs_loaded {
            Some(PAGE_BATCH)
        } else {
            Some(INITIAL_BATCH)
        }
    }

    /// Notes the end of a batch. Returns whether the refs are to be loaded now: behind the
    /// first batch, and only once.
    pub fn batch_done(&mut self, walk_done: bool) -> (r: bool)
        ensures
            r == !old(self).refs_loaded,
            *final(self) == (WorkerState { walk_done, refs_loaded: true, ..*old(self) }),
    {
        let first: bool = !self.refs_loaded;
        self.walk_done = walk_done;
        self.refs_loaded = true;
        first
    }

    /// Notes that the walk was started over.
    pub fn restarted(&mut self, has_start: bool)
        ensures
            *final(self) == (WorkerState { walk_done: !has_start, ..*old(self) }),
    {
        self.walk_done = !has_start;
    }
}

/// Whether the untracked files of `document` are still to be looked for.
pub fn needs_untracked_walk(target: DiffTarget, document: &DiffDocument) -> (r: bool)
    ensures
        r == (target == DiffTarget::WorkingTree && document.untracked_anchor is Some),
{
    target == DiffTarget::WorkingTree && document.untracked_anchor.is_some()
}

/// Reads the positional argument: `commit` is the commit that it names as a revision, if it
/// names one. Then the walk starts there; else the argument is a path filter.
pub fn resolve_positional(positional: Option<String>, commit: Option<ObjectId>) -> (r: (
    Option<ObjectId>,
    Option<PathFilter>,
))
    ensures
        match positional {
            None => r.0 is None && r.1 is None,
            Some(raw) => match commit {
                Some(id) => r.0 == Some(id) && r.1 is None,
                None => r.0 is None && r.1 is Some && r.1->0.raw@ == raw@,
            },
        },
{
    match positional {
        None => (None, None),
        Some(raw) => match commit {
            Some(id) => (Some(id), None),
            None => (None, Some(PathFilter { raw })),
        },
    }
}

/// Where the walk starts: at `root`, else at the checked-out commit, if there is one.
pub fn walk_start(root: Option<ObjectId>, head: Option<ObjectId>) -> (r: Option<ObjectId>)
    ensures
        r == (if root is Some {
            root
        } else {
            head
        }),
{
    if root.is_some() {
        root
    } else {
        head
    }
}

/// What the worker sends before anything else: who the repository is, and who the author of
/// what is not committed yet.
pub fn startup_messages(info: RepoInfo, author: String) -> (r: Vec<GitMsg>)
    ensures
        r@ == seq![
            GitMsg::History(HistoryMsg::RepoInfo(info)),
            GitMsg::Inspect(InspectMsg::WorkingTreeMeta { author, dirty: None, staged: None }),
        ],
{
    let mut out: Vec<GitMsg> = Vec::new();
    out.push(GitMsg::History(HistoryMsg::RepoInfo(info)));
    out.push(GitMsg::Inspect(InspectMsg::WorkingTreeMeta { author, dirty: None, staged: None }));
    out
}

/// The message that says what went wrong.
pub fn worker_error(what: &str, error: &str) -> (r: GitMsg)
    ensures
        r matches GitMsg::History(HistoryMsg::Error(text)) && text@ == what@ + ": "@ + error@,
{
    let mut text: String = what.to_owned();
    text.append(": ");
    text.append(error);
    GitMsg::History(HistoryMsg::Error(text))
}

/// The worker answers a request for a diff with the diff of what was asked for, under the
/// number of the request. Only the diff of a commit is ever narrowed to the path filter, and
/// that only if there is one and the request says so.
pub proof fn law_a_diff_is_answered_by_its_number(
    state: WorkerState,
    target: DiffTarget,
    path: Seq<char>,
    seq: u64,
    scoped: bool,
)
    ensures
        ({
            let whole = action_for(
                state,
                GitReqModel::Inspect(InspectReqModel::LoadDiff { target, seq, scoped }),
            );
            let file = action_for(
                state,
                GitReqModel::Inspect(InspectReqModel::LoadFileDiff { target, path, seq }),
            );
            &&& target matches DiffTarget::Commit(id) ==> {
                &&& whole matches WorkerActionModel::CommitDiff { id: i, seq: n, scoped: narrow }
                    ==> i == id && n == seq && (narrow <==> scoped && state.has_scope)
                &&& whole is CommitDiff
                &&& file == (WorkerActionModel::CommitFileDiff { id, path, seq })
            }
            &&& target == DiffTarget::WorkingTree ==> whole == (WorkerActionModel::WorkingTreeDiff {
                seq,
            }) && file == (WorkerActionModel::WorktreeFileDiff { path, seq })
            &&& target == DiffTarget::Staged ==> whole == (WorkerActionModel::StagedDiff { seq })
                && file == (WorkerActionModel::StagedFileDiff { path, seq })
        }),
{
}

/// The walk starts anew where the request says, and where it started last if the request says
/// nothing; the next restart without a place goes there again. Other requests leave the worker
/// as it is.
pub proof fn law_a_restart_remembers_where_it_began(
    state: WorkerState,
    generation: u64,
    next: u64,
    root: Option<ObjectId>,
    other: InspectReqModel,
)
    ensures
        ({
            let first = GitReqModel::History(HistoryReq::Reload { generation, root });
            let again = GitReqModel::History(HistoryReq::Reload { generation: next, root: None });
            let after = state_after(state, first);
            let start = if root is Some {
                root
            } else {
                state.walk_root
            };
            &&& action_for(state, first) == (WorkerActionModel::Restart { generation, root: start })
            &&& action_for(after, again) == (WorkerActionModel::Restart {
                generation: next,
                root: start,
            })
            &&& after.has_scope == state.has_scope
            &&& after.refs_loaded
            &&& state_after(state, GitReqModel::Inspect(other)) == state
        }),
{
}

/// A blame is answered for the file, the commit and the number asked for; the status, the refs
/// and the state of the working tree are answered as asked.
pub proof fn law_other_requests_are_answered_as_asked(
    state: WorkerState,
    path: Seq<char>,
    at: BlameAt,
    seq: u64,
)
    ensures
        action_for(state, GitReqModel::Inspect(InspectReqModel::LoadBlame { path, at, seq })) == (
        WorkerActionModel::Blame { path, at, seq }),
        action_for(state, GitReqModel::Inspect(InspectReqModel::LoadStatus))
            == WorkerActionModel::Status,
        action_for(state, GitReqModel::Inspect(InspectReqModel::LoadRefs))
            == WorkerActionModel::ListRefs,
        action_for(state, GitReqModel::Inspect(InspectReqModel::RefreshWorkingTreeMeta))
            == WorkerActionModel::DirtyCheck,
{
}

} // verus!
