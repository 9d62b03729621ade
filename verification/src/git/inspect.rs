//! Requests to and replies from the inspect side of the worker: diffs, status,
//! refs listing, blame and working-tree metadata.

use crate::model::{BlameDocument, DiffDocument, DiffTarget, ObjectId, RefEntry, StatusDocument};
use vstd::prelude::*;

verus! {

/// Requests that the inspect side answers. `seq` is echoed in the reply, so that a reply to
/// a superseded request can be told apart.
#[derive(Debug)]
pub enum InspectReq {
    /// The diff of `target`; `scoped` keeps to the files of the path filter.
    LoadDiff { target: DiffTarget, seq: u64, scoped: bool },
    /// One file of `target`, with the whole file as context.
    LoadFileDiff { target: DiffTarget, path: String, seq: u64 },
    LoadStatus,
    LoadRefs,
    RefreshWorkingTreeMeta,
    LoadBlame { path: String, at: BlameAt, seq: u64 },
}

/// What an `InspectReq` says.
#[verifier::ext_equal]
pub enum InspectReqModel {
    LoadDiff { target: DiffTarget, seq: u64, scoped: bool },
    LoadFileDiff { target: DiffTarget, path: Seq<char>, seq: u64 },
    LoadStatus,
    LoadRefs,
    RefreshWorkingTreeMeta,
    LoadBlame { path: Seq<char>, at: BlameAt, seq: u64 },
}

impl View for InspectReq {
    type V = InspectReqModel;

    open spec fn view(&self) -> InspectReqModel {
        match *self {
            InspectReq::LoadDiff { target, seq, scoped } => InspectReqModel::LoadDiff {
                target,
                seq,
                scoped,
            },
            InspectReq::LoadFileDiff { target, path, seq } => InspectReqModel::LoadFileDiff {
                target,
                path: path@,
                seq,
            },
            InspectReq::LoadStatus => InspectReqModel::LoadStatus,
            InspectReq::LoadRefs => InspectReqModel::LoadRefs,
            InspectReq::RefreshWorkingTreeMeta => InspectReqModel::RefreshWorkingTreeMeta,
            InspectReq::LoadBlame { path, at, seq } => InspectReqModel::LoadBlame {
                path: path@,
                at,
                seq,
            },
        }
    }
}

/// Which revision a blame runs against.
#[derive(Clone, Copy, PartialEq, Eq, Structural, Debug)]
pub enum BlameAt {
    Head,
    Commit(ObjectId),
    /// The first parent of this commit; an error if it has none.
    ParentOfCommit(ObjectId),
}

/// Replies of the inspect side.
#[derive(Debug)]
pub enum InspectMsg {
    DiffLoaded { seq: u64, document: DiffDocument },
    FileDiffLoaded { seq: u64, document: DiffDocument },
    StatusLoaded(StatusDocument),
    RefsListLoaded(Vec<RefEntry>),
    BlameLoaded { seq: u64, result: Result<BlameDocument, String> },
    /// `dirty` and `staged` are `None` where the query has not run or failed.
    WorkingTreeMeta { author: String, dirty: Option<bool>, staged: Option<bool> },
    UntrackedFilesUpdate { target: DiffTarget, seq: u64, paths: Vec<String> },
}

} // verus!
