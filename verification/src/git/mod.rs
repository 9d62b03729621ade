//! The git side: what the worker computes for the viewer.

pub mod blame;
pub mod cache;
pub mod commit;
pub mod diff;
pub mod graph;
pub mod history;
pub mod hunks;
pub mod inspect;
pub mod meta;
pub mod refs;
pub mod status;
pub mod walk;
pub mod worker;

pub use cache::TreeDiffCache;
pub use history::{HistoryMsg, HistoryReq};
pub use inspect::{BlameAt, InspectMsg, InspectReq, InspectReqModel};

use vstd::prelude::*;

verus! {

/// Largest side of a file, in bytes, that a diff shows inline.
pub const MAX_INLINE_DIFF_BYTES: usize = 256 * 1024;

/// Lines after which a diff stops showing further files inline.
pub const MAX_INLINE_DIFF_LINES: usize = 20_000;

/// Files after which a diff stops showing further files inline.
pub const MAX_INLINE_DIFF_FILES: usize = 200;

/// Largest side of a file, in bytes, that the single-file view shows.
pub const MAX_FILE_VIEW_DIFF_BYTES: usize = 8 * 1024 * 1024;

/// Floor for the decoded-object cache of the worker's repository.
pub const OBJECT_CACHE_BYTES: usize = 4 * 1024 * 1024;

/// Below this many changed files the per-file renderers stay serial.
pub const PARALLEL_FILE_THRESHOLD: usize = 8;

/// A request to the worker.
#[derive(Debug)]
pub enum GitReq {
    History(HistoryReq),
    Inspect(InspectReq),
}

/// What a `GitReq` says.
#[verifier::ext_equal]
pub enum GitReqModel {
    History(HistoryReq),
    Inspect(InspectReqModel),
}

impl View for GitReq {
    type V = GitReqModel;

    open spec fn view(&self) -> GitReqModel {
        match *self {
            GitReq::History(req) => GitReqModel::History(req),
            GitReq::Inspect(req) => GitReqModel::Inspect(req@),
        }
    }
}

impl DeepView for GitReq {
    type V = GitReqModel;

    open spec fn deep_view(&self) -> GitReqModel {
        self@
    }
}

/// A reply of the worker.
#[derive(Debug)]
pub enum GitMsg {
    History(HistoryMsg),
    Inspect(InspectMsg),
}

} // verus!
