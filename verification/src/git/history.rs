//! Requests to and replies from the history side of the worker: the commit
//! walk, the refs and the path filter.

use crate::git::refs::RefsMap;
use crate::model::{CommitRecord, ObjectId, RepoInfo};
use std::sync::Arc;
use vstd::prelude::*;

verus! {

/// Requests that the history side answers. It streams batches until the walk ends, so
/// nothing has to ask for more.
#[derive(Clone, Copy, PartialEq, Eq, Structural, Debug)]
pub enum HistoryReq {
    /// Start the walk over under a new generation. `root` moves the start of the walk;
    /// `None` keeps it.
    Reload { generation: u64, root: Option<ObjectId> },
}

/// Replies of the history side. Those of an older generation are dropped.
#[derive(Debug)]
pub enum HistoryMsg {
    RepoInfo(RepoInfo),
    Commits { generation: u64, commits: Vec<CommitRecord> },
    /// The labels, sent behind the first batch. `first_batch_rows` is how many rows were
    /// sent without labels.
    RefsLoaded { generation: u64, refs_map: Arc<RefsMap>, first_batch_rows: usize },
    WalkDone { generation: u64 },
    Error(String),
}

} // verus!
