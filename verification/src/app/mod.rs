//! The viewer: its state, and what keys, the mouse and the worker's messages do
//! to it.

pub mod cells;
pub mod clipboard;
pub mod files;
pub mod find;
pub mod input;
pub mod messages;
pub mod mouse;
pub mod navigate;
pub mod search;
pub mod select;
pub mod sound;
pub mod state;
pub mod yank;

pub use state::{
    AuthorMode, BlamePlace, BlameState, CommitSearchState, DateMode, DiffSearchState, DiffSelection,
    DiffState, DisplayOptions, FileViewReturn, Focus, LogRow, LogState, PaneRects, Rect, RefsState,
    SearchSnapshot, SearchState, StagedRow, StatusState, WorkingTreeRow, YankFeedback,
};

use crate::app::state::{
    no_blame, no_refs, no_search, opt_text, BlameModel, CommitSearchModel, DiffModel, LogModel,
    RefsModel, RowModel, StatusModel, YankModel,
};
use crate::git::{GitReq, GitReqModel, HistoryReq, InspectReq, InspectReqModel};
use vstd::prelude::*;

verus! {

/// How long the note that something was copied shows, in milliseconds.
pub const YANK_FEEDBACK_MILLIS: u64 = 2000;

/// The last click in the diff pane: when and where it was, and the how manieth of a series.
#[derive(Clone, Copy, PartialEq, Eq, Structural, Debug)]
pub struct ClickMark {
    pub when: u64,
    pub line: usize,
    pub cell: usize,
    pub count: usize,
}

/// The viewer. Its clock is set from outside, and what it asks for waits in `outbox` and
/// `clipboard` until it is taken.
#[derive(Debug)]
pub struct App {
    pub log: LogState,
    pub search: CommitSearchState,
    pub diff: DiffState,
    pub status: StatusState,
    pub refs: RefsState,
    pub blame: BlameState,
    pub focus: Focus,
    pub panes: PaneRects,
    pub display: DisplayOptions,
    pub show_help: bool,
    pub yank_message: Option<YankFeedback>,
    pub error: Option<String>,
    pub repo_name: String,
    pub branch_name: String,
    /// The path filter of the command line, as the worker reports it.
    pub path_filter: Option<String>,
    /// The worker has walked the whole history.
    pub walk_done: bool,
    /// The current walk. Replies that belong to another one are dropped.
    pub walk_gen: u64,
    /// The newest diff request. Replies to others are dropped.
    pub diff_seq: u64,
    /// The newest blame request. Replies to others are dropped.
    pub blame_seq: u64,
    pub should_quit: bool,
    pub last_diff_click: Option<ClickMark>,
    /// Milliseconds of the clock.
    pub now: u64,
    /// Requests to the worker that are still to be sent, in order.
    pub outbox: Vec<GitReq>,
    /// Text that is still to be put on the clipboard.
    pub clipboard: Option<String>,
}

/// What an `App` holds.
pub struct AppModel {
    pub log: LogModel,
    pub search: CommitSearchModel,
    pub diff: DiffModel,
    pub status: StatusModel,
    pub refs: RefsModel,
    pub blame: BlameModel,
    pub focus: Focus,
    pub panes: PaneRects,
    pub display: DisplayOptions,
    pub show_help: bool,
    pub yank_message: Option<YankModel>,
    pub error: Option<Seq<char>>,
    pub repo_name: Seq<char>,
    pub branch_name: Seq<char>,
    pub path_filter: Option<Seq<char>>,
    pub walk_done: bool,
    pub walk_gen: u64,
    pub diff_seq: u64,
    pub blame_seq: u64,
    pub should_quit: bool,
    pub last_diff_click: Option<ClickMark>,
    pub now: u64,
    pub outbox: Seq<GitReqModel>,
    pub clipboard: Option<Seq<char>>,
}

impl View for App {
    type V = AppModel;

    open spec fn view(&self) -> AppModel {
        AppModel {
            log: self.log@,
            search: self.search@,
            diff: self.diff@,
            status: self.status@,
            refs: self.refs@,
            blame: self.blame@,
            focus: self.focus,
            panes: self.panes,
            display: self.display,
            show_help: self.show_help,
            yank_message: match self.yank_message {
                Some(y) => Some(y@),
                None => None,
            },
            error: opt_text(self.error),
            repo_name: self.repo_name@,
            branch_name: self.branch_name@,
            path_filter: opt_text(self.path_filter),
            walk_done: self.walk_done,
            walk_gen: self.walk_gen,
            diff_seq: self.diff_seq,
            blame_seq: self.blame_seq,
            should_quit: self.should_quit,
            last_diff_click: self.last_diff_click,
            now: self.now,
            outbox: self.outbox.deep_view(),
            clipboard: opt_text(self.clipboard),
        }
    }
}

/// The counter value that follows `s`.
pub open spec fn next_seq(s: u64) -> u64 {
    if s == u64::MAX {
        0
    } else {
        (s + 1) as u64
    }
}

/// The counter value that follows `s`.
pub(crate) fn bump(s: u64) -> (r: u64)
    ensures
        r == next_seq(s),
{
    if s == u64::MAX {
        0
    } else {
        s + 1
    }
}

/// The viewer as it starts: the working-tree row alone, nothing open.
pub open spec fn fresh_app() -> AppModel {
    AppModel {
        log: LogModel {
            rows: seq![RowModel::WorkingTree { author: "you"@, dirty: None }],
            selected: 0,
            scroll: 0,
            view_height: 1,
        },
        search: CommitSearchModel {
            state: no_search(),
            last_query: Seq::empty(),
            last_generation: 0,
        },
        diff: DiffModel {
            open: false,
            target: None,
            document: None,
            scroll: 0,
            horizontal_scroll: 0,
            loading: false,
            show_line_numbers: true,
            show_hunks: true,
            scoped: true,
            view_height: 1,
            search: no_search(),
            header_lower: None,
            body_lower: None,
            file_view_return: None,
            file_picker: None,
            picker_filter: no_search(),
            selection: None,
        },
        status: StatusModel { open: false, document: None, scroll: 0, loading: false },
        refs: no_refs(),
        blame: no_blame(),
        focus: Focus::Log,
        panes: PaneRects { log: None, diff: None },
        display: DisplayOptions {
            date: DateMode::Relative,
            author: AuthorMode::Full,
            full_hash: false,
        },
        show_help: false,
        yank_message: None,
        error: None,
        repo_name: "unknown"@,
        branch_name: "HEAD"@,
        path_filter: None,
        walk_done: false,
        walk_gen: 0,
        diff_seq: 0,
        blame_seq: 0,
        should_quit: false,
        last_diff_click: None,
        now: 0,
        outbox: Seq::empty(),
        clipboard: None,
    }
}

impl AppModel {
    /// One more request to the history side.
    pub open spec fn asking_history(self, req: HistoryReq) -> AppModel {
        AppModel { outbox: self.outbox.push(GitReqModel::History(req)), ..self }
    }

    /// One more request to the inspect side.
    pub open spec fn asking(self, req: InspectReqModel) -> AppModel {
        AppModel { outbox: self.outbox.push(GitReqModel::Inspect(req)), ..self }
    }

    /// The viewer with another diff pane.
    pub open spec fn with_diff(self, diff: DiffModel) -> AppModel {
        AppModel { diff, ..self }
    }
}

impl App {
    pub fn new() -> (r: App)
        ensures
            r@ == fresh_app(),
    {
        let mut rows: Vec<LogRow> = Vec::new();
        rows.push(LogRow::WorkingTree(WorkingTreeRow { author: "you".to_owned(), dirty: None }));
        let r = App {
            log: LogState { rows, selected: 0, scroll: 0, view_height: 1 },
            search: CommitSearchState::new(),
            diff: DiffState::new(),
            status: StatusState { open: false, document: None, scroll: 0, loading: false },
            refs: RefsState::new(),
            blame: BlameState::new(),
            focus: Focus::Log,
            panes: PaneRects { log: None, diff: None },
            display: DisplayOptions {
                date: DateMode::Relative,
                author: AuthorMode::Full,
                full_hash: false,
            },
            show_help: false,
            yank_message: None,
            error: None,
            repo_name: "unknown".to_owned(),
            branch_name: "HEAD".to_owned(),
            path_filter: None,
            walk_done: false,
            walk_gen: 0,
            diff_seq: 0,
            blame_seq: 0,
            should_quit: false,
            last_diff_click: None,
            now: 0,
            outbox: Vec::new(),
            clipboard: None,
        };
        assert(r@.log.rows =~= fresh_app().log.rows);
        assert(r@.outbox =~= Seq::empty());
        r
    }

    pub(crate) fn send_history(&mut self, req: HistoryReq)
        ensures
            final(self)@ == old(self)@.asking_history(req),
    {
        let ghost before = self@;
        self.outbox.push(GitReq::History(req));
        assert(self.outbox.deep_view() =~= before.outbox.push(GitReqModel::History(req)));
    }

    pub(crate) fn send_inspect(&mut self, req: InspectReq)
        ensures
            final(self)@ == old(self)@.asking(req@),
    {
        let ghost before = self@;
        let ghost m = req@;
        self.outbox.push(GitReq::Inspect(req));
        assert(self.outbox.deep_view() =~= before.outbox.push(GitReqModel::Inspect(m)));
    }

    /// Sets the clock.
    pub fn set_clock(&mut self, now: u64)
        ensures
            final(self)@ == (AppModel { now, ..old(self)@ }),
    {
        self.now = now;
    }

    /// Takes the requests that are to be sent.
    pub fn take_requests(&mut self) -> (r: Vec<GitReq>)
        ensures
            r.deep_view() == old(self)@.outbox,
            final(self)@ == (AppModel { outbox: Seq::empty(), ..old(self)@ }),
    {
        let ghost before = self@;
        let mut out: Vec<GitReq> = Vec::new();
        out.append(&mut self.outbox);
        assert(out.deep_view() =~= before.outbox);
        assert(self.outbox.deep_view() =~= Seq::empty());
        out
    }

    /// Takes the text that is to be put on the clipboard.
    pub fn take_clipboard(&mut self) -> (r: Option<String>)
        ensures
            opt_text(r) == old(self)@.clipboard,
            final(self)@ == (AppModel { clipboard: None, ..old(self)@ }),
    {
        self.clipboard.take()
    }

    /// How long the copy note still shows, in milliseconds; `None` if there is none.
    pub fn yank_wakeup(&self) -> (r: Option<u64>)
        ensures
            r == (match self.yank_message {
                Some(y) => Some(
                    if self.now >= y.shown_at && self.now - y.shown_at >= YANK_FEEDBACK_MILLIS {
                        0u64
                    } else if self.now >= y.shown_at {
                        (YANK_FEEDBACK_MILLIS - (self.now - y.shown_at)) as u64
                    } else {
                        YANK_FEEDBACK_MILLIS
                    },
                ),
                None => None,
            }),
    {
        match &self.yank_message {
            Some(y) => {
                let elapsed: u64 = if self.now >= y.shown_at {
                    self.now - y.shown_at
                } else {
                    0
                };
                if elapsed >= YANK_FEEDBACK_MILLIS {
                    Some(0)
                } else {
                    Some(YANK_FEEDBACK_MILLIS - elapsed)
                }
            },
            None => None,
        }
    }

    /// Drops the copy note once its time is over.
    pub fn expire_yank(&mut self)
        ensures
            final(self)@ == (AppModel {
                yank_message: match old(self)@.yank_message {
                    Some(y) => if old(self)@.now >= y.shown_at && old(self)@.now - y.shown_at
                        >= YANK_FEEDBACK_MILLIS {
                        None
                    } else {
                        Some(y)
                    },
                    None => None,
                },
                ..old(self)@
            }),
    {
        let over: bool = match &self.yank_message {
            Some(y) => self.now >= y.shown_at && self.now - y.shown_at >= YANK_FEEDBACK_MILLIS,
            None => false,
        };
        if over {
            self.yank_message = None;
        }
    }

    /// Notes that the worker is gone, unless an error is shown already.
    pub fn worker_gone(&mut self)
        ensures
            final(self)@ == (AppModel {
                error: if old(self)@.error is Some {
                    old(self)@.error
                } else {
                    Some("git worker disconnected"@)
                },
                ..old(self)@
            }),
    {
        if self.error.is_none() {
            self.error = Some("git worker disconnected".to_owned());
        }
    }

    pub fn author_col_width(&self) -> (r: usize)
        ensures
            r == self.display.author.width(),
    {
        self.display.author.col_width()
    }

    pub fn date_col_width(&self) -> (r: usize)
        ensures
            r == self.display.date.width(),
    {
        self.display.date.col_width()
    }

    /// Number of commits in the log: the rows without the working-tree row.
    pub fn commits_len(&self) -> (r: usize)
        ensures
            r == (if self.log.rows@.len() == 0 {
                0
            } else {
                self.log.rows@.len() - 1
            }),
    {
        self.log.rows.len().saturating_sub(1)
    }
}

} // verus!
