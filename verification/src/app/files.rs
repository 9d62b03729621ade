//! The files of a diff: jumping between them, the single-file view and the
//! picker.

use crate::app::navigate::{scroll_to, scrolled_to};
use crate::app::search::{
    contains_text, first_at_or_after, first_match_index, has_substring,
    law_the_first_match_is_at_or_behind_the_cursor,
};
use crate::app::state::{
    less, no_search, sat, smaller, step_clamped, stepped, BlameModel, DiffModel, ReturnModel,
    SearchModel,
};
use crate::app::{next_seq, bump, App, AppModel, DiffState, FileViewReturn};
use crate::git::{BlameAt, GitReqModel, InspectReq, InspectReqModel};
use crate::model::{
    DiffDocument, DiffLine, DiffLineKind, DiffTarget, DocumentModel, FileSection, FileStat,
    FileStatModel, LineModel, SectionModel,
};
use crate::text::{lower_text, same_text};
use vstd::prelude::*;

verus! {

/// Lines of context shown above the first change of a file.
pub const LEAD_CONTEXT: usize = 3;

/// The line of section `i` of a diff whose body starts at `offset`.
pub open spec fn section_line(sections: Seq<SectionModel>, offset: int, i: int) -> int {
    sat(offset + sections[i].body_start)
}

/// The line of the first section from `from` on that is below line `cur`.
pub open spec fn next_section(
    sections: Seq<SectionModel>,
    offset: int,
    cur: int,
    from: int,
) -> Option<int>
    decreases sections.len() - from,
{
    if from >= sections.len() {
        None
    } else if section_line(sections, offset, from) > cur {
        Some(section_line(sections, offset, from))
    } else {
        next_section(sections, offset, cur, from + 1)
    }
}

/// The line of the last of the first `to` sections that is above line `cur`.
pub open spec fn previous_section(
    sections: Seq<SectionModel>,
    offset: int,
    cur: int,
    to: int,
) -> Option<int>
    decreases to,
{
    if to <= 0 {
        None
    } else if section_line(sections, offset, to - 1) < cur {
        Some(section_line(sections, offset, to - 1))
    } else {
        previous_section(sections, offset, cur, to - 1)
    }
}

/// The last of the first `to` sections that starts at or above body line `pos`.
pub open spec fn section_at(sections: Seq<SectionModel>, pos: int, to: int) -> Option<int>
    decreases to,
{
    if to <= 0 {
        None
    } else if sections[to - 1].body_start <= pos {
        Some(to - 1)
    } else {
        section_at(sections, pos, to - 1)
    }
}

/// The first section from `from` on that is that of file `path`.
pub open spec fn section_of(sections: Seq<SectionModel>, path: Seq<char>, from: int) -> Option<int>
    decreases sections.len() - from,
{
    if from >= sections.len() {
        None
    } else if sections[from].path == path {
        Some(from)
    } else {
        section_of(sections, path, from + 1)
    }
}

/// The first file from `from` on with that path.
pub open spec fn file_index(files: Seq<FileStatModel>, path: Seq<char>, from: int) -> Option<int>
    decreases files.len() - from,
{
    if from >= files.len() {
        None
    } else if files[from].path == path {
        Some(from)
    } else {
        file_index(files, path, from + 1)
    }
}

/// The first line from `from` on that is added or deleted.
pub open spec fn first_change(lines: Seq<LineModel>, from: int) -> Option<int>
    decreases lines.len() - from,
{
    if from >= lines.len() {
        None
    } else if lines[from].kind == DiffLineKind::Add || lines[from].kind == DiffLineKind::Del {
        Some(from)
    } else {
        first_change(lines, from + 1)
    }
}

/// Those of the first `to` files whose path contains the lowercase query, in order; none
/// for an empty query.
pub open spec fn matching_files(files: Seq<FileStatModel>, q: Seq<char>, to: int) -> Seq<usize>
    decreases to,
{
    if to <= 0 {
        Seq::empty()
    } else if q.len() > 0 && has_substring(lower_text(files[to - 1].path), q) {
        matching_files(files, q, to - 1).push((to - 1) as usize)
    } else {
        matching_files(files, q, to - 1)
    }
}

/// Row `pos` of `len` moved by `delta`: one step goes round, a longer way stops at the ends.
pub open spec fn wrapped_step(len: int, pos: int, delta: int) -> int {
    if delta == 1 && pos + 1 >= len {
        0
    } else if delta == -1 && pos == 0 {
        len - 1
    } else {
        stepped(pos, delta, len - 1)
    }
}

/// Row `pos` of `len` moved by `delta`.
pub fn step_wrapping(len: usize, pos: usize, delta: isize) -> (r: usize)
    requires
        len > 0,
    ensures
        r == wrapped_step(len as int, pos as int, delta as int),
        r < len,
{
    if delta == 1 && pos >= len - 1 {
        0
    } else if delta == -1 && pos == 0 {
        len - 1
    } else {
        step_clamped(pos, delta, len - 1)
    }
}

/// One step forth and one back lead to the row they started from, also round the ends.
pub proof fn law_picker_steps_undo(len: int, pos: int)
    requires
        0 <= pos < len,
    ensures
        wrapped_step(len, wrapped_step(len, pos, 1), -1) == pos,
        wrapped_step(len, wrapped_step(len, pos, -1), 1) == pos,
{
}

impl DiffModel {
    /// The pane goes to the next file for a positive `dir`, else to the previous one; for a
    /// negative one the top lies above the first file. Without a body nothing happens.
    pub open spec fn file_jumped(self, dir: int) -> DiffModel {
        match self.document {
            Some(d) => if !self.show_hunks {
                self
            } else if dir > 0 {
                match next_section(d.sections, self.body_offset(), self.scroll, 0) {
                    Some(pos) => self.scrolled(pos),
                    None => self,
                }
            } else {
                match previous_section(
                    d.sections,
                    self.body_offset(),
                    self.scroll,
                    d.sections.len() as int,
                ) {
                    Some(pos) => self.scrolled(pos),
                    None => if dir < 0 {
                        DiffModel { scroll: 0, ..self }
                    } else {
                        self
                    },
                }
            },
            None => self,
        }
    }

    /// The file at the top of the pane: that of the section there or above, else the first.
    pub open spec fn file_at_top(self) -> Option<Seq<char>> {
        match self.document {
            Some(d) => match section_at(
                d.sections,
                less(self.scroll, self.body_offset()),
                d.sections.len() as int,
            ) {
                Some(i) => Some(d.sections[i].path),
                None => if d.sections.len() > 0 {
                    Some(d.sections[0].path)
                } else {
                    None
                },
            },
            None => None,
        }
    }

    /// Where the pane is scrolled to for the first change of its document.
    pub open spec fn first_change_scroll(self) -> int {
        match self.document {
            Some(d) => if !self.show_hunks {
                0
            } else {
                match first_change(d.body, 0) {
                    Some(i) => smaller(
                        less(sat(self.body_offset() + i), LEAD_CONTEXT as int),
                        self.max_scroll(),
                    ),
                    None => 0,
                }
            },
            None => 0,
        }
    }

    /// A new document is shown from its top.
    pub open spec fn document_shown(self, document: DocumentModel) -> DiffModel {
        DiffModel {
            loading: false,
            document: Some(document),
            scroll: 0,
            horizontal_scroll: 0,
            ..self
        }.picker_closed().content_changed().refreshed()
    }

    /// A single-file document takes the place of the document shown, which is kept, and is
    /// shown at its first change.
    pub open spec fn file_view_shown(self, document: DocumentModel) -> DiffModel {
        let kept = match self.document {
            Some(d) => Some(
                ReturnModel {
                    document: d,
                    scroll: self.scroll,
                    horizontal_scroll: self.horizontal_scroll,
                },
            ),
            None => self.file_view_return,
        };
        let shown = DiffModel {
            file_view_return: kept,
            loading: false,
            document: Some(document),
            horizontal_scroll: 0,
            ..self
        };
        DiffModel {
            scroll: shown.first_change_scroll(),
            ..shown
        }.picker_closed().content_changed().refreshed()
    }

    /// The document that the single-file view hides is shown again, as it was.
    pub open spec fn file_view_closed(self) -> DiffModel {
        match self.file_view_return {
            Some(r) => DiffModel {
                document: Some(r.document),
                scroll: r.scroll,
                horizontal_scroll: r.horizontal_scroll,
                file_view_return: None,
                ..self
            }.content_changed().refreshed(),
            None => self,
        }
    }

    /// The diffstat row of the picked file is in view.
    pub open spec fn picker_shown(self) -> DiffModel {
        match (self.file_picker, self.document) {
            (Some(i), Some(d)) => DiffModel {
                scroll: scroll_to(
                    sat(sat(d.header.len() as int + 1) + i),
                    self.scroll,
                    self.view_height,
                ),
                ..self
            },
            _ => self,
        }
    }

    /// The picker opens on the file at the top of the pane. Without files nothing happens.
    pub open spec fn picker_opened(self) -> DiffModel {
        match self.document {
            Some(d) => if d.files.len() == 0 {
                self
            } else {
                let at = match self.file_at_top() {
                    Some(p) => file_index(d.files, p, 0),
                    None => None,
                };
                DiffModel {
                    picker_filter: no_search(),
                    file_picker: Some(
                        match at {
                            Some(i) => i,
                            None => 0,
                        },
                    ),
                    ..self
                }.picker_shown()
            },
            None => self,
        }
    }

    /// The picker moves by `delta` over the files, or over those that its filter matches.
    pub open spec fn picker_moved(self, delta: int) -> DiffModel {
        match (self.file_picker, self.document) {
            (Some(i), Some(d)) => if d.files.len() == 0 {
                self
            } else if self.picker_filter.query.len() == 0 {
                let sel = wrapped_step(
                    d.files.len() as int,
                    smaller(i, d.files.len() - 1),
                    delta,
                );
                DiffModel { file_picker: Some(sel), ..self }.picker_shown()
            } else {
                let ms = self.picker_filter.matches;
                if ms.len() == 0 {
                    self
                } else {
                    let at = smaller(first_at_or_after(ms, i, 0), ms.len() - 1);
                    let pos = wrapped_step(ms.len() as int, at, delta);
                    DiffModel {
                        picker_filter: SearchModel { current: pos, ..self.picker_filter },
                        file_picker: Some(ms[pos] as int),
                        ..self
                    }.picker_shown()
                }
            },
            _ => self,
        }
    }

    /// The picker's matches are found anew, and the picker goes to the first at or behind
    /// it, else to the first.
    pub open spec fn picker_refreshed(self) -> DiffModel {
        match self.document {
            Some(d) => {
                let ms = matching_files(
                    d.files,
                    lower_text(self.picker_filter.query),
                    d.files.len() as int,
                );
                let found = DiffModel {
                    picker_filter: SearchModel { matches: ms, ..self.picker_filter },
                    ..self
                };
                match self.file_picker {
                    Some(i) => match first_match_index(ms, i) {
                        Some(pos) => DiffModel {
                            picker_filter: SearchModel { current: pos, ..found.picker_filter },
                            file_picker: Some(ms[pos] as int),
                            ..found
                        }.picker_shown(),
                        None => found,
                    },
                    None => found,
                }
            },
            None => self,
        }
    }

    /// The path of the picked file.
    pub open spec fn picked_path(self) -> Option<Seq<char>> {
        match (self.file_picker, self.document) {
            (Some(i), Some(d)) => if 0 <= i < d.files.len() {
                Some(d.files[i].path)
            } else {
                None
            },
            _ => None,
        }
    }

    /// The line of the section of file `path`, if the pane shows one.
    pub open spec fn file_line(self, path: Seq<char>) -> Option<int> {
        match self.document {
            Some(d) => match section_of(d.sections, path, 0) {
                Some(i) => if self.show_hunks {
                    Some(section_line(d.sections, self.body_offset(), i))
                } else {
                    None
                },
                None => None,
            },
            None => None,
        }
    }
}

fn find_next_section(sections: &Vec<FileSection>, offset: usize, cur: usize) -> (r: Option<usize>)
    ensures
        match next_section(sections.deep_view(), offset as int, cur as int, 0) {
            Some(p) => r == Some(p as usize) && r->0 == p,
            None => r is None,
        },
{
    let ghost all = sections.deep_view();
    let mut i: usize = 0;
    while i < sections.len()
        invariant
            i <= sections@.len(),
            all == sections.deep_view(),
            next_section(all, offset as int, cur as int, 0) == next_section(
                all,
                offset as int,
                cur as int,
                i as int,
            ),
        decreases sections@.len() - i,
    {
        let pos: usize = offset.saturating_add(sections[i].body_start);
        assert(section_line(all, offset as int, i as int) == pos);
        if pos > cur {
            return Some(pos);
        }
        i += 1;
    }
    None
}

fn find_previous_section(sections: &Vec<FileSection>, offset: usize, cur: usize) -> (r: Option<
    usize,
>)
    ensures
        match previous_section(
            sections.deep_view(),
            offset as int,
            cur as int,
            sections@.len() as int,
        ) {
            Some(p) => r == Some(p as usize) && r->0 == p,
            None => r is None,
        },
{
    let ghost all = sections.deep_view();
    let mut i: usize = sections.len();
    while i > 0
        invariant
            i <= sections@.len(),
            all == sections.deep_view(),
            previous_section(all, offset as int, cur as int, sections@.len() as int)
                == previous_section(all, offset as int, cur as int, i as int),
        decreases i,
    {
        let pos: usize = offset.saturating_add(sections[i - 1].body_start);
        assert(section_line(all, offset as int, i - 1) == pos);
        if pos < cur {
            return Some(pos);
        }
        i -= 1;
    }
    None
}

fn find_section_at(sections: &Vec<FileSection>, pos: usize) -> (r: Option<usize>)
    ensures
        match section_at(sections.deep_view(), pos as int, sections@.len() as int) {
            Some(i) => r == Some(i as usize) && 0 <= i < sections@.len() && r->0 == i,
            None => r is None,
        },
{
    let ghost all = sections.deep_view();
    let mut i: usize = sections.len();
    while i > 0
        invariant
            i <= sections@.len(),
            all == sections.deep_view(),
            section_at(all, pos as int, sections@.len() as int) == section_at(
                all,
                pos as int,
                i as int,
            ),
        decreases i,
    {
        assert(all[i - 1].body_start == sections@[i - 1].body_start);
        if sections[i - 1].body_start <= pos {
            return Some(i - 1);
        }
        i -= 1;
    }
    None
}

fn find_section_of(sections: &Vec<FileSection>, path: &str) -> (r: Option<usize>)
    ensures
        match section_of(sections.deep_view(), path@, 0) {
            Some(i) => r == Some(i as usize) && 0 <= i < sections@.len() && r->0 == i,
            None => r is None,
        },
{
    let ghost all = sections.deep_view();
    let mut i: usize = 0;
    while i < sections.len()
        invariant
            i <= sections@.len(),
            all == sections.deep_view(),
            section_of(all, path@, 0) == section_of(all, path@, i as int),
        decreases sections@.len() - i,
    {
        assert(all[i as int].path == sections@[i as int].path@);
        if same_text(sections[i].path.as_str(), path) {
            return Some(i);
        }
        i += 1;
    }
    None
}

fn find_file(files: &Vec<FileStat>, path: &str) -> (r: Option<usize>)
    ensures
        match file_index(files.deep_view(), path@, 0) {
            Some(i) => r == Some(i as usize) && 0 <= i < files@.len() && r->0 == i,
            None => r is None,
        },
{
    let ghost all = files.deep_view();
    let mut i: usize = 0;
    while i < files.len()
        invariant
            i <= files@.len(),
            all == files.deep_view(),
            file_index(all, path@, 0) == file_index(all, path@, i as int),
        decreases files@.len() - i,
    {
        assert(all[i as int].path == files@[i as int].path@);
        if same_text(files[i].path.as_str(), path) {
            return Some(i);
        }
        i += 1;
    }
    None
}

fn find_first_change(lines: &Vec<DiffLine>) -> (r: Option<usize>)
    ensures
        match first_change(lines.deep_view(), 0) {
            Some(i) => r == Some(i as usize) && r->0 == i,
            None => r is None,
        },
{
    let ghost all = lines.deep_view();
    let mut i: usize = 0;
    while i < lines.len()
        invariant
            i <= lines@.len(),
            all == lines.deep_view(),
            first_change(all, 0) == first_change(all, i as int),
        decreases lines@.len() - i,
    {
        assert(all[i as int].kind == lines@[i as int].kind);
        if lines[i].kind == DiffLineKind::Add || lines[i].kind == DiffLineKind::Del {
            return Some(i);
        }
        i += 1;
    }
    None
}

fn find_files(files: &Vec<FileStat>, q: &str) -> (r: Vec<usize>)
    ensures
        r@ == matching_files(files.deep_view(), q@, files@.len() as int),
{
    let ghost all = files.deep_view();
    let mut out: Vec<usize> = Vec::new();
    let mut i: usize = 0;
    while i < files.len()
        invariant
            i <= files@.len(),
            all == files.deep_view(),
            out@ == matching_files(all, q@, i as int),
        decreases files@.len() - i,
    {
        assert(all[i as int].path == files@[i as int].path@);
        if !q.is_empty() {
            let low: String = files[i].path.as_str().to_lowercase();
            if contains_text(low.as_str(), q) {
                out.push(i);
            }
        }
        i += 1;
    }
    out
}

impl DiffState {
    /// Goes to the next file, or to the previous one.
    pub fn jump_file(&mut self, dir: isize)
        ensures
            final(self)@ == old(self)@.file_jumped(dir as int),
    {
        if !self.show_hunks {
            return;
        }
        let offset: usize = self.body_offset();
        let target: Option<usize> = match &self.document {
            Some(d) => if dir > 0 {
                find_next_section(&d.sections, offset, self.scroll)
            } else {
                find_previous_section(&d.sections, offset, self.scroll)
            },
            None => {
                return;
            },
        };
        if let Some(pos) = target {
            self.scroll_to_line(pos);
        } else if dir < 0 {
            self.scroll = 0;
        }
    }

    /// The file at the top of the pane.
    pub fn file_at_viewport(&self) -> (r: Option<String>)
        ensures
            crate::app::state::opt_text(r) == self@.file_at_top(),
    {
        match &self.document {
            Some(d) => {
                let body_pos: usize = self.scroll.saturating_sub(self.body_offset());
                match find_section_at(&d.sections, body_pos) {
                    Some(i) => {
                        assert(d@.sections[i as int].path == d.sections@[i as int].path@);
                        Some(d.sections[i].path.clone())
                    },
                    None => if d.sections.len() > 0 {
                        assert(d@.sections[0].path == d.sections@[0].path@);
                        Some(d.sections[0].path.clone())
                    } else {
                        None
                    },
                }
            },
            None => None,
        }
    }

    fn first_change_line(&self) -> (r: usize)
        ensures
            r == self@.first_change_scroll(),
    {
        if !self.show_hunks {
            return 0;
        }
        let found: Option<usize> = match &self.document {
            Some(d) => find_first_change(&d.body),
            None => None,
        };
        match found {
            Some(i) => {
                let max: usize = self.max_scroll();
                let top: usize = self.body_offset().saturating_add(i).saturating_sub(LEAD_CONTEXT);
                if top <= max {
                    top
                } else {
                    max
                }
            },
            None => 0,
        }
    }

    /// Shows a new document from its top.
    pub fn show_document(&mut self, document: DiffDocument)
        ensures
            final(self)@ == old(self)@.document_shown(document@),
    {
        self.loading = false;
        self.document = Some(document);
        self.scroll = 0;
        self.horizontal_scroll = 0;
        self.close_picker();
        self.forget_content();
        self.update_matches();
    }

    /// Shows a single-file document in the place of the one shown, which is kept.
    pub fn show_file_view(&mut self, document: DiffDocument)
        ensures
            final(self)@ == old(self)@.file_view_shown(document@),
    {
        let scroll: usize = self.scroll;
        let horizontal_scroll: usize = self.horizontal_scroll;
        if let Some(current) = self.document.take() {
            self.file_view_return = Some(
                Box::new(FileViewReturn { document: current, scroll, horizontal_scroll }),
            );
        }
        self.loading = false;
        self.document = Some(document);
        self.horizontal_scroll = 0;
        self.scroll = self.first_change_line();
        self.close_picker();
        self.forget_content();
        self.update_matches();
    }

    /// Shows the document again that a single-file view hides; `false` if there is none.
    pub fn close_view(&mut self) -> (r: bool)
        ensures
            r == (old(self)@.file_view_return is Some),
            final(self)@ == old(self)@.file_view_closed(),
    {
        match self.file_view_return.take() {
            Some(boxed) => {
                let kept: FileViewReturn = *boxed;
                self.document = Some(kept.document);
                self.scroll = kept.scroll;
                self.horizontal_scroll = kept.horizontal_scroll;
                self.forget_content();
                self.update_matches();
                true
            },
            None => false,
        }
    }

    /// Whether the document shown still waits for its untracked files.
    pub fn awaits_untracked(&self) -> (r: bool)
        ensures
            r == (self@.document is Some && self@.document->0.untracked_anchor is Some),
    {
        match &self.document {
            Some(d) => d.untracked_anchor.is_some(),
            None => false,
        }
    }

    fn show_picker(&mut self)
        ensures
            final(self)@ == old(self)@.picker_shown(),
    {
        let row: Option<usize> = match (&self.file_picker, &self.document) {
            (Some(i), Some(d)) => Some(d.header.len().saturating_add(1).saturating_add(*i)),
            _ => None,
        };
        if let Some(at) = row {
            self.scroll = scrolled_to(at, self.scroll, self.view_height);
        }
    }

    /// Opens the picker on the file at the top of the pane.
    pub fn open_picker(&mut self)
        ensures
            final(self)@ == old(self)@.picker_opened(),
    {
        let start: Option<String> = self.file_at_viewport();
        let at: Option<usize> = match &self.document {
            Some(d) => if d.files.len() == 0 {
                return;
            } else {
                match &start {
                    Some(p) => find_file(&d.files, p.as_str()),
                    None => None,
                }
            },
            None => {
                return;
            },
        };
        self.picker_filter.clear();
        self.file_picker = Some(
            match at {
                Some(i) => i,
                None => 0,
            },
        );
        self.show_picker();
    }

    /// Moves the picker by `delta`.
    pub fn move_picker(&mut self, delta: isize)
        ensures
            final(self)@ == old(self)@.picker_moved(delta as int),
    {
        let idx: usize = match self.file_picker {
            Some(i) => i,
            None => {
                return;
            },
        };
        let total: usize = match &self.document {
            Some(d) => d.files.len(),
            None => 0,
        };
        if total == 0 {
            return;
        }
        if self.picker_filter.query.as_str().is_empty() {
            let at: usize = if idx < total {
                idx
            } else {
                total - 1
            };
            self.file_picker = Some(step_wrapping(total, at, delta));
        } else {
            let count: usize = self.picker_filter.matches.len();
            if count == 0 {
                return;
            }
            let first: usize = position_at_or_after(&self.picker_filter.matches, idx);
            let at: usize = if first < count {
                first
            } else {
                count - 1
            };
            let pos: usize = step_wrapping(count, at, delta);
            self.picker_filter.current = pos;
            self.file_picker = Some(self.picker_filter.matches[pos]);
        }
        self.show_picker();
    }

    /// Finds the picker's matches anew.
    pub fn update_picker(&mut self)
        ensures
            final(self)@ == old(self)@.picker_refreshed(),
    {
        let q: String = self.picker_filter.query.as_str().to_lowercase();
        let matches: Vec<usize> = match &self.document {
            Some(d) => find_files(&d.files, q.as_str()),
            None => {
                return;
            },
        };
        self.picker_filter.matches = matches;
        if let Some(idx) = self.file_picker {
            if let Some(m) = self.picker_filter.pick_first(idx) {
                self.file_picker = Some(m);
                self.show_picker();
            }
        }
    }

    /// Closes the picker and returns the path of the picked file.
    pub fn take_picked(&mut self) -> (r: Option<String>)
        ensures
            crate::app::state::opt_text(r) == old(self)@.picked_path(),
            final(self)@ == (if old(self)@.file_picker is Some {
                old(self)@.picker_closed()
            } else {
                old(self)@
            }),
    {
        let idx: usize = match self.file_picker {
            Some(i) => i,
            None => {
                return None;
            },
        };
        self.close_picker();
        match &self.document {
            Some(d) => if idx < d.files.len() {
                assert(d@.files[idx as int].path == d.files@[idx as int].path@);
                Some(d.files[idx].path.clone())
            } else {
                None
            },
            None => None,
        }
    }

    /// The line of the section of file `path`, if the pane shows one.
    pub fn line_of_file(&self, path: &str) -> (r: Option<usize>)
        ensures
            match self@.file_line(path@) {
                Some(p) => r == Some(p as usize) && r->0 == p,
                None => r is None,
            },
    {
        if !self.show_hunks {
            return None;
        }
        match &self.document {
            Some(d) => match find_section_of(&d.sections, path) {
                Some(i) => {
                    assert(d@.sections[i as int].body_start == d.sections@[i as int].body_start);
                    Some(self.body_offset().saturating_add(d.sections[i].body_start))
                },
                None => None,
            },
            None => None,
        }
    }
}

fn position_at_or_after(matches: &Vec<usize>, cursor: usize) -> (r: usize)
    ensures
        r == first_at_or_after(matches@, cursor as int, 0),
{
    let mut i: usize = 0;
    while i < matches.len() && matches[i] < cursor
        invariant
            i <= matches@.len(),
            first_at_or_after(matches@, cursor as int, 0) == first_at_or_after(
                matches@,
                cursor as int,
                i as int,
            ),
        decreases matches@.len() - i,
    {
        i += 1;
    }
    i
}

impl AppModel {
    /// The single-file view of `path` is asked for, unless one shows already or the pane has
    /// no target.
    #[verifier::opaque]
    pub open spec fn file_view_opened(self, path: Seq<char>) -> AppModel {
        if self.diff.file_view_return is Some {
            self
        } else {
            match self.diff.target {
                Some(target) => AppModel { diff_seq: next_seq(self.diff_seq), ..self }.asking(
                    InspectReqModel::LoadFileDiff { target, path, seq: next_seq(self.diff_seq) },
                ),
                None => self,
            }
        }
    }

    /// The single-file view of the file at the top of the pane is asked for.
    #[verifier::opaque]
    pub open spec fn file_view_opened_at_top(self) -> AppModel {
        match self.diff.file_at_top() {
            Some(path) => self.file_view_opened(path),
            None => self,
        }
    }

    /// The single-file view closes. A document that still waits for its untracked files is
    /// asked for anew.
    #[verifier::opaque]
    pub open spec fn file_view_left(self) -> AppModel {
        if self.diff.file_view_return is Some {
            let closed = self.with_diff(self.diff.file_view_closed());
            match (closed.diff.document->0.untracked_anchor, closed.diff.target) {
                (Some(_), Some(target)) => closed.reloading_diff(target),
                _ => closed,
            }
        } else {
            self
        }
    }

    /// The blame of the file at the top of the pane opens, with no way back: of the commit
    /// that the pane shows, else of the checked-out one.
    #[verifier::opaque]
    pub open spec fn blame_of_diff(self) -> AppModel {
        match (self.diff.file_at_top(), self.diff.document) {
            (Some(path), Some(d)) => AppModel {
                blame: BlameModel {
                    history: Seq::empty(),
                    pending_return: None,
                    ..self.blame
                },
                ..self
            }.blame_opened(
                path,
                match d.target {
                    DiffTarget::Commit(id) => BlameAt::Commit(id),
                    _ => BlameAt::Head,
                },
            ),
            _ => self,
        }
    }

    /// The picked file is gone to, or its single-file view asked for if the pane does not
    /// show it.
    #[verifier::opaque]
    pub open spec fn pick_shown(self) -> AppModel {
        if self.diff.file_picker is Some {
            let closed = self.with_diff(self.diff.picker_closed());
            match self.diff.picked_path() {
                Some(path) => match closed.diff.file_line(path) {
                    Some(pos) => closed.with_diff(closed.diff.scrolled(pos)),
                    None => closed.file_view_opened(path),
                },
                None => closed,
            }
        } else {
            self
        }
    }

    /// The single-file view of the picked file is asked for.
    #[verifier::opaque]
    pub open spec fn pick_opened(self) -> AppModel {
        if self.diff.file_picker is Some {
            let closed = self.with_diff(self.diff.picker_closed());
            match self.diff.picked_path() {
                Some(path) => closed.file_view_opened(path),
                None => closed,
            }
        } else {
            self
        }
    }
}

impl App {
    /// Goes to the next file of the diff, or to the previous one.
    pub fn diff_jump_file(&mut self, dir: isize)
        ensures
            final(self)@ == old(self)@.with_diff(old(self)@.diff.file_jumped(dir as int)),
    {
        self.diff.jump_file(dir);
    }

    /// Asks for the single-file view of `path`.
    pub fn open_file_view(&mut self, path: String)
        ensures
            final(self)@ == old(self)@.file_view_opened(path@),
    {
        proof {
            reveal(AppModel::file_view_opened);
        }
        if self.diff.file_view_return.is_some() {
            return;
        }
        if let Some(target) = self.diff.target {
            self.diff_seq = bump(self.diff_seq);
            let seq: u64 = self.diff_seq;
            self.send_inspect(InspectReq::LoadFileDiff { target, path, seq });
        }
    }

    /// Asks for the single-file view of the file at the top of the pane.
    pub fn open_file_view_at_viewport(&mut self)
        ensures
            final(self)@ == old(self)@.file_view_opened_at_top(),
    {
        proof {
            reveal(AppModel::file_view_opened_at_top);
        }
        if let Some(path) = self.diff.file_at_viewport() {
            self.open_file_view(path);
        }
    }

    /// Closes the single-file view; `false` if none shows.
    pub fn close_file_view(&mut self) -> (r: bool)
        ensures
            r == (old(self)@.diff.file_view_return is Some),
            final(self)@ == old(self)@.file_view_left(),
    {
        proof {
            reveal(AppModel::file_view_left);
        }
        if !self.diff.close_view() {
            return false;
        }
        if self.diff.awaits_untracked() {
            if let Some(target) = self.diff.target {
                self.reload_diff(target);
            }
        }
        true
    }

    /// Opens the blame of the file at the top of the pane.
    pub fn blame_from_diff_pane(&mut self)
        ensures
            final(self)@ == old(self)@.blame_of_diff(),
    {
        proof {
            reveal(AppModel::blame_of_diff);
        }
        let path: String = match self.diff.file_at_viewport() {
            Some(p) => p,
            None => {
                return;
            },
        };
        let at: BlameAt = match &self.diff.document {
            Some(doc) => match doc.target {
                DiffTarget::Commit(id) => BlameAt::Commit(id),
                _ => BlameAt::Head,
            },
            None => {
                return;
            },
        };
        self.blame.history.clear();
        self.blame.pending_return = None;
        assert(self.blame.history.deep_view() =~= Seq::empty());
        self.open_blame(path, at);
    }

    /// Opens the picker.
    pub fn open_file_picker(&mut self)
        ensures
            final(self)@ == old(self)@.with_diff(old(self)@.diff.picker_opened()),
    {
        self.diff.open_picker();
    }

    /// Moves the picker by `delta`.
    pub fn picker_move(&mut self, delta: isize)
        ensures
            final(self)@ == old(self)@.with_diff(old(self)@.diff.picker_moved(delta as int)),
    {
        self.diff.move_picker(delta);
    }

    /// Finds the picker's matches anew.
    pub fn update_picker_matches(&mut self)
        ensures
            final(self)@ == old(self)@.with_diff(old(self)@.diff.picker_refreshed()),
    {
        self.diff.update_picker();
    }

    /// Goes to the picked file.
    pub fn picker_activate(&mut self)
        ensures
            final(self)@ == old(self)@.pick_shown(),
    {
        proof {
            reveal(AppModel::pick_shown);
        }
        if let Some(path) = self.diff.take_picked() {
            match self.diff.line_of_file(path.as_str()) {
                Some(pos) => {
                    self.diff.scroll_to_line(pos);
                },
                None => {
                    self.open_file_view(path);
                },
            }
        }
    }

    /// Asks for the single-file view of the picked file.
    pub fn picker_open_file(&mut self)
        ensures
            final(self)@ == old(self)@.pick_opened(),
    {
        proof {
            reveal(AppModel::pick_opened);
        }
        if let Some(path) = self.diff.take_picked() {
            self.open_file_view(path);
        }
    }
}

/// Closing the single-file view brings back what it took the place of: the document, and
/// where it was scrolled to.
pub proof fn law_file_view_restores(d: DiffModel, document: DocumentModel)
    requires
        d.document is Some,
    ensures
        d.file_view_shown(document).file_view_return is Some,
        d.file_view_shown(document).file_view_closed().document == d.document,
        d.file_view_shown(document).file_view_closed().scroll == d.scroll,
        d.file_view_shown(document).file_view_closed().horizontal_scroll == d.horizontal_scroll,
        d.file_view_shown(document).file_view_closed().file_view_return is None,
{
}

/// The next file is the first whose section starts below the line, and the previous one the
/// last whose section starts above it; there is none exactly if no section does.
pub proof fn law_the_next_file_is_the_first_below(
    sections: Seq<SectionModel>,
    offset: int,
    cur: int,
    from: int,
)
    requires
        0 <= from <= sections.len(),
        forall|i: int|
            0 <= i < sections.len() ==> offset + (#[trigger] sections[i]).body_start <= usize::MAX,
    ensures
        match next_section(sections, offset, cur, from) {
            Some(pos) => pos > cur && exists|i: int|
                from <= i < sections.len() && pos == offset + (#[trigger] sections[i]).body_start
                    && forall|k: int|
                    from <= k < i ==> offset + (#[trigger] sections[k]).body_start <= cur,
            None => forall|k: int|
                from <= k < sections.len() ==> offset + (#[trigger] sections[k]).body_start <= cur,
        },
    decreases sections.len() - from,
{
    if from < sections.len() {
        if section_line(sections, offset, from) > cur {
            assert(next_section(sections, offset, cur, from) == Some(
                offset + sections[from].body_start,
            ));
        } else {
            law_the_next_file_is_the_first_below(sections, offset, cur, from + 1);
            if let Some(pos) = next_section(sections, offset, cur, from + 1) {
                let i = choose|i: int|
                    from + 1 <= i < sections.len() && pos == offset + (
                    #[trigger] sections[i]).body_start && forall|k: int|
                        from + 1 <= k < i ==> offset + (#[trigger] sections[k]).body_start <= cur;
                assert(from <= i && pos == offset + sections[i].body_start);
            }
        }
    }
}

/// The previous file is the last whose section starts above the line; there is none exactly
/// if no section does.
pub proof fn law_the_previous_file_is_the_last_above(
    sections: Seq<SectionModel>,
    offset: int,
    cur: int,
    to: int,
)
    requires
        0 <= to <= sections.len(),
        forall|i: int|
            0 <= i < sections.len() ==> offset + (#[trigger] sections[i]).body_start <= usize::MAX,
    ensures
        match previous_section(sections, offset, cur, to) {
            Some(pos) => pos < cur && exists|i: int|
                0 <= i < to && pos == offset + (#[trigger] sections[i]).body_start && forall|k: int|
                    i < k < to ==> offset + (#[trigger] sections[k]).body_start >= cur,
            None => forall|k: int|
                0 <= k < to ==> offset + (#[trigger] sections[k]).body_start >= cur,
        },
    decreases to,
{
    if to > 0 {
        if section_line(sections, offset, to - 1) < cur {
            assert(previous_section(sections, offset, cur, to) == Some(
                offset + sections[to - 1].body_start,
            ));
        } else {
            law_the_previous_file_is_the_last_above(sections, offset, cur, to - 1);
            if let Some(pos) = previous_section(sections, offset, cur, to - 1) {
                let i = choose|i: int|
                    0 <= i < to - 1 && pos == offset + (#[trigger] sections[i]).body_start
                        && forall|k: int|
                        i < k < to - 1 ==> offset + (#[trigger] sections[k]).body_start >= cur;
                assert(i < to && pos == offset + sections[i].body_start);
            }
        }
    }
}

/// A line lies in the last section that does not start below it; a path has the first section
/// and the first entry that name it.
pub proof fn law_sections_are_found_by_line_and_by_path(
    sections: Seq<SectionModel>,
    files: Seq<FileStatModel>,
    pos: int,
    path: Seq<char>,
    n: int,
)
    requires
        0 <= n <= sections.len(),
    ensures
        match section_at(sections, pos, n) {
            Some(i) => 0 <= i < n && sections[i].body_start <= pos && forall|k: int|
                i < k < n ==> (#[trigger] sections[k]).body_start > pos,
            None => forall|k: int| 0 <= k < n ==> (#[trigger] sections[k]).body_start > pos,
        },
        match section_of(sections, path, n) {
            Some(i) => n <= i < sections.len() && sections[i].path == path && forall|k: int|
                n <= k < i ==> (#[trigger] sections[k]).path != path,
            None => forall|k: int| n <= k < sections.len() ==> (#[trigger] sections[k]).path != path,
        },
{
    lemma_section_at(sections, pos, n);
    lemma_section_of(sections, path, n);
}

proof fn lemma_section_at(sections: Seq<SectionModel>, pos: int, to: int)
    requires
        0 <= to <= sections.len(),
    ensures
        match section_at(sections, pos, to) {
            Some(i) => 0 <= i < to && sections[i].body_start <= pos && forall|k: int|
                i < k < to ==> (#[trigger] sections[k]).body_start > pos,
            None => forall|k: int| 0 <= k < to ==> (#[trigger] sections[k]).body_start > pos,
        },
    decreases to,
{
    if to > 0 && sections[to - 1].body_start > pos {
        lemma_section_at(sections, pos, to - 1);
    }
}

proof fn lemma_section_of(sections: Seq<SectionModel>, path: Seq<char>, from: int)
    requires
        0 <= from <= sections.len(),
    ensures
        match section_of(sections, path, from) {
            Some(i) => from <= i < sections.len() && sections[i].path == path && forall|k: int|
                from <= k < i ==> (#[trigger] sections[k]).path != path,
            None => forall|k: int|
                from <= k < sections.len() ==> (#[trigger] sections[k]).path != path,
        },
    decreases sections.len() - from,
{
    if from < sections.len() && sections[from].path != path {
        lemma_section_of(sections, path, from + 1);
    }
}

/// A path stands in the list of files at its first entry.
pub proof fn law_a_file_is_found_by_its_path(files: Seq<FileStatModel>, path: Seq<char>, from: int)
    requires
        0 <= from <= files.len(),
    ensures
        match file_index(files, path, from) {
            Some(i) => from <= i < files.len() && files[i].path == path && forall|k: int|
                from <= k < i ==> (#[trigger] files[k]).path != path,
            None => forall|k: int| from <= k < files.len() ==> (#[trigger] files[k]).path != path,
        },
    decreases files.len() - from,
{
    if from < files.len() && files[from].path != path {
        law_a_file_is_found_by_its_path(files, path, from + 1);
    }
}

/// The first change is the first line that was added or deleted.
pub proof fn law_the_first_change_is_an_added_or_deleted_line(lines: Seq<LineModel>, from: int)
    requires
        0 <= from <= lines.len(),
    ensures
        match first_change(lines, from) {
            Some(i) => {
                &&& from <= i < lines.len()
                &&& lines[i].kind == DiffLineKind::Add || lines[i].kind == DiffLineKind::Del
                &&& forall|k: int|
                    from <= k < i ==> (#[trigger] lines[k]).kind != DiffLineKind::Add
                        && lines[k].kind != DiffLineKind::Del
            },
            None => forall|k: int|
                from <= k < lines.len() ==> (#[trigger] lines[k]).kind != DiffLineKind::Add
                    && lines[k].kind != DiffLineKind::Del,
        },
    decreases lines.len() - from,
{
    if from < lines.len() && lines[from].kind != DiffLineKind::Add && lines[from].kind
        != DiffLineKind::Del {
        law_the_first_change_is_an_added_or_deleted_line(lines, from + 1);
    }
}

/// The single-file view opens with its first change in view and up to three lines above it,
/// exactly three where the file has as many and goes on far enough below.
pub proof fn law_the_first_change_is_in_view(m: DiffModel, i: int)
    requires
        m.document is Some,
        m.show_hunks,
        first_change(m.document->0.body, 0) == Some(i),
        m.document->0.header.len() + m.document->0.files.len() + 3 + m.document->0.body.len()
            <= usize::MAX,
        0 <= m.view_height,
    ensures
        ({
            let pos = m.body_offset() + i;
            let scroll = m.first_change_scroll();
            &&& 0 <= scroll <= pos
            &&& m.view_height > 3 ==> pos < scroll + m.view_height
            &&& pos >= 3 ==> scroll <= pos - 3
            &&& pos >= 3 && pos - 3 + m.view_height <= m.total_lines() ==> scroll == pos - 3
        }),
{
    law_the_first_change_is_an_added_or_deleted_line(m.document->0.body, 0);
}

/// The file at the top of the pane is the one in whose section the first line shown lies, or
/// the first of all while the header is at the top.
pub proof fn law_the_file_at_the_top_is_the_one_shown_there(m: DiffModel, i: int)
    requires
        m.document is Some,
        0 <= i < m.document->0.sections.len(),
        m.scroll >= m.body_offset(),
        m.body_offset() + m.document->0.sections[i].body_start <= m.scroll,
        forall|k: int|
            i < k < m.document->0.sections.len() ==> m.body_offset() + (
            #[trigger] m.document->0.sections[k]).body_start > m.scroll,
    ensures
        m.file_at_top() == Some(m.document->0.sections[i].path),
{
    let d = m.document->0;
    lemma_section_at(d.sections, m.scroll - m.body_offset(), d.sections.len() as int);
}

/// A jump to the next file brings the start of its section to the top, as far as the pane
/// scrolls; a jump back that finds no file goes to the top. Without a body nothing moves.
pub proof fn law_a_jump_goes_to_the_start_of_a_file(m: DiffModel)
    requires
        m.document is Some,
    ensures
        ({
            let d = m.document->0;
            let end = vstd::math::max(m.total_lines() - m.view_height, 0);
            let next = next_section(d.sections, m.body_offset(), m.scroll, 0);
            let previous = previous_section(
                d.sections,
                m.body_offset(),
                m.scroll,
                d.sections.len() as int,
            );
            &&& !m.show_hunks ==> m.file_jumped(1) == m && m.file_jumped(-1) == m
            &&& m.show_hunks && next is None ==> m.file_jumped(1) == m
            &&& m.show_hunks && next is Some ==> m.file_jumped(1).scroll == vstd::math::min(
                next->0,
                end,
            )
            &&& m.show_hunks && previous is None ==> m.file_jumped(-1).scroll == 0
            &&& m.show_hunks && previous is Some ==> m.file_jumped(-1).scroll == vstd::math::min(
                previous->0,
                end,
            )
            &&& m.file_jumped(1).document == m.document
        }),
{
}

/// A new document is shown from its top, with nothing selected or picked in it, and with the
/// query that was there.
pub proof fn law_a_new_document_is_shown_from_its_top(m: DiffModel, document: DocumentModel)
    ensures
        ({
            let n = m.document_shown(document);
            &&& n.document == Some(document)
            &&& !n.loading
            &&& n.scroll == 0
            &&& n.horizontal_scroll == 0
            &&& n.selection is None
            &&& n.file_picker is None
            &&& n.search.query == m.search.query
            &&& n.target == m.target
            &&& n.lower_is_current()
        }),
{
}

/// The picked file's line of the diffstat is in view.
pub proof fn law_the_picked_file_is_in_view(m: DiffModel)
    requires
        m.document is Some,
        m.file_picker is Some,
        0 <= m.file_picker->0,
        m.document->0.header.len() + 1 + m.file_picker->0 <= usize::MAX,
        0 <= m.scroll,
        1 <= m.view_height,
    ensures
        ({
            let row = m.document->0.header.len() + 1 + m.file_picker->0;
            let n = m.picker_shown();
            n.scroll <= row < n.scroll + n.view_height
        }),
{
}

/// The picker opens on the file at the top of the pane, with no filter.
pub proof fn law_the_picker_opens_on_the_file_shown(m: DiffModel, path: Seq<char>, i: int)
    requires
        m.document is Some,
        m.file_at_top() == Some(path),
        0 <= i < m.document->0.files.len(),
        m.document->0.files[i].path == path,
        forall|k: int| 0 <= k < i ==> (#[trigger] m.document->0.files[k]).path != path,
    ensures
        m.picker_opened().file_picker == Some(i),
        m.picker_opened().picker_filter.query.len() == 0,
        !m.picker_opened().picker_filter.active,
        m.picker_opened().document == m.document,
{
    law_a_file_is_found_by_its_path(m.document->0.files, path, 0);
}

/// One step in the picker leads to the next or the previous file, and round from the last to
/// the first and back; a longer way stops at the ends.
pub proof fn law_the_picker_goes_round(len: int, pos: int, delta: int)
    requires
        0 <= pos < len,
    ensures
        wrapped_step(len, pos, 1) == (if pos + 1 == len {
            0
        } else {
            pos + 1
        }),
        wrapped_step(len, pos, -1) == (if pos == 0 {
            len - 1
        } else {
            pos - 1
        }),
        delta > 1 ==> wrapped_step(len, pos, delta) == vstd::math::min(pos + delta, len - 1),
        delta < -1 ==> wrapped_step(len, pos, delta) == vstd::math::max(pos + delta, 0),
{
}

/// The filter of the picker finds exactly the files whose path holds the text in any case,
/// from the top down; an empty filter finds none.
pub proof fn law_the_filter_finds_paths(files: Seq<FileStatModel>, q: Seq<char>, to: int)
    requires
        0 <= to <= files.len(),
        files.len() <= usize::MAX,
    ensures
        forall|i: usize| #[trigger]
            matching_files(files, q, to).contains(i) <==> q.len() > 0 && i < to && has_substring(
                lower_text(files[i as int].path),
                q,
            ),
        forall|a: int, b: int|
            0 <= a < b < matching_files(files, q, to).len() ==> #[trigger] matching_files(
                files,
                q,
                to,
            )[a] < #[trigger] matching_files(files, q, to)[b],
    decreases to,
{
    let all = matching_files(files, q, to);
    if to > 0 {
        let less = matching_files(files, q, to - 1);
        law_the_filter_finds_paths(files, q, to - 1);
        if q.len() > 0 && has_substring(lower_text(files[to - 1].path), q) {
            assert(all[less.len() as int] == to - 1);
            assert forall|i: usize| #[trigger] all.contains(i) <==> less.contains(i) || i == to
                - 1 by {
                if less.contains(i) {
                    let k = choose|k: int| 0 <= k < less.len() && less[k] == i;
                    assert(all[k] == i);
                }
            }
            assert forall|a: int| 0 <= a < less.len() implies #[trigger] less[a] < to - 1 by {
                assert(less.contains(less[a]));
            }
        } else {
            assert(all == less);
        }
    }
}

/// To open a file is to ask for its diff once, for the target shown, under a new number; while
/// one is open, or with nothing shown, nothing happens.
pub proof fn law_a_file_is_asked_for_once(m: AppModel, path: Seq<char>)
    ensures
        m.diff.file_view_return is Some || m.diff.target is None ==> m.file_view_opened(path) == m,
        m.diff.file_view_return is None ==> (m.diff.target matches Some(target) ==> {
            let n = m.file_view_opened(path);
            &&& n.diff_seq != m.diff_seq
            &&& n.diff == m.diff
            &&& n.outbox == m.outbox.push(
                GitReqModel::Inspect(
                    InspectReqModel::LoadFileDiff { target, path, seq: n.diff_seq },
                ),
            )
        }),
{
    reveal(AppModel::file_view_opened);
}

/// A picked file is shown where its section starts; one that has no section in the diff is
/// opened on its own. Either way the picker closes.
pub proof fn law_a_picked_file_is_shown_or_opened(m: AppModel, i: int)
    requires
        m.diff.document is Some,
        m.diff.file_picker == Some(i),
        0 <= i < m.diff.document->0.files.len(),
    ensures
        ({
            let path = m.diff.document->0.files[i].path;
            let sections = m.diff.document->0.sections;
            let shown = m.pick_shown();
            let opened = m.pick_opened();
            &&& shown.diff.file_picker is None
            &&& opened.diff.file_picker is None
            &&& opened == m.with_diff(m.diff.picker_closed()).file_view_opened(path)
            &&& (forall|k: int|
                0 <= k < sections.len() ==> (#[trigger] sections[k]).path != path) ==> shown
                == opened
            &&& m.diff.show_hunks ==> (section_of(sections, path, 0) matches Some(k)
                ==> shown.diff.scroll == vstd::math::min(
                sat(m.diff.body_offset() + sections[k].body_start),
                vstd::math::max(m.diff.total_lines() - m.diff.view_height, 0),
            ) && shown.outbox == m.outbox)
        }),
{
    reveal(AppModel::pick_shown);
    reveal(AppModel::pick_opened);
    reveal(AppModel::file_view_opened);
    let path = m.diff.document->0.files[i].path;
    lemma_section_of(m.diff.document->0.sections, path, 0);
}

/// The blame of a diff is that of the file at the top, as of the commit shown, or as of the
/// last commit for the working tree; the way back starts anew.
pub proof fn law_the_blame_of_a_diff_is_of_the_file_shown(m: AppModel, path: Seq<char>)
    requires
        m.diff.document is Some,
        m.diff.file_at_top() == Some(path),
    ensures
        ({
            let n = m.blame_of_diff();
            let at = match m.diff.document->0.target {
                DiffTarget::Commit(id) => BlameAt::Commit(id),
                DiffTarget::WorkingTree => BlameAt::Head,
                DiffTarget::Staged => BlameAt::Head,
            };
            &&& n.blame.open && n.blame.loading
            &&& n.blame.history.len() == 0
            &&& n.blame_seq != m.blame_seq
            &&& n.outbox == m.outbox.push(
                GitReqModel::Inspect(InspectReqModel::LoadBlame { path, at, seq: n.blame_seq }),
            )
        }),
{
    reveal(AppModel::blame_of_diff);
    reveal(AppModel::blame_opened);
}

/// The single-file view is shown from its left edge, with nothing picked or selected in it,
/// and with the query that was there.
pub proof fn law_the_single_file_view_starts_afresh(m: DiffModel, document: DocumentModel)
    ensures
        ({
            let n = m.file_view_shown(document);
            &&& n.document == Some(document)
            &&& !n.loading
            &&& n.horizontal_scroll == 0
            &&& n.selection is None
            &&& n.file_picker is None
            &&& n.search.query == m.search.query
            &&& n.target == m.target
        }),
{
}

/// To leave the single-file view is to get back to the diff it was opened from; a diff of the
/// working tree whose untracked files were still to come is asked for anew.
pub proof fn law_leaving_a_file_leads_back_to_its_diff(m: AppModel)
    ensures
        m.diff.file_view_return is None ==> m.file_view_left() == m,
        m.diff.file_view_return matches Some(r) ==> {
            let n = m.file_view_left();
            &&& n.diff.document == Some(r.document)
            &&& n.diff.scroll == r.scroll
            &&& n.diff.horizontal_scroll == r.horizontal_scroll
            &&& n.diff.file_view_return is None
            &&& r.document.untracked_anchor is None ==> n.outbox == m.outbox
            &&& r.document.untracked_anchor is Some ==> (m.diff.target matches Some(target)
                ==> n.outbox == m.outbox.push(
                GitReqModel::Inspect(
                    InspectReqModel::LoadDiff { target, seq: n.diff_seq, scoped: m.diff.scoped },
                ),
            ))
        },
{
    reveal(AppModel::file_view_left);
    reveal(AppModel::reloading_diff);
}

/// The filter of the picker moves the pick to the first file found at or behind it, or else to
/// the first found; if it finds none, the pick stays.
pub proof fn law_the_filter_moves_the_pick(m: DiffModel, i: int)
    requires
        m.document is Some,
        m.file_picker == Some(i),
    ensures
        ({
            let n = m.picker_refreshed();
            let found = matching_files(
                m.document->0.files,
                lower_text(m.picker_filter.query),
                m.document->0.files.len() as int,
            );
            &&& n.picker_filter.matches == found
            &&& n.picker_filter.query == m.picker_filter.query
            &&& found.len() == 0 ==> n.file_picker == m.file_picker
            &&& found.len() > 0 ==> (n.file_picker matches Some(k) && found.contains(k as usize)
                && 0 <= n.picker_filter.current < found.len() && found[n.picker_filter.current]
                == k)
        }),
{
    let found = matching_files(
        m.document->0.files,
        lower_text(m.picker_filter.query),
        m.document->0.files.len() as int,
    );
    law_the_first_match_is_at_or_behind_the_cursor(found, i);
    if found.len() > 0 {
        let at = first_match_index(found, i)->0;
        assert(found.contains(found[at]));
    }
}

/// A picked file's path is that of its entry in the list.
pub proof fn law_the_pick_is_a_file_of_the_list(m: DiffModel, i: int)
    requires
        m.document is Some,
        m.file_picker == Some(i),
    ensures
        0 <= i < m.document->0.files.len() ==> m.picked_path() == Some(m.document->0.files[i].path),
        i >= m.document->0.files.len() ==> m.picked_path() is None,
{
}

} // verus!
