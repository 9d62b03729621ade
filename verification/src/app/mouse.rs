//! What the mouse does to the viewer: the wheel scrolls what is under the
//! pointer, a click focuses a pane and selects a commit, and in the diff pane
//! text is selected by dragging or by clicking twice or three times, and copied
//! on release.

use crate::app::state::{less, sat, DiffModel, LogModel, YankModel};
use crate::app::{App, AppModel, ClickMark, DiffSelection, DiffState, Focus, Rect, YankFeedback};
use crate::text::{chars_of, decimal, push_decimal, split_lines, text_lines};
use crate::ui::format::{plural, push_plural};
use vstd::prelude::*;
use vstd::string::StringExecFns;

verus! {

/// Lines of one turn of the wheel.
pub const WHEEL_STEP: usize = 3;

/// Milliseconds in which the next click on the same place counts on.
pub const MULTI_CLICK_WINDOW: u64 = 400;

/// A mouse button.
#[derive(Clone, Copy, PartialEq, Eq, Structural, Debug)]
pub enum MouseButton {
    Left,
    Right,
    Middle,
}

/// What the mouse did.
#[derive(Clone, Copy, PartialEq, Eq, Structural, Debug)]
pub enum MouseEventKind {
    Down(MouseButton),
    Up(MouseButton),
    Drag(MouseButton),
    Moved,
    ScrollDown,
    ScrollUp,
    ScrollLeft,
    ScrollRight,
}

/// What the mouse did, and where.
#[derive(Clone, Copy, PartialEq, Eq, Structural, Debug)]
pub struct MouseEvent {
    pub kind: MouseEventKind,
    pub column: u16,
    pub row: u16,
}

/// Whether the place lies in the area.
pub open spec fn inside(area: Option<Rect>, column: int, row: int) -> bool {
    match area {
        Some(r) => r.holds(column, row),
        None => false,
    }
}

fn hit(area: Option<Rect>, column: u16, row: u16) -> (r: bool)
    ensures
        r == inside(area, column as int, row as int),
{
    match area {
        Some(r) => column >= r.x && column - r.x < r.width && row >= r.y && row - r.y < r.height,
        None => false,
    }
}

/// `v`, but not below `low` and not above `high`.
pub open spec fn clamped(v: int, low: int, high: int) -> int {
    if v < low {
        low
    } else if v > high {
        high
    } else {
        v
    }
}

/// The how manieth click in a row a click at `now` on cell `cell` of line `line` is.
pub open spec fn click_count(last: Option<ClickMark>, line: int, cell: int, now: u64) -> int {
    match last {
        Some(m) => if m.line == line && m.cell == cell && less(now as int, m.when as int)
            <= MULTI_CLICK_WINDOW {
            sat(m.count + 1)
        } else {
            1
        },
        None => 1,
    }
}

impl DiffModel {
    /// The selection that click number `count` on cell `cell` of line `line` starts: the
    /// second selects the word, further ones the line.
    pub open spec fn clicked(self, line: int, cell: int, count: int) -> DiffSelection {
        let range = if count <= 1 {
            None
        } else if count == 2 {
            self.word_cells(line, cell)
        } else {
            self.line_cells(line)
        };
        match range {
            Some((start, end)) => DiffSelection {
                anchor: (line as usize, start as usize),
                cursor: (line as usize, end as usize),
                dragging: true,
                moved: true,
            },
            None => DiffSelection {
                anchor: (line as usize, cell as usize),
                cursor: (line as usize, cell as usize),
                dragging: true,
                moved: false,
            },
        }
    }

    /// The selection is dragged to a place of the screen. Behind the edge of the pane it
    /// scrolls by a line.
    pub open spec fn dragged(self, inner: Rect, column: int, row: int) -> DiffModel {
        match self.selection {
            Some(sel) => if inner.width == 0 || inner.height == 0 || self.total_lines() == 0
                || !sel.dragging {
                self
            } else {
                let moved = if row < inner.y {
                    self.up(1)
                } else if row >= inner.y + inner.height {
                    self.down(1)
                } else {
                    self
                };
                let line = moved.line_on(
                    inner,
                    clamped(row, inner.y as int, inner.y + inner.height - 1),
                );
                let cell = moved.cell_in(
                    inner,
                    clamped(column, inner.x as int, inner.x + inner.width - 1),
                );
                DiffModel {
                    selection: Some(
                        DiffSelection {
                            cursor: (line as usize, cell as usize),
                            moved: true,
                            ..sel
                        },
                    ),
                    ..moved
                }
            },
            None => self,
        }
    }

    /// Nothing is selected.
    pub open spec fn unselected(self) -> DiffModel {
        DiffModel { selection: None, ..self }
    }

    /// The button is released: a selection that covers something stays.
    pub open spec fn released(self) -> DiffModel {
        match self.selection {
            Some(sel) => if !sel.dragging {
                self
            } else if sel.moved {
                DiffModel {
                    selection: Some(DiffSelection { dragging: false, ..sel }),
                    ..self
                }
            } else {
                self.unselected()
            },
            None => self,
        }
    }

    /// The text that a release copies, if it ends a selection that covers something.
    pub open spec fn released_text(self) -> Option<Seq<char>> {
        match self.selection {
            Some(sel) => if sel.dragging && sel.moved && self.text_between(
                sel.low(),
                sel.high(),
            ).len() > 0 {
                Some(self.text_between(sel.low(), sel.high()))
            } else {
                None
            },
            None => None,
        }
    }
}

/// The note that `text` was copied, out of one line or more.
pub open spec fn copy_note(text: Seq<char>, one_line: bool) -> Seq<char> {
    if one_line {
        "Copied "@ + decimal(text.len()) + " char"@ + plural(text.len() as int)
    } else {
        "Copied "@ + decimal(text_lines(text).len()) + " line"@ + plural(
            text_lines(text).len() as int,
        )
    }
}

fn note_text(text: &str, one_line: bool) -> (r: String)
    ensures
        r@ == copy_note(text@, one_line),
{
    let mut out: String = "Copied ".to_owned();
    if one_line {
        let count: usize = chars_of(text).len();
        push_decimal(&mut out, count as u64);
        out.append(" char");
        push_plural(&mut out, count);
    } else {
        let lines: Vec<String> = split_lines(text);
        let count: usize = lines.len();
        assert(lines.deep_view().len() == count);
        push_decimal(&mut out, count as u64);
        out.append(" line");
        push_plural(&mut out, count);
    }
    out
}

impl DiffState {
    fn click(&self, line: usize, cell: usize, count: usize) -> (r: DiffSelection)
        ensures
            r == self@.clicked(line as int, cell as int, count as int),
    {
        let range: Option<(usize, usize)> = if count <= 1 {
            None
        } else if count == 2 {
            self.diff_word_cells(line, cell)
        } else {
            self.diff_line_cells(line)
        };
        match range {
            Some((start, end)) => DiffSelection {
                anchor: (line, start),
                cursor: (line, end),
                dragging: true,
                moved: true,
            },
            None => DiffSelection {
                anchor: (line, cell),
                cursor: (line, cell),
                dragging: true,
                moved: false,
            },
        }
    }

    fn unselect(&mut self)
        ensures
            final(self)@ == old(self)@.unselected(),
    {
        self.selection = None;
    }

    fn drag(&mut self, inner: Rect, column: u16, row: u16)
        ensures
            final(self)@ == old(self)@.dragged(inner, column as int, row as int),
    {
        let sel: DiffSelection = match self.selection {
            Some(s) => s,
            None => {
                return;
            },
        };
        if inner.width == 0 || inner.height == 0 || self.total_visible_lines() == 0
            || !sel.dragging {
            return;
        }
        let ghost before = self@;
        if row < inner.y {
            self.scroll_up(1);
        } else if row - inner.y >= inner.height {
            self.scroll_down(1);
        }
        assert(self@.total_lines() == before.total_lines());
        let on_row: u16 = if row < inner.y {
            inner.y
        } else if row - inner.y > inner.height - 1 {
            inner.y.saturating_add(inner.height - 1)
        } else {
            row
        };
        let on_column: u16 = if column < inner.x {
            inner.x
        } else if column - inner.x > inner.width - 1 {
            inner.x.saturating_add(inner.width - 1)
        } else {
            column
        };
        let line: usize = self.diff_line_at(inner, on_row);
        let cell: usize = self.diff_cell_at(inner, on_column);
        self.selection = Some(DiffSelection { cursor: (line, cell), moved: true, ..sel });
    }

    fn release(&mut self) -> (r: Option<(String, bool)>)
        ensures
            final(self)@ == old(self)@.released(),
            match (r, old(self)@.released_text()) {
                (Some((text, one)), Some(t)) => text@ == t && one == (
                old(self)@.selection->0.low().0 == old(self)@.selection->0.high().0),
                (None, None) => true,
                _ => false,
            },
    {
        let sel: DiffSelection = match self.selection {
            Some(s) => s,
            None => {
                return None;
            },
        };
        if !sel.dragging {
            return None;
        }
        if !sel.moved {
            self.selection = None;
            return None;
        }
        let ends: ((usize, usize), (usize, usize)) = sel.range();
        let text: String = self.selection_text(ends.0, ends.1);
        self.selection = Some(DiffSelection { dragging: false, ..sel });
        if text.as_str().is_empty() {
            None
        } else {
            Some((text, ends.0.0 == ends.1.0))
        }
    }
}

impl AppModel {
    /// The wheel turns, at a place of the screen.
    #[verifier::opaque]
    pub open spec fn wheeled(self, down: bool, column: int, row: int) -> AppModel {
        if inside(self.panes.diff, column, row) {
            if down {
                self.with_diff(self.diff.down(WHEEL_STEP as int))
            } else {
                self.with_diff(self.diff.up(WHEEL_STEP as int))
            }
        } else if inside(self.panes.log, column, row) {
            if down {
                self.log_down(WHEEL_STEP as int)
            } else {
                self.log_up(WHEEL_STEP as int)
            }
        } else {
            self
        }
    }

    /// The left button is pressed in the diff pane, whose inside is `inner`.
    #[verifier::opaque]
    pub open spec fn diff_pressed(self, inner: Rect, column: int, row: int) -> AppModel {
        if self.diff.total_lines() == 0 {
            AppModel { focus: Focus::Diff, ..self }
        } else {
            let line = self.diff.line_on(inner, row);
            let cell = self.diff.cell_in(inner, column);
            let count = click_count(self.last_diff_click, line, cell, self.now);
            AppModel {
                focus: Focus::Diff,
                last_diff_click: Some(
                    ClickMark {
                        when: self.now,
                        line: line as usize,
                        cell: cell as usize,
                        count: count as usize,
                    },
                ),
                diff: DiffModel {
                    selection: Some(self.diff.clicked(line, cell, count)),
                    ..self.diff
                },
                ..self
            }
        }
    }

    /// The left button is pressed in the log pane, whose inside is `inner`.
    #[verifier::opaque]
    pub open spec fn log_pressed(self, inner: Rect, row: int) -> AppModel {
        let idx = sat(self.log.scroll + less(row, inner.y as int));
        if idx < self.log.rows.len() && idx != self.log.selected {
            AppModel {
                focus: Focus::Log,
                log: LogModel { selected: idx, ..self.log },
                ..self
            }.diff_following()
        } else {
            AppModel { focus: Focus::Log, ..self }
        }
    }

    /// The left button is pressed in the pane that lies there.
    #[verifier::opaque]
    pub open spec fn pressed_in_pane(self, column: int, row: int) -> AppModel {
        if inside(self.panes.diff, column, row) {
            self.diff_pressed(self.panes.diff->0, column, row)
        } else if inside(self.panes.log, column, row) {
            self.log_pressed(self.panes.log->0, row)
        } else {
            self
        }
    }

    /// The left button is pressed: what was selected is not any more.
    #[verifier::opaque]
    pub open spec fn pressed(self, column: int, row: int) -> AppModel {
        self.with_diff(self.diff.unselected()).pressed_in_pane(column, row)
    }

    /// The mouse is dragged.
    #[verifier::opaque]
    pub open spec fn dragged(self, column: int, row: int) -> AppModel {
        match self.panes.diff {
            Some(inner) => self.with_diff(self.diff.dragged(inner, column, row)),
            None => self,
        }
    }

    /// The left button is released. What is selected is copied, and a note says so.
    #[verifier::opaque]
    pub open spec fn released(self) -> AppModel {
        let after = self.with_diff(self.diff.released());
        match self.diff.released_text() {
            Some(text) => AppModel {
                clipboard: Some(text),
                yank_message: Some(
                    YankModel {
                        text: copy_note(
                            text,
                            self.diff.selection->0.low().0 == self.diff.selection->0.high().0,
                        ),
                        shown_at: self.now,
                    },
                ),
                ..after
            },
            None => after,
        }
    }

    /// The viewer behind what the mouse did. The views that fill the screen only scroll.
    #[verifier::opaque]
    pub open spec fn moused(self, ev: MouseEvent) -> AppModel {
        let column = ev.column as int;
        let row = ev.row as int;
        match ev.kind {
            MouseEventKind::ScrollDown => if self.status.open {
                AppModel {
                    status: self.status.scrolled(sat(self.status.scroll + WHEEL_STEP)),
                    ..self
                }
            } else if self.refs.open {
                self.refs_moved(WHEEL_STEP as int)
            } else if self.blame.open {
                self.blame_moved(WHEEL_STEP as int)
            } else {
                self.wheeled(true, column, row)
            },
            MouseEventKind::ScrollUp => if self.status.open {
                AppModel {
                    status: self.status.scrolled(less(self.status.scroll, WHEEL_STEP as int)),
                    ..self
                }
            } else if self.refs.open {
                self.refs_moved(-(WHEEL_STEP as int))
            } else if self.blame.open {
                self.blame_moved(-(WHEEL_STEP as int))
            } else {
                self.wheeled(false, column, row)
            },
            _ => if self.status.open || self.refs.open || self.blame.open {
                self
            } else {
                match ev.kind {
                    MouseEventKind::Down(MouseButton::Left) => self.pressed(column, row),
                    MouseEventKind::Drag(MouseButton::Left) => self.dragged(column, row),
                    MouseEventKind::Up(MouseButton::Left) => self.released(),
                    _ => self,
                }
            },
        }
    }
}

impl App {
    /// Does what the mouse asks for.
    pub fn handle_mouse(&mut self, ev: MouseEvent)
        ensures
            final(self)@ == old(self)@.moused(ev),
    {
        proof {
            reveal(AppModel::moused);
        }
        match ev.kind {
            MouseEventKind::ScrollDown => {
                self.wheel_turned(true, ev.column, ev.row);
            },
            MouseEventKind::ScrollUp => {
                self.wheel_turned(false, ev.column, ev.row);
            },
            _ => {
                if !self.status.open && !self.refs.open && !self.blame.open {
                    self.button_used(ev);
                }
            },
        }
    }

    fn wheel_turned(&mut self, down: bool, column: u16, row: u16)
        ensures
            final(self)@ == old(self)@.moused(
                MouseEvent {
                    kind: if down {
                        MouseEventKind::ScrollDown
                    } else {
                        MouseEventKind::ScrollUp
                    },
                    column,
                    row,
                },
            ),
    {
        proof {
            reveal(AppModel::moused);
        }
        if self.status.open {
            self.status.scroll = if down {
                self.status.scroll.saturating_add(WHEEL_STEP)
            } else {
                self.status.scroll.saturating_sub(WHEEL_STEP)
            };
        } else if self.refs.open {
            if down {
                self.refs_move(WHEEL_STEP as isize);
            } else {
                self.refs_move(-(WHEEL_STEP as isize));
            }
        } else if self.blame.open {
            if down {
                self.blame_move(WHEEL_STEP as isize);
            } else {
                self.blame_move(-(WHEEL_STEP as isize));
            }
        } else {
            self.wheel(down, column, row);
        }
    }

    fn button_used(&mut self, ev: MouseEvent)
        ensures
            final(self)@ == (match ev.kind {
                MouseEventKind::Down(MouseButton::Left) => old(self)@.pressed(
                    ev.column as int,
                    ev.row as int,
                ),
                MouseEventKind::Drag(MouseButton::Left) => old(self)@.dragged(
                    ev.column as int,
                    ev.row as int,
                ),
                MouseEventKind::Up(MouseButton::Left) => old(self)@.released(),
                _ => old(self)@,
            }),
    {
        match ev.kind {
            MouseEventKind::Down(MouseButton::Left) => {
                self.mouse_down(ev.column, ev.row);
            },
            MouseEventKind::Drag(MouseButton::Left) => {
                self.mouse_drag(ev.column, ev.row);
            },
            MouseEventKind::Up(MouseButton::Left) => {
                self.mouse_up();
            },
            _ => {},
        }
    }

    fn wheel(&mut self, down: bool, column: u16, row: u16)
        ensures
            final(self)@ == old(self)@.wheeled(down, column as int, row as int),
    {
        proof {
            reveal(AppModel::wheeled);
        }
        if hit(self.panes.diff, column, row) {
            if down {
                self.diff.scroll_down(WHEEL_STEP);
            } else {
                self.diff.scroll_up(WHEEL_STEP);
            }
        } else if hit(self.panes.log, column, row) {
            if down {
                self.move_log_down(WHEEL_STEP);
            } else {
                self.move_log_up(WHEEL_STEP);
            }
        }
    }

    fn press_diff(&mut self, inner: Rect, column: u16, row: u16)
        ensures
            final(self)@ == old(self)@.diff_pressed(inner, column as int, row as int),
    {
        proof {
            reveal(AppModel::diff_pressed);
        }
        self.focus = Focus::Diff;
        if self.diff.total_visible_lines() == 0 {
            return;
        }
        let line: usize = self.diff.diff_line_at(inner, row);
        let cell: usize = self.diff.diff_cell_at(inner, column);
        let count: usize = match self.last_diff_click {
            Some(m) => if m.line == line && m.cell == cell && self.now.saturating_sub(m.when)
                <= MULTI_CLICK_WINDOW {
                m.count.saturating_add(1)
            } else {
                1
            },
            None => 1,
        };
        self.last_diff_click = Some(ClickMark { when: self.now, line, cell, count });
        self.diff.selection = Some(self.diff.click(line, cell, count));
    }

    fn press_log(&mut self, inner: Rect, row: u16)
        ensures
            final(self)@ == old(self)@.log_pressed(inner, row as int),
    {
        proof {
            reveal(AppModel::log_pressed);
        }
        self.focus = Focus::Log;
        let idx: usize = self.log.scroll.saturating_add(row.saturating_sub(inner.y) as usize);
        if idx < self.log.rows.len() && idx != self.log.selected {
            self.log.selected = idx;
            self.follow_selection();
        }
    }

    fn mouse_down(&mut self, column: u16, row: u16)
        ensures
            final(self)@ == old(self)@.pressed(column as int, row as int),
    {
        proof {
            reveal(AppModel::pressed);
        }
        self.diff.unselect();
        self.press_in_pane(column, row);
    }

    fn press_in_pane(&mut self, column: u16, row: u16)
        ensures
            final(self)@ == old(self)@.pressed_in_pane(column as int, row as int),
    {
        proof {
            reveal(AppModel::pressed_in_pane);
        }
        if hit(self.panes.diff, column, row) {
            if let Some(inner) = self.panes.diff {
                self.press_diff(inner, column, row);
            }
        } else if hit(self.panes.log, column, row) {
            if let Some(inner) = self.panes.log {
                self.press_log(inner, row);
            }
        }
    }

    /// The text from place `lo` to place `hi` of the diff pane, both included.
    pub fn diff_selection_text(&self, lo: (usize, usize), hi: (usize, usize)) -> (r: String)
        ensures
            r@ == self@.diff.text_between(lo, hi),
    {
        self.diff.selection_text(lo, hi)
    }

    fn mouse_drag(&mut self, column: u16, row: u16)
        ensures
            final(self)@ == old(self)@.dragged(column as int, row as int),
    {
        proof {
            reveal(AppModel::dragged);
        }
        if let Some(inner) = self.panes.diff {
            self.diff.drag(inner, column, row);
        }
    }

    fn mouse_up(&mut self)
        ensures
            final(self)@ == old(self)@.released(),
    {
        proof {
            reveal(AppModel::released);
        }
        if let Some((text, one_line)) = self.diff.release() {
            let note: String = note_text(text.as_str(), one_line);
            self.clipboard = Some(text);
            self.yank_message = Some(YankFeedback { text: note, shown_at: self.now });
        }
    }
}

/// A selection copies the same text whichever of its ends it was started at.
pub proof fn law_direction_does_not_matter(d: DiffModel, a: (usize, usize), b: (usize, usize))
    ensures
        ({
            let there = DiffSelection { anchor: a, cursor: b, dragging: true, moved: true };
            let back = DiffSelection { anchor: b, cursor: a, dragging: true, moved: true };
            d.text_between(there.low(), there.high()) == d.text_between(back.low(), back.high())
        }),
{
}

/// A plain click copies nothing and selects nothing.
pub proof fn law_plain_click_copies_nothing(app: AppModel, column: int, row: int)
    requires
        inside(app.panes.diff, column, row),
        app.last_diff_click is None,
    ensures
        app.pressed(column, row).released().clipboard == app.clipboard,
        app.pressed(column, row).released().diff.selection is None,
{
    reveal(AppModel::pressed);
    reveal(AppModel::pressed_in_pane);
    reveal(AppModel::diff_pressed);
    reveal(AppModel::released);
}

/// A click is a further one exactly if it comes at the same place, within four tenths of a
/// second after the last; otherwise it is a first one.
pub proof fn law_clicks_are_counted_in_one_place(last: ClickMark, line: int, cell: int, now: u64)
    requires
        last.when <= now,
        last.count < usize::MAX,
    ensures
        last.line == line && last.cell == cell && now - last.when <= 400 ==> click_count(
            Some(last),
            line,
            cell,
            now,
        ) == last.count + 1,
        last.line != line || last.cell != cell || now - last.when > 400 ==> click_count(
            Some(last),
            line,
            cell,
            now,
        ) == 1,
        click_count(None, line, cell, now) == 1,
{
}

/// One click starts a selection where it is, and selects nothing yet; two clicks select the
/// word and three or more the line, where there is one.
pub proof fn law_clicks_select_more_and_more(m: DiffModel, line: usize, cell: usize, count: int)
    ensures
        ({
            let one = m.clicked(line as int, cell as int, 1);
            let n = m.clicked(line as int, cell as int, count);
            &&& one.anchor == (line, cell) && one.cursor == (line, cell) && !one.moved
            &&& n.dragging
            &&& count == 2 ==> (m.word_cells(line as int, cell as int) matches Some((a, b))
                ==> n.anchor == (line, a as usize) && n.cursor == (line, b as usize) && n.moved)
            &&& count >= 3 ==> (m.line_cells(line as int) matches Some((a, b)) ==> n.anchor == (
                line,
                a as usize,
            ) && n.cursor == (line, b as usize) && n.moved)
            &&& count == 2 && m.word_cells(line as int, cell as int) is None ==> n == one
        }),
{
}

/// While the button is held, the selection reaches from where it began to where the pointer
/// is; a pointer above or below the pane moves the pane by a line and the selection with it.
pub proof fn law_a_drag_reaches_to_the_pointer(
    m: DiffModel,
    sel: DiffSelection,
    inner: Rect,
    dx: int,
    dy: int,
)
    requires
        m.selection == Some(sel),
        sel.dragging,
        0 <= dx < inner.width,
        0 <= dy < inner.height,
        0 <= m.scroll,
        m.scroll + dy < m.total_lines(),
        0 <= m.horizontal_scroll,
        m.horizontal_scroll + dx <= usize::MAX,
    ensures
        ({
            let n = m.dragged(inner, inner.x + dx, inner.y + dy);
            &&& n.scroll == m.scroll
            &&& n.selection matches Some(s) && s.anchor == sel.anchor && s.cursor == (
                (m.scroll + dy) as usize,
                (m.horizontal_scroll + dx) as usize,
            ) && s.moved && s.dragging
            &&& m.dragged(inner, inner.x + dx, inner.y - 1).scroll == vstd::math::max(
                m.scroll - 1,
                0,
            )
            &&& m.dragged(inner, inner.x + dx, inner.y + inner.height).scroll == vstd::math::min(
                sat(m.scroll + 1),
                vstd::math::max(m.total_lines() - m.view_height, 0),
            )
        }),
{
}

/// When the button is let go, what is selected is copied and stays selected; a selection that
/// never moved goes away and copies nothing.
pub proof fn law_letting_go_copies_the_selection(m: AppModel, sel: DiffSelection)
    requires
        m.diff.selection == Some(sel),
        sel.dragging,
    ensures
        ({
            let n = m.released();
            let text = m.diff.text_between(sel.low(), sel.high());
            &&& sel.moved && text.len() > 0 ==> n.clipboard == Some(text) && n.yank_message is Some
                && n.yank_message->0.shown_at == m.now
            &&& sel.moved && text.len() == 0 ==> n.clipboard == m.clipboard
            &&& sel.moved ==> (n.diff.selection matches Some(s) && s.anchor == sel.anchor
                && s.cursor == sel.cursor && !s.dragging)
            &&& !sel.moved ==> n.diff.selection is None && n.clipboard == m.clipboard
            &&& n.log == m.log
        }),
{
    reveal(AppModel::released);
}

/// The note on a copy counts characters within one line and lines otherwise, in the singular
/// for one.
pub proof fn law_a_copy_tells_how_much(text: Seq<char>)
    ensures
        text.len() == 1 ==> copy_note(text, true) == "Copied "@ + decimal(1) + " char"@,
        text.len() != 1 ==> copy_note(text, true) == "Copied "@ + decimal(text.len()) + " char"@
            + seq!['s'],
        text_lines(text).len() == 1 ==> copy_note(text, false) == "Copied "@ + decimal(1)
            + " line"@,
        text_lines(text).len() != 1 ==> copy_note(text, false) == "Copied "@ + decimal(
            text_lines(text).len(),
        ) + " line"@ + seq!['s'],
{
    reveal_strlit("s");
    reveal_strlit("");
    assert("s"@ =~= seq!['s']);
    if text.len() == 1 {
        assert(copy_note(text, true) =~= "Copied "@ + decimal(1) + " char"@);
    }
    if text_lines(text).len() == 1 {
        assert(copy_note(text, false) =~= "Copied "@ + decimal(1) + " line"@);
    }
}

/// The wheel moves by three lines what the pointer is on: the diff pane, or the selection of
/// the log. Over neither it moves nothing.
pub proof fn law_the_wheel_moves_three_lines(m: AppModel, column: int, row: int)
    requires
        0 <= m.diff.scroll,
        m.diff.scroll + 3 <= usize::MAX,
        0 <= m.log.selected < m.log.rows.len(),
    ensures
        inside(m.panes.diff, column, row) ==> {
            let end = vstd::math::max(m.diff.total_lines() - m.diff.view_height, 0);
            &&& m.wheeled(true, column, row).diff.scroll == vstd::math::min(m.diff.scroll + 3, end)
            &&& m.wheeled(false, column, row).diff.scroll == vstd::math::max(m.diff.scroll - 3, 0)
            &&& m.wheeled(true, column, row).log == m.log
        },
        !inside(m.panes.diff, column, row) && inside(m.panes.log, column, row) ==> {
            &&& m.wheeled(true, column, row).log.selected == vstd::math::min(
                m.log.selected + 3,
                m.log.rows.len() - 1,
            )
            &&& m.wheeled(false, column, row).log.selected == vstd::math::max(
                m.log.selected - 3,
                0,
            )
        },
        !inside(m.panes.diff, column, row) && !inside(m.panes.log, column, row) ==> m.wheeled(
            true,
            column,
            row,
        ) == m && m.wheeled(false, column, row) == m,
{
    reveal(AppModel::wheeled);
    reveal(AppModel::log_down);
    reveal(AppModel::log_up);
    reveal(AppModel::selecting);
    reveal(AppModel::selection_shown);
    reveal(AppModel::diff_following);
    reveal(AppModel::fetching_selected);
    reveal(AppModel::requesting_diff);
    reveal(AppModel::reloading_diff);
}

/// A click on the log selects the row below the pointer and gives the log the focus; below the
/// last row it gives the focus only.
pub proof fn law_a_click_selects_the_row_below_it(m: AppModel, inner: Rect, dy: int)
    requires
        0 <= dy,
        0 <= m.log.scroll,
        m.log.scroll + dy <= usize::MAX,
    ensures
        ({
            let n = m.log_pressed(inner, inner.y + dy);
            &&& n.focus == Focus::Log
            &&& n.log.rows == m.log.rows
            &&& n.log.scroll == m.log.scroll
            &&& m.log.scroll + dy < m.log.rows.len() ==> n.log.selected == m.log.scroll + dy
            &&& m.log.scroll + dy >= m.log.rows.len() ==> n.log.selected == m.log.selected
        }),
{
    reveal(AppModel::log_pressed);
    reveal(AppModel::diff_following);
    reveal(AppModel::fetching_selected);
    reveal(AppModel::requesting_diff);
    reveal(AppModel::reloading_diff);
}

/// While the status, the refs or a blame covers the panes, a button does nothing.
pub proof fn law_buttons_do_nothing_below_a_view(m: AppModel, ev: MouseEvent)
    requires
        m.status.open || m.refs.open || m.blame.open,
        ev.kind != MouseEventKind::ScrollDown,
        ev.kind != MouseEventKind::ScrollUp,
    ensures
        m.moused(ev) == m,
{
    reveal(AppModel::moused);
}

/// A click into the diff pane gives it the focus and starts a selection on the line and the
/// column below the pointer.
pub proof fn law_a_click_into_the_diff_starts_a_selection(m: AppModel, dx: int, dy: int)
    requires
        m.panes.diff is Some,
        inside(m.panes.diff, m.panes.diff->0.x + dx, m.panes.diff->0.y + dy),
        0 <= dx,
        0 <= dy,
        0 <= m.diff.scroll,
        m.diff.scroll + dy < m.diff.total_lines(),
        0 <= m.diff.horizontal_scroll,
        m.diff.horizontal_scroll + dx <= usize::MAX,
        m.last_diff_click is None,
    ensures
        ({
            let inner = m.panes.diff->0;
            let n = m.pressed(inner.x + dx, inner.y + dy);
            let at = (
                (m.diff.scroll + dy) as usize,
                (m.diff.horizontal_scroll + dx) as usize,
            );
            &&& n.focus == Focus::Diff
            &&& n.diff.selection matches Some(s) && s.anchor == at && s.cursor == at
            &&& n.diff.scroll == m.diff.scroll
            &&& n.log == m.log
        }),
{
    reveal(AppModel::pressed);
    reveal(AppModel::pressed_in_pane);
    reveal(AppModel::diff_pressed);
}

} // verus!
