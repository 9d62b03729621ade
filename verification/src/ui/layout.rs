//! Where on the screen the parts of the viewer lie.

use crate::app::state::{larger, less, LogModel, RefsModel};
use crate::app::{App, AppModel, PaneRects, Rect};
use ratatui::layout::{Constraint, Layout};
use vstd::prelude::*;

verus! {

/// A part of an area that is split.
#[derive(Clone, Copy, PartialEq, Eq, Structural, Debug)]
pub enum Part {
    Length(u16),
    Min(u16),
    Percentage(u16),
}

/// How the parts of an area that is split lie.
#[derive(Clone, Copy, PartialEq, Eq, Structural, Debug)]
pub enum Direction {
    Horizontal,
    Vertical,
}

/// `a + b`, but no more than a `u16` holds.
pub open spec fn sat16(a: int, b: int) -> int {
    if a + b > u16::MAX {
        u16::MAX as int
    } else {
        a + b
    }
}

/// `part` lies in `area` and goes all across it, in the direction in which it is not split.
pub open spec fn part_of(area: Rect, direction: Direction, part: Rect) -> bool {
    match direction {
        Direction::Horizontal => {
            &&& part.y == area.y
            &&& part.height == area.height
            &&& area.x <= part.x
            &&& part.x + part.width <= sat16(area.x as int, area.width as int)
        },
        Direction::Vertical => {
            &&& part.x == area.x
            &&& part.width == area.width
            &&& area.y <= part.y
            &&& part.y + part.height <= sat16(area.y as int, area.height as int)
        },
    }
}

/// How far `area` reaches in the direction in which it is split.
pub open spec fn room(area: Rect, direction: Direction) -> int {
    match direction {
        Direction::Horizontal => sat16(area.x as int, area.width as int) - area.x,
        Direction::Vertical => sat16(area.y as int, area.height as int) - area.y,
    }
}

/// The piece of `area` that starts `from` cells behind its start and is `length` cells long.
pub open spec fn piece(area: Rect, direction: Direction, from: int, length: int) -> Rect {
    match direction {
        Direction::Horizontal => Rect {
            x: (area.x + from) as u16,
            y: area.y,
            width: length as u16,
            height: area.height,
        },
        Direction::Vertical => Rect {
            x: area.x,
            y: (area.y + from) as u16,
            width: area.width,
            height: length as u16,
        },
    }
}

/// `first` ends at or before the start of `second`.
pub open spec fn in_front(direction: Direction, first: Rect, second: Rect) -> bool {
    match direction {
        Direction::Horizontal => first.x + first.width <= second.x,
        Direction::Vertical => first.y + first.height <= second.y,
    }
}

/// `percent` of `room`, rounded to the nearest cell, up where two are as near.
pub open spec fn share(room: int, percent: int) -> int {
    (percent * room + 50) / 100
}

/// A part of fixed length at either end, and what is left in between.
pub open spec fn is_framed(parts: Seq<Part>) -> bool {
    parts.len() == 3 && parts[0] is Length && parts[1] == Part::Min(0) && parts[2] is Length
}

/// Two parts that share all there is.
pub open spec fn is_shared(parts: Seq<Part>) -> bool {
    parts.len() == 2 && parts[0] is Percentage && parts[1] is Percentage
        && parts[0]->Percentage_0 + parts[1]->Percentage_0 == 100
}

/// Where the fixed lengths fit, the parts at the ends have them, and what lies in between has
/// the rest.
pub open spec fn framed(
    area: Rect,
    direction: Direction,
    parts: Seq<Part>,
    pieces: Seq<Rect>,
) -> bool {
    let first = parts[0]->Length_0 as int;
    let last = parts[2]->Length_0 as int;
    let all = room(area, direction);
    first + last <= all ==> {
        &&& pieces[0] == piece(area, direction, 0, first)
        &&& pieces[1] == piece(area, direction, first, all - first - last)
        &&& pieces[2] == piece(area, direction, all - last, last)
    }
}

/// The first part has its share, and the second one the rest.
pub open spec fn shared(
    area: Rect,
    direction: Direction,
    parts: Seq<Part>,
    pieces: Seq<Rect>,
) -> bool {
    let all = room(area, direction);
    let first = share(all, parts[0]->Percentage_0 as int);
    &&& pieces[0] == piece(area, direction, 0, first)
    &&& pieces[1] == piece(area, direction, first, all - first)
}

/// `ratatui::layout::Layout::split`: an area split into parts, side by side or one above the
/// other. There is one area for each part; it lies in the whole and goes across it, and each
/// ends at or before the next one starts.
///
/// The lengths come from a solver that meets the constraints it is given, the stronger ones
/// first. Two shares that add up to the whole can be met together with the demand that
/// nothing lies between them, and so can two fixed lengths that fit, with all the rest in
/// between; the solver then meets them, and its numbers are rounded to whole cells. Which
/// part yields where fixed lengths do not fit is left unsaid: the solver may choose.
#[verifier::external_body]
fn split(area: Rect, direction: Direction, parts: &Vec<Part>) -> (r: Vec<Rect>)
    requires
        is_framed(parts@) || is_shared(parts@),
    ensures
        r@.len() == parts@.len(),
        forall|i: int| 0 <= i < r@.len() ==> part_of(area, direction, #[trigger] r@[i]),
        forall|i: int, j: int|
            0 <= i < j < r@.len() ==> in_front(direction, #[trigger] r@[i], #[trigger] r@[j]),
        is_framed(parts@) ==> framed(area, direction, parts@, r@),
        is_shared(parts@) ==> shared(area, direction, parts@, r@),
{
    let way = match direction {
        Direction::Horizontal => ratatui::layout::Direction::Horizontal,
        Direction::Vertical => ratatui::layout::Direction::Vertical,
    };
    let constraints = parts.iter().map(|p| match *p {
        Part::Length(n) => Constraint::Length(n),
        Part::Min(n) => Constraint::Min(n),
        Part::Percentage(n) => Constraint::Percentage(n),
    });
    let Rect { x, y, width, height } = area;
    let whole = ratatui::layout::Rect { x, y, width, height };
    let areas = Layout::new(way, constraints).split(whole);
    areas.iter().map(|a| Rect { x: a.x, y: a.y, width: a.width, height: a.height }).collect()
}

/// Whether two panes lie side by side on a screen of that size: if it is wide, or if one
/// above the other they would be low.
pub open spec fn side_by_side(width: int, height: int) -> bool {
    width > 160 || width > 4 * (height - 1)
}

/// Whether two panes lie side by side on a screen of that size.
pub fn use_vertical_split(width: u16, height: u16) -> (r: bool)
    ensures
        r == side_by_side(width as int, height as int),
{
    width > 160 || width as i32 > 4 * (height as i32 - 1)
}

/// The areas of a screen.
#[derive(Clone, Copy, PartialEq, Eq, Structural, Debug)]
pub struct Areas {
    pub title: Rect,
    /// Between the title bar and the status bar.
    pub main: Rect,
    pub status: Rect,
    pub log: Rect,
    /// The diff pane, while it is open.
    pub diff: Option<Rect>,
}

/// The parts of a screen from top to bottom: a line for the title bar, a line for the status
/// bar, and all the rest in between.
pub open spec fn bar_parts() -> Seq<Part> {
    seq![Part::Length(1), Part::Min(0), Part::Length(1)]
}

/// The parts of a screen from top to bottom.
pub fn bars_split() -> (r: Vec<Part>)
    ensures
        r@ == bar_parts(),
{
    vec![Part::Length(1), Part::Min(0), Part::Length(1)]
}

/// How the panes lie on a screen of that size.
pub open spec fn pane_direction(size: Rect) -> Direction {
    if side_by_side(size.width as int, size.height as int) {
        Direction::Horizontal
    } else {
        Direction::Vertical
    }
}

/// What share of the room between the bars the log has, in percent: half of it beside the
/// diff, more of it above the diff.
pub open spec fn log_percent(size: Rect) -> int {
    if side_by_side(size.width as int, size.height as int) {
        50
    } else {
        60
    }
}

/// The shares of the log and of the diff in the room between the bars.
pub open spec fn pane_parts(size: Rect) -> Seq<Part> {
    seq![
        Part::Percentage(log_percent(size) as u16),
        Part::Percentage((100 - log_percent(size)) as u16),
    ]
}

/// How the panes lie on a screen of that size, and their shares in the room between the bars:
/// the log's, then the diff's.
pub fn panes_split(size: Rect) -> (r: (Direction, Vec<Part>))
    ensures
        r.0 == pane_direction(size),
        r.1@ == pane_parts(size),
{
    if use_vertical_split(size.width, size.height) {
        (Direction::Horizontal, vec![Part::Percentage(50), Part::Percentage(50)])
    } else {
        (Direction::Vertical, vec![Part::Percentage(60), Part::Percentage(40)])
    }
}

/// The areas of a screen, from its areas from top to bottom and, with the diff pane open, from
/// those of the panes.
pub fn arrange(bars: &Vec<Rect>, panes: Option<&Vec<Rect>>) -> (r: Areas)
    requires
        bars@.len() == 3,
        panes matches Some(p) ==> p@.len() == 2,
    ensures
        r.title == bars@[0],
        r.main == bars@[1],
        r.status == bars@[2],
        match panes {
            Some(p) => r.log == p@[0] && r.diff == Some(p@[1]),
            None => r.log == bars@[1] && r.diff is None,
        },
{
    match panes {
        Some(p) => Areas {
            title: bars[0],
            main: bars[1],
            status: bars[2],
            log: p[0],
            diff: Some(p[1]),
        },
        None => Areas {
            title: bars[0],
            main: bars[1],
            status: bars[2],
            log: bars[1],
            diff: None,
        },
    }
}

/// Where the title bar, the room for the panes and the status bar lie on a screen of two lines
/// or more: the bars have a line each, at the top and at the bottom.
pub open spec fn bars_at(size: Rect, title: Rect, main: Rect, status: Rect) -> bool {
    let rows = room(size, Direction::Vertical);
    &&& title == piece(size, Direction::Vertical, 0, 1)
    &&& main == piece(size, Direction::Vertical, 1, rows - 2)
    &&& status == piece(size, Direction::Vertical, rows - 1, 1)
}

/// Where the log and the diff lie in the room between the bars of a screen of that size: the
/// log has its share of it, and the diff the rest.
pub open spec fn panes_at(size: Rect, main: Rect, log: Rect, diff: Rect) -> bool {
    let direction = pane_direction(size);
    let all = room(main, direction);
    let first = share(all, log_percent(size));
    &&& log == piece(main, direction, 0, first)
    &&& diff == piece(main, direction, first, all - first)
}

/// Splits a screen: the title bar on top, the status bar below, and the panes in between. On
/// a screen with fewer lines than there are bars, which of them yields is left unsaid.
pub fn areas_of(size: Rect, diff_open: bool) -> (r: Areas)
    ensures
        part_of(size, Direction::Vertical, r.title),
        part_of(size, Direction::Vertical, r.main),
        part_of(size, Direction::Vertical, r.status),
        in_front(Direction::Vertical, r.title, r.main),
        in_front(Direction::Vertical, r.main, r.status),
        room(size, Direction::Vertical) >= 2 ==> bars_at(size, r.title, r.main, r.status),
        match r.diff {
            Some(diff) => diff_open && panes_at(size, r.main, r.log, diff),
            None => !diff_open && r.log == r.main,
        },
{
    let bars: Vec<Rect> = split(size, Direction::Vertical, &bars_split());
    if diff_open {
        let plan: (Direction, Vec<Part>) = panes_split(size);
        let panes: Vec<Rect> = split(bars[1], plan.0, &plan.1);
        arrange(&bars, Some(&panes))
    } else {
        arrange(&bars, None)
    }
}

/// What lies inside the borders of an area.
pub open spec fn inner(area: Rect) -> Rect {
    Rect {
        x: if sat16(area.x as int, 1) <= sat16(area.x as int, area.width as int) {
            sat16(area.x as int, 1) as u16
        } else {
            sat16(area.x as int, area.width as int) as u16
        },
        y: if sat16(area.y as int, 1) <= sat16(area.y as int, area.height as int) {
            sat16(area.y as int, 1) as u16
        } else {
            sat16(area.y as int, area.height as int) as u16
        },
        width: less(area.width as int, 2) as u16,
        height: less(area.height as int, 2) as u16,
    }
}

/// What lies inside the borders of an area.
pub fn inside_borders(area: Rect) -> (r: Rect)
    ensures
        r == inner(area),
{
    let right: u16 = area.x.saturating_add(area.width);
    let bottom: u16 = area.y.saturating_add(area.height);
    let x: u16 = area.x.saturating_add(1);
    let y: u16 = area.y.saturating_add(1);
    Rect {
        x: if x <= right {
            x
        } else {
            right
        },
        y: if y <= bottom {
            y
        } else {
            bottom
        },
        width: area.width.saturating_sub(2),
        height: area.height.saturating_sub(2),
    }
}

/// Lines inside the borders of an area, but at least one.
pub open spec fn lines_in(area: Rect) -> int {
    larger(inner(area).height as int, 1)
}

fn lines_inside(area: Rect) -> (r: usize)
    ensures
        r == lines_in(area),
{
    let height: u16 = inside_borders(area).height;
    if height == 0 {
        1
    } else {
        height as usize
    }
}

/// What fills the room between the bars.
#[derive(Clone, Copy, PartialEq, Eq, Structural, Debug)]
pub enum Shown {
    Status,
    Refs,
    Blame,
    Panes,
}

impl AppModel {
    /// What fills the room between the bars: the status, the refs or the blame while it is
    /// open, in this order, else the panes.
    pub open spec fn shown(self) -> Shown {
        if self.status.open {
            Shown::Status
        } else if self.refs.open {
            Shown::Refs
        } else if self.blame.open {
            Shown::Blame
        } else {
            Shown::Panes
        }
    }

    /// The panes are shown in these areas.
    #[verifier::opaque]
    pub open spec fn panes_placed(self, log: Rect, diff: Option<Rect>) -> AppModel {
        let sized = AppModel {
            log: LogModel { view_height: lines_in(log), ..self.log },
            panes: PaneRects {
                log: Some(inner(log)),
                diff: match diff {
                    Some(d) => Some(inner(d)),
                    None => None,
                },
            },
            diff: crate::app::state::DiffModel {
                view_height: match diff {
                    Some(d) => lines_in(d),
                    None => self.diff.view_height,
                },
                ..self.diff
            },
            ..self
        };
        sized.selection_shown()
    }

    /// The viewer is shown in these areas. A view that fills the screen hides the panes.
    #[verifier::opaque]
    pub open spec fn placed(self, areas: Areas) -> AppModel {
        let hidden = AppModel { panes: PaneRects { log: None, diff: None }, ..self };
        match self.shown() {
            Shown::Status => hidden,
            Shown::Refs => AppModel {
                refs: RefsModel { view_height: lines_in(areas.main), ..self.refs },
                ..hidden
            },
            Shown::Blame => AppModel {
                blame: crate::app::state::BlameModel {
                    view_height: lines_in(areas.main),
                    ..self.blame
                },
                ..hidden
            },
            Shown::Panes => self.panes_placed(areas.log, areas.diff),
        }
    }
}

impl App {
    fn place_panes(&mut self, log: Rect, diff: Option<Rect>)
        ensures
            final(self)@ == old(self)@.panes_placed(log, diff),
    {
        proof {
            reveal(AppModel::panes_placed);
        }
        self.log.view_height = lines_inside(log);
        self.panes = match diff {
            Some(d) => PaneRects {
                log: Some(inside_borders(log)),
                diff: Some(inside_borders(d)),
            },
            None => PaneRects { log: Some(inside_borders(log)), diff: None },
        };
        if let Some(d) = diff {
            self.diff.view_height = lines_inside(d);
        }
        self.ensure_selected_visible();
    }

    /// What fills the room between the bars.
    pub fn view_shown(&self) -> (r: Shown)
        ensures
            r == self@.shown(),
    {
        if self.status.open {
            Shown::Status
        } else if self.refs.open {
            Shown::Refs
        } else if self.blame.open {
            Shown::Blame
        } else {
            Shown::Panes
        }
    }

    /// Notes where the parts of the viewer are shown.
    pub fn place(&mut self, areas: Areas)
        ensures
            final(self)@ == old(self)@.placed(areas),
    {
        proof {
            reveal(AppModel::placed);
        }
        match self.view_shown() {
            Shown::Status => {
                self.panes = PaneRects { log: None, diff: None };
            },
            Shown::Refs => {
                self.panes = PaneRects { log: None, diff: None };
                self.refs.view_height = lines_inside(areas.main);
            },
            Shown::Blame => {
                self.panes = PaneRects { log: None, diff: None };
                self.blame.view_height = lines_inside(areas.main);
            },
            Shown::Panes => {
                self.place_panes(areas.log, areas.diff);
            },
        }
    }
}

/// Within its frame a pane has one column and one line less on each side.
pub proof fn law_a_frame_takes_one_cell_on_each_side(area: Rect)
    requires
        2 <= area.width,
        2 <= area.height,
        area.x + area.width <= u16::MAX,
        area.y + area.height <= u16::MAX,
    ensures
        inner(area).x == area.x + 1,
        inner(area).y == area.y + 1,
        inner(area).x + inner(area).width == area.x + area.width - 1,
        inner(area).y + inner(area).height == area.y + area.height - 1,
        area.height > 2 ==> lines_in(area) == area.height - 2,
        lines_in(area) >= 1,
{
}

/// The panes stand side by side on a screen of more than 160 columns, or of more than four
/// times as many columns as there are lines without the status bar; otherwise one stands above
/// the other. Side by side the log has half the room, and three fifths of it above the diff.
pub proof fn law_wide_screens_have_the_panes_side_by_side(size: Rect)
    ensures
        size.width > 160 ==> pane_direction(size) == Direction::Horizontal,
        size.width > 4 * (size.height - 1) ==> pane_direction(size) == Direction::Horizontal,
        size.width <= 160 && size.width <= 4 * (size.height - 1) ==> pane_direction(size)
            == Direction::Vertical,
        pane_direction(size) == Direction::Horizontal ==> log_percent(size) == 50,
        pane_direction(size) == Direction::Vertical ==> log_percent(size) == 60,
{
}

/// The two panes fill the room between the bars without overlap: side by side they share its
/// columns, above one another its lines.
pub proof fn law_the_panes_fill_their_room(size: Rect, main: Rect, log: Rect, diff: Rect)
    requires
        panes_at(size, main, log, diff),
        main.x + main.width <= u16::MAX,
        main.y + main.height <= u16::MAX,
    ensures
        log.x == main.x && log.y == main.y,
        pane_direction(size) == Direction::Horizontal ==> {
            &&& diff.x == log.x + log.width
            &&& log.width + diff.width == main.width
            &&& log.height == main.height && diff.height == main.height && diff.y == main.y
            &&& main.width <= 2 * log.width <= main.width + 1
        },
        pane_direction(size) == Direction::Vertical ==> {
            &&& diff.y == log.y + log.height
            &&& log.height + diff.height == main.height
            &&& log.width == main.width && diff.width == main.width && diff.x == main.x
            &&& 6 * main.height - 5 <= 10 * log.height <= 6 * main.height + 5
        },
{
}

/// The title takes the first line of the screen, the status bar the last, and what lies
/// between has the rest.
pub proof fn law_the_bars_take_the_first_and_the_last_line(
    size: Rect,
    title: Rect,
    main: Rect,
    status: Rect,
)
    requires
        bars_at(size, title, main, status),
        size.height >= 2,
        size.y + size.height <= u16::MAX,
    ensures
        title.y == size.y && title.height == 1,
        main.y == size.y + 1 && main.height == size.height - 2,
        status.y == size.y + size.height - 1 && status.height == 1,
        title.width == size.width && main.width == size.width && status.width == size.width,
        title.x == size.x && main.x == size.x && status.x == size.x,
{
}

/// One view is shown at a time: the status before the refs, these before a blame, and the
/// panes only without any. Only panes on show can be pointed at.
pub proof fn law_one_view_is_shown_at_a_time(m: AppModel, areas: Areas)
    ensures
        m.status.open ==> m.shown() == Shown::Status,
        !m.status.open && m.refs.open ==> m.shown() == Shown::Refs,
        !m.status.open && !m.refs.open && m.blame.open ==> m.shown() == Shown::Blame,
        !m.status.open && !m.refs.open && !m.blame.open ==> m.shown() == Shown::Panes,
        m.shown() != Shown::Panes ==> m.placed(areas).panes.log is None && m.placed(
            areas,
        ).panes.diff is None,
        m.shown() == Shown::Panes ==> {
            let n = m.placed(areas);
            &&& n.panes.log == Some(inner(areas.log))
            &&& areas.diff matches Some(d) ==> n.panes.diff == Some(inner(d)) && n.diff.view_height
                == lines_in(d)
            &&& areas.diff is None ==> n.panes.diff is None
            &&& n.log.view_height == lines_in(areas.log)
            &&& n.log.selected == m.log.selected
        },
        m.shown() == Shown::Refs ==> m.placed(areas).refs.view_height == lines_in(areas.main),
        m.shown() == Shown::Blame ==> m.placed(areas).blame.view_height == lines_in(areas.main),
{
    reveal(AppModel::placed);
    reveal(AppModel::panes_placed);
    reveal(AppModel::selection_shown);
}

/// Whatever size the log is given, the selected row is in view.
pub proof fn law_the_selected_row_stays_in_view(m: AppModel, areas: Areas)
    requires
        m.shown() == Shown::Panes,
        0 <= m.log.selected,
        0 <= m.log.scroll,
    ensures
        ({
            let log = m.placed(areas).log;
            log.scroll <= log.selected < log.scroll + log.view_height
        }),
{
    reveal(AppModel::placed);
    reveal(AppModel::panes_placed);
    reveal(AppModel::selection_shown);
}

} // verus!
