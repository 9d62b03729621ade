//! The help popup.

use crate::app::state::{less, smaller};
use crate::app::Rect;
use crate::ui::diffstat::push_line;
use crate::ui::style::{
    bold, colored, joined, no_spans, plain, push_span, single, span, Color, Span, Style,
    StyledLine, StyledModel,
};
use vstd::prelude::*;

verus! {

/// Lines of the help text.
pub const HELP_LINES: usize = 55;

/// A line of the help text.
#[derive(Clone, Copy, Debug)]
pub enum HelpEntry {
    Heading(&'static str),
    /// Keys, and what they do.
    Key(&'static str, &'static str),
    Blank,
}

/// What a `HelpEntry` says.
pub enum HelpModel {
    Heading(Seq<char>),
    Key(Seq<char>, Seq<char>),
    Blank,
}

impl View for HelpEntry {
    type V = HelpModel;

    open spec fn view(&self) -> HelpModel {
        match *self {
            HelpEntry::Heading(t) => HelpModel::Heading(t@),
            HelpEntry::Key(k, d) => HelpModel::Key(k@, d@),
            HelpEntry::Blank => HelpModel::Blank,
        }
    }
}

/// Line `i` of the help text.
pub open spec fn help_at(i: usize) -> HelpModel {
    match i {
        0 => HelpModel::Heading("Navigation"@),
        1 => HelpModel::Key("  j / ↓          "@, "Move down"@),
        2 => HelpModel::Key("  k / ↑          "@, "Move up"@),
        3 => HelpModel::Key("  g / G          "@, "Top / Bottom"@),
        4 => HelpModel::Key("  Ctrl+D / Ctrl+U"@, "Half-page down / up"@),
        5 => HelpModel::Key("  PageDown / PageUp"@, "Full-page down / up"@),
        6 => HelpModel::Blank,
        7 => HelpModel::Heading("Diff View"@),
        8 => HelpModel::Key("  Enter          "@, "Open diff pane for selected commit"@),
        9 => HelpModel::Key("  Tab            "@, "Switch focus: log ↔ diff"@),
        10 => HelpModel::Key("  h / l / ← / →  "@, "Scroll left / right (4 cols)"@),
        11 => HelpModel::Key("  0              "@, "Reset horizontal scroll"@),
        12 => HelpModel::Key("  ] / [          "@, "Jump to next / previous file in diff"@),
        13 => HelpModel::Key("  t              "@, "File picker: j/k select, / filter, Enter, o"@),
        14 => HelpModel::Key("  o              "@, "Full-file diff of the file at the top (q backs out)"@),
        15 => HelpModel::Key("  b              "@, "Blame the file at the top of the diff pane"@),
        16 => HelpModel::Blank,
        17 => HelpModel::Heading("Blame View"@),
        18 => HelpModel::Key("  Enter          "@, "Open the selected line's commit"@),
        19 => HelpModel::Key("  ,              "@, "Re-blame at that commit's parent"@),
        20 => HelpModel::Key("  Backspace      "@, "Back to the previous blame"@),
        21 => HelpModel::Key("  q / Esc        "@, "Close diff pane (or quit from log)"@),
        22 => HelpModel::Blank,
        23 => HelpModel::Heading("Search"@),
        24 => HelpModel::Key("  /              "@, "Start search (message, author, branch, or tag)"@),
        25 => HelpModel::Key("  n / N          "@, "Next / previous match"@),
        26 => HelpModel::Key("  Esc            "@, "Clear search"@),
        27 => HelpModel::Blank,
        28 => HelpModel::Heading("Actions"@),
        29 => HelpModel::Key("  y              "@, "Yank (copy) commit hash to clipboard"@),
        30 => HelpModel::Key("  s              "@, "Open working tree status view"@),
        31 => HelpModel::Key("  r              "@, "Browse branches & tags (Enter opens log at ref)"@),
        32 => HelpModel::Key("  R              "@, "Reload"@),
        33 => HelpModel::Blank,
        34 => HelpModel::Heading("Display"@),
        35 => HelpModel::Key("  #              "@, "Toggle line numbers in diff"@),
        36 => HelpModel::Key("  v              "@, "Toggle patch hunks (summary view when off)"@),
        37 => HelpModel::Key("  f              "@, "Toggle limiting the diff to the CLI pathspec"@),
        38 => HelpModel::Key("  D              "@, "Cycle date column: relative / absolute / off"@),
        39 => HelpModel::Key("  A              "@, "Cycle author column: full / abbreviated / off"@),
        40 => HelpModel::Key("  X              "@, "Toggle full 40-char commit hash"@),
        41 => HelpModel::Blank,
        42 => HelpModel::Heading("Mouse"@),
        43 => HelpModel::Key("  wheel          "@, "Scroll the pane under the pointer"@),
        44 => HelpModel::Key("  click          "@, "Focus pane / select commit"@),
        45 => HelpModel::Key("  drag in diff   "@, "Select text; copied on release"@),
        46 => HelpModel::Key("  double-click   "@, "Select the word under the cursor"@),
        47 => HelpModel::Key("  triple-click   "@, "Select the whole line"@),
        48 => HelpModel::Key("  Opt/Alt+drag   "@, "Terminal's native text selection"@),
        49 => HelpModel::Blank,
        50 => HelpModel::Heading("CLI"@),
        51 => HelpModel::Key("  rit <pathspec> "@, "Limit log to commits matching pathspec (git log -- semantics)"@),
        52 => HelpModel::Key("  rit blame <path>"@, "Launch straight into the blame view"@),
        53 => HelpModel::Blank,
        _ => HelpModel::Key("  ? / q / Esc    "@, "Close this help"@),
    }
}

/// Line `i` of the help text.
pub fn help_entry(i: usize) -> (r: HelpEntry)
    ensures
        r@ == help_at(i),
{
    match i {
        0 => HelpEntry::Heading("Navigation"),
        1 => HelpEntry::Key("  j / ↓          ", "Move down"),
        2 => HelpEntry::Key("  k / ↑          ", "Move up"),
        3 => HelpEntry::Key("  g / G          ", "Top / Bottom"),
        4 => HelpEntry::Key("  Ctrl+D / Ctrl+U", "Half-page down / up"),
        5 => HelpEntry::Key("  PageDown / PageUp", "Full-page down / up"),
        6 => HelpEntry::Blank,
        7 => HelpEntry::Heading("Diff View"),
        8 => HelpEntry::Key("  Enter          ", "Open diff pane for selected commit"),
        9 => HelpEntry::Key("  Tab            ", "Switch focus: log ↔ diff"),
        10 => HelpEntry::Key("  h / l / ← / →  ", "Scroll left / right (4 cols)"),
        11 => HelpEntry::Key("  0              ", "Reset horizontal scroll"),
        12 => HelpEntry::Key("  ] / [          ", "Jump to next / previous file in diff"),
        13 => HelpEntry::Key("  t              ", "File picker: j/k select, / filter, Enter, o"),
        14 => HelpEntry::Key("  o              ", "Full-file diff of the file at the top (q backs out)"),
        15 => HelpEntry::Key("  b              ", "Blame the file at the top of the diff pane"),
        16 => HelpEntry::Blank,
        17 => HelpEntry::Heading("Blame View"),
        18 => HelpEntry::Key("  Enter          ", "Open the selected line's commit"),
        19 => HelpEntry::Key("  ,              ", "Re-blame at that commit's parent"),
        20 => HelpEntry::Key("  Backspace      ", "Back to the previous blame"),
        21 => HelpEntry::Key("  q / Esc        ", "Close diff pane (or quit from log)"),
        22 => HelpEntry::Blank,
        23 => HelpEntry::Heading("Search"),
        24 => HelpEntry::Key("  /              ", "Start search (message, author, branch, or tag)"),
        25 => HelpEntry::Key("  n / N          ", "Next / previous match"),
        26 => HelpEntry::Key("  Esc            ", "Clear search"),
        27 => HelpEntry::Blank,
        28 => HelpEntry::Heading("Actions"),
        29 => HelpEntry::Key("  y              ", "Yank (copy) commit hash to clipboard"),
        30 => HelpEntry::Key("  s              ", "Open working tree status view"),
        31 => HelpEntry::Key("  r              ", "Browse branches & tags (Enter opens log at ref)"),
        32 => HelpEntry::Key("  R              ", "Reload"),
        33 => HelpEntry::Blank,
        34 => HelpEntry::Heading("Display"),
        35 => HelpEntry::Key("  #              ", "Toggle line numbers in diff"),
        36 => HelpEntry::Key("  v              ", "Toggle patch hunks (summary view when off)"),
        37 => HelpEntry::Key("  f              ", "Toggle limiting the diff to the CLI pathspec"),
        38 => HelpEntry::Key("  D              ", "Cycle date column: relative / absolute / off"),
        39 => HelpEntry::Key("  A              ", "Cycle author column: full / abbreviated / off"),
        40 => HelpEntry::Key("  X              ", "Toggle full 40-char commit hash"),
        41 => HelpEntry::Blank,
        42 => HelpEntry::Heading("Mouse"),
        43 => HelpEntry::Key("  wheel          ", "Scroll the pane under the pointer"),
        44 => HelpEntry::Key("  click          ", "Focus pane / select commit"),
        45 => HelpEntry::Key("  drag in diff   ", "Select text; copied on release"),
        46 => HelpEntry::Key("  double-click   ", "Select the word under the cursor"),
        47 => HelpEntry::Key("  triple-click   ", "Select the whole line"),
        48 => HelpEntry::Key("  Opt/Alt+drag   ", "Terminal's native text selection"),
        49 => HelpEntry::Blank,
        50 => HelpEntry::Heading("CLI"),
        51 => HelpEntry::Key("  rit <pathspec> ", "Limit log to commits matching pathspec (git log -- semantics)"),
        52 => HelpEntry::Key("  rit blame <path>", "Launch straight into the blame view"),
        53 => HelpEntry::Blank,
        _ => HelpEntry::Key("  ? / q / Esc    ", "Close this help"),
    }
}

/// How a line of the help text is shown.
pub open spec fn help_shown(e: HelpModel) -> StyledModel {
    match e {
        HelpModel::Heading(t) => single(t, bold(Color::Cyan)),
        HelpModel::Key(k, d) => StyledModel {
            spans: seq![span(k, colored(Color::Yellow)), span(d, colored(Color::White))],
            style: plain(),
        },
        HelpModel::Blank => single(""@, plain()),
    }
}

fn show_entry(e: HelpEntry) -> (r: StyledLine)
    ensures
        r@ == help_shown(e@),
{
    match e {
        HelpEntry::Heading(t) => StyledLine::styled(t.to_owned(), Style::bold_fg(Color::Cyan)),
        HelpEntry::Key(k, d) => {
            let mut spans: Vec<Span> = no_spans();
            push_span(&mut spans, k.to_owned(), Style::fg(Color::Yellow));
            push_span(&mut spans, d.to_owned(), Style::fg(Color::White));
            let r = StyledLine { spans, style: Style::new() };
            assert(r@.spans =~= help_shown(e@).spans);
            r
        },
        HelpEntry::Blank => StyledLine::styled("".to_owned(), Style::new()),
    }
}

/// The lines of the help popup.
pub fn help_lines() -> (r: Vec<StyledLine>)
    ensures
        r.deep_view() == Seq::new(HELP_LINES as nat, |i: int| help_shown(help_at(i as usize))),
{
    let ghost all = Seq::new(HELP_LINES as nat, |i: int| help_shown(help_at(i as usize)));
    let mut out: Vec<StyledLine> = Vec::new();
    let mut i: usize = 0;
    assert(out.deep_view() =~= all.take(0));
    while i < HELP_LINES
        invariant
            i <= HELP_LINES,
            all.len() == HELP_LINES,
            forall|k: int| 0 <= k < all.len() ==> #[trigger] all[k] == help_shown(help_at(k as usize)),
            out.deep_view() == all.take(i as int),
        decreases HELP_LINES - i,
    {
        push_line(&mut out, show_entry(help_entry(i)));
        assert(all.take(i + 1) =~= all.take(i as int).push(all[i as int]));
        i += 1;
    }
    assert(all.take(all.len() as int) =~= all);
    out
}

/// Columns and lines that the popup takes up at most.
pub const HELP_WIDTH: u16 = 52;

pub const HELP_HEIGHT: u16 = 55;

/// The area of the popup: in the middle of the screen, with a margin round it.
pub open spec fn popup(area: Rect) -> Rect {
    let width = smaller(HELP_WIDTH as int, less(area.width as int, 4));
    let height = smaller(HELP_HEIGHT as int, less(area.height as int, 4));
    Rect {
        x: (less(area.width as int, width) / 2) as u16,
        y: (less(area.height as int, height) / 2) as u16,
        width: width as u16,
        height: height as u16,
    }
}

/// The area of the popup.
pub fn popup_area(area: Rect) -> (r: Rect)
    ensures
        r == popup(area),
{
    let room: u16 = area.width.saturating_sub(4);
    let width: u16 = if HELP_WIDTH <= room {
        HELP_WIDTH
    } else {
        room
    };
    let rows: u16 = area.height.saturating_sub(4);
    let height: u16 = if HELP_HEIGHT <= rows {
        HELP_HEIGHT
    } else {
        rows
    };
    Rect {
        x: area.width.saturating_sub(width) / 2,
        y: area.height.saturating_sub(height) / 2,
        width,
        height,
    }
}

/// The popup lies within the screen.
pub proof fn law_popup_fits(area: Rect)
    ensures
        popup(area).x + popup(area).width <= area.width,
        popup(area).y + popup(area).height <= area.height,
{
}

/// The help stands in the middle of the screen, and leaves at least two cells on each side of
/// a screen that is large enough.
pub proof fn law_the_help_stands_in_the_middle(area: Rect)
    requires
        4 <= area.width,
        4 <= area.height,
    ensures
        ({
            let p = popup(area);
            &&& p.width == vstd::math::min(52, area.width - 4)
            &&& p.height == vstd::math::min(55, area.height - 4)
            &&& area.width - 1 <= 2 * p.x + p.width <= area.width
            &&& area.height - 1 <= 2 * p.y + p.height <= area.height
            &&& p.x >= 2 && p.y >= 2
        }),
{
}

/// Headings and keys are shown as they read.
pub proof fn law_help_lines_read_as_they_are(text: Seq<char>, key: Seq<char>)
    ensures
        joined(help_shown(HelpModel::Heading(text)).spans) == text,
        joined(help_shown(HelpModel::Key(key, text)).spans) == key + text,
        joined(help_shown(HelpModel::Blank).spans).len() == 0,
{
    reveal_strlit("");
    reveal_with_fuel(joined, 3);
    let one = help_shown(HelpModel::Heading(text)).spans;
    assert(one.drop_last() =~= Seq::empty());
    assert(joined(one) =~= text);
    let two = help_shown(HelpModel::Key(key, text)).spans;
    assert(two.drop_last() =~= seq![two[0]]);
    assert(two.drop_last().drop_last() =~= Seq::empty());
    assert(joined(two.drop_last()) =~= key);
    assert(joined(two) =~= key + text);
    let none = help_shown(HelpModel::Blank).spans;
    assert(none.drop_last() =~= Seq::empty());
    assert(joined(none) =~= Seq::empty());
}

} // verus!
