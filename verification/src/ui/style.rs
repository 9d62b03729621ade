//! Styled text: what the views are made of.

use crate::model::{line, DiffLine, DiffLineKind, LineModel};
use vstd::prelude::*;

verus! {

#[derive(Clone, Copy, PartialEq, Eq, Structural, Debug)]
pub enum Color {
    Black,
    Red,
    Green,
    Yellow,
    Blue,
    Magenta,
    Cyan,
    Gray,
    DarkGray,
    White,
    Rgb(u8, u8, u8),
}

/// How a text looks. What is not set is left as it is underneath.
#[derive(Clone, Copy, PartialEq, Eq, Structural, Debug)]
pub struct Style {
    pub fg: Option<Color>,
    pub bg: Option<Color>,
    pub bold: bool,
}

/// A style that sets nothing.
pub open spec fn plain() -> Style {
    Style { fg: None, bg: None, bold: false }
}

/// A style that sets the color of the text.
pub open spec fn colored(color: Color) -> Style {
    Style { fg: Some(color), bg: None, bold: false }
}

/// A style that sets the color of the text, and makes it bold.
pub open spec fn bold(color: Color) -> Style {
    Style { fg: Some(color), bg: None, bold: true }
}

/// A style that sets the color of the text and the color behind it.
pub open spec fn on(bg: Color, fg: Color) -> Style {
    Style { fg: Some(fg), bg: Some(bg), bold: false }
}

impl Style {
    pub fn new() -> (r: Style)
        ensures
            r == plain(),
    {
        Style { fg: None, bg: None, bold: false }
    }

    pub fn fg(color: Color) -> (r: Style)
        ensures
            r == colored(color),
    {
        Style { fg: Some(color), bg: None, bold: false }
    }

    pub fn bold_fg(color: Color) -> (r: Style)
        ensures
            r == bold(color),
    {
        Style { fg: Some(color), bg: None, bold: true }
    }

    pub fn bg_fg(bg: Color, fg: Color) -> (r: Style)
        ensures
            r == on(bg, fg),
    {
        Style { fg: Some(fg), bg: Some(bg), bold: false }
    }
}

impl Default for Style {
    fn default() -> (r: Style)
        ensures
            r == plain(),
    {
        Style::new()
    }
}

/// How the frame of a pane looks.
#[derive(Clone, Copy, PartialEq, Eq, Structural, Debug)]
pub struct PaneFrame {
    pub border: Style,
    /// The border is drawn with thick lines.
    pub thick: bool,
    pub title: Style,
}

/// The frame of a pane: thick and in the color of the mode, with a bold title, while the pane
/// is in focus; else thin and dim.
pub open spec fn frame_of(focused: bool, accent: Color) -> PaneFrame {
    if focused {
        PaneFrame { border: colored(accent), thick: true, title: bold(accent) }
    } else {
        PaneFrame {
            border: colored(Color::DarkGray),
            thick: false,
            title: colored(Color::DarkGray),
        }
    }
}

/// The frame of a pane.
pub fn pane_frame(focused: bool, accent: Color) -> (r: PaneFrame)
    ensures
        r == frame_of(focused, accent),
{
    if focused {
        PaneFrame { border: Style::fg(accent), thick: true, title: Style::bold_fg(accent) }
    } else {
        PaneFrame {
            border: Style::fg(Color::DarkGray),
            thick: false,
            title: Style::fg(Color::DarkGray),
        }
    }
}

/// A piece of text in one style.
#[derive(Debug)]
pub struct Span {
    pub content: String,
    pub style: Style,
}

/// What a `Span` says.
#[verifier::ext_equal]
pub struct SpanModel {
    pub content: Seq<char>,
    pub style: Style,
}

/// A piece of text in one style.
pub open spec fn span(content: Seq<char>, style: Style) -> SpanModel {
    SpanModel { content, style }
}

impl View for Span {
    type V = SpanModel;

    open spec fn view(&self) -> SpanModel {
        SpanModel { content: self.content@, style: self.style }
    }
}

impl DeepView for Span {
    type V = SpanModel;

    open spec fn deep_view(&self) -> SpanModel {
        self@
    }
}

impl Clone for Span {
    fn clone(&self) -> (r: Span)
        ensures
            r == *self,
    {
        Span { content: self.content.clone(), style: self.style }
    }
}

/// A line of styled text. The line's style lies under those of its spans.
#[derive(Debug)]
pub struct StyledLine {
    pub spans: Vec<Span>,
    pub style: Style,
}

/// What a `StyledLine` says.
#[verifier::ext_equal]
pub struct StyledModel {
    pub spans: Seq<SpanModel>,
    pub style: Style,
}

/// A line of one span.
pub open spec fn single(content: Seq<char>, style: Style) -> StyledModel {
    StyledModel { spans: seq![span(content, style)], style: plain() }
}

impl View for StyledLine {
    type V = StyledModel;

    open spec fn view(&self) -> StyledModel {
        StyledModel { spans: self.spans.deep_view(), style: self.style }
    }
}

impl DeepView for StyledLine {
    type V = StyledModel;

    open spec fn deep_view(&self) -> StyledModel {
        self@
    }
}

/// The texts of spans, one behind the other.
pub open spec fn joined(spans: Seq<SpanModel>) -> Seq<char>
    decreases spans.len(),
{
    if spans.len() == 0 {
        Seq::empty()
    } else {
        joined(spans.drop_last()) + spans.last().content
    }
}

/// Appends copies of `spans` to `out`.
pub fn push_copies(out: &mut Vec<Span>, spans: &Vec<Span>)
    ensures
        final(out).deep_view() == old(out).deep_view() + spans.deep_view(),
{
    let ghost before = out@;
    let mut i: usize = 0;
    while i < spans.len()
        invariant
            i <= spans@.len(),
            out@ == before + spans@.take(i as int),
        decreases spans@.len() - i,
    {
        out.push(spans[i].clone());
        assert(out@ =~= before + spans@.take(i + 1));
        i += 1;
    }
    assert(spans@.take(i as int) =~= spans@);
    assert(out.deep_view() =~= old(out).deep_view() + spans.deep_view());
}

/// Appends a span to `out`.
pub fn push_span(out: &mut Vec<Span>, content: String, style: Style)
    ensures
        final(out).deep_view() == old(out).deep_view().push(span(content@, style)),
{
    let ghost before = out.deep_view();
    let ghost text = content@;
    out.push(Span { content, style });
    assert(out.deep_view() =~= before.push(span(text, style)));
}

/// No spans yet.
pub fn no_spans() -> (r: Vec<Span>)
    ensures
        r.deep_view() == Seq::<SpanModel>::empty(),
{
    let r: Vec<Span> = Vec::new();
    assert(r.deep_view() =~= Seq::empty());
    r
}

impl StyledLine {
    /// A line of one span.
    pub fn styled(content: String, style: Style) -> (r: StyledLine)
        ensures
            r@ == single(content@, style),
    {
        let mut spans: Vec<Span> = no_spans();
        let ghost text = content@;
        push_span(&mut spans, content, style);
        let r = StyledLine { spans, style: Style::new() };
        assert(r@ =~= single(text, style));
        r
    }
}

/// The style of a diff line.
pub open spec fn kind_style(kind: DiffLineKind) -> Style {
    match kind {
        DiffLineKind::CommitHeader => colored(Color::Yellow),
        DiffLineKind::Meta => plain(),
        DiffLineKind::Message => plain(),
        DiffLineKind::Blank => plain(),
        DiffLineKind::FileHeader => colored(Color::Cyan),
        DiffLineKind::FileMeta => colored(Color::Cyan),
        DiffLineKind::OldMarker => colored(Color::Red),
        DiffLineKind::NewMarker => colored(Color::Green),
        DiffLineKind::HunkHeader => colored(Color::Cyan),
        DiffLineKind::Add => colored(Color::Green),
        DiffLineKind::Del => colored(Color::Red),
        DiffLineKind::Context => plain(),
        DiffLineKind::Diffstat => colored(Color::Cyan),
        DiffLineKind::DiffstatTotal => colored(Color::DarkGray),
        DiffLineKind::SectionTitle => bold(Color::Yellow),
        DiffLineKind::SectionStaged => colored(Color::Green),
        DiffLineKind::SectionUnstaged => colored(Color::Yellow),
        DiffLineKind::Faint => colored(Color::DarkGray),
        DiffLineKind::Good => colored(Color::Green),
        DiffLineKind::StatusOurs => colored(Color::Green),
        DiffLineKind::StatusTheirs => colored(Color::Red),
    }
}

/// The style of a diff line.
pub fn style_for(kind: DiffLineKind) -> (r: Style)
    ensures
        r == kind_style(kind),
{
    match kind {
        DiffLineKind::CommitHeader => Style::fg(Color::Yellow),
        DiffLineKind::Meta => Style::new(),
        DiffLineKind::Message => Style::new(),
        DiffLineKind::Blank => Style::new(),
        DiffLineKind::FileHeader => Style::fg(Color::Cyan),
        DiffLineKind::FileMeta => Style::fg(Color::Cyan),
        DiffLineKind::OldMarker => Style::fg(Color::Red),
        DiffLineKind::NewMarker => Style::fg(Color::Green),
        DiffLineKind::HunkHeader => Style::fg(Color::Cyan),
        DiffLineKind::Add => Style::fg(Color::Green),
        DiffLineKind::Del => Style::fg(Color::Red),
        DiffLineKind::Context => Style::new(),
        DiffLineKind::Diffstat => Style::fg(Color::Cyan),
        DiffLineKind::DiffstatTotal => Style::fg(Color::DarkGray),
        DiffLineKind::SectionTitle => Style::bold_fg(Color::Yellow),
        DiffLineKind::SectionStaged => Style::fg(Color::Green),
        DiffLineKind::SectionUnstaged => Style::fg(Color::Yellow),
        DiffLineKind::Faint => Style::fg(Color::DarkGray),
        DiffLineKind::Good => Style::fg(Color::Green),
        DiffLineKind::StatusOurs => Style::fg(Color::Green),
        DiffLineKind::StatusTheirs => Style::fg(Color::Red),
    }
}

/// The mark in front of a body line.
pub open spec fn prefix(kind: DiffLineKind) -> Seq<char> {
    match kind {
        DiffLineKind::Add => "+"@,
        DiffLineKind::Del => "-"@,
        DiffLineKind::Context => " "@,
        _ => ""@,
    }
}

/// How a diff line is shown: with its mark in front of it, in the style of its kind.
pub open spec fn shown(line: LineModel) -> StyledModel {
    single(prefix(line.kind) + line.text, kind_style(line.kind))
}

/// How a diff line is shown.
pub fn diff_line_to_ratatui(line: &DiffLine) -> (r: StyledLine)
    ensures
        r@ == shown(line@),
{
    let mark: &str = match line.kind {
        DiffLineKind::Add => "+",
        DiffLineKind::Del => "-",
        DiffLineKind::Context => " ",
        _ => "",
    };
    let mut text: String = mark.to_owned();
    vstd::string::StringExecFns::append(&mut text, line.text.as_str());
    StyledLine::styled(text, style_for(line.kind))
}

/// Added lines are green and start with a plus, deleted lines are red and start with a minus,
/// and lines that stay have a blank and no colour; no other line has a mark. The text follows.
pub proof fn law_changes_are_marked_and_coloured(text: Seq<char>, kind: DiffLineKind)
    ensures
        joined(shown(line(DiffLineKind::Add, text)).spans) == seq!['+'] + text,
        joined(shown(line(DiffLineKind::Del, text)).spans) == seq!['-'] + text,
        joined(shown(line(DiffLineKind::Context, text)).spans) == seq![' '] + text,
        kind != DiffLineKind::Add && kind != DiffLineKind::Del && kind != DiffLineKind::Context
            ==> joined(shown(line(kind, text)).spans) == text,
        kind_style(DiffLineKind::Add).fg == Some(Color::Green),
        kind_style(DiffLineKind::Del).fg == Some(Color::Red),
        kind_style(DiffLineKind::OldMarker).fg == Some(Color::Red),
        kind_style(DiffLineKind::NewMarker).fg == Some(Color::Green),
        kind_style(DiffLineKind::StatusOurs).fg == Some(Color::Green),
        kind_style(DiffLineKind::StatusTheirs).fg == Some(Color::Red),
        kind_style(DiffLineKind::Context).fg is None,
        kind_style(kind).bg is None,
{
    reveal_strlit("+");
    reveal_strlit("-");
    reveal_strlit(" ");
    reveal_strlit("");
    reveal_with_fuel(joined, 2);
    assert("+"@ =~= seq!['+']);
    assert("-"@ =~= seq!['-']);
    assert(" "@ =~= seq![' ']);
    assert(joined(shown(line(DiffLineKind::Add, text)).spans) =~= seq!['+'] + text);
    assert(joined(shown(line(DiffLineKind::Del, text)).spans) =~= seq!['-'] + text);
    assert(joined(shown(line(DiffLineKind::Context, text)).spans) =~= seq![' '] + text);
    if kind != DiffLineKind::Add && kind != DiffLineKind::Del && kind != DiffLineKind::Context {
        assert(joined(shown(line(kind, text)).spans) =~= text);
    }
}

/// Plain text has no colour and is not bold; a colour is that of the text, and a background
/// goes with one.
pub proof fn law_plain_text_has_no_look(fg: Color, bg: Color)
    ensures
        plain().fg is None && plain().bg is None && !plain().bold,
        colored(fg).fg == Some(fg) && colored(fg).bg is None && !colored(fg).bold,
        bold(fg).fg == Some(fg) && bold(fg).bg is None && bold(fg).bold,
        on(bg, fg).fg == Some(fg) && on(bg, fg).bg == Some(bg) && !on(bg, fg).bold,
{
}

/// The pane with the focus has a thick frame in its own colour, the other a thin grey one.
pub proof fn law_the_focused_pane_stands_out(accent: Color)
    ensures
        frame_of(true, accent).thick,
        !frame_of(false, accent).thick,
        frame_of(true, accent).border.fg == Some(accent),
        frame_of(true, accent).title.fg == Some(accent),
        frame_of(true, accent).title.bold,
        frame_of(false, accent).border.fg == Some(Color::DarkGray),
        frame_of(false, accent).title.fg == Some(Color::DarkGray),
        !frame_of(false, accent).title.bold,
{
}

/// The text of spans is their texts, one behind the other.
pub proof fn law_spans_are_read_one_behind_the_other(a: Seq<SpanModel>, b: Seq<SpanModel>)
    ensures
        joined(a + b) == joined(a) + joined(b),
    decreases b.len(),
{
    if b.len() == 0 {
        assert(a + b =~= a);
        assert(joined(a + b) =~= joined(a) + joined(b));
    } else {
        law_spans_are_read_one_behind_the_other(a, b.drop_last());
        assert((a + b).drop_last() =~= a + b.drop_last());
        assert(joined(a + b) =~= joined(a) + joined(b));
    }
}

} // verus!
