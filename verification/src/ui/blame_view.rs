//! The blame view: every line of a file, with the commit that wrote it.

use crate::app::state::{less, smaller, BlameModel};
use crate::app::BlameState;
use crate::model::{BlameDocument, BlameLine, BlameLineModel};
use crate::text::{chars_of, decimal};
use crate::ui::diffstat::push_line;
use crate::ui::format::{
    decimal_text, padded, padded_text, push_number, right_aligned, truncate_chars, truncated,
};
use crate::ui::log_view::{cursor_style, gap, push_gap, style_of_cursor};
use crate::ui::style::{
    colored, no_spans, plain, push_span, single, span, Color, Span, SpanModel, Style, StyledLine,
    StyledModel,
};
use vstd::prelude::*;
use vstd::string::StringExecFns;

verus! {

/// Columns of the author.
pub const AUTHOR_COL_WIDTH: usize = 12;

/// Columns of the date.
pub const DATE_COL_WIDTH: usize = 8;

/// The row of a line, with its number in `digits` columns.
pub open spec fn blame_spans(l: BlameLineModel, digits: int) -> Seq<SpanModel> {
    let width = AUTHOR_COL_WIDTH as int;
    seq![
        span(l.commit_short, colored(Color::Yellow)),
        gap(),
        span(padded(l.authored_relative, DATE_COL_WIDTH as int), colored(Color::Blue)),
        gap(),
        span(padded(truncated(l.author, width), width), colored(Color::Green)),
        gap(),
        span(
            right_aligned(decimal(l.line_no as nat), digits) + " │ "@,
            colored(Color::DarkGray),
        ),
        span(l.text, plain()),
    ]
}

impl BlameModel {
    /// Row `idx` of the view.
    pub open spec fn row(self, idx: int) -> StyledModel {
        let lines = self.document->0.lines;
        StyledModel {
            spans: blame_spans(lines[idx], decimal(lines.len()).len() as int),
            style: if idx == self.selected {
                cursor_style(true)
            } else {
                plain()
            },
        }
    }

    /// The lines that a view of `height` lines shows. An error hides the document.
    pub open spec fn rows_shown(self, height: int) -> Seq<StyledModel> {
        match (self.error, self.document) {
            (Some(e), _) => seq![single("Error: "@ + e, colored(Color::Red))],
            (None, None) => seq![single("Annotating..."@, colored(Color::Gray))],
            (None, Some(d)) => if d.lines.len() == 0 {
                seq![single("(empty file)"@, colored(Color::DarkGray))]
            } else {
                Seq::new(
                    smaller(height, less(d.lines.len() as int, self.scroll)) as nat,
                    |i: int| self.row(self.scroll + i),
                )
            },
        }
    }

    /// The title of the view.
    pub open spec fn title(self) -> Seq<char> {
        match self.document {
            Some(d) => " Blame "@ + d.path + " @ "@ + d.at.hex().take(7) + (if self.loading {
                " [loading...] "@
            } else {
                " "@
            }),
            None => " Blame [loading...] "@,
        }
    }
}

fn blame_row(l: &BlameLine, digits: usize) -> (r: Vec<Span>)
    ensures
        r.deep_view() == blame_spans(l@, digits as int),
{
    let mut out: Vec<Span> = no_spans();
    push_span(&mut out, l.commit_short.clone(), Style::fg(Color::Yellow));
    push_gap(&mut out);
    push_span(
        &mut out,
        padded_text(l.authored_relative.as_str(), DATE_COL_WIDTH),
        Style::fg(Color::Blue),
    );
    push_gap(&mut out);
    let author: String = truncate_chars(l.author.as_str(), AUTHOR_COL_WIDTH);
    push_span(&mut out, padded_text(author.as_str(), AUTHOR_COL_WIDTH), Style::fg(Color::Green));
    push_gap(&mut out);
    let mut number: String = String::new();
    push_number(&mut number, l.line_no as usize, digits);
    number.append(" │ ");
    assert(number@ =~= right_aligned(decimal(l.line_no as nat), digits as int) + " │ "@);
    push_span(&mut out, number, Style::fg(Color::DarkGray));
    push_span(&mut out, l.text.clone(), Style::new());
    assert(out.deep_view() =~= blame_spans(l@, digits as int));
    out
}

fn one_line(text: String, color: Color) -> (r: Vec<StyledLine>)
    ensures
        r.deep_view() == seq![single(text@, colored(color))],
{
    let ghost t = text@;
    let mut out: Vec<StyledLine> = Vec::new();
    assert(out.deep_view() =~= Seq::empty());
    push_line(&mut out, StyledLine::styled(text, Style::fg(color)));
    assert(out.deep_view() =~= seq![single(t, colored(color))]);
    out
}

impl BlameState {
    /// The title of the view.
    pub fn view_title(&self) -> (r: String)
        ensures
            r@ == self@.title(),
    {
        match &self.document {
            Some(d) => {
                let rev: String = d.at.to_short_hex();
                let mut out: String = " Blame ".to_owned();
                out.append(d.path.as_str());
                out.append(" @ ");
                out.append(rev.as_str());
                if self.loading {
                    out.append(" [loading...] ");
                } else {
                    out.append(" ");
                }
                out
            },
            None => " Blame [loading...] ".to_owned(),
        }
    }

    fn row_line(&self, doc: &BlameDocument, digits: usize, idx: usize) -> (r: StyledLine)
        requires
            self@.document == Some(doc@),
            idx < doc@.lines.len(),
            digits == decimal(doc@.lines.len()).len(),
        ensures
            r@ == self@.row(idx as int),
    {
        assert(doc@.lines[idx as int] == doc.lines@[idx as int]@);
        let spans: Vec<Span> = blame_row(&doc.lines[idx], digits);
        let style: Style = if idx == self.selected {
            style_of_cursor(true)
        } else {
            Style::new()
        };
        StyledLine { spans, style }
    }

    /// The lines that a view of `height` lines shows.
    pub fn lines_shown(&self, height: usize) -> (r: Vec<StyledLine>)
        ensures
            r.deep_view() == self@.rows_shown(height as int),
    {
        if let Some(e) = &self.error {
            let mut text: String = "Error: ".to_owned();
            text.append(e.as_str());
            return one_line(text, Color::Red);
        }
        let doc: &BlameDocument = match &self.document {
            Some(d) => d,
            None => {
                return one_line("Annotating...".to_owned(), Color::Gray);
            },
        };
        let total: usize = doc.lines.len();
        if total == 0 {
            return one_line("(empty file)".to_owned(), Color::DarkGray);
        }
        let digits: usize = chars_of(decimal_text(total).as_str()).len();
        let left: usize = total.saturating_sub(self.scroll);
        let count: usize = if height <= left {
            height
        } else {
            left
        };
        let ghost all = self@.rows_shown(height as int);
        let mut out: Vec<StyledLine> = Vec::new();
        let mut i: usize = 0;
        assert(out.deep_view() =~= all.take(0));
        while i < count
            invariant
                i <= count,
                count <= less(total as int, self.scroll as int),
                total == doc@.lines.len(),
                digits == decimal(doc@.lines.len()).len(),
                self@.document == Some(doc@),
                all.len() == count,
                forall|k: int|
                    0 <= k < all.len() ==> #[trigger] all[k] == self@.row(self.scroll + k),
                out.deep_view() == all.take(i as int),
            decreases count - i,
        {
            let l: StyledLine = self.row_line(doc, digits, self.scroll + i);
            push_line(&mut out, l);
            assert(all.take(i + 1) =~= all.take(i as int).push(all[i as int]));
            i += 1;
        }
        assert(all.take(all.len() as int) =~= all);
        out
    }
}

/// A line of a blame shows the short id, the age, the author cut to twelve characters, the
/// number of the line, and its text.
pub proof fn law_a_blame_row_tells_who_and_when(l: BlameLineModel, digits: int)
    requires
        0 <= digits,
    ensures
        ({
            let spans = blame_spans(l, digits);
            &&& spans.len() == 8
            &&& spans[0].content == l.commit_short
            &&& spans[2].content == padded(l.authored_relative, 8)
            &&& spans[4].content == padded(truncated(l.author, 12), 12)
            &&& spans[6].content == right_aligned(decimal(l.line_no as nat), digits) + " │ "@
            &&& spans[7].content == l.text
        }),
{
}

/// The rows shown are the lines from the one scrolled to, in order; the selected one, and no
/// other, has the look of the cursor.
pub proof fn law_a_blame_shows_lines_from_the_scroll(b: BlameModel, height: int, i: int)
    requires
        b.error is None,
        b.document is Some,
        0 <= b.scroll,
        0 <= i < height,
        b.scroll + i < b.document->0.lines.len(),
    ensures
        ({
            let d = b.document->0;
            let rows = b.rows_shown(height);
            &&& rows.len() == vstd::math::min(height, d.lines.len() - b.scroll)
            &&& rows[i].spans == blame_spans(
                d.lines[b.scroll + i],
                decimal(d.lines.len()).len() as int,
            )
            &&& b.scroll + i == b.selected ==> rows[i].style == cursor_style(true)
            &&& b.scroll + i != b.selected ==> rows[i].style == plain()
        }),
{
}

/// The title of a blame names the file and the first seven digits of the commit.
pub proof fn law_the_blame_title_names_file_and_commit(b: BlameModel)
    ensures
        b.document is None ==> b.title() == " Blame [loading...] "@,
        b.document is Some && b.loading ==> b.title() == " Blame "@ + b.document->0.path + " @ "@
            + b.document->0.at.hex().subrange(0, 7) + " [loading...] "@,
        b.document is Some && !b.loading ==> b.title() == " Blame "@ + b.document->0.path + " @ "@ + b.document->0.at.hex().subrange(0, 7)
            + " "@,
{
    assert(b.document->0.at.hex().take(7) =~= b.document->0.at.hex().subrange(0, 7));
}

/// A blame that failed shows its error, one that is still to come says so, and one of an empty
/// file says that.
pub proof fn law_a_blame_without_lines_says_why(b: BlameModel, height: int)
    ensures
        b.error matches Some(e) ==> b.rows_shown(height).len() == 1 && b.rows_shown(
            height,
        )[0].spans[0].content == "Error: "@ + e,
        b.error is None && b.document is None ==> b.rows_shown(height).len() == 1 && b.rows_shown(
            height,
        )[0].spans[0].content == "Annotating..."@,
        b.error is None ==> (b.document matches Some(d) ==> (d.lines.len() == 0 ==> b.rows_shown(
            height,
        ).len() == 1 && b.rows_shown(height)[0].spans[0].content == "(empty file)"@)),
{
}

} // verus!
