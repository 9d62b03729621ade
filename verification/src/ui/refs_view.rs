//! The refs view: branches and tags, with the commits they point at.

use crate::app::state::{less, smaller, RefsModel};
use crate::app::RefsState;
use crate::git::refs::RefEntryModel;
use crate::model::RefEntry;
use crate::ui::diffstat::push_line;
use crate::ui::format::{padded, padded_text, truncate_chars, truncated};
use crate::ui::log_view::{
    cursor_style, gap, label_style, push_gap, style_of_cursor, style_of_label,
};
use crate::ui::style::{
    colored, no_spans, plain, push_span, single, span, Color, Span, SpanModel, Style, StyledLine,
    StyledModel,
};
use vstd::prelude::*;

verus! {

/// Columns of the name.
pub const NAME_COL_WIDTH: usize = 32;

/// Columns of the date.
pub const DATE_COL_WIDTH: usize = 8;

/// The row of a ref.
pub open spec fn ref_spans(e: RefEntryModel) -> Seq<SpanModel> {
    seq![
        span(
            padded(truncated(e.name, NAME_COL_WIDTH as int), NAME_COL_WIDTH as int),
            label_style(e.kind),
        ),
        gap(),
        span(padded(e.authored_relative, DATE_COL_WIDTH as int), colored(Color::Blue)),
        gap(),
        span(e.summary, plain()),
    ]
}

impl RefsModel {
    /// Row `idx` of the view.
    pub open spec fn row(self, idx: int) -> StyledModel {
        StyledModel {
            spans: ref_spans(self.entries[idx]),
            style: if idx == self.selected {
                cursor_style(true)
            } else {
                plain()
            },
        }
    }

    /// The lines that a view of `height` lines shows.
    pub open spec fn rows_shown(self, height: int) -> Seq<StyledModel> {
        if self.entries.len() == 0 {
            seq![
                single(
                    if self.loading {
                        "Loading refs..."@
                    } else {
                        "No branches or tags found"@
                    },
                    colored(Color::Gray),
                ),
            ]
        } else {
            Seq::new(
                smaller(height, less(self.entries.len() as int, self.scroll)) as nat,
                |i: int| self.row(self.scroll + i),
            )
        }
    }

    /// The title of the view.
    pub open spec fn title(self) -> Seq<char> {
        if self.loading {
            " Refs [loading...] "@
        } else {
            " Refs "@
        }
    }
}

fn ref_row(e: &RefEntry) -> (r: Vec<Span>)
    ensures
        r.deep_view() == ref_spans(e@),
{
    let mut out: Vec<Span> = no_spans();
    let name: String = truncate_chars(e.name.as_str(), NAME_COL_WIDTH);
    push_span(&mut out, padded_text(name.as_str(), NAME_COL_WIDTH), style_of_label(e.kind));
    push_gap(&mut out);
    push_span(
        &mut out,
        padded_text(e.authored_relative.as_str(), DATE_COL_WIDTH),
        Style::fg(Color::Blue),
    );
    push_gap(&mut out);
    push_span(&mut out, e.summary.clone(), Style::new());
    assert(out.deep_view() =~= ref_spans(e@));
    out
}

impl RefsState {
    /// The title of the view.
    pub fn view_title(&self) -> (r: String)
        ensures
            r@ == self@.title(),
    {
        if self.loading {
            " Refs [loading...] ".to_owned()
        } else {
            " Refs ".to_owned()
        }
    }

    fn row_line(&self, idx: usize) -> (r: StyledLine)
        requires
            idx < self@.entries.len(),
        ensures
            r@ == self@.row(idx as int),
    {
        assert(self@.entries[idx as int] == self.entries@[idx as int]@);
        let spans: Vec<Span> = ref_row(&self.entries[idx]);
        let style: Style = if idx == self.selected {
            style_of_cursor(true)
        } else {
            Style::new()
        };
        StyledLine { spans, style }
    }

    /// The lines that a view of `height` lines shows.
    pub fn lines_shown(&self, height: usize) -> (r: Vec<StyledLine>)
        ensures
            r.deep_view() == self@.rows_shown(height as int),
    {
        let mut out: Vec<StyledLine> = Vec::new();
        assert(out.deep_view() =~= Seq::empty());
        let total: usize = self.entries.len();
        if total == 0 {
            let text: &str = if self.loading {
                "Loading refs..."
            } else {
                "No branches or tags found"
            };
            push_line(&mut out, StyledLine::styled(text.to_owned(), Style::fg(Color::Gray)));
            assert(out.deep_view() =~= self@.rows_shown(height as int));
            return out;
        }
        let left: usize = total.saturating_sub(self.scroll);
        let count: usize = if height <= left {
            height
        } else {
            left
        };
        let ghost all = self@.rows_shown(height as int);
        let mut i: usize = 0;
        assert(all.take(0) =~= Seq::empty());
        while i < count
            invariant
                i <= count,
                count <= less(total as int, self.scroll as int),
                total == self@.entries.len(),
                all.len() == count,
                forall|k: int|
                    0 <= k < all.len() ==> #[trigger] all[k] == self@.row(self.scroll + k),
                out.deep_view() == all.take(i as int),
            decreases count - i,
        {
            let l: StyledLine = self.row_line(self.scroll + i);
            push_line(&mut out, l);
            assert(all.take(i + 1) =~= all.take(i as int).push(all[i as int]));
            i += 1;
        }
        assert(all.take(all.len() as int) =~= all);
        out
    }
}

/// A row of the refs view shows the name cut to thirty-two characters, the age and the
/// summary.
pub proof fn law_a_ref_row_tells_its_name_and_commit(e: RefEntryModel)
    ensures
        ({
            let spans = ref_spans(e);
            &&& spans.len() == 5
            &&& spans[0].content == padded(truncated(e.name, 32), 32)
            &&& spans[0].style == label_style(e.kind)
            &&& spans[2].content == padded(e.authored_relative, 8)
            &&& spans[4].content == e.summary
        }),
{
}

/// The rows shown are the entries from the one scrolled to, in order; the selected one, and no
/// other, has the look of the cursor.
pub proof fn law_refs_are_shown_from_the_scroll(r: RefsModel, height: int, i: int)
    requires
        0 <= r.scroll,
        0 <= i < height,
        r.scroll + i < r.entries.len(),
    ensures
        ({
            let rows = r.rows_shown(height);
            &&& rows.len() == vstd::math::min(height, r.entries.len() - r.scroll)
            &&& rows[i].spans == ref_spans(r.entries[r.scroll + i])
            &&& r.scroll + i == r.selected ==> rows[i].style == cursor_style(true)
            &&& r.scroll + i != r.selected ==> rows[i].style == plain()
        }),
{
}

/// A view without refs says whether they may still come, and so does its title.
pub proof fn law_the_refs_view_says_that_it_is_loading(r: RefsModel, height: int)
    ensures
        r.loading ==> r.title() == " Refs [loading...] "@,
        !r.loading ==> r.title() == " Refs "@,
        r.entries.len() == 0 ==> r.rows_shown(height).len() == 1,
        r.entries.len() == 0 && r.loading ==> r.rows_shown(height)[0].spans[0].content
            == "Loading refs..."@,
        r.entries.len() == 0 && !r.loading ==> r.rows_shown(height)[0].spans[0].content
            == "No branches or tags found"@,
{
}

} // verus!
