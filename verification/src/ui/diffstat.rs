//! The diffstat: one row per file, with a bar for its changes.

use crate::app::state::{larger, less, sat, smaller};
use crate::model::{line, DiffLine, DiffLineKind, DiffStats, FileStat, FileStatModel};
use crate::text::{decimal, push_decimal};
use crate::ui::format::{
    byte_len, padded, plural, push_number, push_padded, push_plural, push_repeated, repeated,
    right_aligned,
};
use crate::ui::style::{diff_line_to_ratatui, shown, Color, Style, StyledLine, StyledModel};
use vstd::prelude::*;
use vstd::string::StringExecFns;

verus! {

/// Columns that paths take up at most.
pub const PATH_CAP: usize = 60;

/// Length of the longest bar.
pub const BAR_CAP: usize = 20;

/// `part` of `whole` on a scale of `cap`, rounded half up; zero for a `whole` of zero.
pub open spec fn scaled(part: int, whole: int, cap: int) -> int {
    if whole == 0 {
        0
    } else {
        smaller(sat(sat(part * cap) + whole / 2) / whole, cap)
    }
}

/// `part` of `whole` on a scale of `cap`.
pub fn bar_len_for(part: usize, whole: usize, cap: usize) -> (r: usize)
    ensures
        r == scaled(part as int, whole as int, cap as int),
        r <= cap,
{
    if whole == 0 {
        return 0;
    }
    assert(0 <= part * cap <= u128::MAX) by (nonlinear_arith)
        requires
            0 <= part <= u64::MAX,
            0 <= cap <= u64::MAX,
    ;
    let product: u128 = part as u128 * cap as u128;
    let capped: usize = if product > usize::MAX as u128 {
        usize::MAX
    } else {
        product as usize
    };
    let share: usize = capped.saturating_add(whole / 2) / whole;
    if share <= cap {
        share
    } else {
        cap
    }
}

/// Changes of a file.
pub open spec fn changes(f: FileStatModel) -> int {
    sat(f.additions + f.deletions)
}

/// Length in bytes of the longest of the first `to` paths.
pub open spec fn longest_path(files: Seq<FileStatModel>, to: int) -> int
    decreases to,
{
    if to <= 0 {
        0
    } else {
        larger(longest_path(files, to - 1), byte_len(files[to - 1].path) as int)
    }
}

/// Most changes of one of the first `to` files.
pub open spec fn most_changes(files: Seq<FileStatModel>, to: int) -> int
    decreases to,
{
    if to <= 0 {
        0
    } else {
        larger(most_changes(files, to - 1), changes(files[to - 1]))
    }
}

/// Length of a file's bar: in proportion to the most changes, but at least one if it has
/// changes.
pub open spec fn bar(total: int, most: int) -> int {
    larger(
        scaled(total, most, BAR_CAP as int),
        if total > 0 {
            1
        } else {
            0
        },
    )
}

/// The row of a file, where paths take `width` columns and no file has more than `most`
/// changes.
pub open spec fn file_row(f: FileStatModel, width: int, most: int) -> Seq<char> {
    let len = bar(changes(f), most);
    let plus = scaled(f.additions as int, changes(f), len);
    " "@ + padded(f.path, width) + " | "@ + right_aligned(decimal(changes(f) as nat), 4) + " "@
        + repeated('+', plus) + repeated('-', less(len, plus))
}

/// The totals of a diff.
pub open spec fn totals(stats: DiffStats) -> Seq<char> {
    " "@ + decimal(stats.files as nat) + " file"@ + plural(stats.files as int) + " changed, "@
        + decimal(stats.insertions as nat) + " insertion"@ + plural(stats.insertions as int)
        + "(+), "@ + decimal(stats.deletions as nat) + " deletion"@ + plural(
        stats.deletions as int,
    ) + "(-)"@
}

/// Row `i` of the diffstat. The picked file's row stands out, and those that the picker's
/// filter does not match are faint.
pub open spec fn diffstat_row(
    files: Seq<FileStatModel>,
    selected: Option<int>,
    found: Option<Seq<usize>>,
    i: int,
) -> StyledModel {
    let n = files.len() as int;
    let text = file_row(
        files[i],
        smaller(longest_path(files, n), PATH_CAP as int),
        most_changes(files, n),
    );
    let kind = match found {
        Some(m) => if m.contains(i as usize) {
            DiffLineKind::Diffstat
        } else {
            DiffLineKind::Faint
        },
        None => DiffLineKind::Diffstat,
    };
    if selected == Some(i) {
        StyledModel {
            style: Style { fg: None, bg: Some(Color::DarkGray), bold: true },
            ..shown(line(kind, text))
        }
    } else {
        shown(line(kind, text))
    }
}

/// The diffstat: a rule, one row per file, the totals and a blank line.
pub open spec fn diffstat(
    files: Seq<FileStatModel>,
    stats: DiffStats,
    selected: Option<int>,
    found: Option<Seq<usize>>,
) -> Seq<StyledModel> {
    seq![shown(line(DiffLineKind::Faint, "---"@))] + Seq::new(
        files.len(),
        |i: int| diffstat_row(files, selected, found, i),
    ) + seq![
        shown(line(DiffLineKind::DiffstatTotal, totals(stats))),
        shown(line(DiffLineKind::Blank, ""@)),
    ]
}

fn change_count(f: &FileStat) -> (r: usize)
    ensures
        r == changes(f@),
{
    f.additions.saturating_add(f.deletions)
}

fn longest_path_of(files: &Vec<FileStat>) -> (r: usize)
    ensures
        r == longest_path(files.deep_view(), files@.len() as int),
{
    let ghost all = files.deep_view();
    let mut longest: usize = 0;
    let mut i: usize = 0;
    while i < files.len()
        invariant
            i <= files@.len(),
            all == files.deep_view(),
            longest == longest_path(all, i as int),
        decreases files@.len() - i,
    {
        assert(all[i as int].path == files@[i as int].path@);
        let len: usize = files[i].path.as_str().len();
        if len > longest {
            longest = len;
        }
        i += 1;
    }
    longest
}

fn most_changes_of(files: &Vec<FileStat>) -> (r: usize)
    ensures
        r == most_changes(files.deep_view(), files@.len() as int),
{
    let ghost all = files.deep_view();
    let mut most: usize = 0;
    let mut i: usize = 0;
    while i < files.len()
        invariant
            i <= files@.len(),
            all == files.deep_view(),
            most == most_changes(all, i as int),
        decreases files@.len() - i,
    {
        assert(all[i as int] == files@[i as int]@);
        let count: usize = change_count(&files[i]);
        if count > most {
            most = count;
        }
        i += 1;
    }
    most
}

fn row_text(f: &FileStat, width: usize, most: usize) -> (r: String)
    ensures
        r@ == file_row(f@, width as int, most as int),
{
    let total: usize = change_count(f);
    let share: usize = bar_len_for(total, most, BAR_CAP);
    let len: usize = if share == 0 && total > 0 {
        1
    } else {
        share
    };
    let plus: usize = bar_len_for(f.additions, total, len);
    let mut text: String = " ".to_owned();
    push_padded(&mut text, f.path.as_str(), width);
    text.append(" | ");
    push_number(&mut text, total, 4);
    text.append(" ");
    push_repeated(&mut text, '+', plus);
    push_repeated(&mut text, '-', len.saturating_sub(plus));
    text
}

fn totals_text(stats: &DiffStats) -> (r: String)
    ensures
        r@ == totals(*stats),
{
    let mut text: String = " ".to_owned();
    push_decimal(&mut text, stats.files as u64);
    text.append(" file");
    push_plural(&mut text, stats.files);
    text.append(" changed, ");
    push_decimal(&mut text, stats.insertions as u64);
    text.append(" insertion");
    push_plural(&mut text, stats.insertions);
    text.append("(+), ");
    push_decimal(&mut text, stats.deletions as u64);
    text.append(" deletion");
    push_plural(&mut text, stats.deletions);
    text.append("(-)");
    text
}

pub(crate) fn holds_index(found: &Vec<usize>, i: usize) -> (r: bool)
    ensures
        r == found@.contains(i),
{
    let mut k: usize = 0;
    while k < found.len()
        invariant
            k <= found@.len(),
            forall|j: int| 0 <= j < k ==> found@[j] != i,
        decreases found@.len() - k,
    {
        if found[k] == i {
            assert(found@[k as int] == i);
            return true;
        }
        k += 1;
    }
    false
}

/// The view of an optional match set.
pub open spec fn found_view(found: Option<&Vec<usize>>) -> Option<Seq<usize>> {
    match found {
        Some(m) => Some(m@),
        None => None,
    }
}

/// The view of an optional index.
pub open spec fn index_view(i: Option<usize>) -> Option<int> {
    match i {
        Some(i) => Some(i as int),
        None => None,
    }
}

/// Appends a line to `out`.
pub(crate) fn push_line(out: &mut Vec<StyledLine>, l: StyledLine)
    ensures
        final(out).deep_view() == old(out).deep_view().push(l@),
{
    let ghost before = out.deep_view();
    let ghost m = l@;
    out.push(l);
    assert(out.deep_view() =~= before.push(m));
}

/// Appends the diffstat to `out`. `selected` is the picked file, and `filter_matches` those
/// that the picker's filter matches, if it has one.
pub fn append_diffstat(
    out: &mut Vec<StyledLine>,
    files: &Vec<FileStat>,
    stats: &DiffStats,
    selected: Option<usize>,
    filter_matches: Option<&Vec<usize>>,
)
    ensures
        final(out).deep_view() == old(out).deep_view() + diffstat(
            files.deep_view(),
            *stats,
            index_view(selected),
            found_view(filter_matches),
        ),
{
    let ghost before = out.deep_view();
    let ghost all = files.deep_view();
    let ghost sel = index_view(selected);
    let ghost found = found_view(filter_matches);
    let ghost rows = Seq::new(all.len(), |i: int| diffstat_row(all, sel, found, i));
    let ghost rule = shown(line(DiffLineKind::Faint, "---"@));
    push_line(out, diff_line_to_ratatui(&DiffLine::new(DiffLineKind::Faint, "---")));
    let longest: usize = longest_path_of(files);
    let width: usize = if longest <= PATH_CAP {
        longest
    } else {
        PATH_CAP
    };
    let most: usize = most_changes_of(files);
    let mut i: usize = 0;
    assert(out.deep_view() =~= before.push(rule) + rows.take(0));
    while i < files.len()
        invariant
            i <= files@.len(),
            all == files.deep_view(),
            sel == index_view(selected),
            found == found_view(filter_matches),
            width == smaller(longest_path(all, all.len() as int), PATH_CAP as int),
            most == most_changes(all, all.len() as int),
            rows == Seq::new(all.len(), |i: int| diffstat_row(all, sel, found, i)),
            out.deep_view() == before.push(rule) + rows.take(i as int),
        decreases files@.len() - i,
    {
        assert(all[i as int] == files@[i as int]@);
        let text: String = row_text(&files[i], width, most);
        let dim: bool = match filter_matches {
            Some(m) => !holds_index(m, i),
            None => false,
        };
        let kind: DiffLineKind = if dim {
            DiffLineKind::Faint
        } else {
            DiffLineKind::Diffstat
        };
        let mut l: StyledLine = diff_line_to_ratatui(&DiffLine { kind, text });
        let picked: bool = match selected {
            Some(s) => s == i,
            None => false,
        };
        if picked {
            l.style = Style { fg: None, bg: Some(Color::DarkGray), bold: true };
        }
        assert(l@ == rows[i as int]);
        push_line(out, l);
        assert(rows.take(i + 1) =~= rows.take(i as int).push(rows[i as int]));
        i += 1;
    }
    assert(rows.take(all.len() as int) =~= rows);
    push_line(
        out,
        diff_line_to_ratatui(
            &DiffLine { kind: DiffLineKind::DiffstatTotal, text: totals_text(stats) },
        ),
    );
    push_line(out, diff_line_to_ratatui(&DiffLine::new(DiffLineKind::Blank, "")));
    assert(out.deep_view() =~= before + diffstat(all, *stats, sel, found));
}

/// The diff pane counts as many diffstat lines as the diffstat has.
pub proof fn law_diffstat_lines_are_counted(
    d: crate::app::state::DiffModel,
    selected: Option<int>,
    found: Option<Seq<usize>>,
)
    requires
        d.document is Some,
        d.document->0.files.len() > 0,
        d.document->0.files.len() + 3 <= usize::MAX,
    ensures
        diffstat(d.document->0.files, d.document->0.stats, selected, found).len()
            == d.diffstat_lines(),
{
}

/// A bar is never longer than the longest one, and a file with changes has one.
pub proof fn law_bars_fit(total: int, most: int)
    requires
        0 <= total,
        0 <= most,
    ensures
        bar(total, most) <= BAR_CAP,
        total > 0 ==> bar(total, most) >= 1,
{
}

/// A part is scaled to the nearest whole number of the cap, never beyond the cap; nothing
/// stays nothing, and the whole becomes the cap.
pub proof fn law_scaling_rounds_to_the_nearest(part: int, whole: int, cap: int)
    requires
        0 <= part <= whole,
        0 < whole,
        0 <= cap,
        whole * cap + whole <= usize::MAX,
    ensures
        0 <= scaled(part, whole, cap) <= cap,
        2 * (part * cap) - whole <= 2 * (scaled(part, whole, cap) * whole) <= 2 * (part * cap)
            + whole,
        scaled(0, whole, cap) == 0,
        scaled(whole, whole, cap) == cap,
        scaled(part, 0, cap) == 0,
{
    let top = part * cap + whole / 2;
    let q = top / whole;
    assert(0 <= part * cap <= whole * cap) by (nonlinear_arith)
        requires
            0 <= part <= whole,
            0 <= cap,
    ;
    assert(top - whole < q * whole <= top && 0 <= q <= cap) by (nonlinear_arith)
        requires
            q == top / whole,
            0 < whole,
            0 <= top <= whole * cap + whole / 2,
            0 <= cap,
    ;
    assert(scaled(part, whole, cap) == q);
    assert((whole / 2) / whole == 0) by (nonlinear_arith)
        requires
            0 < whole,
    ;
    assert((whole * cap + whole / 2) / whole == cap) by (nonlinear_arith)
        requires
            0 < whole,
            0 <= cap,
    ;
}

/// The width of the paths is that of the longest, and the scale that of the file with the most
/// changes.
pub proof fn law_the_largest_file_sets_the_scale(files: Seq<FileStatModel>, i: int)
    requires
        0 <= i < files.len(),
        files[i].additions + files[i].deletions <= usize::MAX,
    ensures
        longest_path(files, files.len() as int) >= byte_len(files[i].path),
        most_changes(files, files.len() as int) >= files[i].additions + files[i].deletions,
        exists|k: int|
            0 <= k < files.len() && longest_path(files, files.len() as int) == byte_len(
                (#[trigger] files[k]).path,
            ),
        exists|k: int|
            0 <= k < files.len() && most_changes(files, files.len() as int) == changes(
                #[trigger] files[k],
            ),
{
    lemma_largest(files, files.len() as int);
}

proof fn lemma_largest(files: Seq<FileStatModel>, to: int)
    requires
        0 <= to <= files.len(),
    ensures
        forall|i: int|
            0 <= i < to ==> byte_len((#[trigger] files[i]).path) <= longest_path(files, to)
                && changes(files[i]) <= most_changes(files, to),
        to > 0 ==> exists|k: int|
            0 <= k < to && longest_path(files, to) == byte_len((#[trigger] files[k]).path),
        to > 0 ==> exists|k: int|
            0 <= k < to && most_changes(files, to) == changes(#[trigger] files[k]),
    decreases to,
{
    if to > 0 {
        lemma_largest(files, to - 1);
        let _ = files[to - 1];
        if to > 1 {
            let a = choose|k: int|
                0 <= k < to - 1 && longest_path(files, to - 1) == byte_len(
                    (#[trigger] files[k]).path,
                );
            let b = choose|k: int|
                0 <= k < to - 1 && most_changes(files, to - 1) == changes(#[trigger] files[k]);
            assert(longest_path(files, to) == byte_len(files[a].path) || longest_path(files, to)
                == byte_len(files[to - 1].path));
            assert(most_changes(files, to) == changes(files[b]) || most_changes(files, to)
                == changes(files[to - 1]));
        } else {
            assert(longest_path(files, 0) == 0 && most_changes(files, 0) == 0);
            assert(longest_path(files, to) == byte_len(files[0].path));
            assert(most_changes(files, to) == changes(files[0]));
        }
    }
}

/// A file's line is a blank, its path, a bar and the number of its changes, and then signs of
/// plus for what it adds and of minus for what it deletes: there are no signs of plus if it
/// only deletes, and none of minus if it only adds.
pub proof fn law_a_file_shows_its_share(f: FileStatModel, width: int, most: int)
    requires
        f.additions + f.deletions <= 100000000,
        f.additions + f.deletions <= most <= 100000000,
        0 <= width,
    ensures
        exists|plus: int, minus: int|
            0 <= plus && 0 <= minus && plus + minus == bar(f.additions + f.deletions, most) && (
            f.additions == 0 ==> plus == 0) && (f.deletions == 0 ==> minus == 0)
                && #[trigger] file_row(f, width, most) == " "@ + padded(f.path, width) + " | "@
                + right_aligned(decimal((f.additions + f.deletions) as nat), 4) + " "@
                + #[trigger] repeated('+', plus) + #[trigger] repeated('-', minus),
        f.additions + f.deletions > 0 ==> bar(f.additions + f.deletions, most) >= 1,
        bar(f.additions + f.deletions, most) <= 20,
{
    let total = f.additions + f.deletions;
    let len = bar(total, most);
    law_bars_fit(total, most);
    if most > 0 {
        assert(most * 20 + most <= usize::MAX);
        law_scaling_rounds_to_the_nearest(total, most, 20);
    }
    if total > 0 {
        assert(total * len + total <= 2100000000) by (nonlinear_arith)
            requires
                0 < total <= 100000000,
                0 <= len <= 20,
        ;
        law_scaling_rounds_to_the_nearest(f.additions as int, total, len);
    }
    let plus = scaled(f.additions as int, total, len);
    let minus = len - plus;
    assert(file_row(f, width, most) == " "@ + padded(f.path, width) + " | "@ + right_aligned(
        decimal(total as nat),
        4,
    ) + " "@ + repeated('+', plus) + repeated('-', minus));
}

/// The diffstat has a line for each file, in order, between a line of dashes and the totals,
/// and a blank line at the end. Only the picked file stands out, and only files that a filter
/// does not find are faint.
pub proof fn law_each_file_has_a_line_in_the_diffstat(
    files: Seq<FileStatModel>,
    stats: DiffStats,
    selected: Option<int>,
    found: Option<Seq<usize>>,
    i: int,
)
    requires
        0 <= i < files.len() <= usize::MAX,
    ensures
        ({
            let rows = diffstat(files, stats, selected, found);
            let text = file_row(
                files[i],
                vstd::math::min(longest_path(files, files.len() as int), 60),
                most_changes(files, files.len() as int),
            );
            &&& rows.len() == files.len() + 3
            &&& rows[0].spans[0].content == "---"@
            &&& rows[i + 1].spans.len() == 1
            &&& rows[i + 1].spans[0].content == text
            &&& selected == Some(i) <==> rows[i + 1].style.bold
            &&& found matches Some(m) ==> (m.contains(i as usize) <==> rows[i + 1].spans[0].style.fg
                == Some(Color::Cyan))
            &&& found is None ==> rows[i + 1].spans[0].style.fg == Some(Color::Cyan)
            &&& rows[files.len() as int + 1].spans[0].content == totals(stats)
            &&& rows[files.len() as int + 2].spans[0].content.len() == 0
        }),
{
    let rows = diffstat(files, stats, selected, found);
    reveal_strlit("");
    assert(rows[i + 1] == diffstat_row(files, selected, found, i));
    let text = file_row(
        files[i],
        vstd::math::min(longest_path(files, files.len() as int), 60),
        most_changes(files, files.len() as int),
    );
    assert(""@ + text =~= text);
    assert(rows[0].spans[0].content =~= "---"@);
    assert(rows[files.len() as int + 1].spans[0].content =~= totals(stats));
}

/// The totals tell the number of files, of lines added and of lines deleted, in this order and
/// each in the singular for one.
pub proof fn law_the_totals_count_files_and_lines(stats: DiffStats)
    ensures
        totals(stats) == " "@ + decimal(stats.files as nat) + " file"@ + plural(stats.files as int)
            + " changed, "@ + decimal(stats.insertions as nat) + " insertion"@ + plural(
            stats.insertions as int,
        ) + "(+), "@ + decimal(stats.deletions as nat) + " deletion"@ + plural(
            stats.deletions as int,
        ) + "(-)"@,
{
}

} // verus!
