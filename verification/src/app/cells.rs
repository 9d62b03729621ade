//! Display cells of a text: which word lies under a cell, and what text lies in
//! a range of cells.

use crate::app::state::{cell_in_selection, cell_selected, less, sat};
use crate::text::{chars_of, is_white, push_chars};
use unicode_width::UnicodeWidthChar;
use vstd::prelude::*;

verus! {

/// What `UnicodeWidthChar::width` of the `unicode_width` crate says of `c`.
pub uninterp spec fn char_width(c: char) -> Option<usize>;

/// `unicode_width::UnicodeWidthChar::width`: how many columns a character takes up; `None`
/// for control characters. A printable character of ASCII takes up one.
#[verifier::external_body]
fn width_of_char(c: char) -> (r: Option<usize>)
    ensures
        r == char_width(c),
        ' ' <= c && c < '\u{7F}' ==> r == Some(1usize),
        c < ' ' ==> r is None,
{
    c.width()
}

/// What `char::is_alphanumeric` says of `c`.
pub uninterp spec fn is_alnum(c: char) -> bool;

/// Whether `c` is an ASCII letter or digit.
pub open spec fn is_ascii_alnum(c: char) -> bool {
    48 <= c as u32 <= 57 || 65 <= c as u32 <= 90 || 97 <= c as u32 <= 122
}

/// `char::is_alphanumeric`: whether a character is a letter or a number, by Unicode. Of the
/// ASCII characters these are the letters and the digits.
pub assume_specification[ char::is_alphanumeric ](c: char) -> (r: bool)
    ensures
        r == is_alnum(c),
        (c as u32) < 128 ==> r == is_ascii_alnum(c),
;

/// Cells that a character takes up.
pub open spec fn cells(c: char) -> int {
    match char_width(c) {
        Some(w) => w as int,
        None => 0,
    }
}

/// A printable character of ASCII takes up one cell, and a control character below it none.
pub open spec fn ascii_cells(c: char) -> bool {
    &&& ' ' <= c && c < '\u{7F}' ==> cells(c) == 1
    &&& c < ' ' ==> cells(c) == 0
}

/// Of ASCII, the letters and digits are alphanumeric, and the space and the controls from tab
/// to carriage return are white space.
pub open spec fn ascii_class(c: char) -> bool {
    (c as u32) < 128 ==> {
        &&& is_alnum(c) == is_ascii_alnum(c)
        &&& is_white(c) == (c == ' ' || 9 <= c as u32 <= 13)
    }
}

/// How wide the ASCII characters of a text are is known.
pub open spec fn ascii_text_cells(text: Seq<char>) -> bool {
    forall|i: int| 0 <= i < text.len() ==> ascii_cells(#[trigger] text[i])
}

/// Of which kind the ASCII characters of a text are is known.
pub open spec fn ascii_text_class(text: Seq<char>) -> bool {
    forall|i: int| 0 <= i < text.len() ==> ascii_class(#[trigger] text[i])
}

/// Cells that a character takes up.
pub fn cells_of(c: char) -> (r: usize)
    ensures
        r == cells(c),
        ascii_cells(c),
{
    match width_of_char(c) {
        Some(w) => w,
        None => 0,
    }
}

/// The cell that character `i` of a text starts at, if the text starts at cell `offset`.
pub open spec fn start_cell(text: Seq<char>, offset: int, i: int) -> int
    decreases i,
{
    if i <= 0 {
        offset
    } else {
        sat(start_cell(text, offset, i - 1) + cells(text[i - 1]))
    }
}

/// The kinds of characters that a double click tells apart.
#[derive(Clone, Copy, PartialEq, Eq, Structural, Debug)]
pub enum Class {
    Word,
    Space,
    Other,
}

/// Whether `c` holds a word together, though it is neither a letter nor a number.
pub open spec fn is_joiner(c: char) -> bool {
    c == '_' || c == '.' || c == '/' || c == '-' || c == '+' || c == '~' || c == '\\'
}

/// The kind of a character.
pub open spec fn class_of(c: char) -> Class {
    if is_alnum(c) || is_joiner(c) {
        Class::Word
    } else if is_white(c) {
        Class::Space
    } else {
        Class::Other
    }
}

fn classify(c: char) -> (r: Class)
    ensures
        r == class_of(c),
        ascii_class(c),
{
    let alnum: bool = c.is_alphanumeric();
    let white: bool = c.is_whitespace();
    if alnum || c == '_' || c == '.' || c == '/' || c == '-' || c == '+' || c == '~' || c == '\\' {
        Class::Word
    } else if white {
        Class::Space
    } else {
        Class::Other
    }
}

fn classes_of(chars: &Vec<char>) -> (r: Vec<Class>)
    ensures
        r@.len() == chars@.len(),
        forall|i: int| 0 <= i < r@.len() ==> #[trigger] r@[i] == class_of(chars@[i]),
        ascii_text_class(chars@),
{
    let mut out: Vec<Class> = Vec::new();
    let mut i: usize = 0;
    while i < chars.len()
        invariant
            i <= chars@.len(),
            out@.len() == i,
            forall|k: int| 0 <= k < i ==> #[trigger] out@[k] == class_of(chars@[k]),
            forall|k: int| 0 <= k < i ==> ascii_class(#[trigger] chars@[k]),
        decreases chars@.len() - i,
    {
        out.push(classify(chars[i]));
        i += 1;
    }
    out
}

/// Whether character `i` of the text lies on cell `cell`.
pub open spec fn lies_on(text: Seq<char>, offset: int, i: int, cell: int) -> bool {
    start_cell(text, offset, i) <= cell < start_cell(text, offset, i) + cells(text[i])
}

/// The last of the first `to` characters that lies on cell `cell`.
pub open spec fn char_on(text: Seq<char>, offset: int, cell: int, to: int) -> Option<int>
    decreases to,
{
    if to <= 0 {
        None
    } else if lies_on(text, offset, to - 1, cell) {
        Some(to - 1)
    } else {
        char_on(text, offset, cell, to - 1)
    }
}

/// The first character of the run of one kind that character `i` belongs to.
pub open spec fn run_start(text: Seq<char>, i: int) -> int
    decreases i,
{
    if i <= 0 || class_of(text[i - 1]) != class_of(text[i]) {
        i
    } else {
        run_start(text, i - 1)
    }
}

/// The last character of the run of one kind that character `i` belongs to.
pub open spec fn run_end(text: Seq<char>, i: int) -> int
    decreases text.len() - i,
{
    if i + 1 >= text.len() || class_of(text[i + 1]) != class_of(text[i]) {
        i
    } else {
        run_end(text, i + 1)
    }
}

/// The first and the last cell that the run of one kind under cell `cell` takes up; `None` if
/// no character lies there.
pub open spec fn word_span(text: Seq<char>, offset: int, cell: int) -> Option<(int, int)> {
    match char_on(text, offset, cell, text.len() as int) {
        Some(i) => Some(
            (
                start_cell(text, offset, run_start(text, i)),
                less(start_cell(text, offset, run_end(text, i) + 1), 1),
            ),
        ),
        None => None,
    }
}

/// The cell that character `i` starts at.
fn start_of(chars: &Vec<char>, offset: usize, i: usize) -> (r: usize)
    requires
        i <= chars@.len(),
    ensures
        r == start_cell(chars@, offset as int, i as int),
        ascii_text_cells(chars@.take(i as int)),
{
    let mut acc: usize = offset;
    let mut k: usize = 0;
    while k < i
        invariant
            k <= i <= chars@.len(),
            acc == start_cell(chars@, offset as int, k as int),
            forall|j: int| 0 <= j < k ==> ascii_cells(#[trigger] chars@[j]),
        decreases i - k,
    {
        let w: usize = cells_of(chars[k]);
        acc = acc.saturating_add(w);
        k += 1;
    }
    acc
}

fn find_char_on(chars: &Vec<char>, offset: usize, cell: usize) -> (r: Option<usize>)
    ensures
        match char_on(chars@, offset as int, cell as int, chars@.len() as int) {
            Some(i) => r == Some(i as usize) && 0 <= i < chars@.len() && r->0 == i,
            None => r is None,
        },
        ascii_text_cells(chars@),
{
    let mut acc: usize = offset;
    let mut found: Option<usize> = None;
    let mut i: usize = 0;
    while i < chars.len()
        invariant
            i <= chars@.len(),
            acc == start_cell(chars@, offset as int, i as int),
            match char_on(chars@, offset as int, cell as int, i as int) {
                Some(k) => found == Some(k as usize) && 0 <= k < i && found->0 == k,
                None => found is None,
            },
            forall|k: int| 0 <= k < i ==> ascii_cells(#[trigger] chars@[k]),
        decreases chars@.len() - i,
    {
        let w: usize = cells_of(chars[i]);
        if acc <= cell && cell - acc < w {
            found = Some(i);
        }
        acc = acc.saturating_add(w);
        i += 1;
    }
    found
}

/// The run of characters of one kind under cell `cell`, as its first and its last cell.
/// `text` starts at cell `offset`. Letters, numbers and what joins them make up words; white
/// space is a kind of its own, and so is all the rest.
pub fn word_cells_at(text: &str, offset: usize, cell: usize) -> (r: Option<(usize, usize)>)
    ensures
        match (r, word_span(text@, offset as int, cell as int)) {
            (Some((a, b)), Some((s, e))) => a == s && b == e,
            (None, None) => true,
            _ => false,
        },
        ascii_text_cells(text@),
        ascii_text_class(text@),
{
    let chars: Vec<char> = chars_of(text);
    let classes: Vec<Class> = classes_of(&chars);
    let at: usize = match find_char_on(&chars, offset, cell) {
        Some(i) => i,
        None => {
            return None;
        },
    };
    let class: Class = classes[at];
    let mut lo: usize = at;
    let mut more: bool = lo > 0;
    while more
        invariant
            lo <= at < chars@.len() == classes@.len(),
            forall|i: int| 0 <= i < classes@.len() ==> #[trigger] classes@[i] == class_of(chars@[i]),
            class == class_of(chars@[lo as int]),
            run_start(chars@, at as int) == run_start(chars@, lo as int),
            more == (lo > 0) || (!more && run_start(chars@, lo as int) == lo),
        decreases lo + (if more {
            1int
        } else {
            0int
        }),
    {
        if lo > 0 && classes[lo - 1] == class {
            lo = lo - 1;
            more = lo > 0;
        } else {
            more = false;
        }
    }
    let mut hi: usize = at;
    let mut go: bool = true;
    while go
        invariant
            at <= hi < chars@.len() == classes@.len(),
            forall|i: int| 0 <= i < classes@.len() ==> #[trigger] classes@[i] == class_of(chars@[i]),
            class == class_of(chars@[hi as int]),
            run_end(chars@, at as int) == run_end(chars@, hi as int),
            !go ==> run_end(chars@, hi as int) == hi,
        decreases chars@.len() - hi + (if go {
            1int
        } else {
            0int
        }),
    {
        if hi < classes.len() - 1 && classes[hi + 1] == class {
            hi = hi + 1;
        } else {
            go = false;
        }
    }
    let first: usize = start_of(&chars, offset, lo);
    let behind: usize = start_of(&chars, offset, hi + 1);
    Some((first, behind.saturating_sub(1)))
}

/// Cells that the first `i` characters of a text take up.
pub open spec fn cells_before(text: Seq<char>, i: int) -> int
    decreases i,
{
    if i <= 0 {
        0
    } else {
        cells_before(text, i - 1) + cells(text[i - 1])
    }
}

proof fn lemma_cells_grow(text: Seq<char>, i: int, j: int)
    requires
        0 <= i <= j,
    ensures
        0 <= cells_before(text, i) <= cells_before(text, j),
    decreases j,
{
    if i < j {
        lemma_cells_grow(text, i, j - 1);
    } else if i > 0 {
        lemma_cells_grow(text, i - 1, i - 1);
    }
}

proof fn lemma_start_cell(text: Seq<char>, offset: int, i: int)
    requires
        0 <= i <= text.len(),
        0 <= offset,
        offset + cells_before(text, text.len() as int) <= usize::MAX,
    ensures
        start_cell(text, offset, i) == offset + cells_before(text, i),
    decreases i,
{
    if i > 0 {
        lemma_start_cell(text, offset, i - 1);
        lemma_cells_grow(text, i, text.len() as int);
    }
}

proof fn lemma_char_on(text: Seq<char>, offset: int, cell: int, to: int)
    requires
        0 <= to <= text.len(),
        0 <= offset,
        offset + cells_before(text, text.len() as int) <= usize::MAX,
    ensures
        char_on(text, offset, cell, to) is Some <==> offset <= cell < offset + cells_before(
            text,
            to,
        ),
        char_on(text, offset, cell, to) matches Some(i) ==> 0 <= i < to && lies_on(
            text,
            offset,
            i,
            cell,
        ),
    decreases to,
{
    if to > 0 {
        lemma_char_on(text, offset, cell, to - 1);
        lemma_start_cell(text, offset, to - 1);
        lemma_cells_grow(text, 0, to - 1);
    }
}

/// The characters from `a` to `b` are of one kind, and those next to them are of another.
pub open spec fn is_run(text: Seq<char>, a: int, b: int) -> bool {
    &&& 0 <= a <= b < text.len()
    &&& forall|k: int| a <= k <= b ==> class_of(#[trigger] text[k]) == class_of(text[a])
    &&& a > 0 ==> class_of(text[a - 1]) != class_of(text[a])
    &&& b + 1 < text.len() ==> class_of(text[b + 1]) != class_of(text[a])
}

proof fn lemma_run_start(text: Seq<char>, i: int)
    requires
        0 <= i < text.len(),
    ensures
        0 <= run_start(text, i) <= i,
        forall|k: int|
            run_start(text, i) <= k <= i ==> class_of(#[trigger] text[k]) == class_of(text[i]),
        run_start(text, i) > 0 ==> class_of(text[run_start(text, i) - 1]) != class_of(text[i]),
    decreases i,
{
    if i > 0 && class_of(text[i - 1]) == class_of(text[i]) {
        lemma_run_start(text, i - 1);
    }
}

proof fn lemma_run_end(text: Seq<char>, i: int)
    requires
        0 <= i < text.len(),
    ensures
        i <= run_end(text, i) < text.len(),
        forall|k: int|
            i <= k <= run_end(text, i) ==> class_of(#[trigger] text[k]) == class_of(text[i]),
        run_end(text, i) + 1 < text.len() ==> class_of(text[run_end(text, i) + 1]) != class_of(
            text[i],
        ),
    decreases text.len() - i,
{
    if i + 1 < text.len() && class_of(text[i + 1]) == class_of(text[i]) {
        lemma_run_end(text, i + 1);
    }
}

proof fn lemma_run(text: Seq<char>, i: int)
    requires
        0 <= i < text.len(),
    ensures
        is_run(text, run_start(text, i), run_end(text, i)),
        run_start(text, i) <= i <= run_end(text, i),
{
    lemma_run_start(text, i);
    lemma_run_end(text, i);
    let a = run_start(text, i);
    assert(class_of(text[a]) == class_of(text[i]));
}

proof fn lemma_one_run(text: Seq<char>, a: int, b: int, i: int)
    requires
        is_run(text, a, b),
        a <= i <= b,
    ensures
        run_start(text, i) == a,
        run_end(text, i) == b,
{
    lemma_run_start(text, i);
    lemma_run_end(text, i);
    let s = run_start(text, i);
    let e = run_end(text, i);
    assert(class_of(text[i]) == class_of(text[a]));
    if s < a {
        assert(class_of(text[a - 1]) == class_of(text[i]));
    }
    if s > a {
        assert(class_of(text[s - 1]) == class_of(text[a]));
    }
    if e > b {
        assert(class_of(text[b + 1]) == class_of(text[i]));
    }
    if e < b {
        assert(class_of(text[e + 1]) == class_of(text[a]));
    }
}

/// A double click finds a word on every cell of a line and on no other. The word holds the
/// cell: it is a whole run of characters of one kind, from its first cell to its last, and
/// each of its cells gives the same word.
pub proof fn law_words_are_whole_runs(text: Seq<char>, offset: int, cell: int)
    requires
        0 <= offset,
        offset + cells_before(text, text.len() as int) <= usize::MAX,
    ensures
        word_span(text, offset, cell) is Some <==> offset <= cell < offset + cells_before(
            text,
            text.len() as int,
        ),
        word_span(text, offset, cell) matches Some((s, e)) ==> {
            &&& s <= cell <= e
            &&& exists|a: int, b: int| #[trigger]
                is_run(text, a, b) && s == offset + cells_before(text, a) && e + 1 == offset
                    + cells_before(text, b + 1)
            &&& forall|c: int|
                s <= c <= e ==> #[trigger] word_span(text, offset, c) == Some((s, e))
        },
{
    let len = text.len() as int;
    lemma_char_on(text, offset, cell, len);
    if let Some(i) = char_on(text, offset, cell, len) {
        let a = run_start(text, i);
        let b = run_end(text, i);
        lemma_run(text, i);
        lemma_start_cell(text, offset, a);
        lemma_start_cell(text, offset, b + 1);
        lemma_start_cell(text, offset, i);
        lemma_cells_grow(text, a, i);
        lemma_cells_grow(text, i + 1, b + 1);
        lemma_cells_grow(text, b + 1, len);
        let s = offset + cells_before(text, a);
        let e = offset + cells_before(text, b + 1) - 1;
        assert(word_span(text, offset, cell) == Some((s, e)));
        assert forall|c: int| s <= c <= e implies #[trigger] word_span(text, offset, c) == Some(
            (s, e),
        ) by {
            lemma_cells_grow(text, 0, a);
            lemma_char_on(text, offset, c, len);
            let j = char_on(text, offset, c, len)->0;
            lemma_start_cell(text, offset, j);
            if j < a {
                lemma_cells_grow(text, j + 1, a);
            }
            if j > b {
                lemma_cells_grow(text, b + 1, j);
            }
            lemma_one_run(text, a, b, j);
        }
    }
}

/// Whether character `i` of the text lies in the cells from `start` to before `end`.
pub open spec fn char_selected(
    text: Seq<char>,
    offset: int,
    start: int,
    end: Option<int>,
    i: int,
) -> bool {
    cell_selected(start_cell(text, offset, i), cells(text[i]), start, end)
}

/// The first character from `from` on that lies in the cells.
pub open spec fn first_selected(
    text: Seq<char>,
    offset: int,
    start: int,
    end: Option<int>,
    from: int,
) -> Option<int>
    decreases text.len() - from,
{
    if from >= text.len() {
        None
    } else if char_selected(text, offset, start, end, from) {
        Some(from)
    } else {
        first_selected(text, offset, start, end, from + 1)
    }
}

/// The last of the first `to` characters that lies in the cells.
pub open spec fn last_selected(
    text: Seq<char>,
    offset: int,
    start: int,
    end: Option<int>,
    to: int,
) -> Option<int>
    decreases to,
{
    if to <= 0 {
        None
    } else if char_selected(text, offset, start, end, to - 1) {
        Some(to - 1)
    } else {
        last_selected(text, offset, start, end, to - 1)
    }
}

/// The text in the cells from `start` to before `end`, or to the end of the line. The text
/// starts at cell `offset`.
pub open spec fn cells_text(
    text: Seq<char>,
    offset: int,
    start: int,
    end: Option<int>,
) -> Seq<char> {
    match (
        first_selected(text, offset, start, end, 0),
        last_selected(text, offset, start, end, text.len() as int),
    ) {
        (Some(a), Some(b)) => text.subrange(a, b + 1),
        _ => Seq::empty(),
    }
}

/// The view of the end of a range of cells.
pub open spec fn end_view(end: Option<usize>) -> Option<int> {
    match end {
        Some(e) => Some(e as int),
        None => None,
    }
}

proof fn lemma_first_selected(
    text: Seq<char>,
    offset: int,
    start: int,
    end: Option<int>,
    from: int,
    at: int,
)
    requires
        0 <= from <= at < text.len(),
        char_selected(text, offset, start, end, at),
        forall|k: int| from <= k < at ==> !#[trigger] char_selected(text, offset, start, end, k),
    ensures
        first_selected(text, offset, start, end, from) == Some(at),
    decreases at - from,
{
    if from < at {
        assert(!char_selected(text, offset, start, end, from));
        lemma_first_selected(text, offset, start, end, from + 1, at);
    }
}

proof fn lemma_none_selected(
    text: Seq<char>,
    offset: int,
    start: int,
    end: Option<int>,
    from: int,
)
    requires
        0 <= from <= text.len(),
        forall|k: int|
            from <= k < text.len() ==> !#[trigger] char_selected(text, offset, start, end, k),
    ensures
        first_selected(text, offset, start, end, from) is None,
    decreases text.len() - from,
{
    if from < text.len() {
        assert(!char_selected(text, offset, start, end, from));
        lemma_none_selected(text, offset, start, end, from + 1);
    }
}

/// The first selected character lies in the text and is not behind the last.
pub proof fn lemma_selected_order(
    text: Seq<char>,
    offset: int,
    start: int,
    end: Option<int>,
    from: int,
    to: int,
)
    requires
        0 <= from <= to <= text.len(),
        first_selected(text, offset, start, end, from) is Some,
        last_selected(text, offset, start, end, to) is Some,
        to == text.len(),
    ensures
        from <= first_selected(text, offset, start, end, from)->0 < text.len(),
        0 <= last_selected(text, offset, start, end, to)->0 < to,
        first_selected(text, offset, start, end, from)->0 <= last_selected(
            text,
            offset,
            start,
            end,
            to,
        )->0,
    decreases text.len() - from,
{
    if char_selected(text, offset, start, end, from) {
        lemma_last_selected(text, offset, start, end, from, to);
    } else {
        lemma_selected_order(text, offset, start, end, from + 1, to);
    }
}

proof fn lemma_last_selected(
    text: Seq<char>,
    offset: int,
    start: int,
    end: Option<int>,
    at: int,
    to: int,
)
    requires
        0 <= at < to <= text.len(),
        char_selected(text, offset, start, end, at),
    ensures
        last_selected(text, offset, start, end, to) is Some,
        at <= last_selected(text, offset, start, end, to)->0 < to,
    decreases to,
{
    if !char_selected(text, offset, start, end, to - 1) {
        lemma_last_selected(text, offset, start, end, at, to - 1);
    }
}

/// The characters in the cells from `start` to before `end`: the first, and the one behind
/// the last.
pub(crate) fn selected_range(
    chars: &Vec<char>,
    offset: usize,
    start: usize,
    end: Option<usize>,
) -> (r: Option<(usize, usize)>)
    ensures
        match (
            r,
            first_selected(chars@, offset as int, start as int, end_view(end), 0),
            last_selected(
                chars@,
                offset as int,
                start as int,
                end_view(end),
                chars@.len() as int,
            ),
        ) {
            (Some((from, to)), Some(a), Some(b)) => from == a && to == b + 1 && from < to
                <= chars@.len(),
            (None, None, None) => true,
            _ => false,
        },
        ascii_text_cells(chars@),
{
    let ghost e = end_view(end);
    let mut acc: usize = offset;
    let mut from: Option<usize> = None;
    let mut to: usize = 0;
    let mut i: usize = 0;
    while i < chars.len()
        invariant
            i <= chars@.len(),
            forall|k: int| 0 <= k < i ==> ascii_cells(#[trigger] chars@[k]),
            e == end_view(end),
            acc == start_cell(chars@, offset as int, i as int),
            match last_selected(chars@, offset as int, start as int, e, i as int) {
                Some(b) => from is Some && from->0 <= b < i && to == b + 1 && char_selected(
                    chars@,
                    offset as int,
                    start as int,
                    e,
                    from->0 as int,
                ),
                None => from is None,
            },
            forall|k: int|
                0 <= k < (if from is Some {
                    from->0 as int
                } else {
                    i as int
                }) ==> !#[trigger] char_selected(
                    chars@,
                    offset as int,
                    start as int,
                    e,
                    k,
                ),
        decreases chars@.len() - i,
    {
        let w: usize = cells_of(chars[i]);
        let selected: bool = cell_in_selection(acc, w, start, end);
        assert(selected == char_selected(chars@, offset as int, start as int, e, i as int));
        if selected {
            if from.is_none() {
                from = Some(i);
            }
            to = i + 1;
        }
        acc = acc.saturating_add(w);
        i += 1;
    }
    if let Some(f) = from {
        proof {
            lemma_first_selected(chars@, offset as int, start as int, e, 0, f as int);
        }
        Some((f, to))
    } else {
        proof {
            lemma_none_selected(chars@, offset as int, start as int, e, 0);
        }
        None
    }
}

/// The text in the cells from `start` to before `end`; without `end`, to the end of the line.
/// `text` starts at cell `offset`.
pub fn slice_by_cells(text: &str, offset: usize, start: usize, end: Option<usize>) -> (r: String)
    ensures
        r@ == cells_text(text@, offset as int, start as int, end_view(end)),
        ascii_text_cells(text@),
{
    let chars: Vec<char> = chars_of(text);
    let mut out: String = String::new();
    if let Some((from, to)) = selected_range(&chars, offset, start, end) {
        push_chars(&mut out, &chars, from, to);
        assert(out@ =~= chars@.subrange(from as int, to as int));
    }
    out
}

/// Every character of the text takes up one cell.
pub open spec fn is_plain(text: Seq<char>) -> bool {
    forall|i: int| 0 <= i < text.len() ==> cells(#[trigger] text[i]) == 1
}

proof fn lemma_plain_grows(text: Seq<char>, offset: int, i: int, j: int)
    requires
        is_plain(text),
        0 <= offset <= usize::MAX,
        0 <= i <= j <= text.len(),
    ensures
        offset <= start_cell(text, offset, i) <= start_cell(text, offset, j) <= usize::MAX,
    decreases j,
{
    if i < j {
        lemma_plain_grows(text, offset, i, j - 1);
        assert(cells(text[j - 1]) == 1);
    } else if i > 0 {
        lemma_plain_grows(text, offset, i - 1, i - 1);
        assert(cells(text[i - 1]) == 1);
    }
}

proof fn lemma_last_is(
    text: Seq<char>,
    offset: int,
    start: int,
    end: Option<int>,
    at: int,
    to: int,
)
    requires
        0 <= at < to <= text.len(),
        char_selected(text, offset, start, end, at),
        forall|k: int| at < k < to ==> !#[trigger] char_selected(text, offset, start, end, k),
    ensures
        last_selected(text, offset, start, end, to) == Some(at),
    decreases to,
{
    if at < to - 1 {
        assert(!char_selected(text, offset, start, end, to - 1));
        lemma_last_is(text, offset, start, end, at, to - 1);
    }
}

/// The first character from `from` on that does not start in front of cell `cell`; their
/// number if there is none.
spec fn first_at(text: Seq<char>, offset: int, cell: int, from: int) -> int
    decreases text.len() - from,
{
    if from >= text.len() {
        text.len() as int
    } else if start_cell(text, offset, from) >= cell {
        from
    } else {
        first_at(text, offset, cell, from + 1)
    }
}

proof fn lemma_first_at(text: Seq<char>, offset: int, cell: int, from: int)
    requires
        is_plain(text),
        0 <= offset <= usize::MAX,
        0 <= from <= text.len(),
    ensures
        from <= first_at(text, offset, cell, from) <= text.len(),
        forall|k: int|
            from <= k < text.len() ==> (#[trigger] start_cell(text, offset, k) >= cell
                <==> k >= first_at(text, offset, cell, from)),
    decreases text.len() - from,
{
    if from < text.len() {
        if start_cell(text, offset, from) >= cell {
            assert forall|k: int| from <= k < text.len() implies #[trigger] start_cell(
                text,
                offset,
                k,
            ) >= cell by {
                lemma_plain_grows(text, offset, from, k);
            }
        } else {
            lemma_first_at(text, offset, cell, from + 1);
        }
    }
}

proof fn lemma_plain_text(text: Seq<char>, offset: int, start: int, end: Option<int>)
    requires
        is_plain(text),
        0 <= offset <= usize::MAX,
    ensures
        ({
            let from = first_at(text, offset, start, 0);
            let to = match end {
                Some(e) => first_at(text, offset, e, 0),
                None => text.len() as int,
            };
            cells_text(text, offset, start, end) == if from < to {
                text.subrange(from, to)
            } else {
                Seq::empty()
            }
        }),
{
    let from = first_at(text, offset, start, 0);
    let to = match end {
        Some(e) => first_at(text, offset, e, 0),
        None => text.len() as int,
    };
    lemma_first_at(text, offset, start, 0);
    if let Some(e) = end {
        lemma_first_at(text, offset, e, 0);
    }
    assert forall|k: int| 0 <= k < text.len() implies #[trigger] char_selected(
        text,
        offset,
        start,
        end,
        k,
    ) == (from <= k < to) by {
        lemma_plain_grows(text, offset, k, k);
        assert(cells(text[k]) == 1);
    }
    if from < to {
        lemma_first_selected(text, offset, start, end, 0, from);
        lemma_last_is(text, offset, start, end, to - 1, text.len() as int);
    } else {
        lemma_none_selected(text, offset, start, end, 0);
    }
}

/// Cutting a line at a cell loses nothing and doubles nothing, where each character takes up
/// one cell: the piece in front of the cell and the piece from it on are the line, from any
/// cell on. What lies in front of the text adds nothing to it.
pub proof fn law_cells_cut_a_line(text: Seq<char>, offset: usize, start: int, mid: int)
    requires
        is_plain(text),
        start <= mid,
    ensures
        cells_text(text, offset as int, start, Some(mid)) + cells_text(
            text,
            offset as int,
            mid,
            None,
        ) == cells_text(text, offset as int, start, None),
        start <= offset ==> cells_text(text, offset as int, start, None) == text,
{
    let at = offset as int;
    lemma_plain_text(text, at, start, Some(mid));
    lemma_plain_text(text, at, mid, None);
    lemma_plain_text(text, at, start, None);
    lemma_first_at(text, at, start, 0);
    lemma_first_at(text, at, mid, 0);
    let first = first_at(text, at, start, 0);
    let second = first_at(text, at, mid, 0);
    if second < first {
        assert(start_cell(text, at, second) >= mid);
    }
    assert(cells_text(text, at, start, Some(mid)) + cells_text(text, at, mid, None)
        =~= cells_text(text, at, start, None));
    if start <= offset && text.len() > 0 {
        assert(start_cell(text, at, 0) >= start);
    }
    if start <= offset {
        assert(cells_text(text, at, start, None) =~= text);
    }
}

/// Cells that a text takes up, if it starts at cell `offset`: the cell behind it.
pub fn end_cell(text: &str, offset: usize) -> (r: usize)
    ensures
        r == start_cell(text@, offset as int, text@.len() as int),
        ascii_text_cells(text@),
{
    let chars: Vec<char> = chars_of(text);
    assert(chars@.take(chars@.len() as int) =~= chars@);
    start_of(&chars, offset, chars.len())
}

/// Of a line in which each character takes one column, the columns asked for are the
/// characters as far from the start of the line.
pub proof fn law_columns_of_plain_text_are_its_characters(
    text: Seq<char>,
    offset: usize,
    from: int,
    to: int,
)
    requires
        is_plain(text),
        0 <= from <= to <= text.len(),
        offset + text.len() <= usize::MAX,
    ensures
        cells_text(text, offset as int, offset + from, Some(offset + to)) == text.subrange(
            from,
            to,
        ),
{
    let at = offset as int;
    lemma_plain_text(text, at, at + from, Some(at + to));
    lemma_first_at_plain(text, at, from, 0);
    lemma_first_at_plain(text, at, to, 0);
    assert(cells_text(text, at, at + from, Some(at + to)) =~= text.subrange(from, to));
}

proof fn lemma_start_of_plain(text: Seq<char>, offset: int, i: int)
    requires
        is_plain(text),
        0 <= offset,
        offset + text.len() <= usize::MAX,
        0 <= i <= text.len(),
    ensures
        start_cell(text, offset, i) == offset + i,
    decreases i,
{
    if i > 0 {
        lemma_start_of_plain(text, offset, i - 1);
        assert(cells(text[i - 1]) == 1);
    }
}

proof fn lemma_first_at_plain(text: Seq<char>, offset: int, n: int, from: int)
    requires
        is_plain(text),
        0 <= offset,
        offset + text.len() <= usize::MAX,
        0 <= from <= n <= text.len(),
    ensures
        first_at(text, offset, offset + n, from) == n,
    decreases n - from,
{
    if from < text.len() {
        lemma_start_of_plain(text, offset, from);
        if from < n {
            lemma_first_at_plain(text, offset, n, from + 1);
        }
    }
}

/// Letters, digits and the marks that stand within paths and names make up words; white space
/// and the rest do not.
pub proof fn law_paths_and_names_are_words(c: char)
    ensures
        c == '_' || c == '.' || c == '/' || c == '-' || c == '+' || c == '~' || c == '\\'
            ==> class_of(c) == Class::Word,
        is_alnum(c) ==> class_of(c) == Class::Word,
        class_of(c) == Class::Word ==> is_alnum(c) || c == '_' || c == '.' || c == '/' || c == '-'
            || c == '+' || c == '~' || c == '\\',
        class_of(c) == Class::Space ==> is_white(c),
        class_of(c) == Class::Other ==> !is_white(c) && !is_alnum(c),
{
}

/// A character takes as many columns as it is wide, and none if it has no width.
pub proof fn law_a_character_without_a_width_takes_no_column(c: char, w: usize)
    ensures
        char_width(c) is None ==> cells(c) == 0,
        char_width(c) == Some(w) ==> cells(c) == w,
{
}

} // verus!
