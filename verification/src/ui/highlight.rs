//! Marking the matches of a search in a text.

use crate::app::search::occurs_at;
use crate::app::state::larger;
use crate::text::{char_lower, chars_of, lower_char, lower_text, push_chars};
use crate::ui::style::{
    joined, law_spans_are_read_one_behind_the_other, push_span, span, Span, SpanModel, Style,
};
use vstd::prelude::*;

verus! {

/// For each character of the lowercase form of the first `to` characters of a text, which
/// of them it comes from.
pub open spec fn sources(text: Seq<char>, to: int) -> Seq<int>
    decreases to,
{
    if to <= 0 {
        Seq::empty()
    } else {
        sources(text, to - 1) + Seq::new(lower_char(text[to - 1]).len(), |k: int| to - 1)
    }
}

/// A piece of the text, unless it is empty.
pub open spec fn piece(text: Seq<char>, from: int, to: int, style: Style) -> Seq<SpanModel> {
    if from < to {
        seq![span(text.subrange(from, to), style)]
    } else {
        Seq::empty()
    }
}

/// The text from character `done` on, cut at the matches of `q` in its lowercase form `low`
/// from `at` on. Matches do not overlap.
pub open spec fn cut(
    text: Seq<char>,
    src: Seq<int>,
    low: Seq<char>,
    q: Seq<char>,
    style: Style,
    mark: Style,
    at: int,
    done: int,
) -> Seq<SpanModel>
    decreases low.len() - at,
{
    if q.len() == 0 || at + q.len() > low.len() {
        piece(text, done, text.len() as int, style)
    } else if occurs_at(low, q, at) {
        let from = larger(src[at], done);
        let to = larger(src[at + q.len() - 1] + 1, from);
        piece(text, done, from, style) + piece(text, from, to, mark) + cut(
            text,
            src,
            low,
            q,
            style,
            mark,
            at + q.len(),
            to,
        )
    } else {
        cut(text, src, low, q, style, mark, at + 1, done)
    }
}

/// The span cut into pieces, those that match the lowercase query `q` in the style `mark`.
/// A text of which the lowercase form is not made up of those of its characters stays whole.
pub open spec fn marked(s: SpanModel, q: Seq<char>, mark: Style) -> Seq<SpanModel> {
    let text = s.content;
    let src = sources(text, text.len() as int);
    if q.len() == 0 || src.len() != lower_text(text).len() {
        seq![s]
    } else {
        cut(text, src, lower_text(text), q, s.style, mark, 0, 0)
    }
}

proof fn lemma_sources(text: Seq<char>, to: int)
    requires
        0 <= to <= text.len(),
    ensures
        forall|k: int| 0 <= k < sources(text, to).len() ==> 0 <= #[trigger] sources(text, to)[k] < to,
    decreases to,
{
    if to > 0 {
        lemma_sources(text, to - 1);
        let before = sources(text, to - 1);
        assert forall|k: int| 0 <= k < sources(text, to).len() implies 0
            <= #[trigger] sources(text, to)[k] < to by {
            if k < before.len() {
                assert(sources(text, to)[k] == before[k]);
            }
        }
    }
}

fn sources_of(chars: &Vec<char>) -> (r: Vec<usize>)
    ensures
        r@.len() == sources(chars@, chars@.len() as int).len(),
        forall|k: int|
            0 <= k < r@.len() ==> #[trigger] r@[k] == sources(chars@, chars@.len() as int)[k],
{
    let mut out: Vec<usize> = Vec::new();
    let mut i: usize = 0;
    while i < chars.len()
        invariant
            i <= chars@.len(),
            out@.len() == sources(chars@, i as int).len(),
            forall|k: int|
                0 <= k < out@.len() ==> #[trigger] out@[k] == sources(chars@, i as int)[k],
        decreases chars@.len() - i,
    {
        let low: String = char_lower(chars[i]);
        let count: usize = chars_of(low.as_str()).len();
        let ghost before = sources(chars@, i as int);
        let mut j: usize = 0;
        while j < count
            invariant
                j <= count,
                i < chars@.len(),
                out@.len() == before.len() + j,
                forall|k: int| 0 <= k < before.len() ==> #[trigger] out@[k] == before[k],
                forall|k: int| before.len() <= k < out@.len() ==> #[trigger] out@[k] == i,
            decreases count - j,
        {
            out.push(i);
            j += 1;
        }
        i += 1;
    }
    out
}

fn occurs(low: &Vec<char>, q: &Vec<char>, at: usize) -> (r: bool)
    requires
        at + q@.len() <= low@.len(),
    ensures
        r == occurs_at(low@, q@, at as int),
{
    let mut i: usize = 0;
    let total: usize = low.len();
    while i < q.len()
        invariant
            i <= q@.len(),
            at + q@.len() <= low@.len(),
            total == low@.len(),
            forall|k: int| 0 <= k < i ==> low@[at + k] == #[trigger] q@[k],
        decreases q@.len() - i,
    {
        if low[at + i] != q[i] {
            assert(low@.subrange(at as int, at + q@.len())[i as int] == low@[at + i]);
            return false;
        }
        i += 1;
    }
    assert(low@.subrange(at as int, at + q@.len()) =~= q@);
    true
}

/// Appends the characters from `from` to before `to` to `out`, unless there are none.
pub(crate) fn push_piece(out: &mut Vec<Span>, chars: &Vec<char>, from: usize, to: usize, style: Style)
    requires
        to <= chars@.len(),
    ensures
        final(out).deep_view() == old(out).deep_view() + piece(
            chars@,
            from as int,
            to as int,
            style,
        ),
{
    let ghost before = out.deep_view();
    if from < to {
        let mut text: String = String::new();
        push_chars(&mut text, chars, from, to);
        assert(text@ =~= chars@.subrange(from as int, to as int));
        push_span(out, text, style);
    }
    assert(out.deep_view() =~= before + piece(chars@, from as int, to as int, style));
}

/// Appends `span` to `out`, cut into pieces: each occurrence of the lowercase `query` in the
/// style `highlight_style`, the rest in the span's own.
pub fn highlight_matches_in_span(
    out: &mut Vec<Span>,
    span: Span,
    query: &str,
    highlight_style: Style,
)
    ensures
        final(out).deep_view() == old(out).deep_view() + marked(
            span@,
            query@,
            highlight_style,
        ),
{
    let ghost before = out.deep_view();
    let chars: Vec<char> = chars_of(span.content.as_str());
    let q: Vec<char> = chars_of(query);
    let lower: String = span.content.as_str().to_lowercase();
    let low: Vec<char> = chars_of(lower.as_str());
    let src: Vec<usize> = sources_of(&chars);
    if q.len() == 0 || src.len() != low.len() {
        let ghost s = span@;
        push_span(out, span.content, span.style);
        assert(out.deep_view() =~= before + seq![s]);
        return;
    }
    let style: Style = span.style;
    let ghost own = sources(chars@, chars@.len() as int);
    let ghost all = cut(chars@, own, low@, q@, style, highlight_style, 0, 0);
    proof {
        lemma_sources(chars@, chars@.len() as int);
        assert(before + all =~= out.deep_view() + all);
    }
    let mut at: usize = 0;
    let mut done: usize = 0;
    let end: usize = chars.len();
    while q.len() <= low.len() - at
        invariant
            at <= low@.len(),
            end == chars@.len(),
            done <= end,
            q@.len() > 0,
            src@.len() == low@.len(),
            own.len() == low@.len(),
            forall|k: int| 0 <= k < src@.len() ==> #[trigger] src@[k] == own[k],
            forall|k: int| 0 <= k < own.len() ==> 0 <= #[trigger] own[k] < chars@.len(),
            before + all == out.deep_view() + cut(
                chars@,
                own,
                low@,
                q@,
                style,
                highlight_style,
                at as int,
                done as int,
            ),
        decreases low@.len() - at,
    {
        let ghost rest = cut(
            chars@,
            own,
            low@,
            q@,
            style,
            highlight_style,
            at as int,
            done as int,
        );
        if occurs(&low, &q, at) {
            let last: usize = at + q.len() - 1;
            assert(src@[at as int] == own[at as int]);
            assert(src@[last as int] == own[last as int]);
            let from: usize = if src[at] >= done {
                src[at]
            } else {
                done
            };
            let to: usize = if src[last] + 1 >= from {
                src[last] + 1
            } else {
                from
            };
            let ghost so_far = out.deep_view();
            push_piece(out, &chars, done, from, style);
            push_piece(out, &chars, from, to, highlight_style);
            at = at + q.len();
            proof {
                let tail = cut(
                    chars@,
                    own,
                    low@,
                    q@,
                    style,
                    highlight_style,
                    at as int,
                    to as int,
                );
                let a = piece(chars@, done as int, from as int, style);
                let b = piece(chars@, from as int, to as int, highlight_style);
                assert(rest == a + b + tail);
                assert(so_far + (a + b + tail) =~= so_far + a + b + tail);
            }
            done = to;
        } else {
            at = at + 1;
        }
    }
    push_piece(out, &chars, done, end, style);
    assert(before + all == out.deep_view());
}

proof fn lemma_joined_push(spans: Seq<SpanModel>, s: SpanModel)
    ensures
        joined(spans.push(s)) == joined(spans) + s.content,
{
    assert(spans.push(s).drop_last() =~= spans);
}

proof fn lemma_joined_add(a: Seq<SpanModel>, b: Seq<SpanModel>)
    ensures
        joined(a + b) == joined(a) + joined(b),
{
    law_spans_are_read_one_behind_the_other(a, b);
}

/// A piece of a text reads as that part of it.
pub proof fn lemma_joined_piece(text: Seq<char>, from: int, to: int, style: Style)
    requires
        0 <= from <= to <= text.len(),
    ensures
        joined(piece(text, from, to, style)) == text.subrange(from, to),
{
    if from < to {
        let s = span(text.subrange(from, to), style);
        lemma_joined_push(Seq::empty(), s);
        assert(Seq::empty().push(s) =~= piece(text, from, to, style));
        assert(Seq::<char>::empty() + text.subrange(from, to) =~= text.subrange(from, to));
    } else {
        assert(text.subrange(from, to) =~= Seq::empty());
    }
}

proof fn lemma_joined_cut(
    text: Seq<char>,
    src: Seq<int>,
    low: Seq<char>,
    q: Seq<char>,
    style: Style,
    mark: Style,
    at: int,
    done: int,
)
    requires
        src.len() == low.len(),
        forall|k: int| 0 <= k < src.len() ==> 0 <= #[trigger] src[k] < text.len(),
        0 <= at <= low.len(),
        0 <= done <= text.len(),
    ensures
        joined(cut(text, src, low, q, style, mark, at, done)) == text.subrange(
            done,
            text.len() as int,
        ),
    decreases low.len() - at,
{
    let end = text.len() as int;
    if q.len() == 0 || at + q.len() > low.len() {
        lemma_joined_piece(text, done, end, style);
    } else if occurs_at(low, q, at) {
        let from = larger(src[at], done);
        let to = larger(src[at + q.len() - 1] + 1, from);
        let a = piece(text, done, from, style);
        let b = piece(text, from, to, mark);
        let tail = cut(text, src, low, q, style, mark, at + q.len(), to);
        lemma_joined_cut(text, src, low, q, style, mark, at + q.len(), to);
        lemma_joined_add(a + b, tail);
        lemma_joined_add(a, b);
        lemma_joined_piece(text, done, from, style);
        lemma_joined_piece(text, from, to, mark);
        assert(text.subrange(done, from) + text.subrange(from, to) + text.subrange(to, end)
            =~= text.subrange(done, end));
    } else {
        lemma_joined_cut(text, src, low, q, style, mark, at + 1, done);
    }
}

/// Marking matches loses nothing of the text and adds nothing to it.
pub proof fn law_highlighting_keeps_the_text(s: SpanModel, q: Seq<char>, mark: Style)
    ensures
        joined(marked(s, q, mark)) == s.content,
{
    let text = s.content;
    let src = sources(text, text.len() as int);
    if q.len() == 0 || src.len() != lower_text(text).len() {
        lemma_joined_push(Seq::empty(), s);
        assert(Seq::empty().push(s) =~= seq![s]);
        assert(Seq::<char>::empty() + text =~= text);
    } else {
        lemma_sources(text, text.len() as int);
        lemma_joined_cut(text, src, lower_text(text), q, s.style, mark, 0, 0);
        assert(text.subrange(0, text.len() as int) =~= text);
    }
}

proof fn lemma_sources_of_plain(text: Seq<char>, to: int)
    requires
        0 <= to <= text.len(),
        forall|i: int| 0 <= i < text.len() ==> lower_char(#[trigger] text[i]).len() == 1,
    ensures
        sources(text, to) == Seq::new(to as nat, |i: int| i),
    decreases to,
{
    if to > 0 {
        lemma_sources_of_plain(text, to - 1);
    }
    assert(sources(text, to) =~= Seq::new(to as nat, |i: int| i));
}

proof fn lemma_cut_skips(
    text: Seq<char>,
    src: Seq<int>,
    low: Seq<char>,
    q: Seq<char>,
    style: Style,
    mark: Style,
    from: int,
    at: int,
    done: int,
)
    requires
        0 <= from <= at,
        q.len() > 0,
        at + q.len() <= low.len(),
        forall|k: int| from <= k < at ==> !#[trigger] occurs_at(low, q, k),
    ensures
        cut(text, src, low, q, style, mark, from, done) == cut(
            text,
            src,
            low,
            q,
            style,
            mark,
            at,
            done,
        ),
    decreases at - from,
{
    if from < at {
        assert(!occurs_at(low, q, from));
        lemma_cut_skips(text, src, low, q, style, mark, from + 1, at, done);
    }
}

/// Where each character has one lower case, the first place at which the query stands in the
/// text is marked, and exactly as far as the query reaches; what comes in front of it keeps
/// its look.
pub proof fn law_the_first_match_is_marked(s: SpanModel, q: Seq<char>, mark: Style, at: int)
    requires
        forall|i: int|
            0 <= i < s.content.len() ==> lower_char(#[trigger] s.content[i]).len() == 1,
        lower_text(s.content).len() == s.content.len(),
        q.len() > 0,
        occurs_at(lower_text(s.content), q, at),
        forall|k: int| 0 <= k < at ==> !#[trigger] occurs_at(lower_text(s.content), q, k),
    ensures
        ({
            let spans = marked(s, q, mark);
            let hit = span(s.content.subrange(at, at + q.len()), mark);
            &&& at == 0 ==> spans[0] == hit
            &&& at > 0 ==> spans[0] == span(s.content.subrange(0, at), s.style) && spans[1] == hit
        }),
{
    let text = s.content;
    let low = lower_text(text);
    let src = sources(text, text.len() as int);
    lemma_sources_of_plain(text, text.len() as int);
    lemma_cut_skips(text, src, low, q, s.style, mark, 0, at, 0);
    assert(src[at] == at && src[at + q.len() - 1] == at + q.len() - 1);
    let rest = cut(text, src, low, q, s.style, mark, at + q.len(), at + q.len());
    assert(marked(s, q, mark) == piece(text, 0, at, s.style) + piece(
        text,
        at,
        at + q.len(),
        mark,
    ) + rest);
}

/// A text in which the query does not stand is left as it is, and so is every text without a
/// query.
pub proof fn law_without_a_match_nothing_is_marked(s: SpanModel, q: Seq<char>, mark: Style)
    requires
        q.len() == 0 || forall|k: int| !#[trigger] occurs_at(lower_text(s.content), q, k),
    ensures
        forall|i: int|
            0 <= i < marked(s, q, mark).len() ==> (#[trigger] marked(s, q, mark)[i]).style
                == s.style,
{
    let text = s.content;
    let low = lower_text(text);
    let src = sources(text, text.len() as int);
    if q.len() > 0 && src.len() == low.len() {
        if q.len() <= low.len() {
            let last = low.len() - q.len();
            lemma_cut_skips(text, src, low, q, s.style, mark, 0, last, 0);
            assert(!occurs_at(low, q, last));
            assert(cut(text, src, low, q, s.style, mark, last + 1, 0) == piece(
                text,
                0,
                text.len() as int,
                s.style,
            ));
        }
        assert(marked(s, q, mark) == piece(text, 0, text.len() as int, s.style));
    }
}

} // verus!
