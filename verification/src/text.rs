//! Texts: their lines, their order, their case and their ends.

use vstd::prelude::*;

verus! {

/// `String::push` appends one character.
pub assume_specification[ String::push ](s: &mut String, c: char)
    ensures
        final(s)@ == old(s)@.push(c),
;

/// `String::pop` removes the last character and returns it.
pub assume_specification[ String::pop ](s: &mut String) -> (c: Option<char>)
    ensures
        old(s)@.len() == 0 ==> c is None && final(s)@ == old(s)@,
        old(s)@.len() > 0 ==> c == Some(old(s)@.last()) && final(s)@ == old(s)@.drop_last(),
;

/// `String::clear` removes every character.
pub assume_specification[ String::clear ](s: &mut String)
    ensures
        final(s)@ == Seq::<char>::empty(),
;

/// The decimal digit `d`, for `d` below ten.
pub open spec fn digit_char(d: nat) -> char {
    (48 + d) as char
}

/// The decimal form of `n`.
pub open spec fn decimal(n: nat) -> Seq<char>
    decreases n,
{
    if n < 10 {
        seq![digit_char(n)]
    } else {
        decimal(n / 10).push(digit_char(n % 10))
    }
}

/// The characters of `s`.
pub fn chars_of(s: &str) -> (r: Vec<char>)
    ensures
        r@ == s@,
{
    let mut out: Vec<char> = Vec::new();
    for c in it: s.chars()
        invariant
            it.seq() == s@,
            out@ == s@.take(it.index() as int),
    {
        proof {
            assert(s@.take(it.index() + 1) == s@.take(it.index() as int).push(s@[it.index() as int]));
        }
        out.push(c);
    }
    proof {
        assert(s@.take(s@.len() as int) == s@);
    }
    out
}

/// Appends the characters `chars[from..to]` to `out`.
pub fn push_chars(out: &mut String, chars: &Vec<char>, from: usize, to: usize)
    requires
        from <= to <= chars@.len(),
    ensures
        final(out)@ == old(out)@ + chars@.subrange(from as int, to as int),
{
    let mut i: usize = from;
    while i < to
        invariant
            from <= i <= to <= chars@.len(),
            out@ == old(out)@ + chars@.subrange(from as int, i as int),
        decreases to - i,
    {
        proof {
            assert(chars@.subrange(from as int, i + 1) == chars@.subrange(
                from as int,
                i as int,
            ).push(chars@[i as int]));
        }
        out.push(chars[i]);
        i += 1;
    }
}

/// Appends the decimal form of `n` to `out`.
pub fn push_decimal(out: &mut String, n: u64)
    ensures
        final(out)@ == old(out)@ + decimal(n as nat),
    decreases n,
{
    if n >= 10 {
        push_decimal(out, n / 10);
    }
    let d: u8 = (n % 10) as u8;
    out.push((48u8 + d) as char);
}

/// The index of the first `x` in `s` at or after `from`; `s.len()` if there is none.
pub open spec fn first_from<T>(s: Seq<T>, x: T, from: nat) -> nat
    decreases s.len() - from,
{
    if from >= s.len() {
        s.len()
    } else if s[from as int] == x {
        from
    } else {
        first_from(s, x, from + 1)
    }
}

/// The index of the first `x` in `s`; `s.len()` if there is none.
pub open spec fn first_of<T>(s: Seq<T>, x: T) -> nat {
    first_from(s, x, 0)
}

pub proof fn lemma_first_from<T>(s: Seq<T>, x: T, from: nat)
    requires
        from <= s.len(),
    ensures
        from <= first_from(s, x, from) <= s.len(),
        first_from(s, x, from) < s.len() ==> s[first_from(s, x, from) as int] == x,
        forall|j: int| from <= j < first_from(s, x, from) ==> s[j] != x,
    decreases s.len() - from,
{
    if from < s.len() && s[from as int] != x {
        lemma_first_from(s, x, from + 1);
    }
}

/// `first_of` in `s.skip(from)`, found by a scan of `s` from `from`.
pub proof fn lemma_first_of_skip<T>(s: Seq<T>, x: T, from: nat, at: nat)
    requires
        from <= at <= s.len(),
        at < s.len() ==> s[at as int] == x,
        forall|j: int| from <= j < at ==> s[j] != x,
    ensures
        first_of(s.skip(from as int), x) == at - from,
{
    let t = s.skip(from as int);
    lemma_first_from(t, x, 0);
    let k = first_of(t, x);
    if k < at - from {
        assert(t[k as int] == s[(from + k) as int]);
    } else if at < s.len() {
        assert(t[(at - from) as int] == x);
    }
}

/// `line` without the carriage return at its end, if it has one.
pub open spec fn strip_cr(line: Seq<char>) -> Seq<char> {
    if line.len() > 0 && line.last() == '\r' {
        line.drop_last()
    } else {
        line
    }
}

/// The lines of `s`: it ends a line at each line feed, with the carriage return before it;
/// what follows the last line feed is a line too, unless it is empty.
pub open spec fn text_lines(s: Seq<char>) -> Seq<Seq<char>>
    decreases s.len(),
{
    if s.len() == 0 {
        Seq::empty()
    } else if first_of(s, '\n') < s.len() {
        seq![strip_cr(s.take(first_of(s, '\n') as int))] + text_lines(
            s.skip((first_of(s, '\n') + 1) as int),
        )
    } else {
        seq![s]
    }
}

/// The lines of `s`.
pub fn split_lines(s: &str) -> (r: Vec<String>)
    ensures
        r.deep_view() == text_lines(s@),
{
    let chars: Vec<char> = chars_of(s);
    let mut out: Vec<String> = Vec::new();
    let mut start: usize = 0;
    assert(chars@.skip(0) == chars@);
    assert(out.deep_view() =~= Seq::empty());
    while start < chars.len()
        invariant
            chars@ == s@,
            start <= chars@.len(),
            out.deep_view() + text_lines(chars@.skip(start as int)) == text_lines(s@),
        decreases chars@.len() - start,
    {
        let ghost rest = chars@.skip(start as int);
        let mut end: usize = start;
        while end < chars.len() && chars[end] != '\n'
            invariant
                start <= end <= chars@.len(),
                forall|j: int| start <= j < end ==> chars@[j] != '\n',
            decreases chars@.len() - end,
        {
            end += 1;
        }
        proof {
            lemma_first_of_skip(chars@, '\n', start as nat, end as nat);
        }
        let mut stop: usize = end;
        if end < chars.len() && stop > start && chars[stop - 1] == '\r' {
            stop -= 1;
        }
        let mut line: String = String::new();
        push_chars(&mut line, &chars, start, stop);
        let ghost done = out.deep_view();
        out.push(line);
        proof {
            assert(out.deep_view() =~= done.push(line@));
            if end < chars@.len() {
                assert(rest.take(end - start) == chars@.subrange(start as int, end as int));
                assert(line@ == strip_cr(rest.take(end - start)));
                assert(rest.skip(end - start + 1) == chars@.skip(end + 1));
                assert(done.push(line@) + text_lines(chars@.skip(end + 1)) =~= done
                    + text_lines(rest));
            } else {
                assert(line@ =~= rest);
                assert(chars@.skip(end as int) =~= Seq::empty());
                assert(done.push(line@) + text_lines(chars@.skip(end as int)) =~= done
                    + text_lines(rest));
            }
        }
        start = if end < chars.len() {
            end + 1
        } else {
            end
        };
    }
    assert(chars@.skip(start as int) =~= Seq::empty());
    out
}

/// Whether two texts are the same.
pub fn same_text(a: &str, b: &str) -> (r: bool)
    ensures
        r == (a@ == b@),
{
    let x: Vec<char> = chars_of(a);
    let y: Vec<char> = chars_of(b);
    if x.len() != y.len() {
        return false;
    }
    let mut i: usize = 0;
    while i < x.len()
        invariant
            i <= x@.len() == y@.len(),
            x@ == a@,
            y@ == b@,
            forall|j: int| 0 <= j < i ==> x@[j] == y@[j],
        decreases x@.len() - i,
    {
        if x[i] != y[i] {
            return false;
        }
        i += 1;
    }
    assert(x@ =~= y@);
    true
}

/// Whether `a` comes before `b`, character by character; a text comes before its extensions.
/// This is also the order of their UTF-8 bytes.
pub open spec fn text_before(a: Seq<char>, b: Seq<char>) -> bool
    decreases a.len(),
{
    if b.len() == 0 {
        false
    } else if a.len() == 0 {
        true
    } else {
        (a[0] as int) < (b[0] as int) || (a[0] == b[0] && text_before(a.drop_first(), b.drop_first()))
    }
}

pub proof fn lemma_text_before_irreflexive(a: Seq<char>)
    ensures
        !text_before(a, a),
    decreases a.len(),
{
    if a.len() > 0 {
        lemma_text_before_irreflexive(a.drop_first());
    }
}

pub proof fn lemma_text_before_total(a: Seq<char>, b: Seq<char>)
    ensures
        text_before(a, b) || text_before(b, a) || a == b,
    decreases a.len(),
{
    if a.len() > 0 && b.len() > 0 {
        lemma_text_before_total(a.drop_first(), b.drop_first());
        if a[0] == b[0] && a.drop_first() == b.drop_first() {
            assert(a =~= seq![a[0]] + a.drop_first());
            assert(b =~= seq![b[0]] + b.drop_first());
        }
    } else if a.len() == 0 && b.len() == 0 {
        assert(a =~= b);
    }
}

pub proof fn lemma_text_before_transitive(a: Seq<char>, b: Seq<char>, c: Seq<char>)
    requires
        text_before(a, b),
        text_before(b, c),
    ensures
        text_before(a, c),
    decreases a.len(),
{
    if a.len() > 0 && b.len() > 0 && c.len() > 0 && a[0] == b[0] && b[0] == c[0] {
        lemma_text_before_transitive(a.drop_first(), b.drop_first(), c.drop_first());
    }
}

fn char_before(a: char, b: char) -> (r: bool)
    ensures
        r == ((a as int) < (b as int)),
{
    (a as u32) < (b as u32)
}

/// Whether `a` comes before `b`.
pub fn comes_before(a: &str, b: &str) -> (r: bool)
    ensures
        r == text_before(a@, b@),
{
    let x: Vec<char> = chars_of(a);
    let y: Vec<char> = chars_of(b);
    let mut i: usize = 0;
    assert(x@.skip(0) =~= x@);
    assert(y@.skip(0) =~= y@);
    while i < x.len() && i < y.len() && x[i] == y[i]
        invariant
            i <= x@.len(),
            i <= y@.len(),
            x@ == a@,
            y@ == b@,
            text_before(a@, b@) == text_before(x@.skip(i as int), y@.skip(i as int)),
        decreases x@.len() - i,
    {
        assert(x@.skip(i as int).drop_first() =~= x@.skip(i + 1));
        assert(y@.skip(i as int).drop_first() =~= y@.skip(i + 1));
        i += 1;
    }
    if i == y.len() {
        false
    } else if i == x.len() {
        true
    } else {
        char_before(x[i], y[i])
    }
}

/// Whether `c` has the Unicode property White_Space.
pub uninterp spec fn is_white(c: char) -> bool;

/// `char::is_whitespace`: the Unicode property White_Space. Of the ASCII characters these
/// are the space and the five controls from tab to carriage return.
pub assume_specification[ char::is_whitespace ](c: char) -> (r: bool)
    ensures
        r == is_white(c),
        (c as u32) < 128 ==> r == (c == ' ' || 9 <= (c as u32) <= 13),
;

/// Whether every character of `s` is white space.
pub open spec fn all_white(s: Seq<char>) -> bool {
    forall|i: int| 0 <= i < s.len() ==> is_white(#[trigger] s[i])
}

/// Whether nothing is left of `s` once it is trimmed.
pub fn is_blank(s: &str) -> (r: bool)
    ensures
        r == all_white(s@),
{
    let chars: Vec<char> = chars_of(s);
    let mut i: usize = 0;
    while i < chars.len()
        invariant
            i <= chars@.len(),
            chars@ == s@,
            forall|j: int| 0 <= j < i ==> is_white(#[trigger] chars@[j]),
        decreases chars@.len() - i,
    {
        if !chars[i].is_whitespace() {
            return false;
        }
        i += 1;
    }
    true
}

/// `s` without the white space at its end.
pub open spec fn trim_white_end(s: Seq<char>) -> Seq<char>
    decreases s.len(),
{
    if s.len() > 0 && is_white(s.last()) {
        trim_white_end(s.drop_last())
    } else {
        s
    }
}

/// `s` without the white space at its end.
pub fn trim_end_white(s: &str) -> (r: String)
    ensures
        r@ == trim_white_end(s@),
{
    let chars: Vec<char> = chars_of(s);
    let mut end: usize = chars.len();
    assert(chars@.take(end as int) =~= chars@);
    while end > 0 && chars[end - 1].is_whitespace()
        invariant
            end <= chars@.len(),
            chars@ == s@,
            trim_white_end(chars@.take(end as int)) == trim_white_end(s@),
        decreases end,
    {
        assert(chars@.take(end as int).drop_last() =~= chars@.take(end - 1));
        end -= 1;
    }
    let mut out: String = String::new();
    push_chars(&mut out, &chars, 0, end);
    assert(out@ =~= chars@.take(end as int));
    out
}

/// Whether `s` starts with `prefix`.
pub open spec fn has_prefix(s: Seq<char>, prefix: Seq<char>) -> bool {
    s.len() >= prefix.len() && s.take(prefix.len() as int) == prefix
}

/// What follows `prefix` in `s`, if `s` starts with it.
pub fn strip_prefix_of(s: &str, prefix: &str) -> (r: Option<String>)
    ensures
        match r {
            Some(rest) => has_prefix(s@, prefix@) && rest@ == s@.skip(prefix@.len() as int),
            None => !has_prefix(s@, prefix@),
        },
{
    let x: Vec<char> = chars_of(s);
    let p: Vec<char> = chars_of(prefix);
    if x.len() < p.len() {
        return None;
    }
    let mut i: usize = 0;
    while i < p.len()
        invariant
            i <= p@.len() <= x@.len(),
            x@ == s@,
            p@ == prefix@,
            forall|j: int| 0 <= j < i ==> x@[j] == p@[j],
        decreases p@.len() - i,
    {
        if x[i] != p[i] {
            assert(s@.take(prefix@.len() as int)[i as int] != prefix@[i as int]);
            return None;
        }
        i += 1;
    }
    assert(s@.take(prefix@.len() as int) =~= prefix@);
    let mut out: String = String::new();
    push_chars(&mut out, &x, p.len(), x.len());
    assert(out@ =~= s@.skip(prefix@.len() as int));
    Some(out)
}

/// What `str::to_lowercase` makes of `s`.
pub uninterp spec fn lower_text(s: Seq<char>) -> Seq<char>;

/// `str::to_lowercase`: the lowercase equivalent of the text, by Unicode.
pub assume_specification[ str::to_lowercase ](s: &str) -> (r: String)
    ensures
        r@ == lower_text(s@),
;

/// What `char::to_lowercase` makes of `c`.
pub uninterp spec fn lower_char(c: char) -> Seq<char>;

/// `char::to_lowercase`: the lowercase mapping of one character, as one or more characters.
#[verifier::external_body]
pub(crate) fn char_lower(c: char) -> (r: String)
    ensures
        r@ == lower_char(c),
{
    c.to_lowercase().collect()
}

/// What `CompactString::to_lowercase` of the `compact_str` crate makes of `s`.
pub uninterp spec fn compact_lower(s: Seq<char>) -> Seq<char>;

/// `compact_str::CompactString::to_lowercase`: the lowercase equivalent of the text, by
/// Unicode. At the end of a word it may map a capital sigma otherwise than `str` does.
#[verifier::external_body]
pub(crate) fn compact_lowercase(s: &str) -> (r: String)
    ensures
        r@ == compact_lower(s@),
{
    compact_str::CompactString::from(s).to_lowercase().into_string()
}

/// `s` is a number in decimal digits.
pub open spec fn is_digits(s: Seq<char>) -> bool {
    s.len() > 0 && forall|i: int| 0 <= i < s.len() ==> 48 <= #[trigger] s[i] as u32 <= 57
}

/// The number that the digits `s` spell.
pub open spec fn number_in(s: Seq<char>) -> nat
    decreases s.len(),
{
    if s.len() == 0 {
        0
    } else {
        (number_in(s.drop_last()) * 10 + (s.last() as u32 - 48)) as nat
    }
}

/// The decimal form of a number consists of digits, spells that number, and has no zero in
/// front.
pub proof fn law_decimals_read_back(n: nat)
    ensures
        is_digits(decimal(n)),
        number_in(decimal(n)) == n,
        decimal(n).len() > 1 ==> decimal(n)[0] != '0',
    decreases n,
{
    reveal_with_fuel(number_in, 2);
    if n >= 10 {
        law_decimals_read_back(n / 10);
        let more = decimal(n / 10);
        assert(more.push(digit_char(n % 10)).drop_last() =~= more);
        if n / 10 < 10 {
            assert(more[0] != '0');
        }
    }
}

/// The lines of a text: a part without a line feed is one line, a line feed ends it, with the
/// carriage return in front of it, and what follows a line feed is read on its own.
pub proof fn law_lines_end_at_line_feeds(a: Seq<char>, b: Seq<char>)
    requires
        !a.contains('\n'),
    ensures
        a.len() > 0 ==> text_lines(a) == seq![a],
        text_lines(Seq::empty()) == Seq::<Seq<char>>::empty(),
        a.len() == 0 || a.last() != '\r' ==> text_lines(a.push('\n') + b) == seq![a] + text_lines(b),
        text_lines(a.push('\r').push('\n') + b) == seq![a] + text_lines(b),
{
    lemma_first_from(a, '\n', 0);
    let plain = a.push('\n') + b;
    lemma_first_of_at(plain, '\n', a.len());
    assert(plain.take(a.len() as int) =~= a);
    assert(plain.skip(a.len() as int + 1) =~= b);
    let both = a.push('\r').push('\n') + b;
    lemma_first_of_at(both, '\n', a.len() + 1);
    assert(both.take(a.len() as int + 1) =~= a.push('\r'));
    assert(both.skip(a.len() as int + 2) =~= b);
    assert(a.push('\r').drop_last() =~= a);
}

/// The first `x` in `s` stands where there is one and none in front of it.
pub proof fn lemma_first_of_at<T>(s: Seq<T>, x: T, at: nat)
    requires
        at < s.len(),
        s[at as int] == x,
        forall|j: int| 0 <= j < at ==> s[j] != x,
    ensures
        first_of(s, x) == at,
{
    assert(s.skip(0) =~= s);
    lemma_first_of_skip(s, x, 0, at);
}

/// Texts are ordered by the first character in which they differ, and a text comes before
/// what it begins.
pub proof fn law_texts_are_ordered_by_their_first_difference(
    common: Seq<char>,
    a: Seq<char>,
    b: Seq<char>,
)
    ensures
        a.len() > 0 && b.len() > 0 && a[0] != b[0] ==> (text_before(common + a, common + b) <==> (
        a[0] as int) < (b[0] as int)),
        b.len() > 0 ==> text_before(common, common + b) && !text_before(common + b, common),
    decreases common.len(),
{
    if common.len() > 0 {
        let rest = common.drop_first();
        law_texts_are_ordered_by_their_first_difference(rest, a, b);
        assert((common + a).drop_first() =~= rest + a);
        assert((common + b).drop_first() =~= rest + b);
    } else {
        assert(common + a =~= a);
        assert(common + b =~= b);
    }
}

/// Trimming cuts off the white space at the end, all of it, and nothing else.
pub proof fn law_trimming_cuts_white_space_at_the_end(s: Seq<char>)
    ensures
        ({
            let kept = trim_white_end(s).len() as int;
            &&& 0 <= kept <= s.len()
            &&& trim_white_end(s) == s.take(kept)
            &&& all_white(s.skip(kept))
            &&& kept > 0 ==> !is_white(s[kept - 1])
        }),
    decreases s.len(),
{
    let kept = trim_white_end(s).len() as int;
    if s.len() > 0 && is_white(s.last()) {
        let less = s.drop_last();
        law_trimming_cuts_white_space_at_the_end(less);
        assert(s.take(kept) =~= less.take(kept));
        assert forall|i: int| 0 <= i < s.skip(kept).len() implies is_white(
            #[trigger] s.skip(kept)[i],
        ) by {
            if i < less.skip(kept).len() {
                assert(is_white(less.skip(kept)[i]));
            }
        }
    } else {
        assert(s.take(kept) =~= s);
    }
}

/// A text starts with a prefix if and only if it is the prefix and something behind it.
pub proof fn law_a_prefix_is_followed_by_the_rest(s: Seq<char>, prefix: Seq<char>)
    ensures
        has_prefix(s, prefix) <==> exists|rest: Seq<char>| s == #[trigger] (prefix + rest),
        has_prefix(s, prefix) ==> s == prefix + s.skip(prefix.len() as int),
{
    if has_prefix(s, prefix) {
        assert(s =~= prefix + s.skip(prefix.len() as int));
    }
    if exists|rest: Seq<char>| s == #[trigger] (prefix + rest) {
        let rest = choose|rest: Seq<char>| s == #[trigger] (prefix + rest);
        assert(s.take(prefix.len() as int) =~= prefix);
    }
}

} // verus!
