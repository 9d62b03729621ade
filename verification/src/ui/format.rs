//! Fitting text into columns.

use crate::app::state::smaller;
use crate::text::{chars_of, decimal, push_chars, push_decimal};
use vstd::prelude::*;
use vstd::string::StringExecFns;
use vstd::utf8::encode_utf8;

verus! {

/// `n` times the character `c`.
pub open spec fn repeated(c: char, n: int) -> Seq<char> {
    Seq::new(
        if n < 0 {
            0
        } else {
            n as nat
        },
        |i: int| c,
    )
}

/// `s` with blanks behind it, so that it is at least `width` characters long.
pub open spec fn padded(s: Seq<char>, width: int) -> Seq<char> {
    s + repeated(' ', width - s.len())
}

/// `s` with blanks in front of it, so that it is at least `width` characters long.
pub open spec fn right_aligned(s: Seq<char>, width: int) -> Seq<char> {
    repeated(' ', width - s.len()) + s
}

/// The first `max` characters of `s`.
pub open spec fn truncated(s: Seq<char>, max: int) -> Seq<char> {
    s.take(smaller(s.len() as int, max))
}

/// `s`, or nothing for a count of one.
pub open spec fn plural(n: int) -> Seq<char> {
    if n == 1 {
        ""@
    } else {
        "s"@
    }
}

/// Length of `s` in bytes.
pub open spec fn byte_len(s: Seq<char>) -> usize {
    encode_utf8(s).len() as usize
}

/// Appends `n` times the character `c` to `out`.
pub fn push_repeated(out: &mut String, c: char, n: usize)
    ensures
        final(out)@ == old(out)@ + repeated(c, n as int),
{
    let ghost before = out@;
    let mut i: usize = 0;
    assert(out@ =~= before + repeated(c, 0));
    while i < n
        invariant
            i <= n,
            out@ == before + repeated(c, i as int),
        decreases n - i,
    {
        out.push(c);
        i += 1;
        assert(out@ =~= before + repeated(c, i as int));
    }
}

/// Appends `s` to `out`, with blanks behind it to a width of `width` characters.
pub fn push_padded(out: &mut String, s: &str, width: usize)
    ensures
        final(out)@ == old(out)@ + padded(s@, width as int),
{
    let ghost before = out@;
    let chars: Vec<char> = chars_of(s);
    out.append(s);
    push_repeated(out, ' ', width.saturating_sub(chars.len()));
    assert(out@ =~= before + padded(s@, width as int));
}

/// `s` with blanks behind it to a width of `width` characters.
pub fn padded_text(s: &str, width: usize) -> (r: String)
    ensures
        r@ == padded(s@, width as int),
{
    let mut out: String = String::new();
    push_padded(&mut out, s, width);
    assert(out@ =~= padded(s@, width as int));
    out
}

/// The decimal form of `n`.
pub fn decimal_text(n: usize) -> (r: String)
    ensures
        r@ == decimal(n as nat),
{
    let mut out: String = String::new();
    push_decimal(&mut out, n as u64);
    assert(out@ =~= decimal(n as nat));
    out
}

/// Appends the decimal form of `n` to `out`, with blanks in front of it to a width of
/// `width` characters.
pub fn push_number(out: &mut String, n: usize, width: usize)
    ensures
        final(out)@ == old(out)@ + right_aligned(decimal(n as nat), width as int),
{
    let ghost before = out@;
    let digits: String = decimal_text(n);
    let count: usize = chars_of(digits.as_str()).len();
    push_repeated(out, ' ', width.saturating_sub(count));
    out.append(digits.as_str());
    assert(out@ =~= before + right_aligned(decimal(n as nat), width as int));
}

/// Appends `s` to `out` for every count but one.
pub fn push_plural(out: &mut String, n: usize)
    ensures
        final(out)@ == old(out)@ + plural(n as int),
{
    let ghost before = out@;
    if n == 1 {
        out.append("");
    } else {
        out.append("s");
    }
}

/// The first `max_chars` characters of `s`.
pub fn truncate_chars(s: &str, max_chars: usize) -> (r: String)
    ensures
        r@ == truncated(s@, max_chars as int),
{
    let chars: Vec<char> = chars_of(s);
    let mut out: String = String::new();
    let end: usize = if chars.len() <= max_chars {
        chars.len()
    } else {
        max_chars
    };
    push_chars(&mut out, &chars, 0, end);
    assert(out@ =~= truncated(s@, max_chars as int));
    out
}

/// A text that is padded keeps all its characters at the left and gets blanks up to the width;
/// one that is set to the right gets them in front. A longer text stays as it is.
pub proof fn law_padding_adds_blanks_only(s: Seq<char>, width: int, i: int)
    requires
        0 <= width,
    ensures
        padded(s, width).len() == vstd::math::max(s.len() as int, width),
        padded(s, width).take(s.len() as int) == s,
        s.len() <= i < width ==> padded(s, width)[i] == ' ',
        right_aligned(s, width).len() == vstd::math::max(s.len() as int, width),
        right_aligned(s, width).skip(right_aligned(s, width).len() - s.len()) == s,
        0 <= i < width - s.len() ==> right_aligned(s, width)[i] == ' ',
{
    assert(padded(s, width).take(s.len() as int) =~= s);
    assert(right_aligned(s, width).skip(right_aligned(s, width).len() - s.len()) =~= s);
}

/// A text that is cut keeps its first characters, as many as fit; one that fits stays whole.
pub proof fn law_cutting_keeps_the_beginning(s: Seq<char>, max: int)
    requires
        0 <= max,
    ensures
        truncated(s, max).len() == vstd::math::min(s.len() as int, max),
        truncated(s, max) == s.take(truncated(s, max).len() as int),
        s.len() <= max ==> truncated(s, max) == s,
{
    if s.len() <= max {
        assert(truncated(s, max) =~= s);
    }
}

/// One is in the singular, and every other number in the plural.
pub proof fn law_one_is_singular(n: int)
    ensures
        plural(1).len() == 0,
        n != 1 ==> plural(n) == seq!['s'],
{
    reveal_strlit("");
    reveal_strlit("s");
    assert("s"@ =~= seq!['s']);
}

} // verus!
