//! The clipboard sequence for the terminal: base64 text between fixed marks.

use vstd::prelude::*;
use vstd::string::StringExecFns;
use vstd::utf8::encode_utf8;

verus! {

/// The base64 digit of `v`, for `v` below 64.
pub open spec fn digit(v: int) -> char {
    if v < 26 {
        (65 + v) as char
    } else if v < 52 {
        (71 + v) as char
    } else if v < 62 {
        (v - 4) as char
    } else if v == 62 {
        '+'
    } else {
        '/'
    }
}

/// The base64 form of `data`: three bytes give four digits; a rest of one or two bytes is
/// padded to four.
pub open spec fn base64_text(data: Seq<u8>) -> Seq<char>
    decreases data.len(),
{
    if data.len() == 0 {
        Seq::empty()
    } else if data.len() == 1 {
        seq![digit(data[0] as int / 4), digit(data[0] as int % 4 * 16), '=', '=']
    } else if data.len() == 2 {
        seq![
            digit(data[0] as int / 4),
            digit(data[0] as int % 4 * 16 + data[1] as int / 16),
            digit(data[1] as int % 16 * 4),
            '=',
        ]
    } else {
        seq![
            digit(data[0] as int / 4),
            digit(data[0] as int % 4 * 16 + data[1] as int / 16),
            digit(data[1] as int % 16 * 4 + data[2] as int / 64),
            digit(data[2] as int % 64),
        ] + base64_text(data.skip(3))
    }
}

fn push_digit(out: &mut String, v: u8)
    requires
        v < 64,
    ensures
        final(out)@ == old(out)@.push(digit(v as int)),
{
    if v < 26 {
        out.push((65u8 + v) as char);
    } else if v < 52 {
        out.push((71u8 + v) as char);
    } else if v < 62 {
        out.push((v - 4u8) as char);
    } else if v == 62 {
        out.push('+');
    } else {
        out.push('/');
    }
}

/// The base64 form of `data`.
pub fn base64(data: &[u8]) -> (r: String)
    ensures
        r@ == base64_text(data@),
{
    let mut out: String = String::new();
    let mut i: usize = 0;
    assert(data@.skip(0) =~= data@);
    while data.len() - i >= 3
        invariant
            i <= data@.len(),
            out@ + base64_text(data@.skip(i as int)) == base64_text(data@),
        decreases data@.len() - i,
    {
        let a: u8 = data[i];
        let b: u8 = data[i + 1];
        let c: u8 = data[i + 2];
        let ghost before = out@;
        push_digit(&mut out, a / 4);
        push_digit(&mut out, a % 4 * 16 + b / 16);
        push_digit(&mut out, b % 16 * 4 + c / 64);
        push_digit(&mut out, c % 64);
        proof {
            let rest = data@.skip(i as int);
            assert(rest.skip(3) =~= data@.skip(i + 3));
            assert(out@ + base64_text(data@.skip(i + 3)) =~= before + base64_text(rest));
        }
        i += 3;
    }
    let ghost rest = data@.skip(i as int);
    let ghost before = out@;
    if data.len() - i == 1 {
        let a: u8 = data[i];
        push_digit(&mut out, a / 4);
        push_digit(&mut out, a % 4 * 16);
        out.push('=');
        out.push('=');
        assert(out@ =~= before + base64_text(rest));
    } else if data.len() - i == 2 {
        let a: u8 = data[i];
        let b: u8 = data[i + 1];
        push_digit(&mut out, a / 4);
        push_digit(&mut out, a % 4 * 16 + b / 16);
        push_digit(&mut out, b % 16 * 4);
        out.push('=');
        assert(out@ =~= before + base64_text(rest));
    } else {
        assert(out@ =~= before + base64_text(rest));
    }
    out
}

/// The escape sequence that hands `text` to the terminal's clipboard.
pub open spec fn osc52_text(text: Seq<char>) -> Seq<char> {
    seq!['\x1b'] + "]52;c;"@ + base64_text(encode_utf8(text)) + seq!['\x07']
}

/// The escape sequence that hands `text` to the terminal's clipboard.
pub fn osc52_sequence(text: &str) -> (r: String)
    ensures
        r@ == osc52_text(text@),
{
    let mut out: String = String::new();
    out.push('\x1b');
    out.append("]52;c;");
    let body: String = base64(text.as_bytes());
    out.append(body.as_str());
    out.push('\x07');
    assert(out@ =~= osc52_text(text@));
    out
}

/// The value of a base64 digit.
pub open spec fn digit_value(c: char) -> int {
    let v = c as int;
    if 65 <= v <= 90 {
        v - 65
    } else if 97 <= v <= 122 {
        v - 71
    } else if 48 <= v <= 57 {
        v + 4
    } else if c == '+' {
        62
    } else {
        63
    }
}

/// The bytes that base64 text stands for.
pub open spec fn base64_bytes(text: Seq<char>) -> Seq<u8>
    decreases text.len(),
{
    if text.len() < 4 {
        Seq::empty()
    } else {
        let v0 = digit_value(text[0]);
        let v1 = digit_value(text[1]);
        let v2 = digit_value(text[2]);
        let v3 = digit_value(text[3]);
        let b0 = (v0 * 4 + v1 / 16) as u8;
        let b1 = (v1 % 16 * 16 + v2 / 4) as u8;
        let b2 = (v2 % 4 * 64 + v3) as u8;
        let group = if text[2] == '=' {
            seq![b0]
        } else if text[3] == '=' {
            seq![b0, b1]
        } else {
            seq![b0, b1, b2]
        };
        group + base64_bytes(text.skip(4))
    }
}

proof fn lemma_digit_value(v: int)
    requires
        0 <= v < 64,
    ensures
        digit_value(digit(v)) == v,
        digit(v) != '=',
{
}

/// What is copied can be read back: the base64 form stands for the bytes it was made from.
pub proof fn law_base64_reads_back(data: Seq<u8>)
    ensures
        base64_bytes(base64_text(data)) == data,
    decreases data.len(),
{
    let text = base64_text(data);
    if data.len() == 0 {
        assert(base64_bytes(text) =~= data);
    } else {
        let a = data[0] as int;
        lemma_digit_value(a / 4);
        if data.len() == 1 {
            lemma_digit_value(a % 4 * 16);
            assert(text.skip(4) =~= Seq::empty());
            assert(base64_bytes(text.skip(4)) =~= Seq::empty());
            assert((a / 4 * 4 + a % 4 * 16 / 16) as u8 == data[0]);
            assert(base64_bytes(text) =~= data);
        } else {
            let b = data[1] as int;
            lemma_digit_value(a % 4 * 16 + b / 16);
            if data.len() == 2 {
                lemma_digit_value(b % 16 * 4);
                assert(text.skip(4) =~= Seq::empty());
                assert(base64_bytes(text.skip(4)) =~= Seq::empty());
                assert((a / 4 * 4 + (a % 4 * 16 + b / 16) / 16) as u8 == data[0]);
                assert(((a % 4 * 16 + b / 16) % 16 * 16 + b % 16 * 4 / 4) as u8 == data[1]);
                assert(base64_bytes(text) =~= data);
            } else {
                let c = data[2] as int;
                lemma_digit_value(b % 16 * 4 + c / 64);
                lemma_digit_value(c % 64);
                law_base64_reads_back(data.skip(3));
                assert(text.skip(4) =~= base64_text(data.skip(3)));
                assert(base64_bytes(text) =~= data);
            }
        }
    }
}

/// The base64 form is made of groups of four characters.
pub proof fn law_base64_length(data: Seq<u8>)
    ensures
        base64_text(data).len() == (data.len() + 2) / 3 * 4,
    decreases data.len(),
{
    if data.len() >= 3 {
        law_base64_length(data.skip(3));
    }
}

/// The digits of the encoding are the capital letters, the small letters, the figures, plus
/// and slash, in this order.
pub proof fn law_digits_are_in_order(v: int)
    requires
        0 <= v < 64,
    ensures
        digit(v) == "ABCDEFGHIJKLMNOPQRSTUVWXYZabcdefghijklmnopqrstuvwxyz0123456789+/"@[v],
{
    reveal_strlit("ABCDEFGHIJKLMNOPQRSTUVWXYZabcdefghijklmnopqrstuvwxyz0123456789+/");
}

/// Three bytes become four digits that spell the same number, the highest first. One byte at
/// the end becomes two digits and two signs of equality, two bytes three digits and one.
pub proof fn law_three_bytes_are_four_digits(a: u8, b: u8, c: u8, rest: Seq<u8>)
    ensures
        exists|v: Seq<int>| #[trigger]
            v.len() == 4 && (forall|i: int| 0 <= i < 4 ==> 0 <= #[trigger] v[i] < 64) && v[0]
                * 262144 + v[1] * 4096 + v[2] * 64 + v[3] == a * 65536 + b * 256 + c
                && base64_text(seq![a, b, c] + rest) == seq![
                digit(v[0]),
                digit(v[1]),
                digit(v[2]),
                digit(v[3]),
            ] + base64_text(rest),
        exists|v: Seq<int>| #[trigger]
            v.len() == 3 && (forall|i: int| 0 <= i < 3 ==> 0 <= #[trigger] v[i] < 64) && v[0] * 4096
                + v[1] * 64 + v[2] == (a * 256 + b) * 4 && base64_text(seq![a, b]) == seq![
                digit(v[0]),
                digit(v[1]),
                digit(v[2]),
                '=',
            ],
        exists|v: Seq<int>| #[trigger]
            v.len() == 2 && (forall|i: int| 0 <= i < 2 ==> 0 <= #[trigger] v[i] < 64) && v[0] * 64
                + v[1] == a * 16 && base64_text(seq![a]) == seq![digit(v[0]), digit(v[1]), '=', '='],
{
    let three = seq![a, b, c] + rest;
    let v3 = seq![
        a as int / 4,
        a as int % 4 * 16 + b as int / 16,
        b as int % 16 * 4 + c as int / 64,
        c as int % 64,
    ];
    assert(three.skip(3) =~= rest);
    assert(v3.len() == 4);
    let v2 = seq![a as int / 4, a as int % 4 * 16 + b as int / 16, b as int % 16 * 4];
    assert(v2.len() == 3);
    let v1 = seq![a as int / 4, a as int % 4 * 16];
    assert(v1.len() == 2);
}

/// What is sent to the terminal is the code that sets its clipboard, around the encoded text.
pub proof fn law_the_clipboard_code_holds_the_text(text: Seq<char>)
    ensures
        ({
            let sent = osc52_text(text);
            let n = sent.len() as int;
            &&& n >= 8
            &&& sent.take(7) == seq!['\x1b', ']', '5', '2', ';', 'c', ';']
            &&& sent.last() == '\x07'
            &&& base64_bytes(sent.subrange(7, n - 1)) == encode_utf8(text)
        }),
{
    reveal_strlit("]52;c;");
    let body = base64_text(encode_utf8(text));
    let sent = osc52_text(text);
    assert(sent.take(7) =~= seq!['\x1b', ']', '5', '2', ';', 'c', ';']);
    assert(sent.subrange(7, sent.len() - 1) =~= body);
    law_base64_reads_back(encode_utf8(text));
}

} // verus!
