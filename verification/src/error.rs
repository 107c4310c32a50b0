//! What a refused input is answered.
use crate::text::decode_strict;
use vstd::prelude::*;
use vstd::utf8::{decode_utf8, valid_utf8};

verus! {

/// A rule of the format that the input breaks: the words of the message, with
/// the numbers and codes that it names between them.
#[derive(Clone, Copy, Debug, PartialEq, Eq)]
pub enum Error {
    /// A rule with nothing to quote.
    Rule(&'static str),
    /// A rule and one number.
    Number(&'static str, i128, &'static str),
    /// A rule and two numbers.
    Numbers(&'static str, i128, &'static str, i128, &'static str),
    /// A rule and three numbers.
    Triple(&'static str, i128, &'static str, i128, &'static str, i128, &'static str),
    /// A rule and a number in hexadecimal.
    Hex(&'static str, u32, &'static str),
    /// A rule, a number and two names.
    Names(&'static str, i128, &'static str, Name, &'static str, Name, &'static str),
    /// A rule and a four-byte code, with what stands for a code that is not UTF-8.
    Code(&'static str, [u8; 4], &'static str, &'static str),
    /// A rule, a four-byte code with what stands for one that is not UTF-8, and two
    /// numbers.
    CodeNumbers(
        &'static str,
        [u8; 4],
        &'static str,
        &'static str,
        i128,
        &'static str,
        i128,
        &'static str,
    ),
}

/// A name in a message.
#[derive(Clone, Copy, Debug, PartialEq, Eq)]
pub enum Name {
    /// A word.
    Word(&'static str),
    /// Words with a number between them.
    Numbered(&'static str, i128, &'static str),
}

/// The decimal digit `d`.
pub open spec fn digit(d: int) -> Seq<char> {
    if d == 0 {
        "0"@
    } else if d == 1 {
        "1"@
    } else if d == 2 {
        "2"@
    } else if d == 3 {
        "3"@
    } else if d == 4 {
        "4"@
    } else if d == 5 {
        "5"@
    } else if d == 6 {
        "6"@
    } else if d == 7 {
        "7"@
    } else if d == 8 {
        "8"@
    } else {
        "9"@
    }
}

/// `n` in decimal digits.
pub open spec fn digits(n: nat) -> Seq<char>
    decreases n,
{
    if n < 10 {
        digit(n as int)
    } else {
        digits(n / 10) + digit((n % 10) as int)
    }
}

/// `n` in decimal, with a sign where it is negative.
pub open spec fn decimal(n: int) -> Seq<char> {
    if n < 0 {
        "-"@ + digits((-n) as nat)
    } else {
        digits(n as nat)
    }
}

/// The hexadecimal digit `d`.
pub open spec fn hex_digit(d: int) -> Seq<char> {
    if d < 10 {
        digit(d)
    } else if d == 10 {
        "a"@
    } else if d == 11 {
        "b"@
    } else if d == 12 {
        "c"@
    } else if d == 13 {
        "d"@
    } else if d == 14 {
        "e"@
    } else {
        "f"@
    }
}

/// The last `k` hexadecimal digits of `n`.
pub open spec fn hex_digits(n: nat, k: nat) -> Seq<char>
    decreases k,
{
    if k == 0 {
        Seq::empty()
    } else {
        hex_digits(n / 16, (k - 1) as nat) + hex_digit((n % 16) as int)
    }
}

/// How many hexadecimal digits `n` is written with: as many as it needs, and at
/// least four.
pub open spec fn hex_width(n: u32) -> nat {
    if n < 0x1_0000 {
        4
    } else if n < 0x10_0000 {
        5
    } else if n < 0x100_0000 {
        6
    } else if n < 0x1000_0000 {
        7
    } else {
        8
    }
}

/// `n` in hexadecimal.
pub open spec fn hexadecimal(n: u32) -> Seq<char> {
    "0x"@ + hex_digits(n as nat, hex_width(n))
}

/// A name in words.
pub open spec fn name_text(n: Name) -> Seq<char> {
    match n {
        Name::Word(w) => w@,
        Name::Numbered(a, k, b) => a@ + decimal(k as int) + b@,
    }
}

/// A text as `{:?}` shows it: in quotation marks, with escapes.
pub uninterp spec fn quoted_text(s: Seq<char>) -> Seq<char>;

/// `format!` with `{:?}` on a text, which is the `Debug` of `str`. The result is a
/// function of the text alone. Which characters are escaped, and how, is not stated.
#[verifier::external_body]
fn quote(s: &str) -> (r: String)
    ensures
        r@ == quoted_text(s@),
{
    format!("{:?}", s)
}

fn append_digit(s: &mut String, d: u8)
    requires
        d < 10,
    ensures
        final(s)@ == old(s)@ + digit(d as int),
{
    let text = match d {
        0 => "0",
        1 => "1",
        2 => "2",
        3 => "3",
        4 => "4",
        5 => "5",
        6 => "6",
        7 => "7",
        8 => "8",
        _ => "9",
    };
    s.append(text);
}

fn append_digits(s: &mut String, n: u128)
    ensures
        final(s)@ == old(s)@ + digits(n as nat),
    decreases n,
{
    if n < 10 {
        append_digit(s, n as u8);
    } else {
        append_digits(s, n / 10);
        append_digit(s, (n % 10) as u8);
        assert(s@ =~= old(s)@ + digits(n as nat));
    }
}

fn append_decimal(s: &mut String, n: i128)
    ensures
        final(s)@ == old(s)@ + decimal(n as int),
{
    if n < 0 {
        s.append("-");
        let m: u128 = (-(n + 1)) as u128 + 1;
        append_digits(s, m);
        assert(s@ =~= old(s)@ + decimal(n as int));
    } else {
        append_digits(s, n as u128);
    }
}

fn append_hex_digits(s: &mut String, n: u32, k: u32)
    ensures
        final(s)@ == old(s)@ + hex_digits(n as nat, k as nat),
    decreases k,
{
    if k > 0 {
        append_hex_digits(s, n / 16, k - 1);
        let d: u32 = n % 16;
        if d < 10 {
            append_digit(s, d as u8);
        } else {
            let text = match d {
                10 => "a",
                11 => "b",
                12 => "c",
                13 => "d",
                14 => "e",
                _ => "f",
            };
            s.append(text);
        }
    }
    assert(s@ =~= old(s)@ + hex_digits(n as nat, k as nat));
}

fn append_hexadecimal(s: &mut String, n: u32)
    ensures
        final(s)@ == old(s)@ + hexadecimal(n),
{
    let width: u32 = if n < 0x1_0000 {
        4
    } else if n < 0x10_0000 {
        5
    } else if n < 0x100_0000 {
        6
    } else if n < 0x1000_0000 {
        7
    } else {
        8
    };
    s.append("0x");
    append_hex_digits(s, n, width);
    assert(s@ =~= old(s)@ + hexadecimal(n));
}

fn append_name(s: &mut String, n: &Name)
    ensures
        final(s)@ == old(s)@ + name_text(*n),
{
    match *n {
        Name::Word(w) => {
            s.append(w);
        },
        Name::Numbered(a, k, b) => {
            s.append(a);
            append_decimal(s, k);
            s.append(b);
        },
    }
    assert(s@ =~= old(s)@ + name_text(*n));
}

impl Error {
    /// The message in words: the text pieces with the numbers and names between them,
    /// and a code in quotation marks as the UTF-8 text of its four bytes, or as what
    /// stands for it where they are not UTF-8.
    pub open spec fn text(&self) -> Seq<char> {
        match *self {
            Error::Rule(a) => a@,
            Error::Number(a, n, b) => a@ + decimal(n as int) + b@,
            Error::Numbers(a, n, b, m, c) => a@ + decimal(n as int) + b@ + decimal(m as int) + c@,
            Error::Triple(a, n, b, m, c, k, d) => a@ + decimal(n as int) + b@ + decimal(m as int)
                + c@ + decimal(k as int) + d@,
            Error::Hex(a, n, b) => a@ + hexadecimal(n) + b@,
            Error::Names(a, n, b, x, c, y, d) => a@ + decimal(n as int) + b@ + name_text(x) + c@
                + name_text(y) + d@,
            Error::Code(a, code, other, b) => a@ + code_text(code, other@) + b@,
            Error::CodeNumbers(a, code, other, b, m, c, k, d) => a@ + code_text(code, other@) + b@
                + decimal(m as int) + c@ + decimal(k as int) + d@,
        }
    }

    /// The message in words.
    pub fn message(&self) -> (r: String)
        ensures
            r@ == self.text(),
    {
        let mut s = String::new();
        match *self {
            Error::Rule(a) => {
                s.append(a);
            },
            Error::Number(a, n, b) => {
                s.append(a);
                append_decimal(&mut s, n);
                s.append(b);
            },
            Error::Numbers(a, n, b, m, c) => {
                s.append(a);
                append_decimal(&mut s, n);
                s.append(b);
                append_decimal(&mut s, m);
                s.append(c);
            },
            Error::Triple(a, n, b, m, c, k, d) => {
                s.append(a);
                append_decimal(&mut s, n);
                s.append(b);
                append_decimal(&mut s, m);
                s.append(c);
                append_decimal(&mut s, k);
                s.append(d);
            },
            Error::Hex(a, n, b) => {
                s.append(a);
                append_hexadecimal(&mut s, n);
                s.append(b);
            },
            Error::Names(a, n, b, x, c, y, d) => {
                s.append(a);
                append_decimal(&mut s, n);
                s.append(b);
                append_name(&mut s, &x);
                s.append(c);
                append_name(&mut s, &y);
                s.append(d);
            },
            Error::Code(a, code, other, b) => {
                s.append(a);
                append_code(&mut s, &code, other);
                s.append(b);
            },
            Error::CodeNumbers(a, code, other, b, m, c, k, d) => {
                s.append(a);
                append_code(&mut s, &code, other);
                s.append(b);
                append_decimal(&mut s, m);
                s.append(c);
                append_decimal(&mut s, k);
                s.append(d);
            },
        }
        assert(s@ =~= self.text());
        s
    }
}

/// A four-byte code in quotation marks; another text where it is not UTF-8.
pub open spec fn code_text(code: [u8; 4], other: Seq<char>) -> Seq<char> {
    quoted_text(
        if valid_utf8(code@) {
            decode_utf8(code@)
        } else {
            other
        },
    )
}

fn append_code(s: &mut String, code: &[u8; 4], other: &str)
    ensures
        final(s)@ == old(s)@ + code_text(*code, other@),
{
    let text = match decode_strict(code.as_slice()) {
        Some(text) => quote(text),
        None => quote(other),
    };
    s.append(text.as_str());
}

} // verus!
