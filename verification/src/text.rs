//! Text: decimal numbers, byte strings for logs, lines, and the conversions
//! that the standard library provides.

use vstd::prelude::*;
#[allow(unused_imports)]
use vstd::utf8::encode_utf8;

verus! {

/// `String::push` appends one character.
pub assume_specification[ String::push ](s: &mut String, c: char)
    ensures
        final(s)@ == old(s)@.push(c),
;

/// The text that `String::from_utf8_lossy` makes of bytes.
pub uninterp spec fn lossy_text(bytes: Seq<u8>) -> Seq<char>;

/// The text that `str::to_lowercase` makes of a text.
pub uninterp spec fn lowercase_text(text: Seq<char>) -> Seq<char>;

/// `String::from_utf8_lossy`: bytes as text, with invalid sequences replaced.
/// The result depends on the bytes alone; nothing more is stated of it.
#[verifier::external_body]
pub(crate) fn lossy_string(bytes: &[u8]) -> (text: String)
    ensures
        text@ == lossy_text(bytes@),
{
    String::from_utf8_lossy(bytes).to_string()
}

/// `str::to_lowercase`: the lowercase equivalent of a text. The result depends
/// on the text alone; nothing more is stated of it.
#[verifier::external_body]
pub(crate) fn lowercase(text: &str) -> (lower: String)
    ensures
        lower@ == lowercase_text(text@),
{
    text.to_lowercase()
}

/// Whether `char::is_whitespace` counts a character as white space.
pub uninterp spec fn white_space(c: char) -> bool;

/// `char::is_whitespace`: a character has the Unicode property White_Space. The
/// result depends on the character alone; which characters have the property is
/// not stated.
pub assume_specification[ char::is_whitespace ](c: char) -> (white: bool)
    ensures
        white == white_space(c),
;

/// A text without the white space at its start.
pub open spec fn trimmed_start(text: Seq<char>) -> Seq<char>
    decreases text.len(),
{
    if text.len() > 0 && white_space(text[0]) {
        trimmed_start(text.skip(1))
    } else {
        text
    }
}

/// A text without the white space at its end.
pub open spec fn trimmed_end(text: Seq<char>) -> Seq<char>
    decreases text.len(),
{
    if text.len() > 0 && white_space(text.last()) {
        trimmed_end(text.drop_last())
    } else {
        text
    }
}

/// A text without the white space around it.
pub open spec fn trimmed(text: Seq<char>) -> Seq<char> {
    trimmed_end(trimmed_start(text))
}

/// A text without the white space around it.
pub fn trim(text: &str) -> (part: String)
    ensures
        part@ == trimmed(text@),
{
    let len: usize = text.unicode_len();
    let mut from: usize = 0;
    assert(text@.skip(0) =~= text@);
    while from < len && text.get_char(from).is_whitespace()
        invariant
            from <= len == text@.len(),
            trimmed_start(text@.skip(from as int)) == trimmed_start(text@),
        ensures
            from <= len,
            trimmed_start(text@) == text@.skip(from as int),
        decreases len - from,
    {
        assert(text@.skip(from as int).skip(1) =~= text@.skip(from + 1));
        from += 1;
    }
    let mut to: usize = len;
    assert(text@.subrange(from as int, to as int) =~= text@.skip(from as int));
    while from < to && text.get_char(to - 1).is_whitespace()
        invariant
            from <= to <= len == text@.len(),
            trimmed_end(text@.subrange(from as int, to as int)) == trimmed(text@),
        ensures
            from <= to <= len,
            trimmed(text@) == text@.subrange(from as int, to as int),
        decreases to,
    {
        assert(text@.subrange(from as int, to as int).drop_last() =~= text@.subrange(
            from as int,
            to - 1,
        ));
        to -= 1;
    }
    let part: &str = text.substring_char(from, to);
    part.to_owned()
}

/// The character of one decimal digit.
pub open spec fn digit_char(d: nat) -> char {
    (48 + d) as char
}

/// A number in decimal, without leading zeros.
pub open spec fn decimal(n: nat) -> Seq<char>
    decreases n,
{
    if n < 10 {
        seq![digit_char(n)]
    } else {
        decimal(n / 10).push(digit_char(n % 10))
    }
}

/// The character of one decimal digit.
fn digit(d: u64) -> (c: char)
    requires
        d < 10,
    ensures
        c == digit_char(d as nat),
{
    let code: u8 = 48 + d as u8;
    code as char
}

/// A number in decimal.
pub fn decimal_string(n: u64) -> (text: String)
    ensures
        text@ == decimal(n as nat),
    decreases n,
{
    if n < 10 {
        let mut text: String = String::new();
        text.push(digit(n));
        assert(text@ =~= decimal(n as nat));
        text
    } else {
        let mut text: String = decimal_string(n / 10);
        text.push(digit(n % 10));
        text
    }
}

/// The character of one hexadecimal digit, in lower case.
pub open spec fn hex_char(d: nat) -> char {
    if d < 10 {
        digit_char(d)
    } else {
        (87 + d) as char
    }
}

/// The character of one hexadecimal digit.
fn hex_digit(d: u8) -> (c: char)
    requires
        d < 16,
    ensures
        c == hex_char(d as nat),
{
    let code: u8 = if d < 10 {
        48 + d
    } else {
        87 + d
    };
    code as char
}

/// A byte shows as itself: printable ASCII other than the backslash.
pub open spec fn shows_as_itself(b: u8) -> bool {
    32 <= b <= 126 && b != 92
}

/// One byte for a log line: itself, or `\xNN`.
pub open spec fn byte_for_log(b: u8) -> Seq<char> {
    if shows_as_itself(b) {
        seq![b as char]
    } else {
        seq!['\\', 'x', hex_char((b / 16) as nat), hex_char((b % 16) as nat)]
    }
}

/// Bytes of unknown encoding as text that is safe to show.
pub open spec fn log_text(bytes: Seq<u8>) -> Seq<char>
    decreases bytes.len(),
{
    if bytes.len() == 0 {
        Seq::empty()
    } else {
        log_text(bytes.drop_last()) + byte_for_log(bytes.last())
    }
}

/// Bytes of unknown encoding as text that is safe to show: printable ASCII as
/// it is, everything else in hexadecimal.
pub fn bytes_for_log(bytes: &[u8]) -> (text: String)
    ensures
        text@ == log_text(bytes@),
{
    let mut text: String = String::new();
    let mut i: usize = 0;
    assert(bytes@.take(0) =~= Seq::empty());
    while i < bytes.len()
        invariant
            i <= bytes@.len(),
            text@ == log_text(bytes@.take(i as int)),
        decreases bytes.len() - i,
    {
        let b: u8 = bytes[i];
        let ghost before = text@;
        assert(bytes@.take(i + 1).drop_last() =~= bytes@.take(i as int));
        assert(bytes@.take(i + 1).last() == b);
        if 32 <= b && b <= 126 && b != 92 {
            text.push(b as char);
        } else {
            text.push('\\');
            text.push('x');
            text.push(hex_digit(b / 16));
            text.push(hex_digit(b % 16));
        }
        assert(text@ =~= before + byte_for_log(b));
        i += 1;
    }
    assert(bytes@.take(i as int) =~= bytes@);
    text
}

/// The UTF-8 bytes of a text.
pub fn text_bytes(text: &str) -> (bytes: Vec<u8>)
    ensures
        bytes@ == encode_utf8(text@),
{
    crate::bytes_util::copy_bytes(text.as_bytes())
}

} // verus!
