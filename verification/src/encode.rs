//! Percent-encoding of path segments for the filesystem/URL-safe rendering of
//! a `UrlPath`. A byte is escaped as `%XX` (uppercase hex) when it is a
//! control byte, a non-ASCII byte, or one of the characters reserved in URLs;
//! every other byte passes through unchanged.

use vstd::prelude::*;

verus! {

/// Bytes that must be escaped in the URL-safe rendering: ASCII controls,
/// URL-reserved punctuation, and a few unreserved characters that are unsafe
/// in practice (spaces, angle brackets, quotes, braces, backslash, pipe).
pub open spec fn url_reserved_byte(b: u8) -> bool {
    b < 0x20 || b == 0x7f || b == '!' as u8 || b == '#' as u8 || b == '$' as u8 || b == '&' as u8
        || b == '\'' as u8 || b == '(' as u8 || b == ')' as u8 || b == '*' as u8 || b == '+' as u8
        || b == ',' as u8 || b == '/' as u8 || b == ':' as u8 || b == ';' as u8 || b == '=' as u8
        || b == '?' as u8 || b == '@' as u8 || b == '[' as u8 || b == ']' as u8 || b == '<' as u8
        || b == '>' as u8 || b == ' ' as u8 || b == '{' as u8 || b == '}' as u8 || b == '\\' as u8
        || b == '|' as u8 || b == '"' as u8
}

/// Whether a byte of a UTF-8 string is escaped: every reserved byte, and
/// every byte outside ASCII.
pub open spec fn url_escaped_byte(b: u8) -> bool {
    b >= 0x80 || url_reserved_byte(b)
}

/// The uppercase hexadecimal digit for a value below sixteen.
pub open spec fn hex_digit(n: u8) -> char {
    if n == 0 {
        '0'
    } else if n == 1 {
        '1'
    } else if n == 2 {
        '2'
    } else if n == 3 {
        '3'
    } else if n == 4 {
        '4'
    } else if n == 5 {
        '5'
    } else if n == 6 {
        '6'
    } else if n == 7 {
        '7'
    } else if n == 8 {
        '8'
    } else if n == 9 {
        '9'
    } else if n == 10 {
        'A'
    } else if n == 11 {
        'B'
    } else if n == 12 {
        'C'
    } else if n == 13 {
        'D'
    } else if n == 14 {
        'E'
    } else {
        'F'
    }
}

/// The characters that one byte contributes to the encoded output.
pub open spec fn encode_byte(b: u8) -> Seq<char> {
    if url_escaped_byte(b) {
        seq!['%', hex_digit(b / 16), hex_digit(b % 16)]
    } else {
        seq![b as char]
    }
}

/// The percent-encoded form of a byte sequence.
pub open spec fn url_encode_bytes(bs: Seq<u8>) -> Seq<char>
    decreases bs.len(),
{
    if bs.len() == 0 {
        Seq::empty()
    } else {
        url_encode_bytes(bs.drop_last()) + encode_byte(bs.last())
    }
}

/// The percent-encoded form of a string: its UTF-8 bytes, each escaped or
/// passed through.
pub open spec fn url_encoded_seg(s: Seq<char>) -> Seq<char> {
    url_encode_bytes(vstd::utf8::encode_utf8(s))
}

fn hex_digit_exec(n: u8) -> (c: char)
    requires
        n < 16,
    ensures
        c == hex_digit(n),
{
    if n == 0 {
        '0'
    } else if n == 1 {
        '1'
    } else if n == 2 {
        '2'
    } else if n == 3 {
        '3'
    } else if n == 4 {
        '4'
    } else if n == 5 {
        '5'
    } else if n == 6 {
        '6'
    } else if n == 7 {
        '7'
    } else if n == 8 {
        '8'
    } else if n == 9 {
        '9'
    } else if n == 10 {
        'A'
    } else if n == 11 {
        'B'
    } else if n == 12 {
        'C'
    } else if n == 13 {
        'D'
    } else if n == 14 {
        'E'
    } else {
        'F'
    }
}

fn url_escaped_byte_exec(b: u8) -> (r: bool)
    ensures
        r == url_escaped_byte(b),
{
    b >= 0x80 || b < 0x20 || b == 0x7f || b == 0x21 || b == 0x23 || b == 0x24 || b == 0x26
        || b == 0x27 || b == 0x28 || b == 0x29 || b == 0x2a || b == 0x2b || b == 0x2c || b == 0x2f
        || b == 0x3a || b == 0x3b || b == 0x3d || b == 0x3f || b == 0x40 || b == 0x5b || b == 0x5d
        || b == 0x3c || b == 0x3e || b == 0x20 || b == 0x7b || b == 0x7d || b == 0x5c || b == 0x7c
        || b == 0x22
}

/// The percent-encoded form of a string. Escaped bytes come out as `%XX`
/// with uppercase hex digits; all other bytes are kept as they are.
pub fn url_encode(s: &str) -> (r: String)
    ensures
        r@ == url_encoded_seg(s@),
{
    let bytes = s.as_bytes();
    let mut out = String::new();
    let mut i: usize = 0;
    while i < bytes.len()
        invariant
            bytes@ == vstd::utf8::encode_utf8(s@),
            i <= bytes@.len(),
            out@ == url_encode_bytes(bytes@.take(i as int)),
        decreases bytes@.len() - i,
    {
        let b = bytes[i];
        if url_escaped_byte_exec(b) {
            crate::strings::push_char(&mut out, '%');
            crate::strings::push_char(&mut out, hex_digit_exec(b / 16));
            crate::strings::push_char(&mut out, hex_digit_exec(b % 16));
        } else {
            crate::strings::push_char(&mut out, byte_to_char(b));
        }
        i += 1;
        proof {
            assert(bytes@.take(i as int).drop_last() =~= bytes@.take(i - 1));
            assert(bytes@.take(i as int).last() == b);
            assert(out@ =~= url_encode_bytes(bytes@.take(i as int)));
        }
    }
    proof {
        assert(bytes@.take(bytes@.len() as int) =~= bytes@);
    }
    out
}

fn byte_to_char(b: u8) -> (c: char)
    ensures
        c == b as char,
{
    b as char
}

} // verus!
