//! The digital garden: note navigation, search scoring, the graph
//! view's previews and theming.
pub mod graph_view;
pub mod history;
pub mod navigator;
pub mod search;
pub mod theme;
pub mod watcher;
pub mod markdown_parser;
pub mod render_state;
pub mod note;
pub mod note_directory;
pub mod sidebar;

use vstd::prelude::*;
use vstd::utf8::{decode_utf8, valid_utf8};

use crate::text::push_char;

verus! {

/// `std::str::from_utf8`: succeeds exactly on valid UTF-8, which it
/// decodes.
#[verifier::external_body]
fn utf8_str(b: &[u8]) -> (r: Option<&str>)
    ensures
        r is Some <==> valid_utf8(b@),
        r matches Some(s) ==> s@ == decode_utf8(b@),
{
    std::str::from_utf8(b).ok()
}

/// Value of an ASCII hex digit.
pub open spec fn hex_digit_value(b: u8) -> Option<int> {
    if 48 <= b <= 57 {
        Some(b - 48)
    } else if 97 <= b <= 102 {
        Some(b - 87)
    } else if 65 <= b <= 70 {
        Some(b - 55)
    } else {
        None
    }
}

/// `u8::from_str_radix(_, 16)` on two bytes: an optional `+` and one
/// digit, or two digits.
pub open spec fn parse_hex_byte(b0: u8, b1: u8) -> Option<u8> {
    if b0 == 43 {
        match hex_digit_value(b1) {
            Some(v) => Some(v as u8),
            None => None,
        }
    } else {
        match (hex_digit_value(b0), hex_digit_value(b1)) {
            (Some(h), Some(l)) => Some((16 * h + l) as u8),
            _ => None,
        }
    }
}

/// Percent-decoding of the bytes of `b` from index `i`, appending to
/// `out`: `%` followed by two bytes decodes them as one character
/// (U+0000 to U+00FF) when they spell a hex byte; other bytes pass
/// through as the character with that number. Two bytes after `%` that
/// are not valid UTF-8 make the whole decoding fail.
pub open spec fn decode_from(b: Seq<u8>, i: int, out: Seq<char>) -> Option<Seq<char>>
    decreases b.len() - i,
{
    if i < 0 || i >= b.len() {
        Some(out)
    } else if b[i] == 37 && i + 2 < b.len() {
        let h = b.subrange(i + 1, i + 3);
        if !valid_utf8(h) {
            None
        } else {
            match parse_hex_byte(h[0], h[1]) {
                Some(v) => decode_from(b, i + 3, out.push(v as char)),
                None => decode_from(b, i + 1, out.push(37u8 as char)),
            }
        }
    } else {
        decode_from(b, i + 1, out.push(b[i] as char))
    }
}

fn hex_digit(b: u8) -> (r: Option<u8>)
    ensures
        match r {
            Some(v) => hex_digit_value(b) == Some(v as int),
            None => hex_digit_value(b) is None,
        },
{
    if 48 <= b && b <= 57 {
        Some(b - 48)
    } else if 97 <= b && b <= 102 {
        Some(b - 87)
    } else if 65 <= b && b <= 70 {
        Some(b - 55)
    } else {
        None
    }
}

fn hex_byte(b0: u8, b1: u8) -> (r: Option<u8>)
    ensures
        r == parse_hex_byte(b0, b1),
{
    if b0 == 43 {
        match hex_digit(b1) {
            Some(v) => Some(v),
            None => None,
        }
    } else {
        match (hex_digit(b0), hex_digit(b1)) {
            (Some(h), Some(l)) => Some(16 * h + l),
            _ => None,
        }
    }
}

/// Decode `%XX` escapes (as found in a URL fragment).
pub fn percent_decode(s: &str) -> (r: Option<String>)
    ensures
        match r {
            Some(x) => decode_from(vstd::utf8::encode_utf8(s@), 0, Seq::empty()) == Some(x@),
            None => decode_from(vstd::utf8::encode_utf8(s@), 0, Seq::empty()) is None,
        },
{
    let bytes = s.as_bytes();
    let mut out = String::new();
    let mut i: usize = 0;
    while i < bytes.len()
        invariant
            bytes@ == vstd::utf8::encode_utf8(s@),
            i <= bytes@.len(),
            decode_from(bytes@, 0, Seq::empty()) == decode_from(bytes@, i as int, out@),
        decreases bytes@.len() - i,
    {
        let b = bytes[i];
        if b == 37u8 && bytes.len() - i > 2 {
            let pair = &bytes[i + 1..i + 3];
            match utf8_str(pair) {
                None => {
                    return None;
                },
                Some(_) => {},
            }
            match hex_byte(pair[0], pair[1]) {
                Some(v) => {
                    push_char(&mut out, v as char);
                    i = i + 3;
                },
                None => {
                    push_char(&mut out, '%');
                    i = i + 1;
                },
            }
        } else {
            push_char(&mut out, b as char);
            i = i + 1;
        }
    }
    Some(out)
}

} // verus!
