//! Textual content-hash parsing.
//!
//! The filesystem root is entered by looking up a commit by the textual form
//! of its content hash: exactly forty hexadecimal characters, denoting the
//! twenty hash bytes two characters at a time.

use vstd::prelude::*;

verus! {

/// The length in bytes of a content hash.
pub const HASH_LEN: usize = 20;

/// The length in characters of the textual form of a content hash.
pub const HASH_TEXT_LEN: usize = 40;

/// Whether `c` is an ASCII hexadecimal digit, upper or lower case.
pub open spec fn is_hex_digit(c: u8) -> bool {
    (48 <= c <= 57) || (97 <= c <= 102) || (65 <= c <= 70)
}

/// The numeric value of the ASCII hexadecimal digit `c`.
pub open spec fn hex_val(c: u8) -> u8 {
    if 48 <= c <= 57 {
        (c - 48) as u8
    } else if 97 <= c <= 102 {
        (c - 87) as u8
    } else {
        (c - 55) as u8
    }
}

/// Whether `s` is a well-formed textual content hash: exactly forty
/// hexadecimal characters.
pub open spec fn is_hash_text(s: Seq<u8>) -> bool {
    s.len() == HASH_TEXT_LEN && (forall|i: int| 0 <= i < s.len() ==> is_hex_digit(s[i]))
}

/// The hash bytes a well-formed textual hash denotes: two characters to a
/// byte, high digit first.
pub open spec fn hash_of_text(s: Seq<u8>) -> Seq<u8> {
    Seq::new(20, |i: int| (hex_val(s[2 * i]) * 16 + hex_val(s[2 * i + 1])) as u8)
}

/// The numeric value of one hexadecimal character, or failure on any other
/// character.
fn hex_digit_val(c: u8) -> (r: Option<u8>)
    ensures
        r is Some <==> is_hex_digit(c),
        r matches Some(v) ==> v == hex_val(c),
{
    if 48 <= c && c <= 57 {
        Some(c - 48)
    } else if 97 <= c && c <= 102 {
        Some(c - 87)
    } else if 65 <= c && c <= 70 {
        Some(c - 55)
    } else {
        None
    }
}

/// Parses the textual form of a content hash, or fails for any text that is
/// not one.
pub fn parse_hash_text(name: &Vec<u8>) -> (r: Option<Vec<u8>>)
    ensures
        r is Some <==> is_hash_text(name@),
        r matches Some(h) ==> h@ == hash_of_text(name@),
{
    if name.len() != HASH_TEXT_LEN {
        return None;
    }
    let mut out: Vec<u8> = Vec::new();
    let mut i: usize = 0;
    while i < HASH_LEN
        invariant
            0 <= i <= HASH_LEN,
            name@.len() == HASH_TEXT_LEN,
            out@.len() == i,
            forall|j: int| 0 <= j < 2 * i ==> is_hex_digit(name@[j]),
            forall|j: int| 0 <= j < i
                ==> out@[j] == hex_val(name@[2 * j]) * 16 + hex_val(name@[2 * j + 1]),
        decreases HASH_LEN - i,
    {
        let hi = match hex_digit_val(name[2 * i]) {
            Some(v) => v,
            None => {
                return None;
            }
        };
        let lo = match hex_digit_val(name[2 * i + 1]) {
            Some(v) => v,
            None => {
                return None;
            }
        };
        assert(hi <= 15 && lo <= 15);
        out.push(hi * 16 + lo);
        i = i + 1;
    }
    proof {
        assert(out@ =~= hash_of_text(name@));
    }
    Some(out)
}

} // verus!
