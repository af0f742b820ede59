//! Colours as the script format writes them: `&HAABBGGRR`.

use vstd::prelude::*;
use vstd::utf8::encode_utf8;
use crate::lexical::{u8_from_str_radix, parse_u8_radix};

verus! {

/// The two bytes `b[i]` and `b[i + 1]`, read as characters.
pub open spec fn byte_pair(b: Seq<u8>, i: int) -> Seq<char> {
    seq![b[i] as char, b[i + 1] as char]
}

/// What `u8::from_str_radix(&s[i..i + 2], 16)` gives for the string whose
/// UTF-8 bytes are `b`, where those two bytes are ASCII.
pub open spec fn hex_pair(b: Seq<u8>, i: int) -> Option<u8> {
    u8_from_str_radix(byte_pair(b, i), 16)
}

/// The text `s` has at least ten bytes and its byte pairs 2..4, 4..6, 6..8
/// and 8..10 are each a base-16 `u8`: the strings `from_ass_colour` reads
/// without panicking.
#[verifier::opaque]
pub open spec fn is_ass_colour(s: Seq<char>) -> bool {
    let b = encode_utf8(s);
    &&& b.len() >= 10
    &&& hex_pair(b, 2) is Some
    &&& hex_pair(b, 4) is Some
    &&& hex_pair(b, 6) is Some
    &&& hex_pair(b, 8) is Some
}

/// A colour with its transparency.
#[derive(Clone, Copy, PartialEq, Eq, Debug)]
pub struct AssColour {
    /// Red, green and blue.
    pub colour: (u8, u8, u8),
    /// Transparency: 0 is opaque, 255 fully transparent.
    pub alpha: u8,
}

/// The colour that the text `s` denotes: alpha, blue, green and red are the
/// byte pairs 2..4, 4..6, 6..8 and 8..10 of `s` in base 16.
#[verifier::opaque]
pub open spec fn ass_colour_value(s: Seq<char>) -> AssColour {
    let b = encode_utf8(s);
    AssColour {
        colour: (hex_pair(b, 8).unwrap(), hex_pair(b, 6).unwrap(), hex_pair(b, 4).unwrap()),
        alpha: hex_pair(b, 2).unwrap(),
    }
}

impl AssColour {
    /// Reads `&HAABBGGRR`: the byte pairs 2..4, 4..6, 6..8 and 8..10 of
    /// `colour` are alpha, blue, green and red in base 16.
    pub fn from_ass_colour(colour: String) -> (c: AssColour)
        requires
            is_ass_colour(colour@),
        ensures
            c == ass_colour_value(colour@),
    {
        reveal(is_ass_colour);
        reveal(ass_colour_value);
        let bytes = colour.as_str().as_bytes();
        let blue = byte_pair_value(bytes, 4);
        let green = byte_pair_value(bytes, 6);
        let red = byte_pair_value(bytes, 8);
        let alpha = byte_pair_value(bytes, 2);
        AssColour { colour: (red, green, blue), alpha }
    }
}

/// `colour` is text that `from_ass_colour` reads without panicking.
pub fn is_ass_colour_text(colour: &str) -> (r: bool)
    ensures
        r == is_ass_colour(colour@),
{
    reveal(is_ass_colour);
    let b = colour.as_bytes();
    if b.len() < 10 {
        return false;
    }
    byte_pair_check(b, 2) && byte_pair_check(b, 4) && byte_pair_check(b, 6) && byte_pair_check(b, 8)
}

/// The bytes `b[i..i + 2]` are a base-16 `u8`.
fn byte_pair_check(b: &[u8], i: usize) -> (r: bool)
    requires
        i + 2 <= b@.len(),
    ensures
        r == (hex_pair(b@, i as int) is Some),
{
    let mut pair: Vec<char> = Vec::new();
    pair.push(b[i] as char);
    pair.push(b[i + 1] as char);
    assert(pair@.subrange(0, 2) == byte_pair(b@, i as int));
    parse_u8_radix(&pair, 0, 2, 16).is_some()
}

/// The base-16 value of the bytes `b[i..i + 2]`.
fn byte_pair_value(b: &[u8], i: usize) -> (r: u8)
    requires
        i + 2 <= b@.len(),
        hex_pair(b@, i as int) is Some,
    ensures
        hex_pair(b@, i as int) == Some(r),
{
    let mut pair: Vec<char> = Vec::new();
    pair.push(b[i] as char);
    pair.push(b[i + 1] as char);
    assert(pair@.subrange(0, 2) == byte_pair(b@, i as int));
    match parse_u8_radix(&pair, 0, 2, 16) {
        Some(v) => v,
        None => {
            assert(false);
            0
        },
    }
}

/// For text of ASCII characters, the colour reads character pairs: the text
/// is a colour exactly when its character pairs 2..4, 4..6, 6..8 and 8..10
/// are base-16 `u8`s, and then those are alpha, blue, green and red.
pub proof fn ascii_colour_reads_character_pairs(s: Seq<char>)
    requires
        vstd::utf8::is_ascii_chars(s),
        s.len() >= 10,
    ensures
        is_ass_colour(s) <==> ({
            &&& (u8_from_str_radix(s.subrange(2, 4), 16) is Some)
            &&& (u8_from_str_radix(s.subrange(4, 6), 16) is Some)
            &&& (u8_from_str_radix(s.subrange(6, 8), 16) is Some)
            &&& (u8_from_str_radix(s.subrange(8, 10), 16) is Some)
        }),
        is_ass_colour(s) ==> ass_colour_value(s) == (AssColour {
            colour: (
                u8_from_str_radix(s.subrange(8, 10), 16).unwrap(),
                u8_from_str_radix(s.subrange(6, 8), 16).unwrap(),
                u8_from_str_radix(s.subrange(4, 6), 16).unwrap(),
            ),
            alpha: u8_from_str_radix(s.subrange(2, 4), 16).unwrap(),
        }),
{
    reveal(is_ass_colour);
    reveal(ass_colour_value);
    vstd::utf8::is_ascii_chars_encode_utf8(s);
    let b = encode_utf8(s);
    assert forall|i: int| 0 <= i < 10 implies (#[trigger] b[i]) as char == s[i] by {
        assert(s[i] as u8 == b[i]);
        assert((s[i] as int) < 128);
    }
    assert(byte_pair(b, 2) =~= s.subrange(2, 4));
    assert(byte_pair(b, 4) =~= s.subrange(4, 6));
    assert(byte_pair(b, 6) =~= s.subrange(6, 8));
    assert(byte_pair(b, 8) =~= s.subrange(8, 10));
}

} // verus!
