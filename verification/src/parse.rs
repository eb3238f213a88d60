//! Parser infrastructure: results, incompleteness hints, and
//! case-insensitive token matching over bytes.
//!
//! Parsers work on a byte buffer and a starting offset, and report how far
//! they read.  A parser never consumes past its return point, and an input
//! that is a valid proper prefix of the production is answered with
//! `Incomplete`, so a caller can read more bytes and try again.

use vstd::prelude::*;

use crate::chars::is_tag_code;

verus! {

/// How many more octets an incomplete parse needs.
#[derive(Debug, Clone, Copy, PartialEq, Eq, Structural)]
pub enum Needed {
    /// More input is needed; how much cannot be told yet.
    Unknown,
    /// Exactly this many more octets are needed, as announced by a
    /// literal's octet count.
    Size(usize),
}

/// Why a parse did not produce a value.
#[derive(Debug, Clone, Copy, PartialEq, Eq, Structural)]
pub enum ParseError {
    /// The input is a valid prefix of the production; more octets are
    /// required.
    Incomplete(Needed),
    /// The input does not match the production that starts at the carried
    /// offset.
    Failed(usize),
}

/// Lower-cases one ASCII letter octet; leaves every other octet unchanged.
pub open spec fn to_lower_byte(b: u8) -> u8 {
    if 0x41 <= b <= 0x5a {
        (b + 0x20) as u8
    } else {
        b
    }
}

/// `tok` occurs at offset `at` of `input`, compared without regard to
/// ASCII case.
pub open spec fn matches_nocase(input: Seq<u8>, at: int, tok: Seq<u8>) -> bool {
    &&& 0 <= at
    &&& at + tok.len() <= input.len()
    &&& forall|i: int|
        0 <= i < tok.len() ==> to_lower_byte(input[at + i]) == to_lower_byte(#[trigger] tok[i])
}

/// `input` ends in the middle of `tok`: everything from `at` to the end
/// matches, but the token is not complete.
pub open spec fn prefix_nocase(input: Seq<u8>, at: int, tok: Seq<u8>) -> bool {
    &&& 0 <= at <= input.len()
    &&& input.len() - at < tok.len()
    &&& forall|i: int|
        0 <= i < input.len() - at ==> to_lower_byte(input[at + i]) == to_lower_byte(
            #[trigger] tok[i],
        )
}

/// Lower-cases one ASCII letter octet at run time.
pub(crate) fn lower_byte(b: u8) -> (r: u8)
    ensures
        r == to_lower_byte(b),
{
    if 0x41 <= b && b <= 0x5a {
        b + 0x20
    } else {
        b
    }
}

/// Decides whether an octet is a tag character.
pub(crate) fn is_tag_byte(b: u8) -> (r: bool)
    ensures
        r == is_tag_code(b as u32),
{
    let n = b as u32;
    0x20 < n && n < 0x7f && n != 0x28 && n != 0x29 && n != 0x7b && n != 0x25 && n != 0x2a
        && n != 0x22 && n != 0x5c && n != 0x2b
}

/// Recognises `tok` at offset `from`, without regard to ASCII case.
/// Streaming: an input that ends inside the token asks for more bytes.
pub(crate) fn token_nocase(input: &[u8], from: usize, tok: &[u8]) -> (r: Result<
    usize,
    ParseError,
>)
    requires
        from <= input@.len(),
    ensures
        r matches Ok(next) ==> next == from + tok@.len(),
        (r is Ok) == matches_nocase(input@, from as int, tok@),
        r matches Err(ParseError::Incomplete(n)) ==> n == Needed::Unknown,
        (r matches Err(ParseError::Incomplete(_))) <==> prefix_nocase(input@, from as int, tok@),
        r matches Err(ParseError::Failed(p)) ==> p == from,
{
    let n = input.len();
    for i in 0..tok.len()
        invariant
            from <= n,
            from + i <= n,
            n == input@.len(),
            forall|j: int|
                0 <= j < i ==> to_lower_byte(input@[from + j]) == to_lower_byte(
                    #[trigger] tok@[j],
                ),
    {
        if n - from <= i {
            return Err(ParseError::Incomplete(Needed::Unknown));
        }
        if lower_byte(input[from + i]) != lower_byte(tok[i]) {
            return Err(ParseError::Failed(from));
        }
    }
    Ok(from + tok.len())
}

}
