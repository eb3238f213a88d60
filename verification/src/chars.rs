//! Character classes of the RFC 3501 grammar.
//!
//! Every class is defined as a spec predicate over the character's code
//! point, so that the same definition serves both the `char`-based carriers
//! (atoms, tags, quoted strings) and the `u8`-based wire parser.

use vstd::prelude::*;

verus! {

/// CTL: the control characters, `%x00-1F` and `%x7F`.
pub open spec fn is_ctl_code(n: u32) -> bool {
    n < 0x20 || n == 0x7f
}

/// ATOM-CHAR: any 7-bit character except the atom-specials
/// `( ) { SP CTL % * " \ ]`.
pub open spec fn is_atom_code(n: u32) -> bool {
    &&& n < 0x80
    &&& !is_ctl_code(n)
    &&& n != 0x20  // SP
    &&& n != 0x28  // (
    &&& n != 0x29  // )
    &&& n != 0x7b  // {
    &&& n != 0x25  // %
    &&& n != 0x2a  // *
    &&& n != 0x22  // "
    &&& n != 0x5c  // \
    &&& n != 0x5d  // ]
}

/// ASTRING-CHAR: ATOM-CHAR plus the resp-special `]`.
pub open spec fn is_astring_code(n: u32) -> bool {
    is_atom_code(n) || n == 0x5d
}

/// The characters allowed in a command tag: ASTRING-CHAR minus `+`.
pub open spec fn is_tag_code(n: u32) -> bool {
    is_astring_code(n) && n != 0x2b
}

/// TEXT-CHAR: any 7-bit character except NUL, CR and LF.
pub open spec fn is_text_code(n: u32) -> bool {
    0 < n < 0x80 && n != 0x0d && n != 0x0a
}

/// quoted-specials: the two characters that must be escaped inside a
/// quoted string, `"` and `\`.
pub open spec fn is_quoted_specials_code(n: u32) -> bool {
    n == 0x22 || n == 0x5c
}

/// CHAR8: any octet except NUL; the body of a literal is a CHAR8 sequence.
pub open spec fn is_char8(b: u8) -> bool {
    b != 0
}

/// Relies on `String::from_utf8`: decoding bytes that are all ASCII yields
/// the string whose characters are exactly those bytes.
#[verifier::external_body]
pub(crate) fn string_from_ascii(bytes: &Vec<u8>) -> (s: String)
    requires
        forall|i: int| 0 <= i < bytes@.len() ==> bytes@[i] < 0x80,
    ensures
        s@.len() == bytes@.len(),
        forall|i: int| 0 <= i < bytes@.len() ==> s@[i] == ((#[trigger] bytes@[i]) as char),
{
    String::from_utf8(bytes.clone()).unwrap()
}

/// Two characters with the same code point are the same character.
pub proof fn lemma_char_code_injective(a: char, b: char)
    requires
        (a as u32) == (b as u32),
    ensures
        a == b,
{
    vstd::utf8::char_u32_cast(a, a as u32);
    vstd::utf8::char_u32_cast(b, b as u32);
}

/// Casting an ASCII character to an octet and back preserves both the
/// code and the character.
pub proof fn lemma_ascii_char_roundtrip(c: char)
    requires
        (c as u32) < 0x80,
    ensures
        ((c as u8) as u32) == (c as u32),
        ((c as u8) as char) == c,
{
    let b: u8 = c as u8;
    assert(b as u32 == c as u32);
    assert((b as char) as u32 == b as u32);
    lemma_char_code_injective((c as u8) as char, c);
}

/// Decides ATOM-CHAR membership for a character.
pub fn is_atom_char(c: char) -> (b: bool)
    ensures
        b == is_atom_code(c as u32),
{
    let n = c as u32;
    0x20 < n && n < 0x7f && n != 0x28 && n != 0x29 && n != 0x7b && n != 0x25 && n != 0x2a
        && n != 0x22 && n != 0x5c && n != 0x5d
}

/// Decides ASTRING-CHAR membership for a character.
pub fn is_astring_char(c: char) -> (b: bool)
    ensures
        b == is_astring_code(c as u32),
{
    is_atom_char(c) || c as u32 == 0x5d
}

/// Decides ASTRING-CHAR membership for an octet.
pub fn is_astring_char_byte(b: u8) -> (r: bool)
    ensures
        r == is_astring_code(b as u32),
{
    let n = b as u32;
    0x20 < n && n < 0x7f && n != 0x28 && n != 0x29 && n != 0x7b && n != 0x25 && n != 0x2a
        && n != 0x22 && n != 0x5c
}

/// Decides TEXT-CHAR membership for a character.
pub fn is_text_char(c: char) -> (b: bool)
    ensures
        b == is_text_code(c as u32),
{
    let n = c as u32;
    0 < n && n < 0x80 && n != 0x0d && n != 0x0a
}

/// Decides whether a character is a TEXT-CHAR other than a quoted-special.
pub fn is_any_text_char_except_quoted_specials(c: char) -> (b: bool)
    ensures
        b == (is_text_code(c as u32) && !is_quoted_specials_code(c as u32)),
{
    let n = c as u32;
    is_text_char(c) && n != 0x22 && n != 0x5c
}

}
