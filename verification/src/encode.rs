//! The encoder: writes model values to a byte sink.
//!
//! Every wire form is first defined as a spec function from the value's
//! view to the octet sequence it occupies on the wire; each `encode`
//! method then proves that it appends exactly that sequence.

use vstd::prelude::*;
use vstd::string::StrSliceExecFns;

use crate::atoms::{Atom, AtomExt, Tag, Text};
use crate::strings::{AString, Charset, IString, Literal, NString, Quoted};

verus! {

/// The octets of an all-ASCII character sequence, one octet per character.
pub open spec fn ascii_bytes(s: Seq<char>) -> Seq<u8> {
    Seq::new(s.len(), |i: int| s[i] as u8)
}

/// One character of a quoted string's body: `"` and `\` get a backslash
/// escape, everything else stands for itself.
pub open spec fn esc_char(c: char) -> Seq<u8> {
    if c == '"' || c == '\\' {
        seq![0x5c, c as u8]
    } else {
        seq![c as u8]
    }
}

/// The body of a quoted string: each character escaped as needed.
pub open spec fn quoted_body(s: Seq<char>) -> Seq<u8>
    decreases s.len(),
{
    if s.len() == 0 {
        Seq::empty()
    } else {
        quoted_body(s.drop_last()) + esc_char(s.last())
    }
}

/// A quoted string on the wire: the escaped body between double quotes.
pub open spec fn encoded_quoted(s: Seq<char>) -> Seq<u8> {
    seq![0x22u8] + quoted_body(s) + seq![0x22u8]
}

/// The shortest decimal numeral for `n`, as ASCII digits.
pub open spec fn dec_bytes(n: nat) -> Seq<u8>
    decreases n,
{
    if n < 10 {
        seq![(0x30 + n) as u8]
    } else {
        dec_bytes(n / 10) + seq![(0x30 + n % 10) as u8]
    }
}

/// A literal on the wire: `{n}` CRLF followed by the n octets themselves.
pub open spec fn encoded_literal(s: Seq<u8>) -> Seq<u8> {
    seq![0x7bu8] + dec_bytes(s.len()) + seq![0x7du8, 0x0du8, 0x0au8] + s
}

/// An `IString` on the wire: the representation stored in the value.
pub open spec fn encoded_istring(v: &IString) -> Seq<u8> {
    match v {
        IString::Literal(l) => encoded_literal(l@),
        IString::Quoted(q) => encoded_quoted(q@),
    }
}

/// An `NString` on the wire: `NIL` when absent.
pub open spec fn encoded_nstring(v: &NString) -> Seq<u8> {
    match &v.0 {
        Some(s) => encoded_istring(s),
        None => seq![0x4eu8, 0x49u8, 0x4cu8],
    }
}

/// An `AString` on the wire.
pub open spec fn encoded_astring(v: &AString) -> Seq<u8> {
    match v {
        AString::Atom(a) => ascii_bytes(a@),
        AString::String(s) => encoded_istring(s),
    }
}

/// A `Charset` on the wire.
pub open spec fn encoded_charset(v: &Charset) -> Seq<u8> {
    match v {
        Charset::Atom(a) => ascii_bytes(a@),
        Charset::Quoted(q) => encoded_quoted(q@),
    }
}

/// Appends the octets of an all-ASCII string.
pub(crate) fn push_ascii(out: &mut Vec<u8>, s: &str)
    requires
        forall|i: int| 0 <= i < s@.len() ==> ((#[trigger] s@[i]) as u32) < 0x80,
    ensures
        final(out)@ == old(out)@ + ascii_bytes(s@),
{
    let len = s.unicode_len();
    for i in 0..len
        invariant
            len == s@.len(),
            forall|k: int| 0 <= k < s@.len() ==> ((#[trigger] s@[k]) as u32) < 0x80,
            out@ == old(out)@ + ascii_bytes(s@).take(i as int),
    {
        let c = s.get_char(i);
        out.push(c as u8);
        proof {
            assert(ascii_bytes(s@).take(i + 1) =~= ascii_bytes(s@).take(i as int) + seq![
                s@[i as int] as u8,
            ]);
        }
    }
    proof {
        assert(ascii_bytes(s@).take(len as int) =~= ascii_bytes(s@));
    }
}

/// Appends the shortest decimal numeral for `n`.
pub(crate) fn push_decimal(out: &mut Vec<u8>, n: usize)
    ensures
        final(out)@ == old(out)@ + dec_bytes(n as nat),
{
    let mut digits: Vec<u8> = Vec::new();
    let mut m: usize = n;
    loop
        invariant_except_break
            dec_bytes(n as nat) == dec_bytes(m as nat) + digits@.reverse(),
        ensures
            dec_bytes(n as nat) == digits@.reverse(),
            digits@.len() >= 1,
        decreases m,
    {
        let d: u8 = (m % 10) as u8;
        let ghost pre = digits@;
        digits.push(0x30 + d);
        proof {
            assert((pre + seq![(0x30 + d) as u8]).reverse() =~= seq![(0x30 + d) as u8]
                + pre.reverse());
        }
        if m < 10 {
            break;
        }
        m = m / 10;
    }
    let len = digits.len();
    for j in 0..len
        invariant
            len == digits@.len(),
            dec_bytes(n as nat) == digits@.reverse(),
            out@ == old(out)@ + digits@.reverse().take(j as int),
    {
        let d = digits[len - 1 - j];
        out.push(d);
        proof {
            assert(digits@.reverse().take(j + 1) =~= digits@.reverse().take(j as int) + seq![
                digits@[len - 1 - j],
            ]);
        }
    }
    proof {
        assert(digits@.reverse().take(len as int) =~= digits@.reverse());
    }
}

impl Atom {
    /// Writes the atom: its characters, verbatim.
    pub fn encode(&self, out: &mut Vec<u8>)
        ensures
            final(out)@ == old(out)@ + ascii_bytes(self@),
    {
        push_ascii(out, self.inner());
    }
}

impl AtomExt {
    /// Writes the extended atom: its characters, verbatim.
    pub fn encode(&self, out: &mut Vec<u8>)
        ensures
            final(out)@ == old(out)@ + ascii_bytes(self@),
    {
        push_ascii(out, self.inner());
    }
}

impl Tag {
    /// Writes the tag: its characters, verbatim.
    pub fn encode(&self, out: &mut Vec<u8>)
        ensures
            final(out)@ == old(out)@ + ascii_bytes(self@),
    {
        push_ascii(out, self.inner());
    }
}

impl Text {
    /// Writes the text: its characters, verbatim.
    pub fn encode(&self, out: &mut Vec<u8>)
        ensures
            final(out)@ == old(out)@ + ascii_bytes(self@),
    {
        push_ascii(out, self.inner());
    }
}

impl Quoted {
    /// Writes the quoted string: double quotes around the body, with `"`
    /// and `\` backslash-escaped.
    pub fn encode(&self, out: &mut Vec<u8>)
        ensures
            final(out)@ == old(out)@ + encoded_quoted(self@),
    {
        let s = self.inner();
        out.push(0x22);
        let len = s.unicode_len();
        for i in 0..len
            invariant
                len == s@.len(),
                Quoted::spec_valid(s@),
                out@ == old(out)@ + seq![0x22u8] + quoted_body(s@.take(i as int)),
        {
            let c = s.get_char(i);
            if c == '"' || c == '\\' {
                out.push(0x5c);
            }
            out.push(c as u8);
            proof {
                assert(s@.take(i + 1).drop_last() =~= s@.take(i as int));
                assert(s@.take(i + 1).last() == s@[i as int]);
                assert(out@ =~= old(out)@ + seq![0x22u8] + quoted_body(s@.take(i + 1)));
            }
        }
        out.push(0x22);
        proof {
            assert(s@.take(len as int) =~= s@);
            assert(out@ =~= old(out)@ + encoded_quoted(self@));
        }
    }
}

impl Literal {
    /// Writes the literal: the octet count in braces, CRLF, then the raw
    /// octets.
    pub fn encode(&self, out: &mut Vec<u8>)
        ensures
            final(out)@ == old(out)@ + encoded_literal(self@),
    {
        let bytes = self.inner();
        out.push(0x7b);
        push_decimal(out, bytes.len());
        out.push(0x7d);
        out.push(0x0d);
        out.push(0x0a);
        let ghost header = old(out)@ + seq![0x7bu8] + dec_bytes(self@.len()) + seq![
            0x7du8,
            0x0du8,
            0x0au8,
        ];
        proof {
            assert(out@ =~= header);
        }
        for i in 0..bytes.len()
            invariant
                bytes@ == self@,
                out@ == header + bytes@.take(i as int),
        {
            out.push(bytes[i]);
            proof {
                assert(bytes@.take(i + 1) =~= bytes@.take(i as int) + seq![bytes@[i as int]]);
            }
        }
        proof {
            assert(bytes@.take(bytes@.len() as int) =~= bytes@);
            assert(out@ =~= old(out)@ + encoded_literal(self@));
        }
    }
}

impl IString {
    /// Writes the string in the representation it carries; the encoder
    /// never re-selects between quoted and literal.
    pub fn encode(&self, out: &mut Vec<u8>)
        ensures
            final(out)@ == old(out)@ + encoded_istring(self),
    {
        match self {
            IString::Literal(l) => l.encode(out),
            IString::Quoted(q) => q.encode(out),
        }
    }
}

impl NString {
    /// Writes the string, or the three octets `NIL` when absent.
    pub fn encode(&self, out: &mut Vec<u8>)
        ensures
            final(out)@ == old(out)@ + encoded_nstring(self),
    {
        match &self.0 {
            Some(s) => s.encode(out),
            None => {
                out.push(0x4e);
                out.push(0x49);
                out.push(0x4c);
                proof {
                    assert(out@ =~= old(out)@ + seq![0x4eu8, 0x49u8, 0x4cu8]);
                }
            },
        }
    }
}

impl AString {
    /// Writes the astring in the representation it carries.
    pub fn encode(&self, out: &mut Vec<u8>)
        ensures
            final(out)@ == old(out)@ + encoded_astring(self),
    {
        match self {
            AString::Atom(a) => a.encode(out),
            AString::String(s) => s.encode(out),
        }
    }
}

impl Charset {
    /// Writes the charset name in the representation it carries.
    pub fn encode(&self, out: &mut Vec<u8>)
        ensures
            final(out)@ == old(out)@ + encoded_charset(self),
    {
        match self {
            Charset::Atom(a) => a.encode(out),
            Charset::Quoted(q) => q.encode(out),
        }
    }
}

}
