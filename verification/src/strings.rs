//! String-form primitives: literals, quoted strings, and the sums built
//! from them (`IString`, `NString`, `AString`, `Charset`).
//!
//! A string travels on the wire either quoted (7-bit text between double
//! quotes) or as a literal (`{n}` CRLF followed by `n` raw octets).  The
//! checked constructors select the quoted form whenever the content admits
//! it, the literal form otherwise.

use vstd::prelude::*;
use vstd::slice::slice_to_vec;
use vstd::string::{StrSliceExecFns, StringSliceAdditionalSpecFns};

use crate::atoms::{Atom, AtomExt};
use crate::chars::{
    is_any_text_char_except_quoted_specials, is_char8, is_quoted_specials_code, is_text_char,
    is_text_code,
};

verus! {

/// A literal: a counted sequence of octets; any octet but NUL may appear.
#[derive(Debug, Eq, Hash)]
pub struct Literal {
    inner: Vec<u8>,
}

impl View for Literal {
    type V = Seq<u8>;

    closed spec fn view(&self) -> Seq<u8> {
        self.inner@
    }
}

impl Literal {
    /// What `verify` decides: no octet is NUL.
    pub open spec fn spec_valid(s: Seq<u8>) -> bool {
        forall|i: int| 0 <= i < s.len() ==> is_char8(#[trigger] s[i])
    }

    #[verifier::type_invariant]
    spec fn wf(self) -> bool {
        Self::spec_valid(self.inner@)
    }

    /// Decides whether `bytes` may form the body of a literal.
    pub fn verify(bytes: &[u8]) -> (b: bool)
        ensures
            b == Self::spec_valid(bytes@),
    {
        for i in 0..bytes.len()
            invariant
                forall|j: int| 0 <= j < i ==> is_char8(#[trigger] bytes@[j]),
        {
            if bytes[i] == 0 {
                return false;
            }
        }
        true
    }

    /// Read-only access to the octets.
    pub fn inner(&self) -> (r: &[u8])
        ensures
            r@ == self@,
            Self::spec_valid(self@),
    {
        proof {
            use_type_invariant(self);
        }
        self.inner.as_slice()
    }

    /// Wraps octets without re-checking them; the caller must already have
    /// established that none is NUL.
    pub fn new_unchecked(inner: Vec<u8>) -> (r: Self)
        requires
            Self::spec_valid(inner@),
        ensures
            r@ == inner@,
    {
        Literal { inner }
    }

    /// Checked constructor: accepts exactly the octet sequences `verify`
    /// accepts.
    pub fn try_from(value: &[u8]) -> (r: Result<Self, ()>)
        ensures
            r.is_ok() == Self::spec_valid(value@),
            r matches Ok(l) ==> l@ == value@,
    {
        if Self::verify(value) {
            Ok(Literal { inner: slice_to_vec(value) })
        } else {
            Err(())
        }
    }
}

impl Clone for Literal {
    fn clone(&self) -> (r: Self)
        ensures
            r@ == self@,
    {
        proof {
            use_type_invariant(self);
        }
        Literal { inner: self.inner.clone() }
    }
}

impl PartialEq for Literal {
    fn eq(&self, other: &Literal) -> bool {
        if self.inner.len() != other.inner.len() {
            return false;
        }
        for i in 0..self.inner.len()
            invariant
                self.inner@.len() == other.inner@.len(),
                forall|j: int| 0 <= j < i ==> self.inner@[j] == other.inner@[j],
        {
            if self.inner[i] != other.inner[i] {
                return false;
            }
        }
        proof {
            assert(self.inner@ =~= other.inner@);
        }
        true
    }
}

impl vstd::std_specs::cmp::PartialEqSpecImpl for Literal {
    open spec fn obeys_eq_spec() -> bool {
        true
    }

    open spec fn eq_spec(&self, other: &Literal) -> bool {
        self@ == other@
    }
}

/// A quoted string's content: zero or more TEXT-CHARs.  `"` and `\` may
/// appear; the encoder escapes them.
#[derive(Debug, Eq, Hash)]
pub struct Quoted {
    inner: String,
}

impl View for Quoted {
    type V = Seq<char>;

    closed spec fn view(&self) -> Seq<char> {
        self.inner@
    }
}

impl Quoted {
    /// What `verify` decides: every character is a TEXT-CHAR.
    pub open spec fn spec_valid(s: Seq<char>) -> bool {
        forall|i: int| 0 <= i < s.len() ==> is_text_code((#[trigger] s[i]) as u32)
    }

    #[verifier::type_invariant]
    spec fn wf(self) -> bool {
        Self::spec_valid(self.inner@)
    }

    /// Decides whether `value` may form the content of a quoted string.
    pub fn verify(value: &str) -> (b: bool)
        ensures
            b == Self::spec_valid(value@),
    {
        let len = value.unicode_len();
        for i in 0..len
            invariant
                len == value@.len(),
                forall|j: int| 0 <= j < i ==> is_text_code((#[trigger] value@[j]) as u32),
        {
            if !is_text_char(value.get_char(i)) {
                return false;
            }
        }
        true
    }

    /// Read-only access to the content (unescaped).
    pub fn inner(&self) -> (r: &str)
        ensures
            r@ == self@,
            Self::spec_valid(self@),
    {
        proof {
            use_type_invariant(self);
        }
        self.inner.as_str()
    }

    /// Wraps a string without re-checking it; the caller must already have
    /// established that it is valid quoted content.
    pub fn new_unchecked(inner: String) -> (r: Self)
        requires
            Self::spec_valid(inner@),
        ensures
            r@ == inner@,
    {
        Quoted { inner }
    }

    /// Checked constructor: accepts exactly the strings `verify` accepts.
    pub fn try_from(value: &str) -> (r: Result<Self, ()>)
        ensures
            r.is_ok() == Self::spec_valid(value@),
            r matches Ok(q) ==> q@ == value@,
    {
        if Self::verify(value) {
            Ok(Quoted { inner: value.to_owned() })
        } else {
            Err(())
        }
    }
}

impl Clone for Quoted {
    fn clone(&self) -> (r: Self)
        ensures
            r@ == self@,
    {
        proof {
            use_type_invariant(self);
        }
        Quoted { inner: self.inner.clone() }
    }
}

impl PartialEq for Quoted {
    fn eq(&self, other: &Quoted) -> bool {
        self.inner == other.inner
    }
}

impl vstd::std_specs::cmp::PartialEqSpecImpl for Quoted {
    open spec fn obeys_eq_spec() -> bool {
        true
    }

    open spec fn eq_spec(&self, other: &Quoted) -> bool {
        self@ == other@
    }
}

/// One character as it may appear inside a quoted string: a TEXT-CHAR that
/// is not a quoted-special, or one of the two escapable characters.
#[derive(Debug, Clone, Copy, Eq, Hash)]
pub struct QuotedChar {
    inner: char,
}

impl View for QuotedChar {
    type V = char;

    closed spec fn view(&self) -> char {
        self.inner
    }
}

impl QuotedChar {
    /// What `verify` decides.
    pub open spec fn spec_valid(c: char) -> bool {
        ||| (is_text_code(c as u32) && !is_quoted_specials_code(c as u32))
        ||| c == '\\'
        ||| c == '"'
    }

    #[verifier::type_invariant]
    spec fn wf(self) -> bool {
        Self::spec_valid(self.inner)
    }

    /// Decides whether `input` may stand inside a quoted string.
    pub fn verify(input: char) -> (b: bool)
        ensures
            b == Self::spec_valid(input),
    {
        is_any_text_char_except_quoted_specials(input) || input == '\\' || input == '"'
    }

    /// The character itself.
    pub fn inner(&self) -> (r: char)
        ensures
            r == self@,
            Self::spec_valid(self@),
    {
        proof {
            use_type_invariant(self);
        }
        self.inner
    }

    /// Wraps a character without re-checking it.
    pub fn new_unchecked(inner: char) -> (r: Self)
        requires
            Self::spec_valid(inner),
        ensures
            r@ == inner,
    {
        QuotedChar { inner }
    }

    /// Checked constructor: accepts exactly the characters `verify` accepts.
    pub fn try_from(value: char) -> (r: Result<Self, ()>)
        ensures
            r.is_ok() == Self::spec_valid(value),
            r matches Ok(q) ==> q@ == value,
    {
        if Self::verify(value) {
            Ok(QuotedChar { inner: value })
        } else {
            Err(())
        }
    }
}

impl PartialEq for QuotedChar {
    fn eq(&self, other: &QuotedChar) -> bool {
        self.inner == other.inner
    }
}

impl vstd::std_specs::cmp::PartialEqSpecImpl for QuotedChar {
    open spec fn obeys_eq_spec() -> bool {
        true
    }

    open spec fn eq_spec(&self, other: &QuotedChar) -> bool {
        self@ == other@
    }
}

/// A string in one of its two wire forms.
#[derive(Debug, Eq, Hash)]
pub enum IString {
    /// The literal form: a counted sequence of raw octets.
    Literal(Literal),
    /// The quoted form: 7-bit text between double quotes.
    Quoted(Quoted),
}

impl IString {
    /// Equality of content and representation, the meaning of `==`.
    pub open spec fn spec_eq(&self, other: &IString) -> bool {
        match (self, other) {
            (IString::Literal(a), IString::Literal(b)) => a@ == b@,
            (IString::Quoted(a), IString::Quoted(b)) => a@ == b@,
            _ => false,
        }
    }

    /// Checked constructor.  Prefers the quoted form, which needs no
    /// continuation round-trip on the wire; falls back to a literal of the
    /// UTF-8 octets when the text cannot be quoted.
    pub fn try_from(value: &str) -> (r: Result<IString, ()>)
        ensures
            r.is_ok() == (Quoted::spec_valid(value@) || Literal::spec_valid(value.spec_bytes())),
            r matches Ok(IString::Quoted(q)) ==> Quoted::spec_valid(value@) && q@ == value@,
            r matches Ok(IString::Literal(l)) ==> !Quoted::spec_valid(value@) && l@
                == value.spec_bytes(),
    {
        match Quoted::try_from(value) {
            Ok(quoted) => Ok(IString::Quoted(quoted)),
            Err(()) => match Literal::try_from(value.as_bytes()) {
                Ok(literal) => Ok(IString::Literal(literal)),
                Err(()) => Err(()),
            },
        }
    }
}

impl Clone for IString {
    fn clone(&self) -> (r: Self)
        ensures
            r.spec_eq(self),
    {
        match self {
            IString::Literal(l) => IString::Literal(l.clone()),
            IString::Quoted(q) => IString::Quoted(q.clone()),
        }
    }
}

impl PartialEq for IString {
    fn eq(&self, other: &IString) -> bool {
        match (self, other) {
            (IString::Literal(a), IString::Literal(b)) => a == b,
            (IString::Quoted(a), IString::Quoted(b)) => a == b,
            _ => false,
        }
    }
}

impl vstd::std_specs::cmp::PartialEqSpecImpl for IString {
    open spec fn obeys_eq_spec() -> bool {
        true
    }

    open spec fn eq_spec(&self, other: &IString) -> bool {
        self.spec_eq(other)
    }
}

/// A nullable string: `NIL` on the wire when absent.
#[derive(Debug, Eq, Hash)]
pub struct NString(pub Option<IString>);

impl NString {
    /// Equality of presence, content and representation, the meaning of
    /// `==`.
    pub open spec fn spec_eq(&self, other: &NString) -> bool {
        match (&self.0, &other.0) {
            (Some(a), Some(b)) => a.spec_eq(b),
            (None, None) => true,
            _ => false,
        }
    }
}

impl Clone for NString {
    fn clone(&self) -> (r: Self)
        ensures
            r.spec_eq(self),
    {
        match &self.0 {
            Some(s) => NString(Some(s.clone())),
            None => NString(None),
        }
    }
}

impl PartialEq for NString {
    fn eq(&self, other: &NString) -> bool {
        match (&self.0, &other.0) {
            (Some(a), Some(b)) => a == b,
            (None, None) => true,
            _ => false,
        }
    }
}

impl vstd::std_specs::cmp::PartialEqSpecImpl for NString {
    open spec fn obeys_eq_spec() -> bool {
        true
    }

    open spec fn eq_spec(&self, other: &NString) -> bool {
        self.spec_eq(other)
    }
}

/// An `astring`: an atom (in its extended form) or a string.
#[derive(Debug, Eq, Hash)]
pub enum AString {
    /// The unquoted form, one or more ASTRING-CHARs.
    Atom(AtomExt),
    /// Either string form.
    String(IString),
}

impl AString {
    /// Equality of content and representation, the meaning of `==`.
    pub open spec fn spec_eq(&self, other: &AString) -> bool {
        match (self, other) {
            (AString::Atom(a), AString::Atom(b)) => a@ == b@,
            (AString::String(a), AString::String(b)) => a.spec_eq(b),
            _ => false,
        }
    }

    /// Checked constructor.  Prefers the atom form, then the quoted form,
    /// then a literal.
    pub fn try_from(value: &str) -> (r: Result<AString, ()>)
        ensures
            r.is_ok() == (AtomExt::spec_valid(value@) || Quoted::spec_valid(value@)
                || Literal::spec_valid(value.spec_bytes())),
            r matches Ok(AString::Atom(a)) ==> AtomExt::spec_valid(value@) && a@ == value@,
            r matches Ok(AString::String(IString::Quoted(q))) ==> !AtomExt::spec_valid(value@)
                && Quoted::spec_valid(value@) && q@ == value@,
            r matches Ok(AString::String(IString::Literal(l))) ==> !AtomExt::spec_valid(value@)
                && !Quoted::spec_valid(value@) && l@ == value.spec_bytes(),
    {
        match AtomExt::try_from(value) {
            Ok(atom) => Ok(AString::Atom(atom)),
            Err(()) => match IString::try_from(value) {
                Ok(string) => Ok(AString::String(string)),
                Err(()) => Err(()),
            },
        }
    }
}

impl Clone for AString {
    fn clone(&self) -> (r: Self)
        ensures
            r.spec_eq(self),
    {
        match self {
            AString::Atom(a) => AString::Atom(a.clone()),
            AString::String(s) => AString::String(s.clone()),
        }
    }
}

impl PartialEq for AString {
    fn eq(&self, other: &AString) -> bool {
        match (self, other) {
            (AString::Atom(a), AString::Atom(b)) => a == b,
            (AString::String(a), AString::String(b)) => a == b,
            _ => false,
        }
    }
}

impl vstd::std_specs::cmp::PartialEqSpecImpl for AString {
    open spec fn obeys_eq_spec() -> bool {
        true
    }

    open spec fn eq_spec(&self, other: &AString) -> bool {
        self.spec_eq(other)
    }
}

/// A charset name: an atom or a quoted string.
#[derive(Debug, Eq, Hash)]
pub enum Charset {
    /// The unquoted form.
    Atom(Atom),
    /// The quoted form.
    Quoted(Quoted),
}

impl Charset {
    /// Equality of content and representation, the meaning of `==`.
    pub open spec fn spec_eq(&self, other: &Charset) -> bool {
        match (self, other) {
            (Charset::Atom(a), Charset::Atom(b)) => a@ == b@,
            (Charset::Quoted(a), Charset::Quoted(b)) => a@ == b@,
            _ => false,
        }
    }

    /// Checked constructor.  Prefers the atom form; falls back to a quoted
    /// string for names with spaces or other non-atom characters.
    pub fn try_from(value: &str) -> (r: Result<Charset, ()>)
        ensures
            r.is_ok() == (Atom::spec_valid(value@) || Quoted::spec_valid(value@)),
            r matches Ok(Charset::Atom(a)) ==> Atom::spec_valid(value@) && a@ == value@,
            r matches Ok(Charset::Quoted(q)) ==> !Atom::spec_valid(value@) && Quoted::spec_valid(
                value@,
            ) && q@ == value@,
    {
        match Atom::try_from(value) {
            Ok(atom) => Ok(Charset::Atom(atom)),
            Err(()) => match Quoted::try_from(value) {
                Ok(quoted) => Ok(Charset::Quoted(quoted)),
                Err(()) => Err(()),
            },
        }
    }
}

impl Clone for Charset {
    fn clone(&self) -> (r: Self)
        ensures
            r.spec_eq(self),
    {
        match self {
            Charset::Atom(a) => Charset::Atom(a.clone()),
            Charset::Quoted(q) => Charset::Quoted(q.clone()),
        }
    }
}

impl PartialEq for Charset {
    fn eq(&self, other: &Charset) -> bool {
        match (self, other) {
            (Charset::Atom(a), Charset::Atom(b)) => a == b,
            (Charset::Quoted(a), Charset::Quoted(b)) => a == b,
            _ => false,
        }
    }
}

impl vstd::std_specs::cmp::PartialEqSpecImpl for Charset {
    open spec fn obeys_eq_spec() -> bool {
        true
    }

    open spec fn eq_spec(&self, other: &Charset) -> bool {
        self.spec_eq(other)
    }
}

}
