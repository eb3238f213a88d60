//! Atom-like validated primitives: `Atom`, `AtomExt`, `Tag` and `Text`.
//!
//! Each type wraps a string whose characters are drawn from one character
//! class of the grammar; the class membership is the type's invariant, so a
//! value of one of these types is always well-formed on the wire.

use vstd::prelude::*;
use vstd::string::StrSliceExecFns;

use crate::chars::{
    is_astring_char, is_astring_code, is_atom_char, is_atom_code, is_tag_code, is_text_char,
    is_text_code, string_from_ascii,
};

verus! {

/// An atom: one or more ATOM-CHARs (RFC 3501 `atom`).
#[derive(Debug, Eq, Hash)]
pub struct Atom {
    inner: String,
}

impl View for Atom {
    type V = Seq<char>;

    closed spec fn view(&self) -> Seq<char> {
        self.inner@
    }
}

impl Atom {
    /// What `verify` decides: non-empty, every character an ATOM-CHAR.
    pub open spec fn spec_valid(s: Seq<char>) -> bool {
        s.len() > 0 && forall|i: int|
            0 <= i < s.len() ==> is_atom_code((#[trigger] s[i]) as u32)
    }

    #[verifier::type_invariant]
    spec fn wf(self) -> bool {
        Self::spec_valid(self.inner@)
    }

    /// Decides whether `value` is a well-formed atom.
    pub fn verify(value: &str) -> (b: bool)
        ensures
            b == Self::spec_valid(value@),
    {
        let len = value.unicode_len();
        if len == 0 {
            return false;
        }
        for i in 0..len
            invariant
                len == value@.len(),
                forall|j: int| 0 <= j < i ==> is_atom_code((#[trigger] value@[j]) as u32),
        {
            if !is_atom_char(value.get_char(i)) {
                return false;
            }
        }
        true
    }

    /// Read-only access to the carrier.
    pub fn inner(&self) -> (r: &str)
        ensures
            r@ == self@,
            Self::spec_valid(self@),
    {
        proof {
            use_type_invariant(self);
        }
        self.inner.as_str()
    }

    /// Wraps a string without re-checking it; the caller must already have
    /// established that it is a well-formed atom.
    pub fn new_unchecked(inner: String) -> (r: Self)
        requires
            Self::spec_valid(inner@),
        ensures
            r@ == inner@,
    {
        Atom { inner }
    }

    /// Checked constructor: accepts exactly the strings `verify` accepts.
    pub fn try_from(value: &str) -> (r: Result<Self, ()>)
        ensures
            r.is_ok() == Self::spec_valid(value@),
            r matches Ok(a) ==> a@ == value@,
    {
        if Self::verify(value) {
            Ok(Atom { inner: value.to_owned() })
        } else {
            Err(())
        }
    }
}

impl Clone for Atom {
    fn clone(&self) -> (r: Self)
        ensures
            r@ == self@,
    {
        proof {
            use_type_invariant(self);
        }
        Atom { inner: self.inner.clone() }
    }
}

impl PartialEq for Atom {
    fn eq(&self, other: &Atom) -> bool {
        self.inner == other.inner
    }
}

impl vstd::std_specs::cmp::PartialEqSpecImpl for Atom {
    open spec fn obeys_eq_spec() -> bool {
        true
    }

    open spec fn eq_spec(&self, other: &Atom) -> bool {
        self@ == other@
    }
}

/// An extended atom: one or more ASTRING-CHARs (the atom form of `astring`).
#[derive(Debug, Eq, Hash)]
pub struct AtomExt {
    inner: String,
}

impl View for AtomExt {
    type V = Seq<char>;

    closed spec fn view(&self) -> Seq<char> {
        self.inner@
    }
}

impl AtomExt {
    /// What `verify` decides: non-empty, every character an ASTRING-CHAR.
    pub open spec fn spec_valid(s: Seq<char>) -> bool {
        s.len() > 0 && forall|i: int|
            0 <= i < s.len() ==> is_astring_code((#[trigger] s[i]) as u32)
    }

    #[verifier::type_invariant]
    spec fn wf(self) -> bool {
        Self::spec_valid(self.inner@)
    }

    /// Decides whether `value` is a well-formed extended atom.
    pub fn verify(value: &str) -> (b: bool)
        ensures
            b == Self::spec_valid(value@),
    {
        let len = value.unicode_len();
        if len == 0 {
            return false;
        }
        for i in 0..len
            invariant
                len == value@.len(),
                forall|j: int| 0 <= j < i ==> is_astring_code((#[trigger] value@[j]) as u32),
        {
            if !is_astring_char(value.get_char(i)) {
                return false;
            }
        }
        true
    }

    /// Read-only access to the carrier.
    pub fn inner(&self) -> (r: &str)
        ensures
            r@ == self@,
            Self::spec_valid(self@),
    {
        proof {
            use_type_invariant(self);
        }
        self.inner.as_str()
    }

    /// Wraps a string without re-checking it; the caller must already have
    /// established that it is a well-formed extended atom.
    pub fn new_unchecked(inner: String) -> (r: Self)
        requires
            Self::spec_valid(inner@),
        ensures
            r@ == inner@,
    {
        AtomExt { inner }
    }

    /// Checked constructor: accepts exactly the strings `verify` accepts.
    pub fn try_from(value: &str) -> (r: Result<Self, ()>)
        ensures
            r.is_ok() == Self::spec_valid(value@),
            r matches Ok(a) ==> a@ == value@,
    {
        if Self::verify(value) {
            Ok(AtomExt { inner: value.to_owned() })
        } else {
            Err(())
        }
    }
}

impl Clone for AtomExt {
    fn clone(&self) -> (r: Self)
        ensures
            r@ == self@,
    {
        proof {
            use_type_invariant(self);
        }
        AtomExt { inner: self.inner.clone() }
    }
}

impl PartialEq for AtomExt {
    fn eq(&self, other: &AtomExt) -> bool {
        self.inner == other.inner
    }
}

impl vstd::std_specs::cmp::PartialEqSpecImpl for AtomExt {
    open spec fn obeys_eq_spec() -> bool {
        true
    }

    open spec fn eq_spec(&self, other: &AtomExt) -> bool {
        self@ == other@
    }
}

/// A command tag: one or more ASTRING-CHARs other than `+`.
#[derive(Debug, Eq, Hash)]
pub struct Tag {
    inner: String,
}

impl View for Tag {
    type V = Seq<char>;

    closed spec fn view(&self) -> Seq<char> {
        self.inner@
    }
}

impl Tag {
    /// What `verify` decides: non-empty, every character a tag character.
    pub open spec fn spec_valid(s: Seq<char>) -> bool {
        s.len() > 0 && forall|i: int|
            0 <= i < s.len() ==> is_tag_code((#[trigger] s[i]) as u32)
    }

    #[verifier::type_invariant]
    spec fn wf(self) -> bool {
        Self::spec_valid(self.inner@)
    }

    /// Decides whether `value` is a well-formed tag.
    pub fn verify(value: &str) -> (b: bool)
        ensures
            b == Self::spec_valid(value@),
    {
        let len = value.unicode_len();
        if len == 0 {
            return false;
        }
        for i in 0..len
            invariant
                len == value@.len(),
                forall|j: int| 0 <= j < i ==> is_tag_code((#[trigger] value@[j]) as u32),
        {
            let c = value.get_char(i);
            if !is_astring_char(c) || c == '+' {
                return false;
            }
        }
        true
    }

    /// Read-only access to the carrier.
    pub fn inner(&self) -> (r: &str)
        ensures
            r@ == self@,
            Self::spec_valid(self@),
    {
        proof {
            use_type_invariant(self);
        }
        self.inner.as_str()
    }

    /// Wraps a string without re-checking it; the caller must already have
    /// established that it is a well-formed tag.
    pub fn new_unchecked(inner: String) -> (r: Self)
        requires
            Self::spec_valid(inner@),
        ensures
            r@ == inner@,
    {
        Tag { inner }
    }

    /// Checked constructor: accepts exactly the strings `verify` accepts.
    pub fn try_from(value: &str) -> (r: Result<Self, ()>)
        ensures
            r.is_ok() == Self::spec_valid(value@),
            r matches Ok(a) ==> a@ == value@,
    {
        if Self::verify(value) {
            Ok(Tag { inner: value.to_owned() })
        } else {
            Err(())
        }
    }

    /// A fresh eight-character alphanumeric tag, for clients labelling
    /// outbound commands.
    pub fn random() -> (r: Self)
        ensures
            r@.len() == 8,
            forall|i: int| 0 <= i < r@.len() ==> is_alphanumeric_code((#[trigger] r@[i]) as u8),
    {
        let mut bytes: Vec<u8> = Vec::new();
        for i in 0..8usize
            invariant
                bytes@.len() == i,
                forall|j: int| 0 <= j < i ==> is_alphanumeric_code(#[trigger] bytes@[j]),
        {
            bytes.push(sample_alphanumeric());
        }
        let inner = string_from_ascii(&bytes);
        proof {
            assert forall|i: int| 0 <= i < inner@.len() implies is_tag_code(
                (#[trigger] inner@[i]) as u32,
            ) && is_alphanumeric_code(inner@[i] as u8) by {
                assert(is_alphanumeric_code(bytes@[i]));
                crate::chars::lemma_ascii_char_roundtrip(bytes@[i] as char);
            }
        }
        Tag { inner }
    }
}

impl Clone for Tag {
    fn clone(&self) -> (r: Self)
        ensures
            r@ == self@,
    {
        proof {
            use_type_invariant(self);
        }
        Tag { inner: self.inner.clone() }
    }
}

impl PartialEq for Tag {
    fn eq(&self, other: &Tag) -> bool {
        self.inner == other.inner
    }
}

impl vstd::std_specs::cmp::PartialEqSpecImpl for Tag {
    open spec fn obeys_eq_spec() -> bool {
        true
    }

    open spec fn eq_spec(&self, other: &Tag) -> bool {
        self@ == other@
    }
}

/// The ASCII codes of `0-9`, `A-Z` and `a-z`.
pub open spec fn is_alphanumeric_code(b: u8) -> bool {
    (0x30 <= b <= 0x39) || (0x41 <= b <= 0x5a) || (0x61 <= b <= 0x7a)
}

/// Relies on `rand`'s `Alphanumeric` distribution: a sample is one byte
/// drawn from `A-Z`, `a-z`, `0-9`.
#[verifier::external_body]
fn sample_alphanumeric() -> (b: u8)
    ensures
        is_alphanumeric_code(b),
{
    rand::Rng::sample(&mut rand::thread_rng(), rand::distributions::Alphanumeric)
}

/// Human-readable response text: one or more TEXT-CHARs.
#[derive(Debug, Eq, Hash)]
pub struct Text {
    inner: String,
}

impl View for Text {
    type V = Seq<char>;

    closed spec fn view(&self) -> Seq<char> {
        self.inner@
    }
}

impl Text {
    /// What `verify` decides: non-empty, every character a TEXT-CHAR.
    pub open spec fn spec_valid(s: Seq<char>) -> bool {
        s.len() > 0 && forall|i: int|
            0 <= i < s.len() ==> is_text_code((#[trigger] s[i]) as u32)
    }

    #[verifier::type_invariant]
    spec fn wf(self) -> bool {
        Self::spec_valid(self.inner@)
    }

    /// Decides whether `value` is well-formed response text.
    pub fn verify(value: &str) -> (b: bool)
        ensures
            b == Self::spec_valid(value@),
    {
        let len = value.unicode_len();
        if len == 0 {
            return false;
        }
        for i in 0..len
            invariant
                len == value@.len(),
                forall|j: int| 0 <= j < i ==> is_text_code((#[trigger] value@[j]) as u32),
        {
            if !is_text_char(value.get_char(i)) {
                return false;
            }
        }
        true
    }

    /// Read-only access to the carrier.
    pub fn inner(&self) -> (r: &str)
        ensures
            r@ == self@,
            Self::spec_valid(self@),
    {
        proof {
            use_type_invariant(self);
        }
        self.inner.as_str()
    }

    /// Wraps a string without re-checking it; the caller must already have
    /// established that it is well-formed response text.
    pub fn new_unchecked(inner: String) -> (r: Self)
        requires
            Self::spec_valid(inner@),
        ensures
            r@ == inner@,
    {
        Text { inner }
    }

    /// Checked constructor: accepts exactly the strings `verify` accepts.
    pub fn try_from(value: &str) -> (r: Result<Self, ()>)
        ensures
            r.is_ok() == Self::spec_valid(value@),
            r matches Ok(a) ==> a@ == value@,
    {
        if Self::verify(value) {
            Ok(Text { inner: value.to_owned() })
        } else {
            Err(())
        }
    }
}

impl Clone for Text {
    fn clone(&self) -> (r: Self)
        ensures
            r@ == self@,
    {
        proof {
            use_type_invariant(self);
        }
        Text { inner: self.inner.clone() }
    }
}

impl PartialEq for Text {
    fn eq(&self, other: &Text) -> bool {
        self.inner == other.inner
    }
}

impl vstd::std_specs::cmp::PartialEqSpecImpl for Text {
    open spec fn obeys_eq_spec() -> bool {
        true
    }

    open spec fn eq_spec(&self, other: &Text) -> bool {
        self@ == other@
    }
}

}
