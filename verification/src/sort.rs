//! The SORT extension's model types: sort algorithms, criteria and keys.

use vstd::prelude::*;
use vstd::string::StrSliceExecFns;

use crate::atoms::Atom;

verus! {

/// Lower-cases one ASCII letter code; leaves every other code unchanged.
pub open spec fn to_lower_code(n: u32) -> u32 {
    if 0x41 <= n <= 0x5a {
        (n + 0x20) as u32
    } else {
        n
    }
}

/// Case-insensitive equality of two character sequences, ASCII-only.
pub open spec fn eq_nocase_chars(s: Seq<char>, t: Seq<char>) -> bool {
    s.len() == t.len() && forall|i: int|
        0 <= i < s.len() ==> to_lower_code((#[trigger] s[i]) as u32) == to_lower_code(t[i] as u32)
}

/// Lower-cases one ASCII letter code at run time.
fn to_lower(n: u32) -> (r: u32)
    ensures
        r == to_lower_code(n),
{
    if 0x41 <= n && n <= 0x5a {
        n + 0x20
    } else {
        n
    }
}

/// Case-insensitive string comparison, ASCII-only; the locale plays no part.
fn eq_nocase(a: &str, b: &str) -> (r: bool)
    ensures
        r == eq_nocase_chars(a@, b@),
{
    let alen = a.unicode_len();
    let blen = b.unicode_len();
    if alen != blen {
        return false;
    }
    for i in 0..alen
        invariant
            alen == a@.len(),
            alen == b@.len(),
            forall|j: int|
                0 <= j < i ==> to_lower_code((#[trigger] a@[j]) as u32) == to_lower_code(
                    b@[j] as u32,
                ),
    {
        if to_lower(a.get_char(i) as u32) != to_lower(b.get_char(i) as u32) {
            return false;
        }
    }
    true
}

/// A sort algorithm name: the `DISPLAY` algorithm, or an unrecognised
/// name kept verbatim.
#[derive(Debug, Eq, Hash)]
pub enum SortAlgorithm {
    /// The algorithm advertised as `SORT=DISPLAY`.
    Display,
    /// Any other algorithm name.
    Other(SortAlgorithmOther),
}

impl SortAlgorithm {
    /// Equality of algorithm names, the meaning of `==`.
    pub open spec fn spec_eq(&self, other: &SortAlgorithm) -> bool {
        match (self, other) {
            (SortAlgorithm::Display, SortAlgorithm::Display) => true,
            (SortAlgorithm::Other(a), SortAlgorithm::Other(b)) => a@ == b@,
            _ => false,
        }
    }

    /// Classifies an atom: the name `display`, compared without regard to
    /// ASCII case, is the `DISPLAY` algorithm; any other name is kept.
    pub fn from(value: Atom) -> (r: Self)
        ensures
            eq_nocase_chars(value@, "display"@) ==> r == SortAlgorithm::Display,
            !eq_nocase_chars(value@, "display"@) ==> (r matches SortAlgorithm::Other(o) && o@
                == value@),
    {
        if eq_nocase(value.inner(), "display") {
            SortAlgorithm::Display
        } else {
            SortAlgorithm::Other(SortAlgorithmOther(value))
        }
    }

    /// The canonical wire text of the algorithm name.
    pub fn to_text(&self) -> (r: String)
        ensures
            self matches SortAlgorithm::Display ==> r@ == "DISPLAY"@,
            self matches SortAlgorithm::Other(o) ==> r@ == o@,
    {
        match self {
            SortAlgorithm::Display => "DISPLAY".to_owned(),
            SortAlgorithm::Other(other) => other.as_ref().to_owned(),
        }
    }
}

impl Clone for SortAlgorithm {
    fn clone(&self) -> (r: Self)
        ensures
            r.spec_eq(self),
    {
        match self {
            SortAlgorithm::Display => SortAlgorithm::Display,
            SortAlgorithm::Other(other) => SortAlgorithm::Other(other.clone()),
        }
    }
}

impl PartialEq for SortAlgorithm {
    fn eq(&self, other: &SortAlgorithm) -> bool {
        match (self, other) {
            (SortAlgorithm::Display, SortAlgorithm::Display) => true,
            (SortAlgorithm::Other(a), SortAlgorithm::Other(b)) => a == b,
            _ => false,
        }
    }
}

impl vstd::std_specs::cmp::PartialEqSpecImpl for SortAlgorithm {
    open spec fn obeys_eq_spec() -> bool {
        true
    }

    open spec fn eq_spec(&self, other: &SortAlgorithm) -> bool {
        self.spec_eq(other)
    }
}

/// A sort algorithm name other than the recognised ones.
#[derive(Debug, Eq, Hash)]
pub struct SortAlgorithmOther(Atom);

impl View for SortAlgorithmOther {
    type V = Seq<char>;

    closed spec fn view(&self) -> Seq<char> {
        self.0@
    }
}

impl SortAlgorithmOther {
    /// The name as text.
    pub fn as_ref(&self) -> (r: &str)
        ensures
            r@ == self@,
    {
        self.0.inner()
    }
}

impl Clone for SortAlgorithmOther {
    fn clone(&self) -> (r: Self)
        ensures
            r@ == self@,
    {
        SortAlgorithmOther(self.0.clone())
    }
}

impl PartialEq for SortAlgorithmOther {
    fn eq(&self, other: &SortAlgorithmOther) -> bool {
        self.0 == other.0
    }
}

impl vstd::std_specs::cmp::PartialEqSpecImpl for SortAlgorithmOther {
    open spec fn obeys_eq_spec() -> bool {
        true
    }

    open spec fn eq_spec(&self, other: &SortAlgorithmOther) -> bool {
        self@ == other@
    }
}

/// One sort criterion: a key, possibly reversed.
#[derive(Debug, Clone, Copy, PartialEq, Eq, Hash, Structural)]
pub struct SortCriterion {
    /// Whether the ordering under `key` is to be reversed.
    pub reverse: bool,
    /// The property of a message to sort by.
    pub key: SortKey,
}

/// The property of a message that a sort criterion orders by.
#[derive(Debug, Clone, Copy, PartialEq, Eq, Hash, Structural)]
pub enum SortKey {
    /// Internal date and time of the message.
    Arrival,
    /// First address in the Cc header.
    Cc,
    /// Date header, with missing dates sorting first.
    Date,
    /// First address in the From header.
    From,
    /// Size of the message in octets.
    Size,
    /// Subject header with leading noise removed.
    Subject,
    /// First address in the To header.
    To,
    /// Display name from the From header; needs `SORT=DISPLAY`.
    DisplayFrom,
    /// Display name from the To header; needs `SORT=DISPLAY`.
    DisplayTo,
}

impl SortKey {
    /// The canonical wire form of the key.
    pub open spec fn spec_name(&self) -> Seq<char> {
        match self {
            SortKey::Arrival => "ARRIVAL"@,
            SortKey::Cc => "CC"@,
            SortKey::Date => "DATE"@,
            SortKey::From => "FROM"@,
            SortKey::Size => "SIZE"@,
            SortKey::Subject => "SUBJECT"@,
            SortKey::To => "TO"@,
            SortKey::DisplayFrom => "DISPLAYFROM"@,
            SortKey::DisplayTo => "DISPLAYTO"@,
        }
    }

    /// The canonical wire form of the key.
    pub fn as_ref(&self) -> (r: &'static str)
        ensures
            r@ == self.spec_name(),
    {
        match self {
            SortKey::Arrival => "ARRIVAL",
            SortKey::Cc => "CC",
            SortKey::Date => "DATE",
            SortKey::From => "FROM",
            SortKey::Size => "SIZE",
            SortKey::Subject => "SUBJECT",
            SortKey::To => "TO",
            SortKey::DisplayFrom => "DISPLAYFROM",
            SortKey::DisplayTo => "DISPLAYTO",
        }
    }
}

}
