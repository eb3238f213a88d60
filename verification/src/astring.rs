//! The `string`, `astring` and `nstring` productions.
//!
//! These productions overlap: an astring may be an atom, a quoted string
//! or a literal, and an nstring may be `NIL` or either string form.  One
//! byte of lookahead settles every case: `"` opens a quoted string, `{`
//! opens a literal, `N` opens `NIL` where it is allowed, and anything
//! else can only belong to an atom.

use vstd::prelude::*;

use crate::atoms::AtomExt;
use crate::chars::{is_astring_code, string_from_ascii};
use crate::encode::encoded_istring;
use crate::literal::{can_literal, inc_literal_at, literal, literal_at};
use crate::parse::{matches_nocase, prefix_nocase, token_nocase, Needed, ParseError};
use crate::quoted::{can_quoted, inc_quoted_at, is_quoted_at, quoted};
use crate::strings::{AString, IString, Literal, NString, Quoted};

verus! {

/// `input[at..next]` is a string in the wire form that `v` carries.
pub open spec fn is_string_at(input: Seq<u8>, at: int, next: int, v: &IString) -> bool {
    match v {
        IString::Quoted(q) => is_quoted_at(input, at, next, q@),
        IString::Literal(l) => literal_at(input, at, next, l@),
    }
}

/// A string in either form can be parsed at `at`.
pub open spec fn can_string(input: Seq<u8>, at: int) -> bool {
    &&& 0 <= at < input.len()
    &&& ((input[at] == 0x22 && can_quoted(input, at)) || (input[at] == 0x7b && can_literal(
        input,
        at,
    )))
}

/// The input ends inside a string that has matched so far.
pub open spec fn inc_string_at(input: Seq<u8>, at: int) -> bool {
    ||| at == input.len()
    ||| (0 <= at < input.len() && input[at] == 0x22 && inc_quoted_at(input, at))
    ||| (0 <= at < input.len() && input[at] == 0x7b && inc_literal_at(input, at))
}

/// Parses the production `string` (quoted or literal) at offset `from`.
pub fn string(input: &[u8], from: usize) -> (r: Result<(usize, IString), ParseError>)
    requires
        from <= input@.len(),
    ensures
        r matches Ok((next, s)) ==> is_string_at(input@, from as int, next as int, &s) && next
            <= input@.len(),
        (r is Ok) == can_string(input@, from as int),
        (r matches Err(ParseError::Incomplete(_))) <==> (!can_string(input@, from as int)
            && inc_string_at(input@, from as int)),
        r matches Err(ParseError::Failed(p)) ==> p == from,
{
    let n = input.len();
    if from == n {
        return Err(ParseError::Incomplete(Needed::Unknown));
    }
    if input[from] == 0x22 {
        match quoted(input, from) {
            Ok((next, q)) => Ok((next, IString::Quoted(q))),
            Err(e) => Err(e),
        }
    } else if input[from] == 0x7b {
        match literal(input, from) {
            Ok((next, l)) => Ok((next, IString::Literal(l))),
            Err(e) => Err(e),
        }
    } else {
        Err(ParseError::Failed(from))
    }
}

/// The characters spelled by `input[at..e]`.
pub open spec fn run_chars(input: Seq<u8>, at: int, e: int) -> Seq<char> {
    Seq::new((e - at) as nat, |i: int| input[at + i] as char)
}

/// Every octet of `input[at..e]` is an ASTRING-CHAR.
pub open spec fn astring_run(input: Seq<u8>, at: int, e: int) -> bool {
    forall|i: int| at <= i < e ==> is_astring_code((#[trigger] input[i]) as u32)
}

/// `input[at..next]` is an astring in the form that `v` carries.  The
/// atom form is maximal: the octet after it is not an ASTRING-CHAR.
pub open spec fn is_astring_at(input: Seq<u8>, at: int, next: int, v: &AString) -> bool {
    match v {
        AString::Atom(a) => {
            &&& 0 <= at < next < input.len()
            &&& astring_run(input, at, next)
            &&& !is_astring_code(input[next] as u32)
            &&& a@ == run_chars(input, at, next)
        },
        AString::String(s) => is_string_at(input, at, next, s),
    }
}

/// An astring can be parsed at `at`.
pub open spec fn can_astring(input: Seq<u8>, at: int) -> bool {
    &&& 0 <= at < input.len()
    &&& {
        ||| (input[at] == 0x22 && can_quoted(input, at))
        ||| (input[at] == 0x7b && can_literal(input, at))
        ||| (is_astring_code(input[at] as u32) && exists|e: int|
            at < e < input.len() && astring_run(input, at, e) && !is_astring_code(
                (#[trigger] input[e]) as u32,
            ))
    }
}

/// The input ends inside an astring that has matched so far.
pub open spec fn inc_astring_at(input: Seq<u8>, at: int) -> bool {
    ||| at == input.len()
    ||| (0 <= at < input.len() && input[at] == 0x22 && inc_quoted_at(input, at))
    ||| (0 <= at < input.len() && input[at] == 0x7b && inc_literal_at(input, at))
    ||| (0 <= at < input.len() && is_astring_code(input[at] as u32) && astring_run(
        input,
        at,
        input.len() as int,
    ))
}

/// Parses the production `astring` at offset `from`.  An atom run that
/// reaches the end of the input asks for more: only a following
/// non-atom octet shows where the atom ends.
pub fn astring(input: &[u8], from: usize) -> (r: Result<(usize, AString), ParseError>)
    requires
        from <= input@.len(),
    ensures
        r matches Ok((next, v)) ==> is_astring_at(input@, from as int, next as int, &v) && next
            <= input@.len(),
        (r is Ok) == can_astring(input@, from as int),
        (r matches Err(ParseError::Incomplete(_))) <==> (!can_astring(input@, from as int)
            && inc_astring_at(input@, from as int)),
        r matches Err(ParseError::Failed(p)) ==> p == from,
{
    let n = input.len();
    if from == n {
        return Err(ParseError::Incomplete(Needed::Unknown));
    }
    let b0 = input[from];
    if b0 == 0x22 {
        match quoted(input, from) {
            Ok((next, q)) => Ok((next, AString::String(IString::Quoted(q)))),
            Err(e) => {
                proof {
                    assert(!is_astring_code(0x22));
                }
                Err(e)
            },
        }
    } else if b0 == 0x7b {
        match literal(input, from) {
            Ok((next, l)) => Ok((next, AString::String(IString::Literal(l)))),
            Err(e) => {
                proof {
                    assert(!is_astring_code(0x7b));
                }
                Err(e)
            },
        }
    } else {
        let mut i = from;
        loop
            invariant_except_break
                from <= i <= n,
                n == input@.len(),
                astring_run(input@, from as int, i as int),
            ensures
                from <= i <= n,
                n == input@.len(),
                astring_run(input@, from as int, i as int),
                i == n || !is_astring_code(input@[i as int] as u32),
            decreases n - i,
        {
            if i == n {
                break;
            }
            if !crate::chars::is_astring_char_byte(input[i]) {
                break;
            }
            i += 1;
        }
        if i == from {
            // not even one ASTRING-CHAR: no astring form can start here
            return Err(ParseError::Failed(from));
        }
        if i == n {
            // the run reaches the end: its extent is not yet known
            proof {
                assert(inc_astring_at(input@, from as int));
                assert forall|e: int|
                    #![trigger input@[e]]
                    !((from as int) < e && e < input@.len() && astring_run(input@, from as int, e)
                        && !is_astring_code(input@[e] as u32)) by {
                    if (from as int) < e && e < input@.len() {
                        assert(is_astring_code(input@[e] as u32));
                    }
                }
            }
            return Err(ParseError::Incomplete(Needed::Unknown));
        }
        let run = vstd::slice::slice_to_vec(vstd::slice::slice_subrange(input, from, i));
        proof {
            assert forall|j: int| 0 <= j < run@.len() implies run@[j] < 0x80 by {
                assert(is_astring_code(input@[from + j] as u32));
            }
        }
        let s = string_from_ascii(&run);
        proof {
            assert forall|j: int| 0 <= j < s@.len() implies is_astring_code(
                (#[trigger] s@[j]) as u32,
            ) by {
                assert(s@[j] == run@[j] as char);
                assert(is_astring_code(input@[from + j] as u32));
                crate::chars::lemma_ascii_char_roundtrip(input@[from + j] as char);
            }
            assert forall|j: int| 0 <= j < s@.len() implies s@[j] == run_chars(
                input@,
                from as int,
                i as int,
            )[j] by {
                assert(s@[j] == run@[j] as char);
                assert(run@[j] == input@[from + j]);
            }
            assert(s@ =~= run_chars(input@, from as int, i as int));
        }
        let a = AtomExt::new_unchecked(s);
        proof {
            assert(is_astring_code(input@[from as int] as u32));
        }
        Ok((i, AString::Atom(a)))
    }
}

/// The wire form of the absent-string token `NIL`.
pub open spec fn nil_bytes() -> Seq<u8> {
    seq![0x4eu8, 0x49u8, 0x4cu8]
}

/// `input[at..next]` is an nstring in the form that `v` carries: the
/// token `NIL` for an absent string.
pub open spec fn is_nstring_at(input: Seq<u8>, at: int, next: int, v: &NString) -> bool {
    match &v.0 {
        None => matches_nocase(input, at, nil_bytes()) && next == at + 3,
        Some(s) => is_string_at(input, at, next, s),
    }
}

/// An nstring can be parsed at `at`.
pub open spec fn can_nstring(input: Seq<u8>, at: int) -> bool {
    &&& 0 <= at < input.len()
    &&& {
        ||| (input[at] == 0x22 && can_quoted(input, at))
        ||| (input[at] == 0x7b && can_literal(input, at))
        ||| ((input[at] == 0x4e || input[at] == 0x6e) && matches_nocase(input, at, nil_bytes()))
    }
}

/// The input ends inside an nstring that has matched so far.
pub open spec fn inc_nstring_at(input: Seq<u8>, at: int) -> bool {
    ||| at == input.len()
    ||| (0 <= at < input.len() && input[at] == 0x22 && inc_quoted_at(input, at))
    ||| (0 <= at < input.len() && input[at] == 0x7b && inc_literal_at(input, at))
    ||| (0 <= at < input.len() && (input[at] == 0x4e || input[at] == 0x6e) && prefix_nocase(
        input,
        at,
        nil_bytes(),
    ))
}

/// Parses the production `nstring` at offset `from`: `NIL`, matched
/// without regard to case, stands for the absent string.
pub fn nstring(input: &[u8], from: usize) -> (r: Result<(usize, NString), ParseError>)
    requires
        from <= input@.len(),
    ensures
        r matches Ok((next, v)) ==> is_nstring_at(input@, from as int, next as int, &v) && next
            <= input@.len(),
        (r is Ok) == can_nstring(input@, from as int),
        (r matches Err(ParseError::Incomplete(_))) <==> (!can_nstring(input@, from as int)
            && inc_nstring_at(input@, from as int)),
        r matches Err(ParseError::Failed(p)) ==> p == from,
{
    let n = input.len();
    if from == n {
        return Err(ParseError::Incomplete(Needed::Unknown));
    }
    let b0 = input[from];
    if b0 == 0x22 {
        match quoted(input, from) {
            Ok((next, q)) => Ok((next, NString(Some(IString::Quoted(q))))),
            Err(e) => Err(e),
        }
    } else if b0 == 0x7b {
        match literal(input, from) {
            Ok((next, l)) => Ok((next, NString(Some(IString::Literal(l))))),
            Err(e) => Err(e),
        }
    } else if b0 == 0x4e || b0 == 0x6e {
        let tok: [u8; 3] = [0x4e, 0x49, 0x4c];
        proof {
            assert(tok@ =~= nil_bytes());
        }
        match token_nocase(input, from, tok.as_slice()) {
            Ok(next) => Ok((next, NString(None))),
            Err(e) => Err(e),
        }
    } else {
        Err(ParseError::Failed(from))
    }
}

/// Round trip: a string value's wire form parses back to it, in
/// whichever representation the value carries.
pub proof fn lemma_string_round_trip(v: &IString)
    requires
        v matches IString::Quoted(q) ==> Quoted::spec_valid(q@),
        v matches IString::Literal(l) ==> Literal::spec_valid(l@) && l@.len() <= 0xffff_ffff,
    ensures
        is_string_at(encoded_istring(v), 0, encoded_istring(v).len() as int, v),
{
    match v {
        IString::Quoted(q) => crate::quoted::lemma_quoted_round_trip(q@),
        IString::Literal(l) => crate::literal::lemma_literal_round_trip(l@),
    }
}

}
