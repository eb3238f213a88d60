//! The `quoted` production: double-quoted 7-bit text, with `\"` and `\\`
//! as the only escapes.

use vstd::prelude::*;

use crate::chars::{is_quoted_specials_code, is_text_code, string_from_ascii};
use crate::encode::{encoded_quoted, esc_char, quoted_body};
use crate::parse::{Needed, ParseError};
use crate::strings::Quoted;

verus! {

/// A body octet that stands for itself: a TEXT-CHAR other than the
/// quoted-specials.
pub open spec fn is_plain_quoted_byte(b: u8) -> bool {
    is_text_code(b as u32) && !is_quoted_specials_code(b as u32)
}

/// A quoted-special octet: `"` or `\`.
pub open spec fn is_quoted_specials_byte(b: u8) -> bool {
    is_quoted_specials_code(b as u32)
}

/// Puts already-decoded characters in front of a decoder's answer.
pub open spec fn prepend(p: Seq<char>, o: Option<(int, Seq<char>)>) -> Option<(int, Seq<char>)> {
    match o {
        Some(nc) => Some((nc.0, p + nc.1)),
        None => None,
    }
}

/// Decodes the body of a quoted string from `i` up to and including the
/// closing quote: the position just past that quote, and the characters
/// the body spells.  `None` when the octets do not form a quoted body.
pub open spec fn quoted_tail(input: Seq<u8>, i: int) -> Option<(int, Seq<char>)>
    decreases input.len() - i,
{
    if i < 0 || i >= input.len() {
        None
    } else if input[i] == 0x22 {
        Some((i + 1, Seq::<char>::empty()))
    } else if input[i] == 0x5c {
        if i + 1 < input.len() && is_quoted_specials_byte(input[i + 1]) {
            prepend(seq![input[i + 1] as char], quoted_tail(input, i + 2))
        } else {
            None
        }
    } else if is_plain_quoted_byte(input[i]) {
        prepend(seq![input[i] as char], quoted_tail(input, i + 1))
    } else {
        None
    }
}

/// `input[at..next]` is a quoted string whose content is `content`.
pub open spec fn is_quoted_at(input: Seq<u8>, at: int, next: int, content: Seq<char>) -> bool {
    &&& 0 <= at < input.len()
    &&& input[at] == 0x22
    &&& quoted_tail(input, at + 1) == Some((next, content))
}

/// A quoted string can be parsed at `at`.
pub open spec fn can_quoted(input: Seq<u8>, at: int) -> bool {
    &&& 0 <= at < input.len()
    &&& input[at] == 0x22
    &&& quoted_tail(input, at + 1) is Some
}

/// Scanning the body from `i` runs off the end of the input without a
/// closing quote, everything seen being well-formed.
pub open spec fn quoted_open_at(input: Seq<u8>, i: int) -> bool
    decreases input.len() - i,
{
    if i >= input.len() {
        true
    } else if i < 0 || input[i] == 0x22 {
        false
    } else if input[i] == 0x5c {
        i + 1 >= input.len() || (is_quoted_specials_byte(input[i + 1]) && quoted_open_at(
            input,
            i + 2,
        ))
    } else if is_plain_quoted_byte(input[i]) {
        quoted_open_at(input, i + 1)
    } else {
        false
    }
}

/// The input ends inside a quoted string that has matched so far.
pub open spec fn inc_quoted_at(input: Seq<u8>, at: int) -> bool {
    ||| at == input.len()
    ||| (0 <= at < input.len() && input[at] == 0x22 && quoted_open_at(input, at + 1))
}

/// The characters spelled by the body octets collected so far.
pub open spec fn body_chars(body: Seq<u8>) -> Seq<char> {
    Seq::new(body.len(), |j: int| body[j] as char)
}

/// A body octet as collected by the scanner: either plain or one of the
/// two escapable octets.
pub open spec fn is_plain_or_special(b: u8) -> bool {
    is_plain_quoted_byte(b) || is_quoted_specials_byte(b)
}

/// Whatever the decoder accepts is valid quoted content, and it ends
/// within the input.
proof fn lemma_quoted_tail_valid(input: Seq<u8>, i: int, next: int, content: Seq<char>)
    requires
        quoted_tail(input, i) == Some((next, content)),
    ensures
        Quoted::spec_valid(content),
        i < next <= input.len(),
    decreases input.len() - i,
{
    if input[i] == 0x22 {
    } else if input[i] == 0x5c {
        let (n2, c2) = quoted_tail(input, i + 2).unwrap();
        lemma_quoted_tail_valid(input, i + 2, n2, c2);
        assert forall|j: int| 0 <= j < content.len() implies is_text_code(
            (#[trigger] content[j]) as u32,
        ) by {
            if j > 0 {
                assert(content[j] == c2[j - 1]);
            }
        }
    } else {
        let (n2, c2) = quoted_tail(input, i + 1).unwrap();
        lemma_quoted_tail_valid(input, i + 1, n2, c2);
        assert forall|j: int| 0 <= j < content.len() implies is_text_code(
            (#[trigger] content[j]) as u32,
        ) by {
            if j > 0 {
                assert(content[j] == c2[j - 1]);
            }
        }
    }
}

/// One decoding step: after taking one octet's character, the decoded
/// whole is the collected octets, the new character, then the rest.
proof fn lemma_prepend_chain(input: Seq<u8>, start: int, i: int, i2: int, body: Seq<u8>, b: u8)
    requires
        quoted_tail(input, start) == prepend(body_chars(body), quoted_tail(input, i)),
        quoted_tail(input, i) == prepend(seq![b as char], quoted_tail(input, i2)),
    ensures
        quoted_tail(input, start) == prepend(body_chars(body.push(b)), quoted_tail(input, i2)),
{
    match quoted_tail(input, i2) {
        Some(nc) => {
            assert(body_chars(body) + (seq![b as char] + nc.1) =~= body_chars(body.push(b))
                + nc.1);
        },
        None => {},
    }
}

/// Parses the production `quoted` at offset `from`.
pub fn quoted(input: &[u8], from: usize) -> (r: Result<(usize, Quoted), ParseError>)
    requires
        from <= input@.len(),
    ensures
        r matches Ok((next, q)) ==> is_quoted_at(input@, from as int, next as int, q@) && next
            <= input@.len(),
        (r is Ok) == can_quoted(input@, from as int),
        (r matches Err(ParseError::Incomplete(_))) <==> (!can_quoted(input@, from as int)
            && inc_quoted_at(input@, from as int)),
        r matches Err(ParseError::Incomplete(n)) ==> n == Needed::Unknown,
        r matches Err(ParseError::Failed(p)) ==> p == from,
{
    let n = input.len();
    if from == n {
        return Err(ParseError::Incomplete(Needed::Unknown));
    }
    if input[from] != 0x22 {
        return Err(ParseError::Failed(from));
    }
    let ghost start = from as int + 1;
    let mut i = from + 1;
    let mut body: Vec<u8> = Vec::new();
    proof {
        assert(quoted_tail(input@, start) == prepend(
            body_chars(body@),
            quoted_tail(input@, i as int),
        )) by {
            match quoted_tail(input@, start) {
                Some(nc) => {
                    assert(body_chars(body@) + nc.1 =~= nc.1);
                },
                None => {},
            }
        }
    }
    loop
        invariant_except_break
            from + 1 <= i <= n,
            n == input@.len(),
            start == from as int + 1,
            input@[from as int] == 0x22,
            forall|j: int| 0 <= j < body@.len() ==> is_plain_or_special(#[trigger] body@[j]),
            quoted_tail(input@, start) == prepend(
                body_chars(body@),
                quoted_tail(input@, i as int),
            ),
            quoted_open_at(input@, start) == quoted_open_at(input@, i as int),
        ensures
            from + 1 <= i < n,
            n == input@.len(),
            input@[from as int] == 0x22,
            forall|j: int| 0 <= j < body@.len() ==> is_plain_or_special(#[trigger] body@[j]),
            quoted_tail(input@, start) == Some((i + 1 as int, body_chars(body@))),
        decreases n - i,
    {
        if i == n {
            // the closing quote has not arrived
            proof {
                assert(quoted_tail(input@, i as int) is None);
                assert(quoted_open_at(input@, i as int));
            }
            return Err(ParseError::Incomplete(Needed::Unknown));
        }
        let b = input[i];
        if b == 0x22 {
            proof {
                assert(quoted_tail(input@, i as int) == Some((i + 1 as int, Seq::<char>::empty())));
                assert(body_chars(body@) + Seq::<char>::empty() =~= body_chars(body@));
            }
            break;
        }
        if b == 0x5c {
            // escape: the next octet must be a quoted-special
            if i + 1 == n {
                proof {
                    assert(quoted_tail(input@, i as int) is None);
                    assert(quoted_open_at(input@, i as int));
                }
                return Err(ParseError::Incomplete(Needed::Unknown));
            }
            let b2 = input[i + 1];
            if b2 != 0x22 && b2 != 0x5c {
                proof {
                    assert(quoted_tail(input@, i as int) is None);
                    assert(!quoted_open_at(input@, i as int));
                }
                return Err(ParseError::Failed(from));
            }
            proof {
                lemma_prepend_chain(
                    input@,
                    start,
                    i as int,
                    i as int + 2,
                    body@,
                    input@[i as int + 1],
                );
            }
            body.push(b2);
            i = i + 2;
        } else if 0 < b && b < 0x80 && b != 0x0d && b != 0x0a {
            // a TEXT-CHAR standing for itself
            proof {
                lemma_prepend_chain(input@, start, i as int, i as int + 1, body@, input@[i as int]);
            }
            body.push(b);
            i = i + 1;
        } else {
            // NUL, CR, LF or an 8-bit octet: not allowed inside quotes
            proof {
                assert(quoted_tail(input@, i as int) is None);
                assert(!quoted_open_at(input@, i as int));
            }
            return Err(ParseError::Failed(from));
        }
    }
    proof {
        assert forall|j: int| 0 <= j < body@.len() implies body@[j] < 0x80 by {
            assert(is_plain_or_special(body@[j]));
        }
    }
    let content = string_from_ascii(&body);
    proof {
        assert(content@ =~= body_chars(body@));
        lemma_quoted_tail_valid(input@, from as int + 1, i + 1 as int, content@);
        assert(is_quoted_at(input@, from as int, i + 1 as int, content@));
    }
    let q = Quoted::new_unchecked(content);
    Ok((i + 1, q))
}

/// The escaped body read from the front: the first character's escape,
/// then the rest.
proof fn lemma_quoted_body_front(c: Seq<char>)
    requires
        c.len() > 0,
    ensures
        quoted_body(c) == esc_char(c[0]) + quoted_body(c.drop_first()),
    decreases c.len(),
{
    if c.len() == 1 {
        assert(c.drop_last() =~= Seq::<char>::empty());
        assert(c.drop_first() =~= Seq::<char>::empty());
        assert(Seq::<u8>::empty() + esc_char(c[0]) =~= esc_char(c[0]) + Seq::<u8>::empty());
    } else {
        let d = c.drop_last();
        lemma_quoted_body_front(d);
        assert(d.drop_first() =~= c.drop_first().drop_last());
        assert(c.drop_first().last() == c.last());
        assert((esc_char(c[0]) + quoted_body(d.drop_first())) + esc_char(c.last()) =~= esc_char(
            c[0],
        ) + (quoted_body(c.drop_first().drop_last()) + esc_char(c.drop_first().last())));
    }
}

/// An escaped body sitting in a buffer, followed by a closing quote,
/// decodes to exactly the characters it was made from.
proof fn lemma_quoted_body_parses(input: Seq<u8>, i: int, content: Seq<char>)
    requires
        Quoted::spec_valid(content),
        0 <= i,
        i + quoted_body(content).len() < input.len(),
        input.subrange(i, i + quoted_body(content).len() as int) == quoted_body(content),
        input[i + quoted_body(content).len()] == 0x22,
    ensures
        quoted_tail(input, i) == Some(
            (i + quoted_body(content).len() + 1, content),
        ),
    decreases content.len(),
{
    let bl = quoted_body(content).len() as int;
    if content.len() == 0 {
        assert(input[i] == 0x22);
    } else {
        lemma_quoted_body_front(content);
        let c0 = content[0];
        let rest = content.drop_first();
        let el = esc_char(c0).len() as int;
        assert((c0 as u32) < 0x80);
        crate::chars::lemma_ascii_char_roundtrip(c0);
        assert(Quoted::spec_valid(rest)) by {
            assert forall|j: int| 0 <= j < rest.len() implies is_text_code(
                (#[trigger] rest[j]) as u32,
            ) by {
                assert(rest[j] == content[j + 1]);
            }
        }
        assert forall|j: int| 0 <= j < quoted_body(rest).len() implies input.subrange(
            i + el,
            i + el + quoted_body(rest).len() as int,
        )[j] == quoted_body(rest)[j] by {
            assert(input.subrange(i, i + bl)[el + j] == quoted_body(content)[el + j]);
            assert(quoted_body(content)[el + j] == quoted_body(rest)[j]);
        }
        assert(input.subrange(i + el, i + el + quoted_body(rest).len() as int) =~= quoted_body(
            rest,
        ));
        assert(input[i + el + quoted_body(rest).len()] == 0x22);
        lemma_quoted_body_parses(input, i + el, rest);
        if c0 == '"' || c0 == '\\' {
            assert(input.subrange(i, i + bl)[0] == quoted_body(content)[0]);
            assert(input.subrange(i, i + bl)[1] == quoted_body(content)[1]);
            assert(input[i] == 0x5c);
            assert(input[i + 1] == c0 as u8);
            assert(is_quoted_specials_byte(input[i + 1]));
            assert(input[i + 1] as char == c0);
            assert(seq![c0] + rest =~= content);
        } else {
            assert(input.subrange(i, i + bl)[0] == quoted_body(content)[0]);
            assert(input[i] == c0 as u8);
            assert(is_plain_quoted_byte(input[i]));
            assert(input[i] as char == c0);
            assert(seq![c0] + rest =~= content);
        }
    }
}

/// Round trip: the octets the encoder writes for a quoted string parse
/// back to the same content, consuming all of them.
pub proof fn lemma_quoted_round_trip(content: Seq<char>)
    requires
        Quoted::spec_valid(content),
    ensures
        is_quoted_at(
            encoded_quoted(content),
            0,
            encoded_quoted(content).len() as int,
            content,
        ),
{
    let e = encoded_quoted(content);
    let bl = quoted_body(content).len() as int;
    assert(e.len() == bl + 2);
    assert(e[0] == 0x22);
    assert(e[bl + 1] == 0x22);
    assert forall|j: int| 0 <= j < bl implies e.subrange(1, 1 + bl)[j] == quoted_body(content)[j]
        by {}
    assert(e.subrange(1, 1 + bl) =~= quoted_body(content));
    lemma_quoted_body_parses(e, 1, content);
}

}
