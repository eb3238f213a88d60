//! The `literal` production: `{` octet-count `}` CRLF, then exactly that
//! many octets.
//!
//! This is what lets IMAP carry CR, LF and 8-bit payloads inline: the
//! count is announced mid-stream, and a parser that runs out of payload
//! can say exactly how many more octets it needs.

use vstd::prelude::*;
use vstd::slice::{slice_subrange, slice_to_vec};

use crate::encode::{dec_bytes, encoded_literal};
use crate::parse::{Needed, ParseError};
use crate::strings::Literal;

verus! {

/// An ASCII decimal digit.
pub open spec fn is_digit_code(b: u8) -> bool {
    0x30 <= b <= 0x39
}

/// Every octet of `input[a..d]` is a decimal digit.
pub open spec fn digits_run(input: Seq<u8>, a: int, d: int) -> bool {
    forall|i: int| a <= i < d ==> is_digit_code(#[trigger] input[i])
}

/// The number a digit string denotes.
pub open spec fn dec_val(s: Seq<u8>) -> nat
    decreases s.len(),
{
    if s.len() == 0 {
        0
    } else {
        dec_val(s.drop_last()) * 10 + ((s.last() - 0x30) as nat)
    }
}

/// `input[at..d+3]` is a complete literal header `{` digits `}` CR LF,
/// with the digits ending at `d`.
pub open spec fn literal_header_at(input: Seq<u8>, at: int, d: int) -> bool {
    &&& 0 <= at
    &&& at + 1 < d
    &&& d + 3 <= input.len()
    &&& input[at] == 0x7b
    &&& digits_run(input, at + 1, d)
    &&& input[d] == 0x7d
    &&& input[d + 1] == 0x0d
    &&& input[d + 2] == 0x0a
}

/// The octet count the header announces.
pub open spec fn literal_count(input: Seq<u8>, at: int, d: int) -> nat {
    dec_val(input.subrange(at + 1, d))
}

/// `input[at..next]` is a complete literal whose body is `content`, with
/// the digits ending at `d`.
pub open spec fn literal_at_d(
    input: Seq<u8>,
    at: int,
    next: int,
    content: Seq<u8>,
    d: int,
) -> bool {
    &&& literal_header_at(input, at, d)
    &&& literal_count(input, at, d) <= 0xffff_ffff
    &&& next == d + 3 + literal_count(input, at, d)
    &&& next <= input.len()
    &&& content == input.subrange(d + 3, next)
    &&& Literal::spec_valid(content)
}

/// `input[at..next]` is a complete literal whose body is `content`.
pub open spec fn literal_at(input: Seq<u8>, at: int, next: int, content: Seq<u8>) -> bool {
    exists|d: int| literal_at_d(input, at, next, content, d)
}

/// Some literal can be parsed at `at`.
pub open spec fn can_literal(input: Seq<u8>, at: int) -> bool {
    exists|next: int, content: Seq<u8>| literal_at(input, at, next, content)
}

/// The header is complete and small enough, but the input ends before
/// the announced count of payload octets.
pub open spec fn payload_short(input: Seq<u8>, at: int, d: int) -> bool {
    &&& literal_header_at(input, at, d)
    &&& literal_count(input, at, d) <= 0xffff_ffff
    &&& input.len() < d + 3 + literal_count(input, at, d)
}

/// The input ends inside the header: `{`, some digits, and what follows
/// of `}` CR LF, cut short by the end of the input.
pub open spec fn inc_header(input: Seq<u8>, at: int) -> bool {
    &&& 0 <= at
    &&& (at == input.len() || (at < input.len() && input[at] == 0x7b && {
        ||| digits_run(input, at + 1, input.len() as int)
        ||| exists|d: int|
            #![trigger input[d]]
            {
                &&& at + 1 < d < input.len()
                &&& digits_run(input, at + 1, d)
                &&& input[d] == 0x7d
                &&& (d + 1 == input.len() || (input[d + 1] == 0x0d && d + 2 == input.len()))
            }
    }))
}

/// The input ends somewhere inside a literal that has matched so far.
pub open spec fn inc_literal_at(input: Seq<u8>, at: int) -> bool {
    ||| inc_header(input, at)
    ||| exists|d: int| payload_short(input, at, d)
}

/// A longer digit string never denotes a smaller number.
proof fn lemma_dec_val_prefix_le(input: Seq<u8>, a: int, j: int, d: int)
    requires
        0 <= a <= j <= d <= input.len(),
    ensures
        dec_val(input.subrange(a, d)) >= dec_val(input.subrange(a, j)),
    decreases d - j,
{
    if j < d {
        lemma_dec_val_prefix_le(input, a, j, d - 1);
        assert(input.subrange(a, d).drop_last() =~= input.subrange(a, d - 1));
    }
}

/// Digit runs ending in `}` end at one place only.
proof fn lemma_digit_end_unique(input: Seq<u8>, a: int, d1: int, d2: int)
    requires
        a <= d1 <= input.len(),
        a <= d2 <= input.len(),
        digits_run(input, a, d1),
        digits_run(input, a, d2),
        d1 < input.len() && input[d1] == 0x7d,
        d2 < input.len() && input[d2] == 0x7d,
    ensures
        d1 == d2,
{
    assert(!is_digit_code(0x7d));
    if d1 < d2 {
        assert(is_digit_code(input[d1]));
    }
    if d2 < d1 {
        assert(is_digit_code(input[d2]));
    }
}

/// Parses the production `literal` at offset `from`.  When the announced
/// payload has not fully arrived, says exactly how many octets are
/// missing.
pub fn literal(input: &[u8], from: usize) -> (r: Result<(usize, Literal), ParseError>)
    requires
        from <= input@.len(),
    ensures
        r matches Ok((next, l)) ==> literal_at(input@, from as int, next as int, l@) && next
            <= input@.len(),
        (r is Ok) == can_literal(input@, from as int),
        (r matches Err(ParseError::Incomplete(_))) <==> (!can_literal(input@, from as int)
            && inc_literal_at(input@, from as int)),
        r matches Err(ParseError::Incomplete(Needed::Size(m))) ==> exists|d: int|
            payload_short(input@, from as int, d) && m == literal_count(input@, from as int, d) - (
            input@.len() - (d + 3)),
        r matches Err(ParseError::Failed(p)) ==> p == from,
{
    let n = input.len();
    if from == n {
        return Err(ParseError::Incomplete(Needed::Unknown));
    }
    if input[from] != 0x7b {
        return Err(ParseError::Failed(from));
    }
    let mut d = from + 1;
    loop
        invariant_except_break
            from + 1 <= d <= n,
            n == input@.len(),
            digits_run(input@, from as int + 1, d as int),
        ensures
            from + 1 <= d <= n,
            n == input@.len(),
            digits_run(input@, from as int + 1, d as int),
            d == n || !is_digit_code(input@[d as int]),
        decreases n - d,
    {
        if d >= n {
            break;
        }
        let b = input[d];
        if b < 0x30 || b > 0x39 {
            break;
        }
        d += 1;
    }
    if d == n {
        proof {
            lemma_no_literal_end(input@, from as int, d as int);
        }
        return Err(ParseError::Incomplete(Needed::Unknown));
    }
    if d == from + 1 || input[d] != 0x7d {
        proof {
            lemma_no_literal_no_brace(input@, from as int, d as int);
        }
        return Err(ParseError::Failed(from));
    }
    if d + 1 == n {
        proof {
            lemma_no_literal_short_header(input@, from as int, d as int);
        }
        return Err(ParseError::Incomplete(Needed::Unknown));
    }
    if input[d + 1] != 0x0d {
        proof {
            lemma_no_literal_bad_tail(input@, from as int, d as int);
        }
        return Err(ParseError::Failed(from));
    }
    if d + 2 == n {
        proof {
            lemma_no_literal_short_header(input@, from as int, d as int);
        }
        return Err(ParseError::Incomplete(Needed::Unknown));
    }
    if input[d + 2] != 0x0a {
        proof {
            lemma_no_literal_bad_tail(input@, from as int, d as int);
        }
        return Err(ParseError::Failed(from));
    }
    // The header is complete: read the count.
    let mut val: u32 = 0;
    let mut j = from + 1;
    while j < d
        invariant
            from + 1 <= j <= d,
            from + 1 < d,
            d + 2 < n == input@.len(),
            digits_run(input@, from as int + 1, d as int),
            input@[from as int] == 0x7b,
            input@[d as int] == 0x7d,
            input@[d as int + 1] == 0x0d,
            input@[d as int + 2] == 0x0a,
            val == dec_val(input@.subrange(from as int + 1, j as int)),
        decreases d - j,
    {
        let dig = input[j] - 0x30;
        if val > (0xffff_ffffu32 - dig as u32) / 10 {
            proof {
                assert(input@.subrange(from as int + 1, j as int + 1).drop_last()
                    =~= input@.subrange(from as int + 1, j as int));
                assert(dec_val(input@.subrange(from as int + 1, j as int + 1)) > 0xffff_ffff);
                lemma_dec_val_prefix_le(input@, from as int + 1, j as int + 1, d as int);
                lemma_no_literal_count_overflow(input@, from as int, d as int);
            }
            return Err(ParseError::Failed(from));
        }
        proof {
            assert(input@.subrange(from as int + 1, j as int + 1).drop_last() =~= input@.subrange(
                from as int + 1,
                j as int,
            ));
        }
        val = val * 10 + dig as u32;
        j += 1;
    }
    proof {
        assert(literal_header_at(input@, from as int, d as int));
        assert(literal_count(input@, from as int, d as int) == val as nat);
    }
    let avail = n - (d + 3);
    let count = val as usize;
    if avail < count {
        proof {
            lemma_no_literal_payload_short(input@, from as int, d as int);
        }
        return Err(ParseError::Incomplete(Needed::Size(count - avail)));
    }
    let payload = slice_to_vec(slice_subrange(input, d + 3, d + 3 + count));
    for b in 0..count
        invariant
            count <= payload@.len(),
            payload@ == input@.subrange(d as int + 3, d as int + 3 + count as int),
            d as int + 3 + count as int <= n == input@.len(),
            literal_header_at(input@, from as int, d as int),
            literal_count(input@, from as int, d as int) == count as nat,
            count <= 0xffff_ffff,
            forall|i: int| 0 <= i < b ==> payload@[i] != 0,
    {
        if payload[b] == 0 {
            proof {
                lemma_no_literal_nul(input@, from as int, d as int, b as int);
            }
            return Err(ParseError::Failed(from));
        }
    }
    let l = Literal::new_unchecked(payload);
    proof {
        assert(literal_at_d(
            input@,
            from as int,
            d as int + 3 + count as int,
            l@,
            d as int,
        ));
        assert(literal_at(input@, from as int, d as int + 3 + count as int, l@));
        assert(can_literal(input@, from as int));
    }
    Ok((d + 3 + count, l))
}

/// No complete literal: the digits run to the end of the input.
proof fn lemma_no_literal_end(input: Seq<u8>, at: int, e: int)
    requires
        0 <= at < e == input.len(),
        input[at] == 0x7b,
        digits_run(input, at + 1, e),
    ensures
        !can_literal(input, at),
        inc_literal_at(input, at),
{
    assert(!is_digit_code(0x7d));
    assert forall|next: int, content: Seq<u8>| !literal_at(input, at, next, content) by {
        if literal_at(input, at, next, content) {
            let d = choose|d: int| literal_at_d(input, at, next, content, d);
            assert(is_digit_code(input[d]));
        }
    }
}

/// No literal and no literal prefix: the digits stop without a `}`, or
/// there are no digits at all.
proof fn lemma_no_literal_no_brace(input: Seq<u8>, at: int, e: int)
    requires
        0 <= at < e < input.len(),
        at + 1 <= e,
        input[at] == 0x7b,
        digits_run(input, at + 1, e),
        !is_digit_code(input[e]),
        e == at + 1 || input[e] != 0x7d,
    ensures
        !can_literal(input, at),
        !inc_literal_at(input, at),
{
    assert(!is_digit_code(0x7d));
    assert forall|next: int, content: Seq<u8>| !literal_at(input, at, next, content) by {
        if literal_at(input, at, next, content) {
            let d = choose|d: int| literal_at_d(input, at, next, content, d);
            lemma_digit_end_unique(input, at + 1, d, d);
            if d < e {
                assert(is_digit_code(input[d]));
            }
            if d > e {
                assert(is_digit_code(input[e]));
            }
            assert(d == e);
        }
    }
    assert(!digits_run(input, at + 1, input.len() as int));
    assert forall|d: int|
        #![trigger input[d]]
        !(at + 1 < d < input.len() && digits_run(input, at + 1, d) && input[d] == 0x7d && (d + 1
            == input.len() || (input[d + 1] == 0x0d && d + 2 == input.len()))) by {
        if at + 1 < d < input.len() && digits_run(input, at + 1, d) && input[d] == 0x7d {
            if d < e {
                assert(is_digit_code(input[d]));
            }
            if d > e {
                assert(is_digit_code(input[e]));
            }
            assert(d == e);
        }
    }
    assert forall|d: int| !payload_short(input, at, d) by {
        if payload_short(input, at, d) {
            if d < e {
                assert(is_digit_code(input[d]));
            }
            if d > e {
                assert(is_digit_code(input[e]));
            }
            assert(d == e);
        }
    }
}

/// No complete literal yet: the header's `}` CR LF is cut short by the
/// end of the input.
proof fn lemma_no_literal_short_header(input: Seq<u8>, at: int, d: int)
    requires
        0 <= at,
        at + 1 < d < input.len(),
        input[at] == 0x7b,
        digits_run(input, at + 1, d),
        input[d] == 0x7d,
        d + 1 == input.len() || (input[d + 1] == 0x0d && d + 2 == input.len()),
    ensures
        !can_literal(input, at),
        inc_literal_at(input, at),
{
    assert(!is_digit_code(0x7d));
    assert forall|next: int, content: Seq<u8>| !literal_at(input, at, next, content) by {
        if literal_at(input, at, next, content) {
            let d2 = choose|d2: int| literal_at_d(input, at, next, content, d2);
            lemma_digit_end_unique(input, at + 1, d2, d);
        }
    }
}

/// No literal and no literal prefix: after the digits and `}`, the CR LF
/// is wrong.
proof fn lemma_no_literal_bad_tail(input: Seq<u8>, at: int, d: int)
    requires
        0 <= at,
        at + 1 < d < input.len(),
        input[at] == 0x7b,
        digits_run(input, at + 1, d),
        input[d] == 0x7d,
        d + 1 < input.len(),
        input[d + 1] != 0x0d || (d + 2 < input.len() && input[d + 2] != 0x0a),
    ensures
        !can_literal(input, at),
        !inc_literal_at(input, at),
{
    assert(!is_digit_code(0x7d));
    assert forall|next: int, content: Seq<u8>| !literal_at(input, at, next, content) by {
        if literal_at(input, at, next, content) {
            let d2 = choose|d2: int| literal_at_d(input, at, next, content, d2);
            lemma_digit_end_unique(input, at + 1, d2, d);
        }
    }
    assert(!digits_run(input, at + 1, input.len() as int));
    assert forall|d2: int|
        #![trigger input[d2]]
        !(at + 1 < d2 < input.len() && digits_run(input, at + 1, d2) && input[d2] == 0x7d && (d2
            + 1 == input.len() || (input[d2 + 1] == 0x0d && d2 + 2 == input.len()))) by {
        if at + 1 < d2 < input.len() && digits_run(input, at + 1, d2) && input[d2] == 0x7d {
            lemma_digit_end_unique(input, at + 1, d2, d);
        }
    }
    assert forall|d2: int| !payload_short(input, at, d2) by {
        if payload_short(input, at, d2) {
            lemma_digit_end_unique(input, at + 1, d2, d);
        }
    }
}

/// No literal and no literal prefix: the announced count does not fit
/// the protocol's 32-bit counter.
proof fn lemma_no_literal_count_overflow(input: Seq<u8>, at: int, d: int)
    requires
        0 <= at,
        at + 1 < d < input.len(),
        input[at] == 0x7b,
        digits_run(input, at + 1, d),
        input[d] == 0x7d,
        d + 1 < input.len(),
        input[d + 1] == 0x0d,
        d + 2 < input.len(),
        input[d + 2] == 0x0a,
        literal_count(input, at, d) > 0xffff_ffff,
    ensures
        !can_literal(input, at),
        !inc_literal_at(input, at),
{
    assert(!is_digit_code(0x7d));
    assert forall|next: int, content: Seq<u8>| !literal_at(input, at, next, content) by {
        if literal_at(input, at, next, content) {
            let d2 = choose|d2: int| literal_at_d(input, at, next, content, d2);
            lemma_digit_end_unique(input, at + 1, d2, d);
        }
    }
    assert(!digits_run(input, at + 1, input.len() as int));
    assert forall|d2: int|
        #![trigger input[d2]]
        !(at + 1 < d2 < input.len() && digits_run(input, at + 1, d2) && input[d2] == 0x7d && (d2
            + 1 == input.len() || (input[d2 + 1] == 0x0d && d2 + 2 == input.len()))) by {
        if at + 1 < d2 < input.len() && digits_run(input, at + 1, d2) && input[d2] == 0x7d {
            lemma_digit_end_unique(input, at + 1, d2, d);
        }
    }
    assert forall|d2: int| !payload_short(input, at, d2) by {
        if payload_short(input, at, d2) {
            lemma_digit_end_unique(input, at + 1, d2, d);
        }
    }
}

/// No complete literal yet: the payload has not fully arrived.
proof fn lemma_no_literal_payload_short(input: Seq<u8>, at: int, d: int)
    requires
        payload_short(input, at, d),
    ensures
        !can_literal(input, at),
        inc_literal_at(input, at),
{
    assert(!is_digit_code(0x7d));
    assert forall|next: int, content: Seq<u8>| !literal_at(input, at, next, content) by {
        if literal_at(input, at, next, content) {
            let d2 = choose|d2: int| literal_at_d(input, at, next, content, d2);
            lemma_digit_end_unique(input, at + 1, d2, d);
        }
    }
}

/// No literal and no literal prefix: the payload holds a NUL octet.
proof fn lemma_no_literal_nul(input: Seq<u8>, at: int, d: int, b: int)
    requires
        literal_header_at(input, at, d),
        literal_count(input, at, d) <= 0xffff_ffff,
        d + 3 + literal_count(input, at, d) <= input.len(),
        0 <= b < literal_count(input, at, d),
        input[d + 3 + b] == 0,
    ensures
        !can_literal(input, at),
        !inc_literal_at(input, at),
{
    assert(!is_digit_code(0x7d));
    assert forall|next: int, content: Seq<u8>| !literal_at(input, at, next, content) by {
        if literal_at(input, at, next, content) {
            let d2 = choose|d2: int| literal_at_d(input, at, next, content, d2);
            lemma_digit_end_unique(input, at + 1, d2, d);
            assert(content[b] == input[d + 3 + b]);
            assert(crate::chars::is_char8(content[b]));
        }
    }
    assert(!digits_run(input, at + 1, input.len() as int));
    assert forall|d2: int|
        #![trigger input[d2]]
        !(at + 1 < d2 < input.len() && digits_run(input, at + 1, d2) && input[d2] == 0x7d && (d2
            + 1 == input.len() || (input[d2 + 1] == 0x0d && d2 + 2 == input.len()))) by {
        if at + 1 < d2 < input.len() && digits_run(input, at + 1, d2) && input[d2] == 0x7d {
            lemma_digit_end_unique(input, at + 1, d2, d);
        }
    }
    assert forall|d2: int| !payload_short(input, at, d2) by {
        if payload_short(input, at, d2) {
            lemma_digit_end_unique(input, at + 1, d2, d);
        }
    }
}

/// Completing an announced literal: when the parser has asked for the
/// missing octets, supplying exactly that many NUL-free octets completes
/// the literal at the announced boundary, past the header plus count.
pub proof fn lemma_literal_completion(input: Seq<u8>, at: int, d: int, ext: Seq<u8>)
    requires
        payload_short(input, at, d),
        ext.len() == d + 3 + literal_count(input, at, d) - input.len(),
        forall|i: int| d + 3 <= i < input.len() ==> input[i] != 0,
        forall|i: int| 0 <= i < ext.len() ==> ext[i] != 0,
    ensures
        literal_at(
            input + ext,
            at,
            d + 3 + literal_count(input, at, d),
            input.subrange(d + 3, input.len() as int) + ext,
        ),
{
    let whole = input + ext;
    let count = literal_count(input, at, d);
    assert(whole.subrange(at + 1, d) =~= input.subrange(at + 1, d));
    assert(literal_header_at(whole, at, d));
    assert(literal_count(whole, at, d) == count);
    let content = input.subrange(d + 3, input.len() as int) + ext;
    assert(content =~= whole.subrange(d + 3, d + 3 + count));
    assert forall|i: int| 0 <= i < content.len() implies crate::chars::is_char8(
        #[trigger] content[i],
    ) by {
        if i < input.len() - (d + 3) {
            assert(content[i] == input[d + 3 + i]);
        } else {
            assert(content[i] == ext[i - (input.len() - (d + 3))]);
        }
    }
    assert(literal_at_d(whole, at, d + 3 + count, content, d));
}

/// The decimal numeral the encoder writes for `n` denotes `n` and is all
/// digits.
pub proof fn lemma_dec_bytes_val(n: nat)
    ensures
        dec_val(dec_bytes(n)) == n,
        forall|i: int| 0 <= i < dec_bytes(n).len() ==> is_digit_code(#[trigger] dec_bytes(n)[i]),
        dec_bytes(n).len() >= 1,
    decreases n,
{
    if n < 10 {
        assert(dec_bytes(n) == seq![(0x30 + n) as u8]);
        assert(dec_bytes(n).drop_last() =~= Seq::<u8>::empty());
        assert(dec_bytes(n).last() == (0x30 + n) as u8);
        assert(dec_val(dec_bytes(n)) == dec_val(Seq::<u8>::empty()) * 10 + (((0x30 + n) as u8
            - 0x30) as nat));
    } else {
        lemma_dec_bytes_val(n / 10);
        assert(dec_bytes(n) == dec_bytes(n / 10) + seq![(0x30 + n % 10) as u8]);
        assert(dec_bytes(n).drop_last() =~= dec_bytes(n / 10));
        assert(dec_bytes(n).last() == (0x30 + n % 10) as u8);
        assert forall|i: int| 0 <= i < dec_bytes(n).len() implies is_digit_code(
            #[trigger] dec_bytes(n)[i],
        ) by {
            if i < dec_bytes(n / 10).len() {
                assert(dec_bytes(n)[i] == dec_bytes(n / 10)[i]);
            }
        }
    }
}

/// Round trip for literals: the octets the encoder writes parse back to
/// the same body, consuming exactly the header plus the announced count.
pub proof fn lemma_literal_round_trip(content: Seq<u8>)
    requires
        Literal::spec_valid(content),
        content.len() <= 0xffff_ffff,
    ensures
        literal_at(encoded_literal(content), 0, encoded_literal(content).len() as int, content),
{
    let e = encoded_literal(content);
    let n = content.len();
    lemma_dec_bytes_val(n);
    let w = dec_bytes(n).len() as int;
    let d = 1 + w;
    assert(e.len() == d + 3 + n);
    assert(e[0] == 0x7b);
    assert forall|i: int| 1 <= i < d implies is_digit_code(#[trigger] e[i]) by {
        assert(e[i] == dec_bytes(n)[i - 1]);
    }
    assert(e[d] == 0x7d);
    assert(e[d + 1] == 0x0d);
    assert(e[d + 2] == 0x0a);
    assert(literal_header_at(e, 0, d));
    assert(e.subrange(1, d) =~= dec_bytes(n));
    assert(literal_count(e, 0, d) == n);
    assert(e.subrange(d + 3, e.len() as int) =~= content);
    assert(literal_at_d(e, 0, e.len() as int, content, d));
}

/// Parsing a literal is unambiguous: one starting offset admits one end
/// and one body, so incremental feeding cannot change what is parsed.
pub proof fn lemma_literal_unambiguous(
    input: Seq<u8>,
    at: int,
    n1: int,
    n2: int,
    c1: Seq<u8>,
    c2: Seq<u8>,
)
    requires
        literal_at(input, at, n1, c1),
        literal_at(input, at, n2, c2),
    ensures
        n1 == n2,
        c1 == c2,
{
    let d1 = choose|d: int| literal_at_d(input, at, n1, c1, d);
    let d2 = choose|d: int| literal_at_d(input, at, n2, c2, d);
    lemma_digit_end_unique(input, at + 1, d1, d2);
    assert(c1 =~= c2);
}

}
