//! Client commands: the model, the `command = tag SP command-body CRLF`
//! parser, and the encoder.
//!
//! The command bodies wired in are those of the gated extensions; at
//! present that is the COMPRESS extension.

use vstd::prelude::*;

use crate::atoms::Tag;
use crate::chars::{is_tag_code, string_from_ascii};
use crate::compress::{
    compress, compress_sp_bytes, deflate_bytes, encoded_algorithm, inc_compress_at,
    is_compress_at, CompressionAlgorithm,
};
use crate::encode::ascii_bytes;
use crate::parse::{is_tag_byte, matches_nocase, prefix_nocase, to_lower_byte, Needed, ParseError};

verus! {

/// What a command asks the server to do.
#[derive(Debug, Clone, Copy, PartialEq, Eq, Hash, Structural)]
pub enum CommandBody {
    /// Ask the server to start compressing the connection.
    Compress {
        /// The compression scheme to use.
        algorithm: CompressionAlgorithm,
    },
}

impl CommandBody {
    /// A COMPRESS body for the given algorithm.
    pub fn compress(algorithm: CompressionAlgorithm) -> (r: CommandBody)
        ensures
            r == (CommandBody::Compress { algorithm }),
    {
        CommandBody::Compress { algorithm }
    }
}

/// A complete client command: a tag paired with a body.
#[derive(Debug, Eq, Hash)]
pub struct Command {
    /// The client-chosen tag that the server's answer will carry.
    pub tag: Tag,
    /// What the command asks for.
    pub body: CommandBody,
}

impl Command {
    /// Builds a command, validating the tag.
    pub fn new(tag: &str, body: CommandBody) -> (r: Result<Command, ()>)
        ensures
            r.is_ok() == Tag::spec_valid(tag@),
            r matches Ok(c) ==> c.tag@ == tag@ && c.body == body,
    {
        match Tag::try_from(tag) {
            Ok(t) => Ok(Command { tag: t, body }),
            Err(()) => Err(()),
        }
    }
}

impl Clone for Command {
    fn clone(&self) -> (r: Self)
        ensures
            r.tag@ == self.tag@,
            r.body == self.body,
    {
        Command { tag: self.tag.clone(), body: self.body }
    }
}

impl PartialEq for Command {
    fn eq(&self, other: &Command) -> bool {
        self.tag == other.tag && self.body == other.body
    }
}

impl vstd::std_specs::cmp::PartialEqSpecImpl for Command {
    open spec fn obeys_eq_spec() -> bool {
        true
    }

    open spec fn eq_spec(&self, other: &Command) -> bool {
        self.tag@ == other.tag@ && self.body == other.body
    }
}

/// Every octet of `input[at..k]` is a tag character.
pub open spec fn is_tag_run(input: Seq<u8>, at: int, k: int) -> bool {
    forall|i: int| at <= i < k ==> is_tag_code((#[trigger] input[i]) as u32)
}

/// The characters spelled by `input[at..k]`.
pub open spec fn tag_chars(input: Seq<u8>, at: int, k: int) -> Seq<char> {
    Seq::new((k - at) as nat, |i: int| input[at + i] as char)
}

/// The command body and the closing CRLF: `input[at..next]` is a body
/// followed by CR LF.
pub open spec fn is_command_tail(input: Seq<u8>, at: int, next: int, body: CommandBody) -> bool {
    &&& next <= input.len()
    &&& is_compress_at(input, at, next - 2, body)
    &&& input[next - 2] == 0x0d
    &&& input[next - 1] == 0x0a
}

///`input[at..next]` is the wire form of command `c`, with the tag ending
/// at `k`.
pub open spec fn command_at_k(input: Seq<u8>, at: int, next: int, c: Command, k: int) -> bool {
    &&& at < k < input.len()
    &&& is_tag_run(input, at, k)
    &&& input[k] == 0x20
    &&& c.tag@ == tag_chars(input, at, k)
    &&& is_command_tail(input, k + 1, next, c.body)
}

/// `input[at..next]` is the wire form of command `c`.
pub open spec fn is_command_at(input: Seq<u8>, at: int, next: int, c: Command) -> bool {
    exists|k: int| command_at_k(input, at, next, c, k)
}

/// Some command can be parsed at `at`.
pub open spec fn can_command(input: Seq<u8>, at: int) -> bool {
    exists|next: int, c: Command| is_command_at(input, at, next, c)
}

/// The closing CRLF is cut short by the end of the input.
pub open spec fn crlf_partial(input: Seq<u8>, at: int) -> bool {
    ||| at == input.len()
    ||| (at + 1 == input.len() && input[at] == 0x0d)
}

/// The input ends inside the body or the closing CRLF.
pub open spec fn inc_tail(input: Seq<u8>, at: int) -> bool {
    ||| inc_compress_at(input, at)
    ||| exists|bn: int, body: CommandBody| #![auto]
        is_compress_at(input, at, bn, body) && crlf_partial(input, bn)
}

/// The input ends with the tag still open, at `k` with the body or CRLF
/// cut short.
pub open spec fn inc_command_k(input: Seq<u8>, at: int, k: int) -> bool {
    &&& at < k < input.len()
    &&& is_tag_run(input, at, k)
    &&& input[k] == 0x20
    &&& inc_tail(input, k + 1)
}

/// The input is a proper prefix of some command: more octets could still
/// complete it.
pub open spec fn inc_command_at(input: Seq<u8>, at: int) -> bool {
    ||| (0 <= at <= input.len() && is_tag_run(input, at, input.len() as int))
    ||| exists|k: int| inc_command_k(input, at, k)
}

/// Parses one complete command from the start of `input`.  Trailing
/// octets are left for the caller; the returned offset is where they
/// start.
pub fn command(input: &[u8]) -> (r: Result<(usize, Command), ParseError>)
    ensures
        r matches Ok((next, c)) ==> is_command_at(input@, 0, next as int, c) && next
            <= input@.len(),
        (r is Ok) == can_command(input@, 0),
        r matches Err(ParseError::Incomplete(n)) ==> n == Needed::Unknown,
        (r matches Err(ParseError::Incomplete(_))) <==> (!can_command(input@, 0) && inc_command_at(
            input@,
            0,
        )),
        r matches Err(ParseError::Failed(p)) ==> p == 0,
{
    let n = input.len();
    let mut i: usize = 0;
    loop
        invariant_except_break
            i <= n,
            n == input@.len(),
            is_tag_run(input@, 0, i as int),
        ensures
            i <= n,
            n == input@.len(),
            is_tag_run(input@, 0, i as int),
            i == n || !is_tag_code(input@[i as int] as u32),
        decreases n - i,
    {
        if i >= n {
            break;
        }
        if !is_tag_byte(input[i]) {
            break;
        }
        i += 1;
    }
    if i == n {
        // Everything so far is tag characters: the SP has not arrived.
        proof {
            lemma_no_command_within_tag_run(input@, i as int);
        }
        return Err(ParseError::Incomplete(Needed::Unknown));
    }
    if i == 0 || input[i] != 0x20 {
        // The tag is empty, or it is not followed by a space.
        proof {
            lemma_no_command_without_sp(input@, i as int);
        }
        return Err(ParseError::Failed(0));
    }
    // The tag is input[0..i]; the space stands at i.
    let tag_bytes = vstd::slice::slice_to_vec(vstd::slice::slice_subrange(input, 0, i));
    proof {
        assert forall|j: int| 0 <= j < tag_bytes@.len() implies tag_bytes@[j] < 0x80 by {
            assert(is_tag_code(input@[j] as u32));
        }
    }
    let tag_string = string_from_ascii(&tag_bytes);
    proof {
        assert forall|j: int| 0 <= j < tag_string@.len() implies is_tag_code(
            (#[trigger] tag_string@[j]) as u32,
        ) by {
            assert(tag_string@[j] == tag_bytes@[j] as char);
            assert(is_tag_code(input@[j] as u32));
        }
        assert forall|j: int| 0 <= j < i implies tag_string@[j] == tag_chars(input@, 0, i as int)[j]
        by {
            assert(tag_string@[j] == tag_bytes@[j] as char);
            assert(tag_bytes@[j] == input@[j]);
        }
        assert(tag_string@ =~= tag_chars(input@, 0, i as int));
    }
    let t = Tag::new_unchecked(tag_string);
    match compress(input, i + 1) {
        Err(ParseError::Incomplete(_)) => {
            proof {
                lemma_k_is_scan_end(input@, i as int);
                assert(inc_command_k(input@, 0, i as int));
                assert forall|next: int, c: Command| !is_command_at(input@, 0, next, c) by {
                    if is_command_at(input@, 0, next, c) {
                        let k = choose|k: int| command_at_k(input@, 0, next, c, k);
                        assert(k == i as int);
                    }
                }
                assert(!can_command(input@, 0));
            }
            Err(ParseError::Incomplete(Needed::Unknown))
        },
        Err(ParseError::Failed(_)) => {
            proof {
                lemma_k_is_scan_end(input@, i as int);
                assert forall|next: int, c: Command| !is_command_at(input@, 0, next, c) by {
                    if is_command_at(input@, 0, next, c) {
                        let k = choose|k: int| command_at_k(input@, 0, next, c, k);
                        assert(k == i as int);
                    }
                }
                assert forall|k: int| !inc_command_k(input@, 0, k) by {
                    if inc_command_k(input@, 0, k) {
                        assert(k == i as int);
                    }
                }
                assert(!can_command(input@, 0));
                assert(!inc_command_at(input@, 0));
            }
            Err(ParseError::Failed(0))
        },
        Ok((bn, body)) => {
            if bn >= n {
                proof {
                    lemma_k_is_scan_end(input@, i as int);
                    assert(is_compress_at(input@, i + 1, bn as int, body) && crlf_partial(
                        input@,
                        bn as int,
                    ));
                    assert(inc_command_k(input@, 0, i as int));
                    assert forall|next: int, c: Command| !is_command_at(input@, 0, next, c) by {
                        if is_command_at(input@, 0, next, c) {
                            let k = choose|k: int| command_at_k(input@, 0, next, c, k);
                            assert(k == i as int);
                            assert(next - 2 == bn as int);
                        }
                    }
                }
                return Err(ParseError::Incomplete(Needed::Unknown));
            }
            if input[bn] != 0x0d {
                proof {
                    lemma_k_is_scan_end(input@, i as int);
                    assert forall|next: int, c: Command| !is_command_at(input@, 0, next, c) by {
                        if is_command_at(input@, 0, next, c) {
                            let k = choose|k: int| command_at_k(input@, 0, next, c, k);
                            assert(k == i as int);
                            assert(next - 2 == bn as int);
                        }
                    }
                    assert forall|k: int| !inc_command_k(input@, 0, k) by {
                        if inc_command_k(input@, 0, k) {
                            assert(k == i as int);
                            lemma_compress_end_unique(input@, i as int + 1, bn as int, body);
                        }
                    }
                }
                return Err(ParseError::Failed(0));
            }
            if bn + 1 >= n {
                proof {
                    lemma_k_is_scan_end(input@, i as int);
                    assert(is_compress_at(input@, i + 1, bn as int, body) && crlf_partial(
                        input@,
                        bn as int,
                    ));
                    assert(inc_command_k(input@, 0, i as int));
                    assert forall|next: int, c: Command| !is_command_at(input@, 0, next, c) by {
                        if is_command_at(input@, 0, next, c) {
                            let k = choose|k: int| command_at_k(input@, 0, next, c, k);
                            assert(k == i as int);
                            assert(next - 2 == bn as int);
                        }
                    }
                }
                return Err(ParseError::Incomplete(Needed::Unknown));
            }
            if input[bn + 1] != 0x0a {
                proof {
                    lemma_k_is_scan_end(input@, i as int);
                    assert forall|next: int, c: Command| !is_command_at(input@, 0, next, c) by {
                        if is_command_at(input@, 0, next, c) {
                            let k = choose|k: int| command_at_k(input@, 0, next, c, k);
                            assert(k == i as int);
                            assert(next - 2 == bn as int);
                        }
                    }
                    assert forall|k: int| !inc_command_k(input@, 0, k) by {
                        if inc_command_k(input@, 0, k) {
                            assert(k == i as int);
                            lemma_compress_end_unique(input@, i as int + 1, bn as int, body);
                        }
                    }
                }
                return Err(ParseError::Failed(0));
            }
            let c = Command { tag: t, body };
            proof {
                assert(command_at_k(input@, 0, bn + 2, c, i as int));
                assert(is_command_at(input@, 0, bn + 2, c));
                assert(can_command(input@, 0));
            }
            Ok((bn + 2, c))
        },
    }
}

/// A run of tag characters reaching the end of the input holds no
/// complete command: the space after the tag is missing.
proof fn lemma_no_command_within_tag_run(input: Seq<u8>, e: int)
    requires
        e == input.len(),
        is_tag_run(input, 0, e),
    ensures
        !can_command(input, 0),
        inc_command_at(input, 0),
{
    assert forall|next: int, c: Command| !is_command_at(input, 0, next, c) by {
        if is_command_at(input, 0, next, c) {
            let k = choose|k: int| command_at_k(input, 0, next, c, k);
            assert(is_tag_code(input[k] as u32));
        }
    }
}

/// When the scan stops on a byte that is neither a tag character nor
/// preceded by a non-empty tag followed by a space, no command and no
/// command prefix starts here.
proof fn lemma_no_command_without_sp(input: Seq<u8>, i: int)
    requires
        0 <= i < input.len(),
        is_tag_run(input, 0, i),
        !is_tag_code(input[i] as u32),
        i == 0 || input[i] != 0x20,
    ensures
        !can_command(input, 0),
        !inc_command_at(input, 0),
{
    assert(!is_tag_code(0x20));
    assert forall|next: int, c: Command| !is_command_at(input, 0, next, c) by {
        if is_command_at(input, 0, next, c) {
            let k = choose|k: int| command_at_k(input, 0, next, c, k);
            assert(k == i);
        }
    }
    assert forall|k: int| !inc_command_k(input, 0, k) by {
        if inc_command_k(input, 0, k) {
            assert(k == i);
        }
    }
    assert(!is_tag_run(input, 0, input.len() as int));
}

/// Any tag-then-space split of the input ends where the scan ended.
proof fn lemma_k_is_scan_end(input: Seq<u8>, i: int)
    requires
        0 < i < input.len(),
        is_tag_run(input, 0, i),
        input[i] == 0x20,
    ensures
        forall|k: int|
            (0 < k < input.len() && is_tag_run(input, 0, k) && input[k] == 0x20) ==> k == i,
{
    assert(!is_tag_code(0x20));
    assert forall|k: int|
        (0 < k < input.len() && is_tag_run(input, 0, k) && input[k] == 0x20) implies k == i by {
        if k < i {
            assert(is_tag_code(input[k] as u32));
        }
        if k > i {
            assert(is_tag_code(input[i] as u32));
        }
    }
}

/// A compress production starting at one offset ends at one offset only.
proof fn lemma_compress_end_unique(input: Seq<u8>, at: int, bn: int, body: CommandBody)
    requires
        is_compress_at(input, at, bn, body),
    ensures
        forall|bn2: int, body2: CommandBody|
            #![auto]
            is_compress_at(input, at, bn2, body2) ==> bn2 == bn && body2 == body,
        !inc_compress_at(input, at),
{
}
/// The wire form of a command body.
pub open spec fn encoded_body(body: CommandBody) -> Seq<u8> {
    match body {
        CommandBody::Compress { algorithm } => compress_sp_bytes() + encoded_algorithm(algorithm),
    }
}

/// The wire form of a complete command: tag, space, body, CRLF.
pub open spec fn encoded_command(c: &Command) -> Seq<u8> {
    ascii_bytes(c.tag@) + seq![0x20u8] + encoded_body(c.body) + seq![0x0du8, 0x0au8]
}

impl CommandBody {
    /// Writes the body, keywords in canonical upper case.
    pub fn encode(&self, out: &mut Vec<u8>)
        ensures
            final(out)@ == old(out)@ + encoded_body(*self),
    {
        match self {
            CommandBody::Compress { algorithm } => {
                out.push(0x43);
                out.push(0x4f);
                out.push(0x4d);
                out.push(0x50);
                out.push(0x52);
                out.push(0x45);
                out.push(0x53);
                out.push(0x53);
                out.push(0x20);
                proof {
                    assert(out@ =~= old(out)@ + compress_sp_bytes());
                }
                algorithm.encode(out);
                proof {
                    assert(out@ =~= old(out)@ + encoded_body(*self));
                }
            },
        }
    }
}

impl Command {
    /// Writes the command: tag, space, body, CRLF.
    pub fn encode(&self, out: &mut Vec<u8>)
        ensures
            final(out)@ == old(out)@ + encoded_command(self),
    {
        self.tag.encode(out);
        out.push(0x20);
        self.body.encode(out);
        out.push(0x0d);
        out.push(0x0a);
        proof {
            assert(out@ =~= old(out)@ + encoded_command(self));
        }
    }
}

/// Round trip: the octets the encoder writes for a command parse back to
/// that same command, consuming all of them.
pub proof fn lemma_command_round_trip(c: &Command)
    requires
        Tag::spec_valid(c.tag@),
    ensures
        is_command_at(encoded_command(c), 0, encoded_command(c).len() as int, *c),
{
    let e = encoded_command(c);
    let k = c.tag@.len() as int;
    let tagb = ascii_bytes(c.tag@);
    let body = encoded_body(c.body);
    assert(body.len() == 16);
    assert(e.len() == k + 19);
    assert forall|j: int| 0 <= j < k implies e[j] == (#[trigger] c.tag@[j]) as u8 by {
        assert(e[j] == tagb[j]);
    }
    assert(is_tag_run(e, 0, k)) by {
        assert forall|j: int| 0 <= j < k implies is_tag_code((#[trigger] e[j]) as u32) by {
            assert(is_tag_code(c.tag@[j] as u32));
            assert((c.tag@[j] as u32) < 0x80);
            crate::chars::lemma_ascii_char_roundtrip(c.tag@[j]);
        }
    }
    assert(e[k] == 0x20);
    assert(tag_chars(e, 0, k) =~= c.tag@) by {
        assert forall|j: int| 0 <= j < k implies tag_chars(e, 0, k)[j] == c.tag@[j] by {
            assert(e[j] == c.tag@[j] as u8);
            assert((c.tag@[j] as u32) < 0x80);
            crate::chars::lemma_ascii_char_roundtrip(c.tag@[j]);
        }
    }
    assert forall|j: int| 0 <= j < 16 implies e[k + 1 + j] == body[j] by {}
    match c.body {
        CommandBody::Compress { algorithm } => {
            assert(matches_nocase(e, k + 1, compress_sp_bytes())) by {
                assert forall|j: int| 0 <= j < 9 implies to_lower_byte(e[k + 1 + j])
                    == to_lower_byte(#[trigger] compress_sp_bytes()[j]) by {
                    assert(e[k + 1 + j] == body[j]);
                    assert(body[j] == compress_sp_bytes()[j]);
                }
            }
            assert(matches_nocase(e, k + 10, deflate_bytes())) by {
                assert forall|j: int| 0 <= j < 7 implies to_lower_byte(e[k + 10 + j])
                    == to_lower_byte(#[trigger] deflate_bytes()[j]) by {
                    assert(e[k + 1 + (9 + j)] == body[9 + j]);
                    assert(body[9 + j] == deflate_bytes()[j]);
                }
            }
            assert(crate::compress::is_algorithm_at(e, k + 10, k + 17, algorithm));
            assert(e[k + 17] == 0x0d);
            assert(e[k + 18] == 0x0a);
            assert(is_command_tail(e, k + 1, k + 19, c.body));
        },
    }
    assert(command_at_k(e, 0, e.len() as int, *c, k));
}


/// Parsing is unambiguous: one starting offset admits one command and one
/// end, so incremental feeding cannot change what is parsed.
pub proof fn lemma_command_unambiguous(
    input: Seq<u8>,
    at: int,
    n1: int,
    n2: int,
    c1: Command,
    c2: Command,
)
    requires
        is_command_at(input, at, n1, c1),
        is_command_at(input, at, n2, c2),
    ensures
        n1 == n2,
        c1.tag@ == c2.tag@,
        c1.body == c2.body,
{
    let k1 = choose|k: int| command_at_k(input, at, n1, c1, k);
    let k2 = choose|k: int| command_at_k(input, at, n2, c2, k);
    assert(!is_tag_code(0x20));
    assert(k1 == k2) by {
        if k1 < k2 {
            assert(is_tag_code(input[k1] as u32));
        }
        if k2 < k1 {
            assert(is_tag_code(input[k2] as u32));
        }
    }
    assert(c1.tag@ =~= c2.tag@);
}

/// Canonical form: whatever case the sender used, re-encoding a parsed
/// command reproduces the consumed octets up to ASCII case.
pub proof fn lemma_encoded_matches_consumed(input: Seq<u8>, at: int, next: int, c: &Command)
    requires
        is_command_at(input, at, next, *c),
    ensures
        encoded_command(c).len() == next - at,
        forall|j: int|
            0 <= j < next - at ==> to_lower_byte(#[trigger] encoded_command(c)[j])
                == to_lower_byte(input[at + j]),
{
    let k = choose|k: int| command_at_k(input, at, next, *c, k);
    let e = encoded_command(c);
    let kk = k - at;
    assert(c.tag@.len() == kk);
    assert(e.len() == kk + 19);
    assert(next == k + 19);
    assert forall|j: int| 0 <= j < next - at implies to_lower_byte(#[trigger] e[j])
        == to_lower_byte(input[at + j]) by {
        let tagb = ascii_bytes(c.tag@);
        let body = encoded_body(c.body);
        if j < kk {
            assert(e[j] == tagb[j]);
            assert(c.tag@[j] == input[at + j] as char);
            assert((input[at + j] as char) as u32 == input[at + j] as u32);
            crate::chars::lemma_ascii_char_roundtrip(input[at + j] as char);
            assert(e[j] == input[at + j]);
        } else if j == kk {
            assert(e[j] == 0x20);
            assert(input[k] == 0x20);
        } else if j < kk + 17 {
            assert(e[j] == body[j - kk - 1]);
            match c.body {
                CommandBody::Compress { algorithm } => {
                    if j - kk - 1 < 9 {
                        assert(body[j - kk - 1] == compress_sp_bytes()[j - kk - 1]);
                        assert(to_lower_byte(input[k + 1 + (j - kk - 1)]) == to_lower_byte(
                            compress_sp_bytes()[j - kk - 1],
                        ));
                    } else {
                        assert(body[j - kk - 1] == deflate_bytes()[j - kk - 10]);
                        assert(to_lower_byte(input[k + 10 + (j - kk - 10)]) == to_lower_byte(
                            deflate_bytes()[j - kk - 10],
                        ));
                    }
                },
            }
        } else if j == kk + 17 {
            assert(e[j] == 0x0d);
            assert(input[next - 2] == 0x0d);
        } else {
            assert(e[j] == 0x0a);
            assert(input[next - 1] == 0x0a);
        }
    }
}

/// Incremental feeding: a proper prefix of a complete command holds no
/// command of its own, yet can still be completed, so a parser answers it
/// with `Incomplete`; once the rest arrives, `lemma_command_unambiguous`
/// pins the value to the one the whole input parses to.
pub proof fn lemma_proper_prefix_incomplete(input: Seq<u8>, next: int, c: Command, p: int)
    requires
        is_command_at(input, 0, next, c),
        next == input.len(),
        0 <= p < next,
    ensures
        !can_command(input.take(p), 0),
        inc_command_at(input.take(p), 0),
{
    let k = choose|k: int| command_at_k(input, 0, next, c, k);
    let pre = input.take(p);
    assert(!is_tag_code(0x20));
    assert(forall|j: int| 0 <= j < p ==> pre[j] == input[j]);
    match c.body {
        CommandBody::Compress { algorithm } => {
            assert(matches_nocase(input, k + 1, compress_sp_bytes()));
            assert(matches_nocase(input, k + 10, deflate_bytes()));
            assert(next == k + 19);
        },
    }
    if p <= k {
        assert(is_tag_run(pre, 0, p));
        assert(inc_command_at(pre, 0));
        assert forall|m: int, c2: Command| !is_command_at(pre, 0, m, c2) by {
            if is_command_at(pre, 0, m, c2) {
                let k2 = choose|k2: int| command_at_k(pre, 0, m, c2, k2);
                assert(pre[k2] == 0x20);
                assert(is_tag_code(input[k2] as u32));
            }
        }
        assert(!can_command(pre, 0));
    } else {
        assert(is_tag_run(pre, 0, k));
        assert(pre[k] == 0x20);
        if p < k + 10 {
            assert(prefix_nocase(pre, k + 1, compress_sp_bytes())) by {
                assert forall|j: int|
                    0 <= j < pre.len() - (k + 1) implies to_lower_byte(pre[k + 1 + j])
                    == to_lower_byte(#[trigger] compress_sp_bytes()[j]) by {
                    assert(pre[k + 1 + j] == input[k + 1 + j]);
                }
            }
            assert(inc_compress_at(pre, k + 1));
            assert(inc_tail(pre, k + 1));
        } else {
            assert(matches_nocase(pre, k + 1, compress_sp_bytes())) by {
                assert forall|j: int|
                    0 <= j < 9 implies to_lower_byte(pre[k + 1 + j]) == to_lower_byte(
                    #[trigger] compress_sp_bytes()[j],
                ) by {
                    assert(pre[k + 1 + j] == input[k + 1 + j]);
                }
            }
            if p < k + 17 {
                assert(prefix_nocase(pre, k + 10, deflate_bytes())) by {
                    assert forall|j: int|
                        0 <= j < pre.len() - (k + 10) implies to_lower_byte(pre[k + 10 + j])
                        == to_lower_byte(#[trigger] deflate_bytes()[j]) by {
                        assert(pre[k + 10 + j] == input[k + 10 + j]);
                    }
                }
                assert(inc_compress_at(pre, k + 1));
                assert(inc_tail(pre, k + 1));
            } else {
                assert(matches_nocase(pre, k + 10, deflate_bytes())) by {
                    assert forall|j: int|
                        0 <= j < 7 implies to_lower_byte(pre[k + 10 + j]) == to_lower_byte(
                        #[trigger] deflate_bytes()[j],
                    ) by {
                        assert(pre[k + 10 + j] == input[k + 10 + j]);
                    }
                }
                assert(is_compress_at(pre, k + 1, k + 17, c.body));
                assert(crlf_partial(pre, k + 17)) by {
                    if p == k + 18 {
                        assert(pre[k + 17] == input[next - 2]);
                    }
                }
                assert(inc_tail(pre, k + 1));
            }
        }
        assert(inc_command_k(pre, 0, k));
        assert(inc_command_at(pre, 0));
        assert forall|m: int, c2: Command| !is_command_at(pre, 0, m, c2) by {
            if is_command_at(pre, 0, m, c2) {
                let k2 = choose|k2: int| command_at_k(pre, 0, m, c2, k2);
                assert(k2 == k) by {
                    if k2 < k {
                        assert(pre[k2] == input[k2]);
                        assert(is_tag_code(input[k2] as u32));
                    }
                    if k2 > k {
                        assert(is_tag_code((pre[k]) as u32));
                    }
                }
                assert(m - 2 == k + 17);
                assert(m <= pre.len());
            }
        }
        assert(!can_command(pre, 0));
    }
}

}
