//! The COMPRESS extension: the algorithm model and the grammar
//! productions `algorithm = "DEFLATE"` and `compress = "COMPRESS" SP
//! algorithm`.

use vstd::prelude::*;

use crate::command::CommandBody;
use crate::parse::{matches_nocase, prefix_nocase, token_nocase, Needed, ParseError};

verus! {

/// A compression algorithm; `DEFLATE` is the only one the extension
/// defines.
#[derive(Debug, Clone, Copy, PartialEq, Eq, Hash, Structural)]
pub enum CompressionAlgorithm {
    /// The DEFLATE compression scheme.
    Deflate,
}

/// The canonical wire form of the algorithm name `DEFLATE`.
pub open spec fn deflate_bytes() -> Seq<u8> {
    seq![0x44u8, 0x45u8, 0x46u8, 0x4cu8, 0x41u8, 0x54u8, 0x45u8]
}

/// The canonical wire form of the keyword `COMPRESS` and its following
/// space.
pub open spec fn compress_sp_bytes() -> Seq<u8> {
    seq![0x43u8, 0x4fu8, 0x4du8, 0x50u8, 0x52u8, 0x45u8, 0x53u8, 0x53u8, 0x20u8]
}

/// `input[at..next]` is a wire form of the algorithm `a`.
pub open spec fn is_algorithm_at(
    input: Seq<u8>,
    at: int,
    next: int,
    a: CompressionAlgorithm,
) -> bool {
    &&& matches_nocase(input, at, deflate_bytes())
    &&& next == at + 7
    &&& a == CompressionAlgorithm::Deflate
}

/// `input[at..next]` is a wire form of the command body `body`.
pub open spec fn is_compress_at(input: Seq<u8>, at: int, next: int, body: CommandBody) -> bool {
    &&& matches_nocase(input, at, compress_sp_bytes())
    &&& (body matches CommandBody::Compress { algorithm } && is_algorithm_at(
        input,
        at + 9,
        next,
        algorithm,
    ))
}

/// The input ends inside a `compress` production that has matched so far.
pub open spec fn inc_compress_at(input: Seq<u8>, at: int) -> bool {
    ||| prefix_nocase(input, at, compress_sp_bytes())
    ||| (matches_nocase(input, at, compress_sp_bytes()) && prefix_nocase(
        input,
        at + 9,
        deflate_bytes(),
    ))
}

/// The wire form the encoder writes for an algorithm: the canonical
/// upper-case name.
pub open spec fn encoded_algorithm(a: CompressionAlgorithm) -> Seq<u8> {
    deflate_bytes()
}

impl CompressionAlgorithm {
    /// Writes the algorithm name in canonical upper case.
    pub fn encode(&self, out: &mut Vec<u8>)
        ensures
            final(out)@ == old(out)@ + encoded_algorithm(*self),
    {
        out.push(0x44);
        out.push(0x45);
        out.push(0x46);
        out.push(0x4c);
        out.push(0x41);
        out.push(0x54);
        out.push(0x45);
        proof {
            assert(out@ =~= old(out)@ + deflate_bytes());
        }
    }
}

/// Parses the production `algorithm = "DEFLATE"` at offset `from`.
pub fn algorithm(input: &[u8], from: usize) -> (r: Result<
    (usize, CompressionAlgorithm),
    ParseError,
>)
    requires
        from <= input@.len(),
    ensures
        r matches Ok((next, a)) ==> is_algorithm_at(input@, from as int, next as int, a) && next
            <= input@.len(),
        (r is Ok) == matches_nocase(input@, from as int, deflate_bytes()),
        r matches Err(ParseError::Incomplete(n)) ==> n == Needed::Unknown,
        (r matches Err(ParseError::Incomplete(_))) <==> prefix_nocase(
            input@,
            from as int,
            deflate_bytes(),
        ),
        r matches Err(ParseError::Failed(p)) ==> p == from,
{
    let tok: [u8; 7] = [0x44, 0x45, 0x46, 0x4c, 0x41, 0x54, 0x45];
    proof {
        assert(tok@ =~= deflate_bytes());
    }
    match token_nocase(input, from, tok.as_slice()) {
        Ok(next) => Ok((next, CompressionAlgorithm::Deflate)),
        Err(e) => Err(e),
    }
}

/// Parses the production `compress = "COMPRESS" SP algorithm` at offset
/// `from`.
pub fn compress(input: &[u8], from: usize) -> (r: Result<(usize, CommandBody), ParseError>)
    requires
        from <= input@.len(),
    ensures
        r matches Ok((next, body)) ==> is_compress_at(input@, from as int, next as int, body)
            && next <= input@.len(),
        (r is Ok) == (matches_nocase(input@, from as int, compress_sp_bytes()) && matches_nocase(
            input@,
            from as int + 9,
            deflate_bytes(),
        )),
        r matches Err(ParseError::Incomplete(n)) ==> n == Needed::Unknown,
        (r matches Err(ParseError::Incomplete(_))) <==> inc_compress_at(input@, from as int),
        r matches Err(ParseError::Failed(p)) ==> p == from,
{
    let tok: [u8; 9] = [0x43, 0x4f, 0x4d, 0x50, 0x52, 0x45, 0x53, 0x53, 0x20];
    proof {
        assert(tok@ =~= compress_sp_bytes());
    }
    let mid = match token_nocase(input, from, tok.as_slice()) {
        Ok(m) => m,
        Err(e) => {
            return Err(e);
        },
    };
    match algorithm(input, mid) {
        Ok((next, alg)) => Ok((next, CommandBody::Compress { algorithm: alg })),
        Err(ParseError::Incomplete(n)) => Err(ParseError::Incomplete(n)),
        Err(ParseError::Failed(_)) => Err(ParseError::Failed(from)),
    }
}

}
