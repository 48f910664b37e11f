//! The outcome of probing one address, and its self-delimiting byte encoding.
use vstd::prelude::*;

verus! {

/// What probing one address gave: a reply after `rtt` milliseconds, no reply
/// in time, or a transport failure.
#[derive(Debug, Clone, Copy, PartialEq, Eq, Structural)]
pub enum PingResult {
    Success(u16),
    Timeout,
    Error,
}

/// Why a byte stream is not a valid encoding.
#[derive(Debug, Clone, Copy, PartialEq, Eq, Structural)]
pub enum DecodeError {
    /// An outcome starts with a tag other than 0, 1 or 2.
    CorruptOutcome,
    /// A /24 record starts with a tag other than 0 or 1.
    CorruptSlash24,
    /// The stream ends inside a record.
    Truncated,
    /// Bytes follow the last of the 256 records.
    TrailingBytes,
}

/// The encoding of one outcome: tag 0 and the round-trip time as two
/// little-endian bytes, tag 1 for a timeout, tag 2 for an error.
pub open spec fn encode_outcome_spec(o: PingResult) -> Seq<u8> {
    match o {
        PingResult::Success(rtt) => seq![0u8, (rtt % 256) as u8, (rtt / 256) as u8],
        PingResult::Timeout => seq![1u8],
        PingResult::Error => seq![2u8],
    }
}

/// Reads one outcome at `pos`: the outcome and the position after it.
pub open spec fn decode_outcome_spec(b: Seq<u8>, pos: int) -> Result<(PingResult, int), DecodeError> {
    if pos < 0 || pos >= b.len() {
        Err(DecodeError::Truncated)
    } else if b[pos] == 0 {
        if pos + 3 > b.len() {
            Err(DecodeError::Truncated)
        } else {
            Ok((PingResult::Success((b[pos + 1] + 256 * b[pos + 2]) as u16), pos + 3))
        }
    } else if b[pos] == 1 {
        Ok((PingResult::Timeout, pos + 1))
    } else if b[pos] == 2 {
        Ok((PingResult::Error, pos + 1))
    } else {
        Err(DecodeError::CorruptOutcome)
    }
}

/// An outcome reads back from its encoding, whatever precedes or follows it.
pub proof fn lemma_outcome_round_trip(o: PingResult, pre: Seq<u8>, post: Seq<u8>)
    ensures
        decode_outcome_spec(pre + encode_outcome_spec(o) + post, pre.len() as int)
            == Ok::<(PingResult, int), DecodeError>((o, (pre.len() + encode_outcome_spec(o).len()) as int)),
{
    let b = pre + encode_outcome_spec(o) + post;
    let p = pre.len() as int;
    assert(b[p] == encode_outcome_spec(o)[0]);
    if let PingResult::Success(rtt) = o {
        assert(b[p + 1] == (rtt % 256) as u8);
        assert(b[p + 2] == (rtt / 256) as u8);
    }
}

impl PingResult {
    /// A reply after `ms` milliseconds; times beyond 65,535 ms saturate.
    pub fn from_rtt_millis(ms: u128) -> (r: PingResult)
        ensures
            r == PingResult::Success(if ms > 0xFFFF { 0xFFFFu16 } else { ms as u16 }),
    {
        if ms > 0xFFFF {
            PingResult::Success(0xFFFF)
        } else {
            PingResult::Success(ms as u16)
        }
    }

    /// Appends the encoding of this outcome.
    pub fn serialize_into(&self, out: &mut Vec<u8>)
        ensures
            final(out)@ == old(out)@ + encode_outcome_spec(*self),
    {
        match self {
            PingResult::Success(rtt) => {
                out.push(0);
                out.push((*rtt % 256) as u8);
                out.push((*rtt / 256) as u8);
            },
            PingResult::Timeout => out.push(1),
            PingResult::Error => out.push(2),
        }
        assert(out@ =~= old(out)@ + encode_outcome_spec(*self));
    }

    /// Reads one outcome at `pos`; the result gives the position after it.
    pub fn parse_from_bytes(b: &[u8], pos: usize) -> (r: Result<(PingResult, usize), DecodeError>)
        ensures
            match decode_outcome_spec(b@, pos as int) {
                Ok((o, p)) => r matches Ok((o2, q)) && o2 == o && q as int == p,
                Err(e) => r == Err::<(PingResult, usize), DecodeError>(e),
            },
    {
        let n = b.len();
        if pos >= n {
            return Err(DecodeError::Truncated);
        }
        let tag = b[pos];
        if tag == 0 {
            if n - pos < 3 {
                Err(DecodeError::Truncated)
            } else {
                let rtt = (b[pos + 1] as u16) + 256 * (b[pos + 2] as u16);
                Ok((PingResult::Success(rtt), pos + 3))
            }
        } else if tag == 1 {
            Ok((PingResult::Timeout, pos + 1))
        } else if tag == 2 {
            Ok((PingResult::Error, pos + 1))
        } else {
            Err(DecodeError::CorruptOutcome)
        }
    }
}

} // verus!
