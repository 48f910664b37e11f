//! The /16 result file: the /16 stream, deflate-compressed, stored at
//! `./data/{a}/{b}` for the /16 `a.b.x.x`.
use vstd::prelude::*;
use async_compression::futures::write::{ZlibDecoder, ZlibEncoder};
use futures::io::AsyncWriteExt;
use crate::addr::octet;
use crate::codec::{encode_slash16, decode_slash16, encode_slash16_spec, decode_slash16_spec, lemma_slash16_round_trip};
use crate::outcome::{DecodeError, PingResult};
use crate::results::Slash16Result;
use crate::subnet::{Subnet, SubnetMask};
use crate::text::{decimal, push_decimal};

verus! {

/// The zlib stream that `async_compression`'s encoder writes at its best level;
/// `None` if the encoder fails on that input.
pub uninterp spec fn zlib_deflated(data: Seq<u8>) -> Option<Seq<u8>>;

/// The bytes that a zlib stream inflates to; `None` if it is not one whole valid stream.
pub uninterp spec fn zlib_inflated(z: Seq<u8>) -> Option<Seq<u8>>;

/// Relies on async_compression's ZlibEncoder at `Level::Best`: whether it succeeds
/// and the stream it writes depend on the input alone, and the decoder inflates
/// the stream back to the input.
#[verifier::external_body]
fn deflate_best(data: &[u8]) -> (r: Option<Vec<u8>>)
    ensures
        match r {
            Some(z) => zlib_deflated(data@) == Some(z@),
            None => zlib_deflated(data@) is None,
        },
        r matches Some(z) ==> zlib_inflated(z@) == Some(data@),
{
    let mut e = ZlibEncoder::with_quality(Vec::new(), async_compression::Level::Best);
    futures::executor::block_on(e.write_all(data)).ok()?;
    futures::executor::block_on(e.close()).ok()?;
    Some(e.into_inner())
}

/// Relies on async_compression's ZlibDecoder: it inflates one whole zlib stream
/// into a vector, and fails on anything else.
#[verifier::external_body]
fn inflate(z: &[u8]) -> (r: Option<Vec<u8>>)
    ensures
        match r {
            Some(d) => zlib_inflated(z@) == Some(d@),
            None => zlib_inflated(z@) is None,
        },
{
    let mut d = ZlibDecoder::new(Vec::new());
    futures::executor::block_on(d.write_all(z)).ok()?;
    futures::executor::block_on(d.close()).ok()?;
    Some(d.into_inner())
}

/// Why a /16 result could not be turned into file contents or a path.
#[derive(Debug, Clone, Copy, PartialEq, Eq, Structural)]
pub enum SaveError {
    /// The subnet is not a /16.
    WrongMask,
    /// The compressor failed on the stream.
    Compress,
}

/// How the contents of a /16 file are malformed.
#[derive(Debug, Clone, Copy, PartialEq, Eq, Structural)]
pub enum Corruption {
    /// The contents are not one whole zlib stream.
    Deflate,
    /// The inflated stream is not a valid /16 stream.
    Stream(DecodeError),
}

/// Why file contents are not a /16 result.
#[derive(Debug, Clone, Copy, PartialEq, Eq, Structural)]
pub enum ReadError {
    /// No file exists for the /16.
    NotFound,
    /// The file exists but does not decode.
    Corrupt(Corruption),
}

/// What file contents `z` read as.
pub open spec fn read_file_spec(z: Seq<u8>) -> Result<Seq<Option<Seq<PingResult>>>, ReadError> {
    match zlib_inflated(z) {
        None => Err(ReadError::Corrupt(Corruption::Deflate)),
        Some(d) => match decode_slash16_spec(d) {
            Ok(v) => Ok(v),
            Err(e) => Err(ReadError::Corrupt(Corruption::Stream(e))),
        },
    }
}

/// The path of the file of the /16 `a.b.x.x`: `./data/{a}/{b}`.
pub open spec fn slash16_path_spec(base: u32) -> Seq<char> {
    seq!['.', '/', 'd', 'a', 't', 'a', '/'] + decimal(octet(base, 0) as nat) + seq!['/']
        + decimal(octet(base, 1) as nat)
}

/// The directory that holds the file of the /16 `a.b.x.x`: `./data/{a}`.
pub open spec fn slash16_dir_spec(base: u32) -> Seq<char> {
    seq!['.', '/', 'd', 'a', 't', 'a', '/'] + decimal(octet(base, 0) as nat)
}

/// The path of the file of a /16; fails for any other mask.
pub fn slash16_path(subnet: &Subnet) -> (r: Result<String, SaveError>)
    ensures
        subnet.mask_spec() == SubnetMask::Slash16 <==> r is Ok,
        r matches Ok(p) ==> p@ == slash16_path_spec(subnet.base_spec()),
        r matches Err(e) ==> e == SaveError::WrongMask,
{
    match slash16_dir(subnet) {
        Err(e) => Err(e),
        Ok(mut out) => {
            let base = subnet.base_address();
            proof { reveal_strlit("/"); }
            out.append("/");
            push_decimal(&mut out, crate::addr::octet_at(base, 1) as u64);
            assert(out@ =~= slash16_path_spec(subnet.base_spec()));
            Ok(out)
        },
    }
}

/// The directory that holds the file of a /16; fails for any other mask.
pub fn slash16_dir(subnet: &Subnet) -> (r: Result<String, SaveError>)
    ensures
        subnet.mask_spec() == SubnetMask::Slash16 <==> r is Ok,
        r matches Ok(p) ==> p@ == slash16_dir_spec(subnet.base_spec()),
        r matches Err(e) ==> e == SaveError::WrongMask,
{
    if subnet.mask() != SubnetMask::Slash16 {
        return Err(SaveError::WrongMask);
    }
    let base = subnet.base_address();
    let mut out = String::new();
    proof { reveal_strlit("./data/"); }
    out.append("./data/");
    push_decimal(&mut out, crate::addr::octet_at(base, 0) as u64);
    assert(out@ =~= slash16_dir_spec(subnet.base_spec()));
    Ok(out)
}

/// The contents of the file of a /16: its stream, compressed at the best level.
/// A /16 gives the compressed stream, which reads back as the same /16; the
/// compressor's failure is the only other outcome.
pub fn encode_slash16_file(subnet: &Subnet, r: &Slash16Result) -> (out: Result<Vec<u8>, SaveError>)
    ensures
        subnet.mask_spec() != SubnetMask::Slash16 ==> out == Err::<Vec<u8>, SaveError>(SaveError::WrongMask),
        subnet.mask_spec() == SubnetMask::Slash16 ==> match zlib_deflated(encode_slash16_spec(r@)) {
            Some(z) => out matches Ok(o) && o@ == z,
            None => out == Err::<Vec<u8>, SaveError>(SaveError::Compress),
        },
        out matches Ok(z) ==> read_file_spec(z@) == Ok::<Seq<Option<Seq<PingResult>>>, ReadError>(r@),
{
    if subnet.mask() != SubnetMask::Slash16 {
        return Err(SaveError::WrongMask);
    }
    let stream = encode_slash16(r);
    proof {
        lemma_slash16_round_trip(r@);
    }
    match deflate_best(stream.as_slice()) {
        Some(z) => Ok(z),
        None => Err(SaveError::Compress),
    }
}

/// Reads the contents of a /16 file: inflates them and decodes the stream.
pub fn decode_slash16_file(z: &[u8]) -> (r: Result<Slash16Result, ReadError>)
    ensures
        match read_file_spec(z@) {
            Ok(v) => r matches Ok(x) && x@ == v,
            Err(e) => r matches Err(e2) && e2 == e,
        },
{
    match inflate(z) {
        None => Err(ReadError::Corrupt(Corruption::Deflate)),
        Some(d) => match decode_slash16(d.as_slice()) {
            Ok(x) => Ok(x),
            Err(e) => Err(ReadError::Corrupt(Corruption::Stream(e))),
        },
    }
}

} // verus!
