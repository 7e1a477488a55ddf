//! Content encodings and the codec that compresses and decompresses a
//! payload under one of them.

use crate::text::str_eq;
use flate2::bufread::{DeflateDecoder, DeflateEncoder, GzDecoder, GzEncoder};
use flate2::Compression;
use std::io::Read;
use vstd::prelude::*;
use vstd::slice::slice_to_vec;
use vstd::string::StringExecFns;

verus! {

/// The encodings that a payload can travel in.
#[derive(Clone, Copy, Debug, PartialEq, Eq, Structural)]
pub enum ContentEncoding {
    GZIP,
    DEFLATE,
    IDENTITY,
}

/// The failure of the codec.
#[derive(Clone, Copy, Debug, PartialEq, Eq, Structural)]
pub enum CodecError {
    /// The payload could not be compressed.
    CompressionFailed,
    /// The bytes are no well-formed stream of the encoding.
    DecompressionFailed,
}

/// The encoding that a token names: `gzip` and `deflate` name themselves, any
/// other text names the identity.
pub open spec fn encoding_of(token: Seq<char>) -> ContentEncoding {
    if token == "gzip"@ {
        ContentEncoding::GZIP
    } else if token == "deflate"@ {
        ContentEncoding::DEFLATE
    } else {
        ContentEncoding::IDENTITY
    }
}

/// The token that names an encoding.
pub open spec fn encoding_name(encoding: ContentEncoding) -> Seq<char> {
    match encoding {
        ContentEncoding::GZIP => "gzip"@,
        ContentEncoding::DEFLATE => "deflate"@,
        ContentEncoding::IDENTITY => "identity"@,
    }
}

/// Every encoding is named by its own token.
pub proof fn lemma_encoding_of_name(encoding: ContentEncoding)
    ensures
        encoding_of(encoding_name(encoding)) == encoding,
{
    reveal_strlit("gzip");
    reveal_strlit("deflate");
    reveal_strlit("identity");
    assert("gzip"@.len() == 4);
    assert("deflate"@.len() == 7);
}

impl ContentEncoding {
    /// The encoding that `encoding` names, by exact match.
    pub fn from_string(encoding: &str) -> (r: ContentEncoding)
        ensures
            r == encoding_of(encoding@),
    {
        if str_eq(encoding, "gzip") {
            ContentEncoding::GZIP
        } else if str_eq(encoding, "deflate") {
            ContentEncoding::DEFLATE
        } else {
            ContentEncoding::IDENTITY
        }
    }

    /// The token that names this encoding.
    pub fn to_string(self) -> (r: String)
        ensures
            r@ == encoding_name(self),
    {
        match self {
            ContentEncoding::GZIP => String::from_str("gzip"),
            ContentEncoding::DEFLATE => String::from_str("deflate"),
            ContentEncoding::IDENTITY => String::from_str("identity"),
        }
    }
}

/// `std::io::Error`, of which nothing is looked into.
#[verifier::external_type_specification]
#[verifier::external_body]
pub struct ExIoError(std::io::Error);

/// What `flate2::bufread::GzEncoder` writes for `data` at level 6, the
/// default level of `flate2`: a gzip stream, or `None` where the encoder
/// reports an error. The bytes are those of the backend that `flate2` is
/// built with, which is fixed when the crate is built.
pub uninterp spec fn gzip_encoded(data: Seq<u8>) -> Option<Seq<u8>>;

/// What `flate2::bufread::GzDecoder` reads from `data`: the bytes that the
/// first member of the gzip stream holds, or `None` where the decoder reports
/// an error.
pub uninterp spec fn gzip_decoded(data: Seq<u8>) -> Option<Seq<u8>>;

/// What `flate2::bufread::DeflateEncoder` writes for `data` at level 6, the
/// default level of `flate2`: a raw DEFLATE stream, or `None` where the
/// encoder reports an error. The bytes are those of the backend that `flate2`
/// is built with, which is fixed when the crate is built.
pub uninterp spec fn deflate_encoded(data: Seq<u8>) -> Option<Seq<u8>>;

/// What `flate2::bufread::DeflateDecoder` reads from `data`: the bytes that
/// the raw DEFLATE stream holds, or `None` where the decoder reports an error.
pub uninterp spec fn deflate_decoded(data: Seq<u8>) -> Option<Seq<u8>>;

/// `flate2::bufread::GzEncoder::new` over `data` at `Compression::default()`,
/// read to its end. Nothing of this contract is proved. It claims that the
/// outcome depends on `data` alone, and names it; and that a stream that the
/// encoder wrote is one that `GzDecoder` reads back as `data`, which is what
/// `flate2` documents the two for.
#[verifier::external_body]
fn gzip_encode(data: &[u8]) -> (r: Result<Vec<u8>, std::io::Error>)
    ensures
        match r {
            Ok(out) => gzip_encoded(data@) == Some(out@),
            Err(_) => gzip_encoded(data@) is None,
        },
        r matches Ok(out) ==> gzip_decoded(out@) == Some(data@),
{
    let mut out = Vec::new();
    let mut encoder = GzEncoder::new(data, Compression::default());
    encoder.read_to_end(&mut out)?;
    Ok(out)
}

/// Tells whether `data` starts as a gzip member does: with the two
/// identification bytes and the method byte for DEFLATE.
pub open spec fn starts_as_gzip(data: Seq<u8>) -> bool {
    data.len() >= 3 && data[0] == 0x1f && data[1] == 0x8b && data[2] == 8
}

/// `flate2::bufread::GzDecoder::new` over `data`, read to its end. Nothing of
/// this contract is proved. It claims that the outcome depends on `data`
/// alone, and names it; and that the decoder reports an error for bytes that
/// do not start as a gzip member does, which is the first thing that its
/// header parser checks.
#[verifier::external_body]
fn gzip_decode(data: &[u8]) -> (r: Result<Vec<u8>, std::io::Error>)
    ensures
        match r {
            Ok(out) => gzip_decoded(data@) == Some(out@),
            Err(_) => gzip_decoded(data@) is None,
        },
        !starts_as_gzip(data@) ==> r is Err,
{
    let mut out = Vec::new();
    let mut decoder = GzDecoder::new(data);
    decoder.read_to_end(&mut out)?;
    Ok(out)
}

/// `flate2::bufread::DeflateEncoder::new` over `data` at
/// `Compression::default()`, read to its end. Nothing of this contract is
/// proved. It claims that the outcome depends on `data` alone, and names it;
/// and that a stream that the encoder wrote is one that `DeflateDecoder` reads
/// back as `data`, which is what `flate2` documents the two for.
#[verifier::external_body]
fn deflate_encode(data: &[u8]) -> (r: Result<Vec<u8>, std::io::Error>)
    ensures
        match r {
            Ok(out) => deflate_encoded(data@) == Some(out@),
            Err(_) => deflate_encoded(data@) is None,
        },
        r matches Ok(out) ==> deflate_decoded(out@) == Some(data@),
{
    let mut out = Vec::new();
    let mut encoder = DeflateEncoder::new(data, Compression::default());
    encoder.read_to_end(&mut out)?;
    Ok(out)
}

/// `flate2::bufread::DeflateDecoder::new` over `data`, read to its end.
/// Nothing of this contract is proved. It claims that the outcome depends on
/// `data` alone, and names it.
#[verifier::external_body]
fn deflate_decode(data: &[u8]) -> (r: Result<Vec<u8>, std::io::Error>)
    ensures
        match r {
            Ok(out) => deflate_decoded(data@) == Some(out@),
            Err(_) => deflate_decoded(data@) is None,
        },
{
    let mut out = Vec::new();
    let mut decoder = DeflateDecoder::new(data);
    decoder.read_to_end(&mut out)?;
    Ok(out)
}

/// `data` compressed under `encoding`, or `None` where the codec fails. The
/// identity leaves the bytes as they are and never fails.
pub open spec fn compressed(encoding: ContentEncoding, data: Seq<u8>) -> Option<Seq<u8>> {
    match encoding {
        ContentEncoding::GZIP => gzip_encoded(data),
        ContentEncoding::DEFLATE => deflate_encoded(data),
        ContentEncoding::IDENTITY => Some(data),
    }
}

/// `data` decompressed under `encoding`, or `None` where the codec fails. The
/// identity leaves the bytes as they are and never fails.
pub open spec fn decompressed(encoding: ContentEncoding, data: Seq<u8>) -> Option<Seq<u8>> {
    match encoding {
        ContentEncoding::GZIP => gzip_decoded(data),
        ContentEncoding::DEFLATE => deflate_decoded(data),
        ContentEncoding::IDENTITY => Some(data),
    }
}

/// Under the identity, decompressing what was compressed gives the bytes
/// back.
pub proof fn lemma_identity_round_trip(data: Seq<u8>)
    ensures
        compressed(ContentEncoding::IDENTITY, data) == Some(data),
        decompressed(ContentEncoding::IDENTITY, compressed(ContentEncoding::IDENTITY, data)->0)
            == Some(data),
{
}

/// Compresses `buffer` under `encoding`: gzip and DEFLATE at level 6, the
/// identity not at all. What it returns decompresses to `buffer` under the
/// same encoding.
pub fn compress(encoding: ContentEncoding, buffer: &[u8]) -> (r: Result<Vec<u8>, CodecError>)
    ensures
        match r {
            Ok(out) => compressed(encoding, buffer@) == Some(out@),
            Err(e) => compressed(encoding, buffer@) is None && e == CodecError::CompressionFailed,
        },
        r matches Ok(out) ==> decompressed(encoding, out@) == Some(buffer@),
{
    let encoded = match encoding {
        ContentEncoding::GZIP => gzip_encode(buffer),
        ContentEncoding::DEFLATE => deflate_encode(buffer),
        ContentEncoding::IDENTITY => {
            return Ok(slice_to_vec(buffer));
        },
    };
    match encoded {
        Ok(out) => Ok(out),
        Err(_) => Err(CodecError::CompressionFailed),
    }
}

/// Decompresses `buffer` under `encoding`. Bytes that are no well-formed
/// stream of the encoding are an error; under gzip, so are all bytes that do
/// not start as a gzip member does.
pub fn decompress(encoding: ContentEncoding, buffer: &[u8]) -> (r: Result<Vec<u8>, CodecError>)
    ensures
        match r {
            Ok(out) => decompressed(encoding, buffer@) == Some(out@),
            Err(e) => decompressed(encoding, buffer@) is None && e
                == CodecError::DecompressionFailed,
        },
        encoding == ContentEncoding::GZIP && !starts_as_gzip(buffer@) ==> r is Err,
{
    let decoded = match encoding {
        ContentEncoding::GZIP => gzip_decode(buffer),
        ContentEncoding::DEFLATE => deflate_decode(buffer),
        ContentEncoding::IDENTITY => {
            return Ok(slice_to_vec(buffer));
        },
    };
    match decoded {
        Ok(out) => Ok(out),
        Err(_) => Err(CodecError::DecompressionFailed),
    }
}

} // verus!
