//! Gzip compression of message content.

use std::io::{Read, Write};
use flate2::read::GzDecoder;
use flate2::write::GzEncoder;
use flate2::Compression;
use vstd::prelude::*;
use vstd::utf8::{decode_utf8, encode_utf8, valid_utf8};

verus! {

/// The gzip stream that flate2 writes for `data` at the default level.
pub uninterp spec fn gzip_of(data: Seq<u8>) -> Seq<u8>;

/// What flate2's gzip decoder reads from `data`, or `None` where `data` is
/// not a gzip stream.
pub uninterp spec fn gunzip_of(data: Seq<u8>) -> Option<Seq<u8>>;

/// Whether flate2's gzip encoder fails on `data`.
pub uninterp spec fn gzip_fails(data: Seq<u8>) -> bool;

/// Why content could not be compressed or restored.
#[derive(PartialEq, Eq, Structural, Clone, Copy, Debug)]
pub enum CompressionError {
    /// The encoder failed.
    Deflate,
    /// The bytes are not a gzip stream.
    Inflate,
    /// The restored bytes are not UTF-8 text.
    InvalidUtf8,
}

/// Relies on flate2's `write::GzEncoder` at `Compression::default()`: it
/// fails or not according to the input alone, the stream starts with the
/// gzip header bytes 1f 8b 08, and its decoder restores the input from it.
#[verifier::external_body]
fn gzip(data: &[u8]) -> (r: Option<Vec<u8>>)
    ensures
        r is None <==> gzip_fails(data@),
        r matches Some(v) ==> v@ == gzip_of(data@) && gunzip_of(v@) == Some(data@) && v@.len()
            >= 3 && v@[0] == 0x1f && v@[1] == 0x8b && v@[2] == 0x08,
{
    let mut encoder = GzEncoder::new(Vec::new(), Compression::default());
    encoder.write_all(data).ok()?;
    encoder.finish().ok()
}

/// Relies on flate2's `read::GzDecoder`, read to the end.
#[verifier::external_body]
fn gunzip(data: &[u8]) -> (r: Option<Vec<u8>>)
    ensures
        match r {
            Some(v) => gunzip_of(data@) == Some(v@),
            None => gunzip_of(data@) is None,
        },
{
    let mut out = Vec::new();
    GzDecoder::new(data).read_to_end(&mut out).ok()?;
    Some(out)
}

/// Relies on std::str::from_utf8: it accepts exactly the UTF-8 byte strings,
/// and the text it returns is what those bytes encode.
#[verifier::external_body]
pub(crate) fn utf8_text(b: &[u8]) -> (r: Option<&str>)
    ensures
        r is Some <==> valid_utf8(b@),
        r matches Some(s) ==> s@ == decode_utf8(b@),
{
    std::str::from_utf8(b).ok()
}

/// The text that gzip-compressed `data` restores to.
pub open spec fn restored_text(data: Seq<u8>) -> Result<Seq<char>, CompressionError> {
    match gunzip_of(data) {
        None => Err(CompressionError::Inflate),
        Some(d) => if valid_utf8(d) {
            Ok(decode_utf8(d))
        } else {
            Err(CompressionError::InvalidUtf8)
        },
    }
}

/// Whether bytes start as a deflate-coded gzip stream does, with 1f 8b 08.
pub open spec fn gzip_magic(b: Seq<u8>) -> bool {
    b.len() >= 3 && b[0] == 0x1f && b[1] == 0x8b && b[2] == 0x08
}

/// Compresses the UTF-8 bytes of `content` with gzip; decompressing the
/// result gives `content` back.
pub fn compress_content(content: &str) -> (r: Result<Vec<u8>, CompressionError>)
    ensures
        match r {
            Ok(v) => v@ == gzip_of(encode_utf8(content@)) && restored_text(v@) == Ok::<
                Seq<char>,
                CompressionError,
            >(content@) && gzip_magic(v@),
            Err(e) => e == CompressionError::Deflate,
        },
        r is Err <==> gzip_fails(encode_utf8(content@)),
{
    match gzip(content.as_bytes()) {
        Some(v) => {
            proof {
                vstd::utf8::encode_utf8_valid_utf8(content@);
                vstd::utf8::encode_utf8_decode_utf8(content@);
            }
            Ok(v)
        },
        None => Err(CompressionError::Deflate),
    }
}

/// Restores text from gzip-compressed bytes.
pub fn decompress_content(compressed_data: &[u8]) -> (r: Result<String, CompressionError>)
    ensures
        match restored_text(compressed_data@) {
            Ok(s) => r matches Ok(t) && t@ == s,
            Err(e) => r == Err::<String, CompressionError>(e),
        },
{
    match gunzip(compressed_data) {
        Some(v) => match utf8_text(v.as_slice()) {
            Some(s) => Ok(s.to_owned()),
            None => Err(CompressionError::InvalidUtf8),
        },
        None => Err(CompressionError::Inflate),
    }
}

/// Whether content is compressed: its UTF-8 length strictly exceeds the threshold.
pub fn should_compress(content: &str, threshold: usize) -> (r: bool)
    ensures
        r == (encode_utf8(content@).len() > threshold),
{
    content.as_bytes().len() > threshold
}

} // verus!
