//! Gzip encoding and decoding of text bodies, done by flate2.
use vstd::prelude::*;
use vstd::utf8::encode_utf8;

verus! {

#[verifier::external_type_specification]
#[verifier::external_body]
pub struct ExIoError(std::io::Error);

pub enum CompressionError {
    EncodeFailed,
    DecodeFailed,
}

/// What flate2's gzip encoder writes for `data`.
pub uninterp spec fn gzip_of(data: Seq<u8>) -> Seq<u8>;

/// What flate2's gzip decoder reads from `data` as text.
pub uninterp spec fn gunzip_text_of(data: Seq<u8>) -> Seq<char>;

/// Relies on flate2's `GzEncoder` with the default level and header: the
/// finished stream for `data` depends on the bytes alone.
#[verifier::external_body]
fn gzip(data: &[u8]) -> (r: Result<Vec<u8>, std::io::Error>)
    ensures
        r matches Ok(v) ==> v@ == gzip_of(data@),
{
    let mut encoder = flate2::write::GzEncoder::new(Vec::new(), flate2::Compression::default());
    std::io::Write::write_all(&mut encoder, data)?;
    encoder.finish()
}

/// Relies on flate2's `GzDecoder` read to a string: the text it yields
/// depends on the bytes alone.
#[verifier::external_body]
fn gunzip_text(data: &[u8]) -> (r: Result<String, std::io::Error>)
    ensures
        r matches Ok(s) ==> s@ == gunzip_text_of(data@),
{
    let mut decoder = flate2::read::GzDecoder::new(data);
    let mut text = String::new();
    std::io::Read::read_to_string(&mut decoder, &mut text)?;
    Ok(text)
}

/// The gzip encoding of the UTF-8 bytes of `s`.
pub fn compress_string(s: &str) -> (r: Result<Vec<u8>, CompressionError>)
    ensures
        r matches Ok(v) ==> v@ == gzip_of(encode_utf8(s@)),
        r matches Err(e) ==> e == CompressionError::EncodeFailed,
{
    match gzip(s.as_bytes()) {
        Ok(v) => Ok(v),
        Err(_) => Err(CompressionError::EncodeFailed),
    }
}

/// The text that the gzip stream `compress_data` holds.
pub fn decompress_string(compress_data: &[u8]) -> (r: Result<String, CompressionError>)
    ensures
        r matches Ok(s) ==> s@ == gunzip_text_of(compress_data@),
        r matches Err(e) ==> e == CompressionError::DecodeFailed,
{
    match gunzip_text(compress_data) {
        Ok(s) => Ok(s),
        Err(_) => Err(CompressionError::DecodeFailed),
    }
}

} // verus!
