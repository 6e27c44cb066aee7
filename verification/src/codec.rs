//! Encodings of characters, digests and compressed data, by the crates that
//! implement them.

use vstd::prelude::*;
use vstd::utf8::{decode_utf8, valid_utf8};

verus! {

/// What `encoding_rs` makes of bytes in the code page IBM866, and whether it
/// met malformed sequences.
pub uninterp spec fn ibm866(bytes: Seq<u8>) -> (Seq<char>, bool);

/// What `encoding_rs` makes of bytes in the code page windows-1251, and
/// whether it met malformed sequences.
pub uninterp spec fn windows_1251(bytes: Seq<u8>) -> (Seq<char>, bool);

/// The text of bytes that are UTF-8.
pub open spec fn utf8(bytes: Seq<u8>) -> Option<Seq<char>> {
    if valid_utf8(bytes) {
        Some(decode_utf8(bytes))
    } else {
        None
    }
}

/// `std::str::from_utf8`: succeeds exactly on valid UTF-8, with the text that
/// the bytes encode.
#[verifier::external_body]
pub(crate) fn from_utf8(bytes: &[u8]) -> (r: Option<String>)
    ensures
        crate::text::opt_view(r) == utf8(bytes@),
{
    std::str::from_utf8(bytes).ok().map(|s| s.to_owned())
}

/// What `String::from_utf8_lossy` makes of bytes.
pub uninterp spec fn lossy_utf8(bytes: Seq<u8>) -> Seq<char>;

/// `String::from_utf8_lossy`: the text that valid UTF-8 encodes; other bytes
/// are replaced in a way that depends on the bytes alone.
#[verifier::external_body]
pub(crate) fn from_utf8_lossy(bytes: &[u8]) -> (r: String)
    ensures
        r@ == lossy_utf8(bytes@),
        valid_utf8(bytes@) ==> r@ == decode_utf8(bytes@),
{
    String::from_utf8_lossy(bytes).into_owned()
}

/// `encoding_rs::IBM866.decode`: the text and the flag of malformed sequences
/// depend on the bytes alone. The call panics where its output buffer would
/// not fit in memory's address range, which the bound on the length excludes.
#[verifier::external_body]
pub(crate) fn decode_ibm866(bytes: &[u8]) -> (r: (String, bool))
    requires
        bytes@.len() <= usize::MAX / 8,
    ensures
        (r.0@, r.1) == ibm866(bytes@),
{
    let (text, _, had_errors) = encoding_rs::IBM866.decode(bytes);
    (text.into_owned(), had_errors)
}

/// `encoding_rs::WINDOWS_1251.decode`: as for IBM866.
#[verifier::external_body]
pub(crate) fn decode_windows_1251(bytes: &[u8]) -> (r: (String, bool))
    requires
        bytes@.len() <= usize::MAX / 8,
    ensures
        (r.0@, r.1) == windows_1251(bytes@),
{
    let (text, _, had_errors) = encoding_rs::WINDOWS_1251.decode(bytes);
    (text.into_owned(), had_errors)
}

/// What `flate2` makes of a raw DEFLATE stream: the data, or the text of its
/// error.
pub uninterp spec fn inflate(bytes: Seq<u8>) -> Result<Seq<u8>, Seq<char>>;

/// The result of inflating, by its views.
pub open spec fn inflated_view(r: Result<Vec<u8>, String>) -> Result<Seq<u8>, Seq<char>> {
    match r {
        Ok(data) => Ok(data@),
        Err(e) => Err(e@),
    }
}

/// `flate2::read::DeflateDecoder`, read to its end: the data or the error
/// depends on the bytes alone.
#[verifier::external_body]
pub(crate) fn inflate_raw(bytes: &[u8]) -> (r: Result<Vec<u8>, String>)
    ensures
        inflated_view(r) == inflate(bytes@),
{
    let mut data = Vec::new();
    match std::io::Read::read_to_end(&mut flate2::read::DeflateDecoder::new(bytes), &mut data) {
        Ok(_) => Ok(data),
        Err(e) => Err(e.to_string()),
    }
}

/// The MD5 digest of bytes.
pub uninterp spec fn md5_digest(bytes: Seq<u8>) -> Seq<u8>;

/// `md5::Md5::digest`: sixteen bytes that depend on the input alone.
#[verifier::external_body]
pub(crate) fn md5(bytes: &[u8]) -> (r: Vec<u8>)
    ensures
        r@ == md5_digest(bytes@),
        r@.len() == 16,
{
    <md5::Md5 as md5::Digest>::digest(bytes).to_vec()
}

/// The SHA-256 digest of bytes.
pub uninterp spec fn sha256_digest(bytes: Seq<u8>) -> Seq<u8>;

/// `sha2::Sha256::digest`: thirty-two bytes that depend on the input alone.
#[verifier::external_body]
pub(crate) fn sha256(bytes: &[u8]) -> (r: Vec<u8>)
    ensures
        r@ == sha256_digest(bytes@),
        r@.len() == 32,
{
    <sha2::Sha256 as sha2::Digest>::digest(bytes).to_vec()
}

/// The base64 notation of bytes, in the standard alphabet with padding.
pub uninterp spec fn base64_text(bytes: Seq<u8>) -> Seq<char>;

/// `base64::engine::general_purpose::STANDARD.encode`: the text depends on
/// the bytes alone.
#[verifier::external_body]
pub(crate) fn base64(bytes: &[u8]) -> (r: String)
    requires
        bytes@.len() <= usize::MAX / 8,
    ensures
        r@ == base64_text(bytes@),
{
    base64::Engine::encode(&base64::engine::general_purpose::STANDARD, bytes)
}

} // verus!
