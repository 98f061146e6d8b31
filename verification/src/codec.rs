//! Stage codecs: base64 decoding, gzip inflation and SHA-256
//! fingerprinting through trusted wrappers over their crates, and the
//! verified repeating-key XOR that joins them.

use vstd::prelude::*;

verus! {

/// Why a stage decoder failed on a sample's bytes.
#[derive(Debug, Clone, Copy, PartialEq, Eq, Structural)]
pub enum DecodeError {
    /// A fixed marker substring was not found where the stage expects it.
    MarkerNotFound,
    /// The extracted blob is not valid base64.
    Base64Invalid,
    /// The decoded bytes are not a valid gzip stream of UTF-8 text.
    GzipInvalid,
    /// A scan would have split a multi-byte UTF-8 codepoint.
    CharBoundary,
    /// An obfuscated character expression did not evaluate.
    ExprEval,
}

/// What base64 decoding yields on the given bytes, standard alphabet
/// with padding; `None` when the input is not valid base64. Depends on
/// the input alone.
pub uninterp spec fn base64_decode_of(b: Seq<u8>) -> Option<Seq<u8>>;

/// Relies on base64's `Engine::decode` with the standard padded
/// alphabet: decodes exactly the valid base64 inputs.
#[verifier::external_body]
pub fn base64_decode(data: &[u8]) -> (r: Option<Vec<u8>>)
    ensures
        match r {
            Some(v) => base64_decode_of(data@) == Some(v@),
            None => base64_decode_of(data@) is None,
        },
{
    let engine = base64::engine::GeneralPurpose::new(
        &base64::alphabet::STANDARD,
        base64::engine::general_purpose::PAD,
    );
    base64::Engine::decode(&engine, data).ok()
}

/// What reading a gzip stream to UTF-8 text yields, as UTF-8 bytes;
/// `None` when the stream or its text is invalid. Depends on the input
/// alone.
pub uninterp spec fn gunzip_text_of(b: Seq<u8>) -> Option<Seq<u8>>;

/// Relies on flate2's `GzDecoder` and `Read::read_to_string`: inflates
/// the stream and requires the result to be UTF-8.
#[verifier::external_body]
pub fn gunzip_to_text(data: &[u8]) -> (r: Option<Vec<u8>>)
    ensures
        match r {
            Some(v) => gunzip_text_of(data@) == Some(v@),
            None => gunzip_text_of(data@) is None,
        },
{
    let cursor = std::io::Cursor::new(data);
    let mut decoder = flate2::bufread::GzDecoder::new(cursor);
    let mut s = String::new();
    match std::io::Read::read_to_string(&mut decoder, &mut s) {
        Ok(_) => Some(s.into_bytes()),
        Err(_) => None,
    }
}

/// The 64 lowercase hex characters of the SHA-256 digest of the given
/// bytes. Depends on the input alone.
pub uninterp spec fn sha256_hex_of(b: Seq<u8>) -> Seq<u8>;

/// Relies on sha256's `digest`: the SHA-256 of the input as a 64-byte
/// lowercase hex string.
#[verifier::external_body]
pub fn sha256_hex(data: &[u8]) -> (r: Vec<u8>)
    ensures
        r@ == sha256_hex_of(data@),
        r@.len() == 64,
{
    sha256::digest(data).into_bytes()
}

/// Each byte XORed with the key byte at its offset modulo the key
/// length.
pub open spec fn spec_xor_with_key(data: Seq<u8>, key: Seq<u8>) -> Seq<u8>
    recommends
        key.len() > 0,
{
    Seq::new(data.len(), |i: int| data[i] ^ key[i % key.len() as int])
}

/// XORs `data` with the repeating `key`.
#[verifier::loop_isolation(false)]
pub fn xor_with_key(data: &[u8], key: &[u8]) -> (r: Vec<u8>)
    requires
        key@.len() > 0,
    ensures
        r@ == spec_xor_with_key(data@, key@),
{
    let mut out: Vec<u8> = Vec::new();
    let mut i: usize = 0;
    while i < data.len()
        invariant
            0 <= i <= data@.len(),
            out@.len() == i,
            forall|k: int| 0 <= k < i ==> out@[k] == spec_xor_with_key(data@, key@)[k],
        decreases data@.len() - i,
    {
        out.push(data[i] ^ key[i % key.len()]);
        i = i + 1;
    }
    assert(out@ =~= spec_xor_with_key(data@, key@));
    out
}

/// What the base64 → repeating-key XOR → gzip stage chain yields on a
/// sample's extracted key and blob.
pub open spec fn spec_decode_base64_with_xor_key(key: Seq<u8>, b64: Seq<u8>) -> Result<
    Seq<u8>,
    DecodeError,
> {
    match base64_decode_of(b64) {
        None => Err(DecodeError::Base64Invalid),
        Some(d) => match gunzip_text_of(spec_xor_with_key(d, key)) {
            None => Err(DecodeError::GzipInvalid),
            Some(t) => Ok(t),
        },
    }
}

/// Decodes one stage: base64-decode the blob, XOR it with the repeating
/// key, and gzip-inflate the result into text (as UTF-8 bytes).
pub fn decode_base64_with_xor_key(xor_key: &[u8], base64: &[u8]) -> (r: Result<
    Vec<u8>,
    DecodeError,
>)
    requires
        xor_key@.len() > 0,
    ensures
        match (r, spec_decode_base64_with_xor_key(xor_key@, base64@)) {
            (Ok(v), Ok(s)) => v@ == s,
            (Err(e), Err(s)) => e == s,
            _ => false,
        },
{
    let decoded = match base64_decode(base64) {
        Some(v) => v,
        None => {
            return Err(DecodeError::Base64Invalid);
        },
    };
    let xored = xor_with_key(decoded.as_slice(), xor_key);
    match gunzip_to_text(xored.as_slice()) {
        Some(t) => Ok(t),
        None => Err(DecodeError::GzipInvalid),
    }
}

} // verus!
