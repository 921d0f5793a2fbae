//! Signed session tokens.
//!
//! A token is 32 characters of unpadded URL-safe base64 that encode a
//! 24-byte payload (a 16-byte identity, then the issue time as a
//! little-endian `i64`), followed by the unpadded URL-safe base64 of the
//! HMAC-SHA256 of the payload under a shared secret.
use vstd::prelude::*;
use vstd::string::StringSliceAdditionalSpecFns;
use crate::codec::Identity;
use crate::wire::{i64_at, read_i64_le};
use hmac::{Hmac, Mac};
use sha2::Sha256;

verus! {

/// Characters of a token that encode its payload.
pub const PAYLOAD_CHARS: usize = 32;

/// Bytes of a decoded payload: identity, then issue time.
pub const PAYLOAD_LEN: usize = 24;

/// A verified token.
#[derive(Debug, Clone, Copy)]
pub struct Token {
    pub id: Identity,
    pub timestamp: i64,
}

/// Why a token was refused.
#[derive(Debug, Clone, Copy, PartialEq, Eq, Structural)]
pub enum TokenError {
    /// Fewer than [`PAYLOAD_CHARS`] bytes.
    TooShort,
    /// The payload is not base64, or decodes to fewer than
    /// [`PAYLOAD_LEN`] bytes.
    Malformed,
    /// The signature does not match the payload.
    BadSignature,
}

/// What `base64::decode_config_buf` with `URL_SAFE_NO_PAD` gives for the
/// input, `None` where it reports an error.
pub uninterp spec fn b64url_decoded_of(s: Seq<u8>) -> Option<Seq<u8>>;

/// What `base64::encode_config` with `URL_SAFE_NO_PAD` gives for the input,
/// as bytes.
pub uninterp spec fn b64url_encoded_of(b: Seq<u8>) -> Seq<u8>;

/// The HMAC-SHA256 tag of `msg` under `key`.
pub uninterp spec fn hmac_sha256_of(key: Seq<u8>, msg: Seq<u8>) -> Seq<u8>;

/// Relies on `base64::decode_config_buf` (with `URL_SAFE_NO_PAD`, into an
/// empty buffer): the decoded bytes, or an error; the result depends on the
/// input alone. Its buffer size computation cannot overflow for inputs of
/// at most half the address space.
#[verifier::external_body]
fn b64url_decode(input: &[u8]) -> (r: Option<Vec<u8>>)
    requires
        input@.len() <= usize::MAX / 2,
    ensures
        r is Some <==> b64url_decoded_of(input@) is Some,
        r matches Some(v) ==> b64url_decoded_of(input@) == Some(v@),
{
    let mut out: Vec<u8> = Vec::new();
    match base64::decode_config_buf(input, base64::URL_SAFE_NO_PAD, &mut out) {
        Ok(()) => Some(out),
        Err(_) => None,
    }
}

/// Relies on `base64::encode_config` (with `URL_SAFE_NO_PAD`): the encoded
/// text, which depends on the input alone. The size computation in it
/// cannot overflow for inputs of at most half the address space.
#[verifier::external_body]
fn b64url_encode(input: &[u8]) -> (r: Vec<u8>)
    requires
        input@.len() <= usize::MAX / 2,
    ensures
        r@ == b64url_encoded_of(input@),
{
    base64::encode_config(input, base64::URL_SAFE_NO_PAD).into_bytes()
}

/// Relies on hmac's `Hmac<Sha256>`: `new_from_slice` accepts a key of any
/// length, and the finalized tag is SHA-256 sized, 32 bytes.
#[verifier::external_body]
fn hmac_sha256(key: &[u8], msg: &[u8]) -> (r: Vec<u8>)
    ensures
        r@ == hmac_sha256_of(key@, msg@),
        r@.len() == 32,
{
    let mut mac = <Hmac<Sha256> as Mac>::new_from_slice(key).expect("HMAC takes keys of any length");
    mac.update(msg);
    mac.finalize().into_bytes().to_vec()
}

/// A token's outcome as plain values: the identity bytes and issue time.
pub open spec fn token_view(r: Result<Token, TokenError>) -> Result<(Seq<u8>, i64), TokenError> {
    match r {
        Ok(t) => Ok((t.id@, t.timestamp)),
        Err(e) => Err(e),
    }
}

/// What a token check gives, from the token's bytes, the decoded payload
/// and the signature text that the payload calls for.
pub open spec fn check_spec(input: Seq<u8>, payload: Option<Seq<u8>>, expected: Seq<u8>) -> Result<
    (Seq<u8>, i64),
    TokenError,
> {
    if input.len() < PAYLOAD_CHARS {
        Err(TokenError::TooShort)
    } else if payload is None || payload->0.len() < PAYLOAD_LEN {
        Err(TokenError::Malformed)
    } else if input.subrange(PAYLOAD_CHARS as int, input.len() as int) != expected {
        Err(TokenError::BadSignature)
    } else {
        let p = payload->0;
        Ok((p.subrange(0, 16), i64_at(p.subrange(16, 24))))
    }
}

/// What verifying `input` under `secret` gives.
pub open spec fn verify_spec(input: Seq<u8>, secret: Seq<u8>) -> Result<(Seq<u8>, i64), TokenError> {
    if input.len() < PAYLOAD_CHARS {
        Err(TokenError::TooShort)
    } else {
        let payload = b64url_decoded_of(input.subrange(0, PAYLOAD_CHARS as int));
        match payload {
            None => Err(TokenError::Malformed),
            Some(p) => check_spec(input, payload, b64url_encoded_of(hmac_sha256_of(secret, p))),
        }
    }
}

/// Checks a token against its decoded payload and the signature text that
/// the payload calls for; see [`check_spec`].
pub fn check_token(input: &[u8], payload: Option<Vec<u8>>, expected: &[u8]) -> (r: Result<
    Token,
    TokenError,
>)
    ensures
        token_view(r) == check_spec(
            input@,
            match payload {
                Some(p) => Some(p@),
                None => None,
            },
            expected@,
        ),
{
    if input.len() < PAYLOAD_CHARS {
        return Err(TokenError::TooShort);
    }
    let p = match payload {
        Some(p) => p,
        None => return Err(TokenError::Malformed),
    };
    if p.len() < PAYLOAD_LEN {
        return Err(TokenError::Malformed);
    }
    let signature_len = input.len() - PAYLOAD_CHARS;
    if signature_len != expected.len() {
        assert(input@.subrange(PAYLOAD_CHARS as int, input@.len() as int).len() != expected@.len());
        return Err(TokenError::BadSignature);
    }
    let mut k: usize = 0;
    while k < signature_len
        invariant
            signature_len == expected@.len(),
            signature_len + PAYLOAD_CHARS == input@.len(),
            input@.len() <= usize::MAX,
            p@.len() >= PAYLOAD_LEN,
            payload == Some(p),
            k <= signature_len,
            forall|m: int| 0 <= m < k ==> input@[PAYLOAD_CHARS + m] == expected@[m],
        decreases signature_len - k,
    {
        if input[PAYLOAD_CHARS + k] != expected[k] {
            assert(input@.subrange(PAYLOAD_CHARS as int, input@.len() as int)[k as int]
                != expected@[k as int]);
            return Err(TokenError::BadSignature);
        }
        k = k + 1;
    }
    assert(input@.subrange(PAYLOAD_CHARS as int, input@.len() as int) =~= expected@);
    let mut id: Identity = [0u8; 16];
    let mut i: usize = 0;
    while i < 16
        invariant
            i <= 16,
            p@.len() >= PAYLOAD_LEN,
            forall|m: int| 0 <= m < i ==> id[m] == p@[m],
        decreases 16 - i,
    {
        id[i] = p[i];
        i = i + 1;
    }
    assert(id@ =~= p@.subrange(0, 16));
    let timestamp = read_i64_le(p.as_slice(), 16);
    assert(p@.subrange(16, p@.len() as int).subrange(0, 8) =~= p@.subrange(16, 24).subrange(0, 8));
    Ok(Token { id, timestamp })
}

/// Verifies a token under `secret`; see [`verify_spec`].
pub fn verify(input: &str, secret: &str) -> (r: Result<Token, TokenError>)
    ensures
        token_view(r) == verify_spec(input.spec_bytes(), secret.spec_bytes()),
{
    let bytes = input.as_bytes();
    if bytes.len() < PAYLOAD_CHARS {
        return Err(TokenError::TooShort);
    }
    let (head, _) = bytes.split_at(PAYLOAD_CHARS);
    let payload = match b64url_decode(head) {
        Some(p) => p,
        None => return Err(TokenError::Malformed),
    };
    let signature = hmac_sha256(secret.as_bytes(), payload.as_slice());
    let expected = b64url_encode(signature.as_slice());
    check_token(bytes, Some(payload), expected.as_slice())
}

} // verus!
