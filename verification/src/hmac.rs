//! The keyed digest behind credential signatures.  The digest itself is
//! outside work; it enters the library only through the two trusted
//! functions here, whose contracts name its result.

use vstd::prelude::*;

use crate::base64url::b64_encode;

verus! {

/// The HMAC-SHA256 digest of a message under a key: a fixed function of
/// the two arguments alone.  No clause states its value; the library
/// relies only on both signing and checking computing the same digest.
pub uninterp spec fn hmac_sha256(key: Seq<u8>, message: Seq<u8>) -> Seq<u8>;

/// Relies on `jsonwebtoken::crypto::sign` with `Algorithm::HS256`: it
/// always succeeds and returns the base64url text (URL-safe alphabet, no
/// padding) of the HMAC-SHA256 digest of the message under the secret.
#[verifier::external_body]
pub fn hs256_sign(key: &[u8], message: &[u8]) -> (sig: Vec<u8>)
    ensures
        sig@ == b64_encode(hmac_sha256(key@, message@)),
{
    let k = jsonwebtoken::EncodingKey::from_secret(key);
    let s = jsonwebtoken::crypto::sign(message, &k, jsonwebtoken::Algorithm::HS256).unwrap();
    s.into_bytes()
}

/// Relies on `jsonwebtoken::crypto::verify` with `Algorithm::HS256`: it
/// recomputes the base64url signature text of the message and compares
/// it with the presented text in constant time, so the result says
/// exactly whether the presented text is that encoding.  A presented
/// value that is not UTF-8 cannot be the encoding, which is ASCII.
#[verifier::external_body]
pub fn hs256_check(key: &[u8], message: &[u8], sig: &[u8]) -> (ok: bool)
    ensures
        ok == (sig@ == b64_encode(hmac_sha256(key@, message@))),
{
    match std::str::from_utf8(sig) {
        Ok(s) => {
            let k = jsonwebtoken::DecodingKey::from_secret(key);
            jsonwebtoken::crypto::verify(s, message, &k, jsonwebtoken::Algorithm::HS256).unwrap_or(
                false,
            )
        },
        Err(_) => false,
    }
}

} // verus!
