//! Trusted bindings to the outside cryptographic and encoding crates.
//!
//! Each wrapper names the outside function it relies on.  Digests and
//! base64 text are functions of their inputs alone, so their contents are
//! only named (`hmac_*_of`, `base64_of`); lengths and success conditions
//! are stated as the crates' sources show them.

use vstd::prelude::*;
use vstd::utf8::{decode_utf8, valid_utf8};

use hmac::{Hmac, KeyInit, Mac};

use crate::constants::{spec_digest_len, RndcAlg};

verus! {

/// The HMAC-MD5 digest of `msg` under `key`.
pub uninterp spec fn hmac_md5_of(key: Seq<u8>, msg: Seq<u8>) -> Seq<u8>;

/// The HMAC-SHA1 digest of `msg` under `key`.
pub uninterp spec fn hmac_sha1_of(key: Seq<u8>, msg: Seq<u8>) -> Seq<u8>;

/// The HMAC-SHA224 digest of `msg` under `key`.
pub uninterp spec fn hmac_sha224_of(key: Seq<u8>, msg: Seq<u8>) -> Seq<u8>;

/// The HMAC-SHA256 digest of `msg` under `key`.
pub uninterp spec fn hmac_sha256_of(key: Seq<u8>, msg: Seq<u8>) -> Seq<u8>;

/// The HMAC-SHA384 digest of `msg` under `key`.
pub uninterp spec fn hmac_sha384_of(key: Seq<u8>, msg: Seq<u8>) -> Seq<u8>;

/// The HMAC-SHA512 digest of `msg` under `key`.
pub uninterp spec fn hmac_sha512_of(key: Seq<u8>, msg: Seq<u8>) -> Seq<u8>;

/// The standard padded base64 rendering of `data`, as ASCII bytes.
pub uninterp spec fn base64_of(data: Seq<u8>) -> Seq<u8>;

/// What standard base64 decoding makes of `text`: `Some` exactly on
/// well-formed input.
pub uninterp spec fn base64_decode_of(text: Seq<char>) -> Option<Seq<u8>>;

/// The keyed digest the given algorithm produces.
pub open spec fn spec_hmac(alg: RndcAlg, key: Seq<u8>, msg: Seq<u8>) -> Seq<u8> {
    match alg {
        RndcAlg::MD5 => hmac_md5_of(key, msg),
        RndcAlg::SHA1 => hmac_sha1_of(key, msg),
        RndcAlg::SHA224 => hmac_sha224_of(key, msg),
        RndcAlg::SHA256 => hmac_sha256_of(key, msg),
        RndcAlg::SHA384 => hmac_sha384_of(key, msg),
        RndcAlg::SHA512 => hmac_sha512_of(key, msg),
    }
}

/// Relies on `hmac::Hmac::<md5::Md5>`: `new_from_slice` accepts keys of any
/// length (its body always returns `Ok`), and the finalised 16-byte digest
/// depends on key and message alone.
#[verifier::external_body]
fn hmac_md5(key: &[u8], msg: &[u8]) -> (r: Option<Vec<u8>>)
    ensures
        r is Some,
        r matches Some(d) ==> d@ == hmac_md5_of(key@, msg@) && d@.len() == 16,
{
    match Hmac::<md5::Md5>::new_from_slice(key) {
        Ok(mut mac) => {
            mac.update(msg);
            Some(mac.finalize().into_bytes().to_vec())
        },
        Err(_) => None,
    }
}

/// Relies on `hmac::Hmac::<sha1::Sha1>`: infallible keying, 20-byte digest,
/// a function of key and message alone.
#[verifier::external_body]
fn hmac_sha1(key: &[u8], msg: &[u8]) -> (r: Option<Vec<u8>>)
    ensures
        r is Some,
        r matches Some(d) ==> d@ == hmac_sha1_of(key@, msg@) && d@.len() == 20,
{
    match Hmac::<sha1::Sha1>::new_from_slice(key) {
        Ok(mut mac) => {
            mac.update(msg);
            Some(mac.finalize().into_bytes().to_vec())
        },
        Err(_) => None,
    }
}

/// Relies on `hmac::Hmac::<sha2::Sha224>`: infallible keying, 28-byte
/// digest, a function of key and message alone.
#[verifier::external_body]
fn hmac_sha224(key: &[u8], msg: &[u8]) -> (r: Option<Vec<u8>>)
    ensures
        r is Some,
        r matches Some(d) ==> d@ == hmac_sha224_of(key@, msg@) && d@.len() == 28,
{
    match Hmac::<sha2::Sha224>::new_from_slice(key) {
        Ok(mut mac) => {
            mac.update(msg);
            Some(mac.finalize().into_bytes().to_vec())
        },
        Err(_) => None,
    }
}

/// Relies on `hmac::Hmac::<sha2::Sha256>`: infallible keying, 32-byte
/// digest, a function of key and message alone.
#[verifier::external_body]
fn hmac_sha256(key: &[u8], msg: &[u8]) -> (r: Option<Vec<u8>>)
    ensures
        r is Some,
        r matches Some(d) ==> d@ == hmac_sha256_of(key@, msg@) && d@.len() == 32,
{
    match Hmac::<sha2::Sha256>::new_from_slice(key) {
        Ok(mut mac) => {
            mac.update(msg);
            Some(mac.finalize().into_bytes().to_vec())
        },
        Err(_) => None,
    }
}

/// Relies on `hmac::Hmac::<sha2::Sha384>`: infallible keying, 48-byte
/// digest, a function of key and message alone.
#[verifier::external_body]
fn hmac_sha384(key: &[u8], msg: &[u8]) -> (r: Option<Vec<u8>>)
    ensures
        r is Some,
        r matches Some(d) ==> d@ == hmac_sha384_of(key@, msg@) && d@.len() == 48,
{
    match Hmac::<sha2::Sha384>::new_from_slice(key) {
        Ok(mut mac) => {
            mac.update(msg);
            Some(mac.finalize().into_bytes().to_vec())
        },
        Err(_) => None,
    }
}

/// Relies on `hmac::Hmac::<sha2::Sha512>`: infallible keying, 64-byte
/// digest, a function of key and message alone.
#[verifier::external_body]
fn hmac_sha512(key: &[u8], msg: &[u8]) -> (r: Option<Vec<u8>>)
    ensures
        r is Some,
        r matches Some(d) ==> d@ == hmac_sha512_of(key@, msg@) && d@.len() == 64,
{
    match Hmac::<sha2::Sha512>::new_from_slice(key) {
        Ok(mut mac) => {
            mac.update(msg);
            Some(mac.finalize().into_bytes().to_vec())
        },
        Err(_) => None,
    }
}

/// The digest for the chosen algorithm, dispatched over the wrappers.
pub fn compute_hmac(alg: &RndcAlg, key: &[u8], msg: &[u8]) -> (r: Option<Vec<u8>>)
    ensures
        r is Some,
        r matches Some(d) ==> d@ == spec_hmac(*alg, key@, msg@) && d@.len() == spec_digest_len(
            *alg,
        ),
{
    match alg {
        RndcAlg::MD5 => hmac_md5(key, msg),
        RndcAlg::SHA1 => hmac_sha1(key, msg),
        RndcAlg::SHA224 => hmac_sha224(key, msg),
        RndcAlg::SHA256 => hmac_sha256(key, msg),
        RndcAlg::SHA384 => hmac_sha384(key, msg),
        RndcAlg::SHA512 => hmac_sha512(key, msg),
    }
}

/// Relies on base64's `general_purpose::STANDARD` engine (standard
/// alphabet, padded): the text is `4 * ceil(n / 3)` bytes, as
/// `encoded_len` computes it, and depends on the input alone.  The input
/// bound keeps that length computation far from `usize` overflow, on
/// which the engine would panic.
#[verifier::external_body]
pub fn base64_encode(data: &[u8]) -> (r: Vec<u8>)
    requires
        data@.len() <= 0x10000000,
    ensures
        r@ == base64_of(data@),
        r@.len() == 4 * ((data@.len() + 2) / 3),
{
    base64::Engine::encode(&base64::engine::general_purpose::STANDARD, data).into_bytes()
}

/// Relies on base64's `general_purpose::STANDARD` engine `decode`: it
/// succeeds exactly on well-formed standard base64 and is a function of
/// the text; the error case carries the engine's rendered message.
#[verifier::external_body]
pub fn base64_decode(text: &str) -> (r: Result<Vec<u8>, String>)
    ensures
        r is Ok <==> base64_decode_of(text@) is Some,
        r matches Ok(v) ==> base64_decode_of(text@) == Some(v@),
{
    match base64::Engine::decode(&base64::engine::general_purpose::STANDARD, text.as_bytes()) {
        Ok(v) => Ok(v),
        Err(e) => Err(e.to_string()),
    }
}

/// Relies on `String::from_utf8`: it succeeds exactly on valid UTF-8 and
/// yields the decoded characters, both sides stated over vstd's own UTF-8
/// model; on failure `into_bytes` returns the input unchanged.
#[verifier::external_body]
pub fn utf8_from_bytes(bytes: Vec<u8>) -> (r: Result<String, Vec<u8>>)
    ensures
        r is Ok <==> valid_utf8(bytes@),
        r matches Ok(s) ==> s@ == decode_utf8(bytes@),
        r matches Err(b) ==> b@ == bytes@,
{
    match String::from_utf8(bytes) {
        Ok(s) => Ok(s),
        Err(e) => Err(e.into_bytes()),
    }
}

} // verus!
