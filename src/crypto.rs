//! Digests, message authentication, Ed25519 signatures, and the sources of
//! randomness and time that the protocol draws on.

use vstd::prelude::*;
use ed25519_dalek::{Signer as _, Verifier as _};
use hmac::Mac as _;
use sha2::Digest as _;
use rand::RngCore as _;

verus! {

/// The SHA-256 digest of a byte string.
pub uninterp spec fn sha256_of(b: Seq<u8>) -> Seq<u8>;

/// The HMAC-SHA256 tag of `msg` under `key`.
pub uninterp spec fn hmac_sha256_of(key: Seq<u8>, msg: Seq<u8>) -> Seq<u8>;

/// The Ed25519 public key that belongs to a 32-byte secret key.
pub uninterp spec fn ed25519_public_of(secret: Seq<u8>) -> Seq<u8>;

/// The Ed25519 signature of `msg` under a 32-byte secret key.
pub uninterp spec fn ed25519_signature_of(secret: Seq<u8>, msg: Seq<u8>) -> Seq<u8>;

/// Ed25519 verification of `sig` over `msg` under a 32-byte public key.
pub uninterp spec fn ed25519_accepts(public: Seq<u8>, msg: Seq<u8>, sig: Seq<u8>) -> bool;

/// The seconds since the Unix epoch that an RFC 3339 timestamp denotes,
/// or `None` where the text is not RFC 3339.
pub uninterp spec fn rfc3339_seconds(s: Seq<char>) -> Option<i64>;

/// Relies on sha2::Sha256::digest: a 32-byte digest.
#[verifier::external_body]
pub(crate) fn sha256(data: &[u8]) -> (r: Vec<u8>)
    ensures
        r@ == sha256_of(data@),
        r@.len() == 32,
{
    sha2::Sha256::digest(data).to_vec()
}

/// Relies on hmac's `Hmac<Sha256>`: `new_from_slice` takes a key of any
/// length, and the finalized tag is 32 bytes.
#[verifier::external_body]
pub(crate) fn hmac_sha256(key: &[u8], msg: &[u8]) -> (r: Vec<u8>)
    ensures
        r@ == hmac_sha256_of(key@, msg@),
        r@.len() == 32,
{
    match hmac::Hmac::<sha2::Sha256>::new_from_slice(key) {
        Ok(mut mac) => {
            mac.update(msg);
            mac.finalize().into_bytes().to_vec()
        },
        Err(_) => Vec::new(),
    }
}

/// Relies on ed25519_dalek's `SigningKey::from_bytes` and `verifying_key`.
#[verifier::external_body]
pub(crate) fn ed25519_public_key(secret: &[u8; 32]) -> (r: [u8; 32])
    ensures
        r@ == ed25519_public_of(secret@),
{
    ed25519_dalek::SigningKey::from_bytes(secret).verifying_key().to_bytes()
}

/// Relies on ed25519_dalek's `SigningKey::sign`: a signature that the key's
/// verifying key accepts over the same message.
#[verifier::external_body]
pub(crate) fn ed25519_sign(secret: &[u8; 32], msg: &[u8]) -> (r: [u8; 64])
    ensures
        r@ == ed25519_signature_of(secret@, msg@),
        ed25519_accepts(ed25519_public_of(secret@), msg@, r@),
{
    ed25519_dalek::SigningKey::from_bytes(secret).sign(msg).to_bytes()
}

/// Relies on ed25519_dalek's `VerifyingKey::from_bytes`, `Signature::from_bytes`
/// and `VerifyingKey::verify`; a public key that is not a curve point
/// accepts nothing.
#[verifier::external_body]
pub(crate) fn ed25519_verify(public: &[u8; 32], msg: &[u8], sig: &[u8; 64]) -> (r: bool)
    ensures
        r == ed25519_accepts(public@, msg@, sig@),
{
    match ed25519_dalek::VerifyingKey::from_bytes(public) {
        Ok(key) => key.verify(msg, &ed25519_dalek::Signature::from_bytes(sig)).is_ok(),
        Err(_) => false,
    }
}

/// Relies on rand's `OsRng::fill_bytes`: sixteen bytes from the system's
/// secure generator.
#[verifier::external_body]
pub(crate) fn random_bytes_16() -> (r: [u8; 16]) {
    let mut b = [0u8; 16];
    rand::rngs::OsRng.fill_bytes(&mut b);
    b
}

/// Relies on rand::random: thirty-two bytes from the thread's secure generator.
#[verifier::external_body]
pub(crate) fn random_bytes_32() -> (r: [u8; 32]) {
    rand::random::<[u8; 32]>()
}

/// Relies on uuid::Uuid::new_v4, in its hyphenated text form: 36 ASCII
/// characters with dashes at positions 8, 13, 18 and 23 only.
#[verifier::external_body]
pub(crate) fn new_uuid() -> (r: String)
    ensures
        r@.len() > 0,
        crate::validation::uuid_shaped(vstd::utf8::encode_utf8(r@)),
{
    uuid::Uuid::new_v4().to_string()
}

/// Relies on chrono::Utc::now and `to_rfc3339`: the current time.
#[verifier::external_body]
pub(crate) fn now_rfc3339() -> (r: String) {
    chrono::Utc::now().to_rfc3339()
}

/// Relies on chrono::Utc::now and `timestamp`: the current Unix time in seconds.
#[verifier::external_body]
pub(crate) fn now_seconds() -> (r: i64) {
    chrono::Utc::now().timestamp()
}

/// Relies on chrono::DateTime::parse_from_rfc3339 and `timestamp`.
#[verifier::external_body]
pub(crate) fn parse_rfc3339(s: &str) -> (r: Option<i64>)
    ensures
        r == rfc3339_seconds(s@),
{
    chrono::DateTime::parse_from_rfc3339(s).ok().map(|t| t.timestamp())
}

/// The seconds since the Unix epoch and the nanoseconds past that second
/// that an RFC 3339 timestamp denotes, or `None` where the text is not RFC 3339.
pub uninterp spec fn rfc3339_parts(s: Seq<char>) -> Option<(i64, u32)>;

/// Relies on chrono::DateTime::parse_from_rfc3339, `timestamp` and
/// `timestamp_subsec_nanos`, which is below one second's worth of nanoseconds
/// but for a leap second.
#[verifier::external_body]
pub(crate) fn parse_rfc3339_parts(s: &str) -> (r: Option<(i64, u32)>)
    ensures
        r == rfc3339_parts(s@),
        r matches Some(p) ==> p.1 < 2000000000,
{
    chrono::DateTime::parse_from_rfc3339(s).ok().map(|t| (t.timestamp(), t.timestamp_subsec_nanos()))
}

/// The instant an RFC 3339 timestamp denotes, in nanoseconds since the epoch.
pub open spec fn instant_of(s: Seq<char>) -> Option<int> {
    match rfc3339_parts(s) {
        Some(p) => Some(p.0 * 1000000000 + p.1),
        None => None,
    }
}

/// The instant `s` denotes, in nanoseconds since the epoch.
pub fn parse_instant(s: &str) -> (r: Option<i128>)
    ensures
        match instant_of(s@) {
            Some(t) => r == Some(t as i128),
            None => r is None,
        },
{
    match parse_rfc3339_parts(s) {
        Some(p) => Some((p.0 as i128) * 1000000000 + (p.1 as i128)),
        None => None,
    }
}

/// The characters of an optional string.
pub open spec fn text_of(r: Option<String>) -> Option<Seq<char>> {
    match r {
        Some(t) => Some(t@),
        None => None,
    }
}

/// The first second of year 0000, in seconds since the epoch.
pub const MIN_RFC3339_SECS: i64 = -62167219200;

/// The last second of year 9999, in seconds since the epoch.
pub const MAX_RFC3339_SECS: i64 = 253402300799;

/// Relies on chrono's `DateTime::from_timestamp` and `to_rfc3339`: within
/// years 0000 to 9999 the time exists and is written with a four-digit
/// year, which RFC 3339 parsing reads back to `secs`.
#[verifier::external_body]
pub(crate) fn rfc3339_of_seconds(secs: i64) -> (r: Option<String>)
    requires
        MIN_RFC3339_SECS <= secs <= MAX_RFC3339_SECS,
    ensures
        text_of(r) is Some,
        rfc3339_seconds(text_of(r)->0) == Some(secs),
{
    chrono::DateTime::from_timestamp(secs, 0).map(|t| t.to_rfc3339())
}

} // verus!
