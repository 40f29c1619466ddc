//! Signed memories, claim tokens and proxy records.

use vstd::prelude::*;
use vstd::utf8::encode_utf8;
use crate::codec::{base32_encode, hex_encode, hex_of, json_quote, json_quoted};
use crate::crypto::{MAX_RFC3339_SECS, MIN_RFC3339_SECS, new_uuid, now_rfc3339, now_seconds, parse_rfc3339, rfc3339_of_seconds, rfc3339_seconds, sha256, sha256_of};
use crate::text::{concat, owned};

verus! {

/// `hex(SHA256(data))` over the UTF-8 bytes of `data`.
pub open spec fn content_hash_of(data: Seq<char>) -> Seq<char> {
    hex_of(sha256_of(encode_utf8(data)))
}

/// The deterministic signing payload: a JSON object with the keys `did`,
/// `memory_type`, `content_hash` and `timestamp`, in this order, without
/// white space.
pub open spec fn signing_payload_of(
    did: Seq<char>,
    memory_type: Seq<char>,
    content_hash: Seq<char>,
    timestamp: Seq<char>,
) -> Seq<char> {
    "{\"did\":"@ + json_quoted(did) + ",\"memory_type\":"@ + json_quoted(memory_type)
        + ",\"content_hash\":"@ + json_quoted(content_hash) + ",\"timestamp\":"@ + json_quoted(
        timestamp,
    ) + "}"@
}

/// A JSON payload authored by a DID, with its content hash and signature.
#[derive(Debug, Clone)]
pub struct SignedMemory {
    pub id: String,
    pub did: String,
    pub memory_type: String,
    pub memory_data: String,
    pub content_hash: String,
    pub signature: String,
    pub timestamp: String,
    pub updated_on: String,
}

/// Hex of the SHA-256 digest of `data`'s UTF-8 bytes.
pub fn compute_hash(data: &str) -> (r: String)
    ensures
        r@ == content_hash_of(data@),
{
    let digest = sha256(data.as_bytes());
    hex_encode(digest.as_slice())
}

impl SignedMemory {
    /// The payload that the signature covers.
    pub open spec fn payload_spec(&self) -> Seq<char> {
        signing_payload_of(self.did@, self.memory_type@, self.content_hash@, self.timestamp@)
    }

    /// The stored content hash matches the payload.
    pub open spec fn hash_matches(&self) -> bool {
        self.content_hash@ == content_hash_of(self.memory_data@)
    }

    /// A new unsigned memory with the given id and creation time; its
    /// content hash is computed from `memory_data`.
    pub fn with_fields(
        id: String,
        did: &str,
        memory_type: &str,
        memory_data: &str,
        timestamp: String,
    ) -> (r: SignedMemory)
        ensures
            r.id@ == id@,
            r.did@ == did@,
            r.memory_type@ == memory_type@,
            r.memory_data@ == memory_data@,
            r.content_hash@ == content_hash_of(memory_data@),
            r.signature@.len() == 0,
            r.timestamp@ == timestamp@,
            r.updated_on@ == timestamp@,
            r.hash_matches(),
    {
        let updated_on = timestamp.clone();
        SignedMemory {
            id,
            did: owned(did),
            memory_type: owned(memory_type),
            memory_data: owned(memory_data),
            content_hash: compute_hash(memory_data),
            signature: String::new(),
            timestamp,
            updated_on,
        }
    }

    /// A new unsigned memory with a fresh UUIDv4 id, stamped now.
    pub fn new(did: &str, memory_type: &str, memory_data: &str) -> (r: SignedMemory)
        ensures
            r.did@ == did@,
            r.memory_type@ == memory_type@,
            r.memory_data@ == memory_data@,
            r.content_hash@ == content_hash_of(memory_data@),
            r.signature@.len() == 0,
            r.updated_on@ == r.timestamp@,
            r.hash_matches(),
    {
        SignedMemory::with_fields(new_uuid(), did, memory_type, memory_data, now_rfc3339())
    }

    /// Hex of the SHA-256 digest of `data`.
    pub fn compute_hash(data: &str) -> (r: String)
        ensures
            r@ == content_hash_of(data@),
    {
        compute_hash(data)
    }

    /// The deterministic JSON text that the signature covers.
    pub fn get_signing_payload(&self) -> (r: String)
        ensures
            r@ == self.payload_spec(),
    {
        let mut p = owned("{\"did\":");
        p.append(json_quote(self.did.as_str()).as_str());
        p.append(",\"memory_type\":");
        p.append(json_quote(self.memory_type.as_str()).as_str());
        p.append(",\"content_hash\":");
        p.append(json_quote(self.content_hash.as_str()).as_str());
        p.append(",\"timestamp\":");
        p.append(json_quote(self.timestamp.as_str()).as_str());
        p.append("}");
        p
    }

    /// Whether the stored content hash matches `memory_data`.
    pub fn verify_hash(&self) -> (r: bool)
        ensures
            r == self.hash_matches(),
    {
        let computed = compute_hash(self.memory_data.as_str());
        computed == self.content_hash
    }

    /// A copy with every field equal.
    pub fn copy(&self) -> (r: SignedMemory)
        ensures
            r == *self,
    {
        SignedMemory {
            id: self.id.clone(),
            did: self.did.clone(),
            memory_type: self.memory_type.clone(),
            memory_data: self.memory_data.clone(),
            content_hash: self.content_hash.clone(),
            signature: self.signature.clone(),
            timestamp: self.timestamp.clone(),
            updated_on: self.updated_on.clone(),
        }
    }
}

/// Why a claim failed.
#[derive(Debug, Clone, Copy, PartialEq, Eq, Structural)]
pub enum ClaimError {
    TokenNotFound,
    Expired,
    AlreadyClaimed,
    MemoryNotFound,
    IdentityMissing,
    TimeOutOfRange,
    Storage,
}

/// A one-time code that hands a proxy memory over to its subject.
#[derive(Debug, Clone)]
pub struct ClaimToken {
    pub id: String,
    pub token: String,
    pub memory_id: String,
    pub organization_did: String,
    pub expiry_timestamp: String,
    pub claimed_by_did: Option<String>,
    pub claimed_timestamp: Option<String>,
    pub created_timestamp: String,
    pub updated_on: String,
}

/// The token's expiry has passed at `now` (seconds since the epoch); an
/// unreadable expiry counts as passed.
pub open spec fn expired_at(expiry: Seq<char>, now: i64) -> bool {
    match rfc3339_seconds(expiry) {
        Some(t) => now > t,
        None => true,
    }
}

/// The claim code made from random bytes: `OCM-` and the first sixteen
/// characters of their unpadded base32 text.
pub open spec fn token_code_of(random: Seq<u8>) -> Seq<char> {
    "OCM-"@ + crate::codec::base32_of(random).subrange(0, 16)
}

/// Seconds in an hour.
pub const SECONDS_PER_HOUR: i64 = 3600;

/// The longest lifetime, in hours, that a token can be issued for.
pub const MAX_TOKEN_HOURS: i64 = 1000000000;

impl ClaimToken {
    /// A copy with every field equal.
    pub fn copy(&self) -> (r: ClaimToken)
        ensures
            r == *self,
    {
        ClaimToken {
            id: self.id.clone(),
            token: self.token.clone(),
            memory_id: self.memory_id.clone(),
            organization_did: self.organization_did.clone(),
            expiry_timestamp: self.expiry_timestamp.clone(),
            claimed_by_did: copy_opt(&self.claimed_by_did),
            claimed_timestamp: copy_opt(&self.claimed_timestamp),
            created_timestamp: self.created_timestamp.clone(),
            updated_on: self.updated_on.clone(),
        }
    }

    /// The token's claim fields are both set.
    pub open spec fn claimed_spec(&self) -> bool {
        self.claimed_by_did is Some && self.claimed_timestamp is Some
    }

    /// A token for `memory_id`, issued at `now` (RFC 3339, standing for
    /// `now_secs`) and expiring `expires_in_hours` later, with the code made
    /// from `random`. `None` exactly when the expiry falls outside years
    /// 0000 to 9999.
    pub fn issue(
        id: String,
        memory_id: &str,
        organization_did: &str,
        random: &[u8; 16],
        now: String,
        now_secs: i64,
        expires_in_hours: i64,
    ) -> (r: Option<ClaimToken>)
        requires
            -MAX_TOKEN_HOURS <= expires_in_hours <= MAX_TOKEN_HOURS,
            -MAX_TOKEN_HOURS * SECONDS_PER_HOUR <= now_secs <= MAX_TOKEN_HOURS * SECONDS_PER_HOUR,
        ensures
            r is Some <==> MIN_RFC3339_SECS <= now_secs + expires_in_hours * SECONDS_PER_HOUR
                <= MAX_RFC3339_SECS,
            r matches Some(t) ==> {
                &&& t.id@ == id@
                &&& t.token@ == token_code_of(random@)
                &&& t.memory_id@ == memory_id@
                &&& t.organization_did@ == organization_did@
                &&& rfc3339_seconds(t.expiry_timestamp@) == Some(
                    (now_secs + expires_in_hours * SECONDS_PER_HOUR) as i64,
                )
                &&& t.claimed_by_did is None
                &&& t.claimed_timestamp is None
                &&& t.created_timestamp@ == now@
                &&& t.updated_on@ == now@
            },
    {
        let code = base32_encode(random);
        let prefix = code.as_str().substring_char(0, 16);
        let token = concat("OCM-", prefix);
        let expiry_secs = now_secs + expires_in_hours * SECONDS_PER_HOUR;
        if expiry_secs < MIN_RFC3339_SECS || expiry_secs > MAX_RFC3339_SECS {
            return None;
        }
        let expiry = match rfc3339_of_seconds(expiry_secs) {
            Some(e) => e,
            None => {
                return None;
            },
        };
        let updated_on = now.clone();
        Some(
            ClaimToken {
                id,
                token,
                memory_id: owned(memory_id),
                organization_did: owned(organization_did),
                expiry_timestamp: expiry,
                claimed_by_did: None,
                claimed_timestamp: None,
                created_timestamp: now,
                updated_on,
            },
        )
    }

    /// A fresh token with a random code and id, issued at the current
    /// second: its code is `OCM-` and sixteen base32 characters, and it
    /// expires `expires_in_hours` after its creation time. `None` when the
    /// clock or the expiry falls outside years 0000 to 9999.
    pub fn new(memory_id: &str, organization_did: &str, expires_in_hours: i64) -> (r: Option<
        ClaimToken,
    >)
        requires
            -MAX_TOKEN_HOURS <= expires_in_hours <= MAX_TOKEN_HOURS,
        ensures
            r matches Some(t) ==> {
                &&& t.memory_id@ == memory_id@
                &&& t.organization_did@ == organization_did@
                &&& t.claimed_by_did is None
                &&& t.claimed_timestamp is None
                &&& exists|b: Seq<u8>| b.len() == 16 && t.token@ == #[trigger] token_code_of(b)
                &&& rfc3339_seconds(t.created_timestamp@) matches Some(c)
                    && rfc3339_seconds(t.expiry_timestamp@) == Some(
                    (c + expires_in_hours * SECONDS_PER_HOUR) as i64,
                )
            },
    {
        let now_secs = now_seconds();
        if now_secs < MIN_RFC3339_SECS || now_secs > MAX_RFC3339_SECS {
            return None;
        }
        let now = match rfc3339_of_seconds(now_secs) {
            Some(t) => t,
            None => {
                return None;
            },
        };
        let random = crate::crypto::random_bytes_16();
        let r = ClaimToken::issue(
            new_uuid(),
            memory_id,
            organization_did,
            &random,
            now,
            now_secs,
            expires_in_hours,
        );
        proof {
            if r is Some {
                assert(random@.len() == 16);
            }
        }
        r
    }

    /// Whether the token has expired at `now` (seconds since the epoch).
    pub fn is_expired_at(&self, now: i64) -> (r: bool)
        ensures
            r == expired_at(self.expiry_timestamp@, now),
    {
        match parse_rfc3339(self.expiry_timestamp.as_str()) {
            Some(t) => now > t,
            None => true,
        }
    }

    /// Whether the token has expired by the current time; an unreadable
    /// expiry counts as passed.
    pub fn is_expired(&self) -> (r: bool)
        ensures
            rfc3339_seconds(self.expiry_timestamp@) is None ==> r,
    {
        self.is_expired_at(now_seconds())
    }

    /// Whether the token has been claimed.
    pub fn is_claimed(&self) -> (r: bool)
        ensures
            r == self.claimed_by_did is Some,
    {
        self.claimed_by_did.is_some()
    }

    /// Claims the token for `claimer_did` at `now` (seconds, and `now_text`
    /// as RFC 3339). Fails with `Expired` past the expiry and with
    /// `AlreadyClaimed` when claimed before; then the token is unchanged.
    /// On success both claim fields are set.
    pub fn claim_at(&mut self, claimer_did: &str, now: i64, now_text: String) -> (r: Result<
        (),
        ClaimError,
    >)
        ensures
            expired_at(old(self).expiry_timestamp@, now) ==> r == Err::<(), ClaimError>(
                ClaimError::Expired,
            ),
            !expired_at(old(self).expiry_timestamp@, now) && old(self).claimed_by_did is Some
                ==> r == Err::<(), ClaimError>(ClaimError::AlreadyClaimed),
            r is Err ==> *final(self) == *old(self),
            r is Ok <==> (!expired_at(old(self).expiry_timestamp@, now)
                && old(self).claimed_by_did is None),
            r is Ok ==> {
                &&& final(self).claimed_spec()
                &&& final(self).claimed_by_did->0@ == claimer_did@
                &&& final(self).claimed_timestamp->0@ == now_text@
                &&& final(self).updated_on@ == now_text@
                &&& final(self).id == old(self).id
                &&& final(self).token == old(self).token
                &&& final(self).memory_id == old(self).memory_id
                &&& final(self).organization_did == old(self).organization_did
                &&& final(self).expiry_timestamp == old(self).expiry_timestamp
                &&& final(self).created_timestamp == old(self).created_timestamp
            },
    {
        if self.is_expired_at(now) {
            return Err(ClaimError::Expired);
        }
        if self.is_claimed() {
            return Err(ClaimError::AlreadyClaimed);
        }
        let updated_on = now_text.clone();
        self.claimed_by_did = Some(owned(claimer_did));
        self.claimed_timestamp = Some(now_text);
        self.updated_on = updated_on;
        Ok(())
    }
}

impl ClaimToken {
    /// Claims the token for `claimer_did` now: fails with `Expired` past
    /// the expiry and with `AlreadyClaimed` when claimed before.
    pub fn claim(&mut self, claimer_did: &str) -> (r: Result<(), ClaimError>)
        ensures
            old(self).claimed_by_did is Some ==> r is Err,
            rfc3339_seconds(old(self).expiry_timestamp@) is None ==> r == Err::<(), ClaimError>(ClaimError::Expired),
            r is Err ==> *final(self) == *old(self),
            r is Ok ==> final(self).claimed_spec() && final(self).claimed_by_did->0@ == claimer_did@
                && final(self).token == old(self).token && final(self).id == old(self).id,
    {
        let now = now_seconds();
        let text = now_rfc3339();
        self.claim_at(claimer_did, now, text)
    }
}

/// A record that an organisation keeps for someone not yet registered.
#[derive(Debug, Clone)]
pub struct ProxyMemory {
    pub id: String,
    pub proxy_for_name: String,
    pub proxy_for_info: Option<String>,
    pub organization_did: String,
    pub memory_data: String,
    pub created_timestamp: String,
    pub claim_token_id: Option<String>,
}

/// A copy of an optional string.
pub fn copy_opt(s: &Option<String>) -> (r: Option<String>)
    ensures
        r == *s,
{
    match s {
        Some(x) => Some(x.clone()),
        None => None,
    }
}

impl ProxyMemory {
    /// A proxy record with the given id and creation time, not yet linked
    /// to a token.
    pub fn with_fields(
        id: String,
        proxy_for_name: &str,
        proxy_for_info: Option<String>,
        organization_did: &str,
        memory_data: &str,
        created_timestamp: String,
    ) -> (r: ProxyMemory)
        ensures
            r.id == id,
            r.proxy_for_name@ == proxy_for_name@,
            r.proxy_for_info == proxy_for_info,
            r.organization_did@ == organization_did@,
            r.memory_data@ == memory_data@,
            r.created_timestamp == created_timestamp,
            r.claim_token_id is None,
    {
        ProxyMemory {
            id,
            proxy_for_name: owned(proxy_for_name),
            proxy_for_info,
            organization_did: owned(organization_did),
            memory_data: owned(memory_data),
            created_timestamp,
            claim_token_id: None,
        }
    }

    /// A copy with every field equal.
    pub fn copy(&self) -> (r: ProxyMemory)
        ensures
            r == *self,
    {
        ProxyMemory {
            id: self.id.clone(),
            proxy_for_name: self.proxy_for_name.clone(),
            proxy_for_info: copy_opt(&self.proxy_for_info),
            organization_did: self.organization_did.clone(),
            memory_data: self.memory_data.clone(),
            created_timestamp: self.created_timestamp.clone(),
            claim_token_id: copy_opt(&self.claim_token_id),
        }
    }

    /// A new proxy record with a fresh id, created now, not yet linked to a token.
    pub fn new(
        proxy_for_name: &str,
        proxy_for_info: Option<String>,
        organization_did: &str,
        memory_data: &str,
    ) -> (r: ProxyMemory)
        ensures
            r.proxy_for_name@ == proxy_for_name@,
            r.proxy_for_info == proxy_for_info,
            r.organization_did@ == organization_did@,
            r.memory_data@ == memory_data@,
            r.claim_token_id is None,
    {
        ProxyMemory {
            id: new_uuid(),
            proxy_for_name: owned(proxy_for_name),
            proxy_for_info,
            organization_did: owned(organization_did),
            memory_data: owned(memory_data),
            created_timestamp: now_rfc3339(),
            claim_token_id: None,
        }
    }
}

} // verus!
