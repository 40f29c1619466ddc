//! Proxy records and their claim: an organisation authors a memory for
//! someone not yet registered, and a one-time token later hands it over.

use vstd::prelude::*;
use crate::crypto::{now_rfc3339, now_seconds, rfc3339_seconds, MAX_RFC3339_SECS, MIN_RFC3339_SECS};
use crate::identity::{signed_by, OcmProtocol};
use crate::memory::{token_code_of, SECONDS_PER_HOUR, expired_at, ClaimError, ClaimToken, ProxyMemory, SignedMemory};
use crate::store::{first_with, store_hashes_ok, MemoryStore};
use crate::text::owned;

verus! {

/// Hours a claim token stays valid: thirty days.
pub const CLAIM_TOKEN_HOURS: i64 = 720;

/// Counts of an organisation's tokens by state.
#[derive(Debug, Clone, Copy, PartialEq, Eq, Structural)]
pub struct ClaimStatistics {
    pub total_proxy_records: usize,
    pub total_tokens_created: usize,
    pub tokens_claimed: usize,
    pub tokens_expired: usize,
    pub tokens_active: usize,
}

/// What creating a proxy record left behind: the signed memory at the end
/// of the store, the token and proxy record appended, linked to each other.
pub open spec fn proxy_created(
    old: MemoryStore,
    new: MemoryStore,
    protocol: OcmProtocol,
    organization_did: Seq<char>,
    name: Seq<char>,
    data: Seq<char>,
    proxy: ProxyMemory,
    token: ClaimToken,
) -> bool {
    let m = new.memories@.last();
    &&& new.memories@ == old.memories@.push(m)
    &&& m.did@ == organization_did
    &&& m.memory_type@ == "proxy_individual"@
    &&& m.memory_data@ == data
    &&& m.hash_matches()
    &&& protocol.current_identity matches Some(id) && signed_by(id.keypair.secret(), m)
    &&& token.memory_id@ == m.id@
    &&& token.organization_did@ == organization_did
    &&& token.claimed_by_did is None
    &&& token.claimed_timestamp is None
    &&& proxy.claim_token_id == Some(token.id)
    &&& proxy.proxy_for_name@ == name
    &&& proxy.memory_data@ == data
    &&& proxy.organization_did@ == organization_did
    &&& new.proxies@ == old.proxies@.push(proxy)
    &&& new.tokens@ == old.tokens@.push(token)
}

/// The claim engine over a store.
pub struct ClaimSystem {
    pub db: MemoryStore,
}

/// The tokens of `s` issued by `org`.
pub open spec fn tokens_of(s: Seq<ClaimToken>, org: Seq<char>) -> Seq<ClaimToken> {
    s.filter(|t: ClaimToken| t.organization_did@ == org)
}

/// The proxy records of `s` made by `org`.
pub open spec fn proxies_of(s: Seq<ProxyMemory>, org: Seq<char>) -> Seq<ProxyMemory> {
    s.filter(|p: ProxyMemory| p.organization_did@ == org)
}

impl ClaimSystem {
    pub fn new(db: MemoryStore) -> (r: ClaimSystem)
        ensures
            r.db == db,
    {
        ClaimSystem { db }
    }

    /// Has the organisation's identity author and sign a `proxy_individual`
    /// memory holding `memory_data`, with id `memory_id`, stamped `now_text`
    /// (the second `now_secs`); stores it; issues a thirty-day claim token
    /// for it with id `token_id` and a code made from `random`; and links a
    /// new proxy record with id `proxy_id` to the token. Errors, each leaving
    /// the store as it was: `IdentityMissing` without an identity,
    /// `TimeOutOfRange` when the expiry falls after year 9999, `Storage`
    /// when `memory_id` or `token_id` is already stored.
    pub fn create_proxy_record_at(
        &mut self,
        protocol: &OcmProtocol,
        organization_did: &str,
        proxy_for_name: &str,
        proxy_for_info: Option<String>,
        memory_data: &str,
        now_secs: i64,
        now_text: String,
        memory_id: String,
        token_id: String,
        proxy_id: String,
        random: &[u8; 16],
    ) -> (r: Result<(ProxyMemory, ClaimToken), ClaimError>)
        requires
            old(self).db.wf(),
            MIN_RFC3339_SECS <= now_secs <= MAX_RFC3339_SECS,
        ensures
            final(self).db.wf(),
            store_hashes_ok(old(self).db.memories@) ==> store_hashes_ok(final(self).db.memories@),
            r is Err ==> final(self).db.memories@ == old(self).db.memories@ && final(self).db.tokens@
                == old(self).db.tokens@ && final(self).db.proxies@ == old(self).db.proxies@,
            r is Ok || r == Err::<(ProxyMemory, ClaimToken), ClaimError>(ClaimError::IdentityMissing)
                || r == Err::<(ProxyMemory, ClaimToken), ClaimError>(ClaimError::TimeOutOfRange)
                || r == Err::<(ProxyMemory, ClaimToken), ClaimError>(ClaimError::Storage),
            (r == Err::<(ProxyMemory, ClaimToken), ClaimError>(ClaimError::IdentityMissing))
                <==> protocol.current_identity is None,
            (r == Err::<(ProxyMemory, ClaimToken), ClaimError>(ClaimError::TimeOutOfRange)) <==> (
            protocol.current_identity is Some && now_secs + CLAIM_TOKEN_HOURS * SECONDS_PER_HOUR > MAX_RFC3339_SECS),
            (r == Err::<(ProxyMemory, ClaimToken), ClaimError>(ClaimError::Storage)) <==> (
            protocol.current_identity is Some && now_secs + CLAIM_TOKEN_HOURS * SECONDS_PER_HOUR <= MAX_RFC3339_SECS
                && (first_with(old(self).db.memories@, |m: SignedMemory| m.id@, memory_id@) is Some
                || first_with(old(self).db.tokens@, |t: ClaimToken| t.id@, token_id@) is Some)),
            r matches Ok((proxy, token)) ==> {
                &&& proxy_created(old(self).db, final(self).db, *protocol, organization_did@, proxy_for_name@, memory_data@, proxy, token)
                &&& final(self).db.memories@.last().id@ == memory_id@
                &&& final(self).db.memories@.last().timestamp@ == now_text@
                &&& token.id@ == token_id@
                &&& token.token@ == token_code_of(random@)
                &&& token.created_timestamp@ == now_text@
                &&& rfc3339_seconds(token.expiry_timestamp@) == Some((now_secs + CLAIM_TOKEN_HOURS * SECONDS_PER_HOUR) as i64)
                &&& proxy.id@ == proxy_id@
            },
    {
        if protocol.current_identity.is_none() {
            return Err(ClaimError::IdentityMissing);
        }
        let token = match ClaimToken::issue(
            token_id,
            memory_id.as_str(),
            organization_did,
            random,
            now_text.clone(),
            now_secs,
            CLAIM_TOKEN_HOURS,
        ) {
            Some(t) => t,
            None => {
                return Err(ClaimError::TimeOutOfRange);
            },
        };
        proof {
            crate::store::lemma_first_with_bounds(self.db.memories@, |m: SignedMemory| m.id@, memory_id@);
            crate::store::lemma_first_with_bounds(self.db.tokens@, |t: ClaimToken| t.id@, token.id@);
        }
        if self.db.get_memory(memory_id.as_str()).is_some() || self.db.token_stored(token.id.as_str()) {
            return Err(ClaimError::Storage);
        }
        let mut signed = SignedMemory::with_fields(memory_id, organization_did, "proxy_individual", memory_data, now_text.clone());
        if protocol.attest_memory(&mut signed).is_err() {
            return Err(ClaimError::IdentityMissing);
        }
        let mut proxy = ProxyMemory::with_fields(proxy_id, proxy_for_name, proxy_for_info, organization_did, memory_data, now_text);
        proxy.claim_token_id = Some(token.id.clone());
        let ghost sm = signed;
        let _ = self.db.put_memory(signed);
        proof {
            assert forall|i: int| 0 <= i < self.db.memories@.len() && store_hashes_ok(old(self).db.memories@)
                implies (#[trigger] self.db.memories@[i]).hash_matches() by {
                if i < old(self).db.memories@.len() {
                    assert(self.db.memories@[i] == old(self).db.memories@[i]);
                } else {
                    assert(self.db.memories@[i] == sm);
                }
            }
        }
        let _ = self.db.put_claim_token(token.copy());
        self.db.put_proxy(proxy.copy());
        Ok((proxy, token))
    }

    /// Creates a proxy record as `create_proxy_record_at` does, with fresh
    /// random ids and code, at the current second.
    pub fn create_proxy_record(
        &mut self,
        protocol: &OcmProtocol,
        organization_did: &str,
        proxy_for_name: &str,
        proxy_for_info: Option<String>,
        memory_data: &str,
    ) -> (r: Result<(ProxyMemory, ClaimToken), ClaimError>)
        requires
            old(self).db.wf(),
        ensures
            final(self).db.wf(),
            store_hashes_ok(old(self).db.memories@) ==> store_hashes_ok(final(self).db.memories@),
            r is Err ==> final(self).db.memories@ == old(self).db.memories@ && final(self).db.tokens@
                == old(self).db.tokens@ && final(self).db.proxies@ == old(self).db.proxies@,
            (r == Err::<(ProxyMemory, ClaimToken), ClaimError>(ClaimError::IdentityMissing))
                <==> protocol.current_identity is None,
            protocol.current_identity is Some ==> r is Ok || r == Err::<(ProxyMemory, ClaimToken), ClaimError>(
                ClaimError::TimeOutOfRange,
            ) || r == Err::<(ProxyMemory, ClaimToken), ClaimError>(ClaimError::Storage),
            r matches Ok((proxy, token)) ==> {
                &&& proxy_created(old(self).db, final(self).db, *protocol, organization_did@, proxy_for_name@, memory_data@, proxy, token)
                &&& exists|b: Seq<u8>| b.len() == 16 && token.token@ == #[trigger] crate::memory::token_code_of(b)
                &&& rfc3339_seconds(token.created_timestamp@) matches Some(c)
                    && rfc3339_seconds(token.expiry_timestamp@) == Some((c + CLAIM_TOKEN_HOURS * SECONDS_PER_HOUR) as i64)
            },
    {
        if protocol.current_identity.is_none() {
            return Err(ClaimError::IdentityMissing);
        }
        let now_secs = now_seconds();
        if now_secs < MIN_RFC3339_SECS || now_secs > MAX_RFC3339_SECS {
            return Err(ClaimError::TimeOutOfRange);
        }
        let now_text = match crate::crypto::rfc3339_of_seconds(now_secs) {
            Some(t) => t,
            None => {
                return Err(ClaimError::TimeOutOfRange);
            },
        };
        let random = crate::crypto::random_bytes_16();
        let r = self.create_proxy_record_at(
            protocol,
            organization_did,
            proxy_for_name,
            proxy_for_info,
            memory_data,
            now_secs,
            now_text,
            crate::crypto::new_uuid(),
            crate::crypto::new_uuid(),
            crate::crypto::new_uuid(),
            &random,
        );
        proof {
            if r is Ok {
                assert(random@.len() == 16);
            }
        }
        r
    }

    /// Claims the proxy memory behind `token_code` for `claimer_did` at
    /// `now` (seconds; `now_text` in RFC 3339): the token is marked claimed,
    /// and a new `individual` memory with the same data, authored by the
    /// claimer and signed by the identity in use, is stored and returned.
    /// The organisation's memory stays. Errors, each leaving the store as it was:
    /// `TokenNotFound` for an unknown code, `Expired` past the token's
    /// expiry, `AlreadyClaimed` for a claimed token, `MemoryNotFound` when
    /// the token's memory is gone, `IdentityMissing` with no identity, and
    /// `Storage` exactly when a memory with id `new_id` is already stored.
    /// The new memory gets id `new_id` and timestamp `now_text`; the token
    /// found first by code is replaced by its claimed form.
    pub fn claim_proxy_record_at(
        &mut self,
        protocol: &OcmProtocol,
        token_code: &str,
        claimer_did: &str,
        now: i64,
        now_text: String,
        new_id: String,
    ) -> (r: Result<SignedMemory, ClaimError>)
        requires
            old(self).db.wf(),
        ensures
            final(self).db.wf(),
            store_hashes_ok(old(self).db.memories@) ==> store_hashes_ok(final(self).db.memories@),
            match first_with(old(self).db.tokens@, |t: ClaimToken| t.token@, token_code@) {
                None => r == Err::<SignedMemory, ClaimError>(ClaimError::TokenNotFound),
                Some(i) => {
                    let t = old(self).db.tokens@[i];
                    &&& expired_at(t.expiry_timestamp@, now) ==> r == Err::<
                        SignedMemory,
                        ClaimError,
                    >(ClaimError::Expired)
                    &&& !expired_at(t.expiry_timestamp@, now) && t.claimed_by_did is Some ==> r
                        == Err::<SignedMemory, ClaimError>(ClaimError::AlreadyClaimed)
                    &&& !expired_at(t.expiry_timestamp@, now) && t.claimed_by_did is None
                        && first_with(old(self).db.memories@, |m: SignedMemory| m.id@, t.memory_id@)
                        is None ==> r == Err::<SignedMemory, ClaimError>(
                        ClaimError::MemoryNotFound,
                    )
                    &&& !expired_at(t.expiry_timestamp@, now) && t.claimed_by_did is None
                        && first_with(old(self).db.memories@, |m: SignedMemory| m.id@, t.memory_id@)
                        is Some && protocol.current_identity is None ==> r == Err::<
                        SignedMemory,
                        ClaimError,
                    >(ClaimError::IdentityMissing)
                    &&& !expired_at(t.expiry_timestamp@, now) && t.claimed_by_did is None
                        && first_with(old(self).db.memories@, |m: SignedMemory| m.id@, t.memory_id@)
                        is Some && protocol.current_identity is Some ==> (r is Ok <==> first_with(
                        old(self).db.memories@,
                        |m: SignedMemory| m.id@,
                        new_id@,
                    ) is None)
                    &&& r matches Ok(m) ==> {
                        let j = first_with(
                            old(self).db.memories@,
                            |m: SignedMemory| m.id@,
                            t.memory_id@,
                        )->0;
                        &&& m.did@ == claimer_did@
                        &&& m.memory_type@ == "individual"@
                        &&& m.memory_data@ == old(self).db.memories@[j].memory_data@
                        &&& m.hash_matches()
                        &&& protocol.current_identity matches Some(id) && signed_by(
                            id.keypair.secret(),
                            m,
                        )
                        &&& m.id@ == new_id@
                        &&& final(self).db.memories@ == old(self).db.memories@.push(m)
                        &&& final(self).db.tokens@.len() == old(self).db.tokens@.len()
                        &&& forall|k: int| 0 <= k < old(self).db.tokens@.len() && k != i
                            ==> #[trigger] final(self).db.tokens@[k] == old(self).db.tokens@[k]
                        &&& {
                            let u = final(self).db.tokens@[i];
                            &&& u.token == t.token
                            &&& u.id == t.id
                            &&& u.memory_id == t.memory_id
                            &&& u.expiry_timestamp == t.expiry_timestamp
                            &&& u.claimed_spec()
                            &&& u.claimed_by_did->0@ == claimer_did@
                            &&& u.claimed_timestamp->0@ == now_text@
                        }
                    }
                },
            },
            r is Err ==> final(self).db.memories@ == old(self).db.memories@ && final(self).db.tokens@
                == old(self).db.tokens@ && final(self).db.proxies@ == old(self).db.proxies@,
    {
        let idx = match self.db.token_index(token_code) {
            Some(i) => i,
            None => {
                return Err(ClaimError::TokenNotFound);
            },
        };
        let mut token = self.db.tokens[idx].copy();
        proof {
            crate::store::lemma_first_with_found(self.db.tokens@, |t: ClaimToken| t.token@, token_code@);
        }
        let stamp = now_text.clone();
        match token.claim_at(claimer_did, now, now_text) {
            Ok(()) => {},
            Err(e) => {
                return Err(e);
            },
        }
        let source = match self.db.get_memory(token.memory_id.as_str()) {
            Some(m) => m,
            None => {
                return Err(ClaimError::MemoryNotFound);
            },
        };
        let mut claimed = SignedMemory::with_fields(
            new_id,
            claimer_did,
            "individual",
            source.memory_data.as_str(),
            stamp,
        );
        if protocol.attest_memory(&mut claimed).is_err() {
            return Err(ClaimError::IdentityMissing);
        }
        if self.db.put_memory(claimed.copy()).is_err() {
            return Err(ClaimError::Storage);
        }
        proof {
            assert forall|i: int| 0 <= i < self.db.memories@.len() && store_hashes_ok(old(self).db.memories@)
                implies (#[trigger] self.db.memories@[i]).hash_matches() by {
                if i < old(self).db.memories@.len() {
                    assert(self.db.memories@[i] == old(self).db.memories@[i]);
                } else {
                    assert(self.db.memories@[i] == claimed);
                }
            }
        }
        let ghost before_update = self.db.tokens@;
        proof {
            crate::store::lemma_first_with_unique(before_update, |t: ClaimToken| t.id@, idx as int);
        }
        match self.db.update_claim_token(token.copy()) {
            Ok(()) => {},
            Err(_) => {
                return Err(ClaimError::Storage);
            },
        }
        Ok(claimed)
    }

    /// Claims the proxy memory behind `token_code` for `claimer_did` now.
    pub fn claim_proxy_record(
        &mut self,
        protocol: &OcmProtocol,
        token_code: &str,
        claimer_did: &str,
    ) -> (r: Result<SignedMemory, ClaimError>)
        requires
            old(self).db.wf(),
        ensures
            final(self).db.wf(),
            store_hashes_ok(old(self).db.memories@) ==> store_hashes_ok(final(self).db.memories@),
            first_with(old(self).db.tokens@, |t: ClaimToken| t.token@, token_code@) is None ==> r
                == Err::<SignedMemory, ClaimError>(ClaimError::TokenNotFound),
            first_with(old(self).db.tokens@, |t: ClaimToken| t.token@, token_code@) matches Some(i)
                && old(self).db.tokens@[i].claimed_by_did is Some ==> r is Err,
            r is Err ==> final(self).db.memories@ == old(self).db.memories@ && final(self).db.tokens@
                == old(self).db.tokens@ && final(self).db.proxies@ == old(self).db.proxies@,
            r matches Ok(m) ==> m.did@ == claimer_did@ && m.memory_type@ == "individual"@
                && final(self).db.memories@ == old(self).db.memories@.push(m),
            r is Ok ==> (first_with(old(self).db.tokens@, |t: ClaimToken| t.token@, token_code@) matches Some(i)
                && final(self).db.tokens@.len() == old(self).db.tokens@.len()
                && final(self).db.tokens@[i].token == old(self).db.tokens@[i].token
                && final(self).db.tokens@[i].claimed_spec()
                && final(self).db.tokens@[i].claimed_by_did->0@ == claimer_did@
                && (forall|k: int| 0 <= k < old(self).db.tokens@.len() && k != i
                    ==> #[trigger] final(self).db.tokens@[k] == old(self).db.tokens@[k])),
    {
        let now = now_seconds();
        let text = now_rfc3339();
        self.claim_proxy_record_at(protocol, token_code, claimer_did, now, text, crate::crypto::new_uuid())
    }

    /// The proxy records that `organization_did` made, in the order stored.
    pub fn list_organization_proxies(&self, organization_did: &str) -> (r: Vec<ProxyMemory>)
        ensures
            r@ == proxies_of(self.db.proxies@, organization_did@),
    {
        let mut out: Vec<ProxyMemory> = Vec::new();
        let mut i: usize = 0;
        while i < self.db.proxies.len()
            invariant
                i <= self.db.proxies@.len(),
                out@ == proxies_of(self.db.proxies@.subrange(0, i as int), organization_did@),
            decreases self.db.proxies@.len() - i,
        {
            proof {
                let f = |p: ProxyMemory| p.organization_did@ == organization_did@;
                self.db.proxies@.subrange(0, i as int).lemma_filter_push(self.db.proxies@[i as int], f);
                assert(self.db.proxies@.subrange(0, i as int).push(self.db.proxies@[i as int])
                    =~= self.db.proxies@.subrange(0, i + 1));
            }
            if crate::text::str_eq(self.db.proxies[i].organization_did.as_str(), organization_did) {
                out.push(self.db.proxies[i].copy());
            }
            i = i + 1;
        }
        assert(self.db.proxies@.subrange(0, self.db.proxies@.len() as int) =~= self.db.proxies@);
        out
    }

    /// The claim tokens that `organization_did` issued, in the order stored.
    pub fn list_organization_tokens(&self, organization_did: &str) -> (r: Vec<ClaimToken>)
        ensures
            r@ == tokens_of(self.db.tokens@, organization_did@),
    {
        let mut out: Vec<ClaimToken> = Vec::new();
        let mut i: usize = 0;
        while i < self.db.tokens.len()
            invariant
                i <= self.db.tokens@.len(),
                out@ == tokens_of(self.db.tokens@.subrange(0, i as int), organization_did@),
            decreases self.db.tokens@.len() - i,
        {
            proof {
                let f = |t: ClaimToken| t.organization_did@ == organization_did@;
                self.db.tokens@.subrange(0, i as int).lemma_filter_push(self.db.tokens@[i as int], f);
                assert(self.db.tokens@.subrange(0, i as int).push(self.db.tokens@[i as int])
                    =~= self.db.tokens@.subrange(0, i + 1));
            }
            if crate::text::str_eq(self.db.tokens[i].organization_did.as_str(), organization_did) {
                out.push(self.db.tokens[i].copy());
            }
            i = i + 1;
        }
        assert(self.db.tokens@.subrange(0, self.db.tokens@.len() as int) =~= self.db.tokens@);
        out
    }

    /// The proxy records whose name holds `name_pattern`.
    pub fn search_proxy_records(&self, name_pattern: &str) -> (r: Vec<ProxyMemory>)
        ensures
            r@ == self.db.proxies@.filter(
                |p: ProxyMemory| crate::store::name_matches(p.proxy_for_name@, name_pattern@),
            ),
    {
        self.db.search_proxies_by_name(name_pattern)
    }
}

/// How many of `ts` are claimed.
pub open spec fn count_claimed(ts: Seq<ClaimToken>) -> nat
    decreases ts.len(),
{
    if ts.len() == 0 {
        0
    } else {
        count_claimed(ts.drop_last()) + if ts.last().claimed_by_did is Some { 1nat } else { 0nat }
    }
}

/// How many of `ts` have expired at `now`.
pub open spec fn count_expired(ts: Seq<ClaimToken>, now: i64) -> nat
    decreases ts.len(),
{
    if ts.len() == 0 {
        0
    } else {
        count_expired(ts.drop_last(), now) + if expired_at(ts.last().expiry_timestamp@, now) {
            1nat
        } else {
            0nat
        }
    }
}

/// How many of `ts` are neither claimed nor expired at `now`.
pub open spec fn count_active(ts: Seq<ClaimToken>, now: i64) -> nat
    decreases ts.len(),
{
    if ts.len() == 0 {
        0
    } else {
        count_active(ts.drop_last(), now) + if ts.last().claimed_by_did is None && !expired_at(
            ts.last().expiry_timestamp@,
            now,
        ) {
            1nat
        } else {
            0nat
        }
    }
}

proof fn lemma_counts_bounded(ts: Seq<ClaimToken>, now: i64)
    ensures
        count_claimed(ts) <= ts.len(),
        count_expired(ts, now) <= ts.len(),
        count_active(ts, now) <= ts.len(),
    decreases ts.len(),
{
    if ts.len() > 0 {
        lemma_counts_bounded(ts.drop_last(), now);
    }
}

impl ClaimSystem {
    /// Counts `organization_did`'s proxy records and tokens at `now`: all
    /// tokens, the claimed ones, the expired ones, and the active ones
    /// (neither claimed nor expired; a claimed token past its expiry counts
    /// as both claimed and expired).
    pub fn get_claim_statistics_at(&self, organization_did: &str, now: i64) -> (r: ClaimStatistics)
        ensures
            r.total_proxy_records == proxies_of(self.db.proxies@, organization_did@).len(),
            r.total_tokens_created == tokens_of(self.db.tokens@, organization_did@).len(),
            r.tokens_claimed == count_claimed(tokens_of(self.db.tokens@, organization_did@)),
            r.tokens_expired == count_expired(tokens_of(self.db.tokens@, organization_did@), now),
            r.tokens_active == count_active(tokens_of(self.db.tokens@, organization_did@), now),
    {
        let tokens = self.list_organization_tokens(organization_did);
        let proxies = self.list_organization_proxies(organization_did);
        let mut claimed: usize = 0;
        let mut expired: usize = 0;
        let mut active: usize = 0;
        let mut i: usize = 0;
        while i < tokens.len()
            invariant
                i <= tokens@.len(),
                claimed == count_claimed(tokens@.subrange(0, i as int)),
                expired == count_expired(tokens@.subrange(0, i as int), now),
                active == count_active(tokens@.subrange(0, i as int), now),
            decreases tokens@.len() - i,
        {
            proof {
                assert(tokens@.subrange(0, i + 1).drop_last() =~= tokens@.subrange(0, i as int));
                lemma_counts_bounded(tokens@.subrange(0, i as int), now);
            }
            let t = &tokens[i];
            let is_claimed = t.is_claimed();
            let is_expired = t.is_expired_at(now);
            if is_claimed {
                claimed = claimed + 1;
            }
            if is_expired {
                expired = expired + 1;
            }
            if !is_claimed && !is_expired {
                active = active + 1;
            }
            i = i + 1;
        }
        assert(tokens@.subrange(0, tokens@.len() as int) =~= tokens@);
        ClaimStatistics {
            total_proxy_records: proxies.len(),
            total_tokens_created: tokens.len(),
            tokens_claimed: claimed,
            tokens_expired: expired,
            tokens_active: active,
        }
    }
}

impl ClaimSystem {
    /// Counts `organization_did`'s proxy records and tokens now.
    pub fn get_claim_statistics(&self, organization_did: &str) -> (r: ClaimStatistics)
        ensures
            r.total_proxy_records == proxies_of(self.db.proxies@, organization_did@).len(),
            r.total_tokens_created == tokens_of(self.db.tokens@, organization_did@).len(),
            r.tokens_claimed == count_claimed(tokens_of(self.db.tokens@, organization_did@)),
    {
        self.get_claim_statistics_at(organization_did, now_seconds())
    }
}

} // verus!
