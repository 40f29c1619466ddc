//! Self-sovereign identities: Ed25519 keys, DID derivation, and signing
//! and checking of memories.

use vstd::prelude::*;
use vstd::string::*;
use vstd::array::*;
use vstd::utf8::encode_utf8;
use crate::codec::{
    ascii_lower, base32_encode, base32_of, base58_encode, base58_of, base64_decode,
    base64_decoded, base64_encode, base64_of, to_ascii_lower,
};
use crate::crypto::{
    ed25519_accepts, ed25519_public_key, ed25519_public_of, ed25519_sign, ed25519_signature_of,
    ed25519_verify, now_rfc3339, random_bytes_32, sha256, sha256_of,
};
use crate::memory::SignedMemory;
use crate::text::{concat, owned};

verus! {

/// Relies on zeroize's `Zeroize` for byte arrays: every byte is overwritten
/// with zero in a way the compiler keeps.
#[verifier::external_body]
fn wipe(b: &mut [u8; 32])
    ensures
        final(b)@ == Seq::new(32, |i: int| 0u8),
    opens_invariants none
    no_unwind
{
    zeroize::Zeroize::zeroize(b)
}

/// The method prefix of every DID made here.
pub open spec fn did_prefix() -> Seq<char> {
    "did:plc:"@
}

/// The DID of a public key: `did:plc:` and the lowercase unpadded base32
/// text of the first 24 bytes of `SHA256("did:plc:" || public)`.
pub open spec fn did_of(public: Seq<u8>) -> Seq<char> {
    did_prefix() + ascii_lower(
        base32_of(sha256_of(encode_utf8(did_prefix()) + public).subrange(0, 24)),
    )
}

/// The multibase text of a public key: `z` and its base58 text.
pub open spec fn multibase_of(public: Seq<u8>) -> Seq<char> {
    "z"@ + base58_of(public)
}

/// A 32-byte secret that is overwritten with zeros when dropped. It has no
/// `Debug` form, so it never shows in debug output.
pub struct SecureKey {
    key_data: [u8; 32],
}

impl Drop for SecureKey {
    fn drop(&mut self)
        opens_invariants none
        no_unwind
    {
        wipe(&mut self.key_data);
    }
}

impl SecureKey {
    /// The secret bytes.
    pub closed spec fn secret(&self) -> Seq<u8> {
        self.key_data@
    }

    pub fn new(key_bytes: [u8; 32]) -> (r: SecureKey)
        ensures
            r.secret() == key_bytes@,
    {
        SecureKey { key_data: key_bytes }
    }

    pub fn as_bytes(&self) -> (r: &[u8; 32])
        ensures
            r@ == self.secret(),
    {
        &self.key_data
    }

    /// Another holder of the same secret.
    pub fn duplicate(&self) -> (r: SecureKey)
        ensures
            r.secret() == self.secret(),
    {
        SecureKey { key_data: self.key_data }
    }
}

/// An Ed25519 key pair: the public key in base64, the secret kept apart.
pub struct PlcKeypair {
    pub public_key: String,
    pub private_key: SecureKey,
}

impl PlcKeypair {
    /// The secret key bytes.
    pub open spec fn secret(&self) -> Seq<u8> {
        self.private_key.secret()
    }

    /// The public key is the base64 text of the secret's 32-byte public key.
    pub open spec fn wf(&self) -> bool {
        &&& self.public_key@ == base64_of(ed25519_public_of(self.secret()))
        &&& base64_decoded(self.public_key@) == Some(ed25519_public_of(self.secret()))
        &&& ed25519_public_of(self.secret()).len() == 32
    }

    pub fn new(public_key: String, private_key_bytes: [u8; 32]) -> (r: PlcKeypair)
        ensures
            r.public_key == public_key,
            r.secret() == private_key_bytes@,
    {
        PlcKeypair { public_key, private_key: SecureKey::new(private_key_bytes) }
    }

    pub fn private_key_bytes(&self) -> (r: &[u8; 32])
        ensures
            r@ == self.secret(),
    {
        self.private_key.as_bytes()
    }

    /// Another key pair with the same keys.
    pub fn duplicate(&self) -> (r: PlcKeypair)
        ensures
            r.public_key == self.public_key,
            r.secret() == self.secret(),
    {
        PlcKeypair { public_key: self.public_key.clone(), private_key: self.private_key.duplicate() }
    }
}

/// A key by which a DID document says its controller signs.
#[derive(Debug, Clone)]
pub struct VerificationMethod {
    pub id: String,
    pub method_type: String,
    pub controller: String,
    pub public_key_multibase: Option<String>,
}

/// An endpoint that a DID document advertises.
#[derive(Debug, Clone)]
pub struct Service {
    pub id: String,
    pub service_type: String,
    pub service_endpoint: String,
}

/// A DID directory operation; the genesis operation creates the DID.
#[derive(Debug, Clone)]
pub struct PlcOperation {
    pub operation_type: String,
    pub did: String,
    pub signature: String,
    pub created_at: String,
    pub prev: Option<String>,
    pub services: Option<Vec<Service>>,
    pub also_known_as: Option<Vec<String>>,
    pub rotation_keys: Option<Vec<String>>,
    pub verification_methods: Option<Vec<VerificationMethod>>,
}

/// A DID document as a directory publishes it.
#[derive(Debug, Clone)]
pub struct PlcDocument {
    pub id: String,
    pub context: Vec<String>,
    pub also_known_as: Option<Vec<String>>,
    pub verification_method: Option<Vec<VerificationMethod>>,
    pub service: Option<Vec<Service>>,
}

/// Why a signature could not be checked or made.
#[derive(Debug, Clone, Copy, PartialEq, Eq, Structural)]
pub enum CryptoError {
    InvalidPublicKey,
    InvalidSignature,
    NoIdentity,
}

/// The text of an optional handle.
pub open spec fn handle_view(h: Option<String>) -> Option<Seq<char>> {
    match h {
        Some(t) => Some(t@),
        None => None,
    }
}

/// The identity's genesis operation: a `plc_operation` for its DID, known
/// as `at://<handle>` when a handle is given, rotated by its public key,
/// verified by a Multikey method with the `z` and base58 form of the
/// public key, and advertising the data server `pds`.
pub open spec fn genesis_of(id: PlcIdentity, handle: Option<Seq<char>>, pds: Seq<char>) -> bool {
    let op = id.plc_operations@[0];
    let public = ed25519_public_of(id.keypair.secret());
    &&& id.plc_operations@.len() == 1
    &&& op.operation_type@ == "plc_operation"@
    &&& op.did == id.did
    &&& op.prev is None
    &&& match handle {
        Some(h) => op.also_known_as matches Some(v) && v@.len() == 1 && v@[0]@ == "at://"@ + h,
        None => op.also_known_as is None,
    }
    &&& op.rotation_keys matches Some(v) && v@ == seq![id.keypair.public_key]
    &&& op.verification_methods matches Some(v) && v@.len() == 1 && v@[0].method_type@ == "Multikey"@
        && v@[0].controller == id.did && v@[0].id@ == id.did@ + "#atproto"@
        && (v@[0].public_key_multibase matches Some(k) && k@ == multibase_of(public))
    &&& op.services matches Some(v) && v@.len() == 1 && v@[0].service_endpoint@ == pds
}

/// A DID with its key pair and genesis operation.
pub struct PlcIdentity {
    pub did: String,
    pub keypair: PlcKeypair,
    pub plc_operations: Vec<PlcOperation>,
    pub created_at: String,
    pub rotation_keys: Vec<String>,
}

/// `m` carries the signature that `secret` makes over its signing
/// payload: a 64-byte signature, in base64, that Ed25519 accepts under the
/// secret's public key.
pub open spec fn signed_by(secret: Seq<u8>, m: SignedMemory) -> bool {
    let sig = ed25519_signature_of(secret, encode_utf8(m.payload_spec()));
    &&& m.signature@ == base64_of(sig)
    &&& base64_decoded(m.signature@) == Some(sig)
    &&& sig.len() == 64
    &&& ed25519_accepts(ed25519_public_of(secret), encode_utf8(m.payload_spec()), sig)
}

/// The outcome of checking `m` against the base64 public key `public_text`:
/// `Ok(false)` on a hash mismatch, errors for a key or signature text that
/// does not decode to 32 or 64 bytes, else whether Ed25519 accepts the
/// signature over the signing payload.
pub open spec fn memory_check(public_text: Seq<char>, m: SignedMemory) -> Result<bool, CryptoError> {
    if !m.hash_matches() {
        Ok(false)
    } else {
        match base64_decoded(public_text) {
            Some(pk) if pk.len() == 32 => match base64_decoded(m.signature@) {
                Some(sig) if sig.len() == 64 => Ok(
                    ed25519_accepts(pk, encode_utf8(m.payload_spec()), sig),
                ),
                _ => Err(CryptoError::InvalidSignature),
            },
            _ => Err(CryptoError::InvalidPublicKey),
        }
    }
}

fn array_32(v: &Vec<u8>) -> (r: [u8; 32])
    requires
        v@.len() == 32,
    ensures
        r@ == v@,
{
    let mut a = [0u8; 32];
    let mut i: usize = 0;
    while i < 32
        invariant
            v@.len() == 32,
            i <= 32,
            forall|m: int| 0 <= m < i ==> a@[m] == v@[m],
        decreases 32 - i,
    {
        a.set(i, v[i]);
        i = i + 1;
    }
    assert(a@ =~= v@);
    a
}

fn array_64(v: &Vec<u8>) -> (r: [u8; 64])
    requires
        v@.len() == 64,
    ensures
        r@ == v@,
{
    let mut a = [0u8; 64];
    let mut i: usize = 0;
    while i < 64
        invariant
            v@.len() == 64,
            i <= 64,
            forall|m: int| 0 <= m < i ==> a@[m] == v@[m],
        decreases 64 - i,
    {
        a.set(i, v[i]);
        i = i + 1;
    }
    assert(a@ =~= v@);
    a
}

/// Derives the DID of a public key.
pub fn generate_plc_id(public_key: &[u8]) -> (r: String)
    ensures
        r@ == did_of(public_key@),
{
    let mut input: Vec<u8> = Vec::new();
    let prefix = "did:plc:".as_bytes();
    let mut i: usize = 0;
    while i < prefix.len()
        invariant
            prefix@ == "did:plc:".spec_bytes(),
            i <= prefix@.len(),
            input@ == prefix@.subrange(0, i as int),
        decreases prefix@.len() - i,
    {
        input.push(prefix[i]);
        i = i + 1;
        assert(input@ =~= prefix@.subrange(0, i as int));
    }
    let mut j: usize = 0;
    while j < public_key.len()
        invariant
            j <= public_key@.len(),
            input@ == prefix@ + public_key@.subrange(0, j as int),
        decreases public_key@.len() - j,
    {
        input.push(public_key[j]);
        j = j + 1;
        assert(input@ =~= prefix@ + public_key@.subrange(0, j as int));
    }
    assert(public_key@.subrange(0, public_key@.len() as int) =~= public_key@);
    let digest = sha256(input.as_slice());
    let mut head: Vec<u8> = Vec::new();
    let mut k: usize = 0;
    while k < 24
        invariant
            digest@.len() == 32,
            k <= 24,
            head@ == digest@.subrange(0, k as int),
        decreases 24 - k,
    {
        head.push(digest[k]);
        k = k + 1;
        assert(head@ =~= digest@.subrange(0, k as int));
    }
    let encoded = base32_encode(head.as_slice());
    let lower = to_ascii_lower(encoded.as_str());
    concat("did:plc:", lower.as_str())
}

/// The multibase text of an Ed25519 public key.
pub fn encode_multibase_ed25519(public_key: &[u8]) -> (r: String)
    ensures
        r@ == multibase_of(public_key@),
{
    concat("z", base58_encode(public_key).as_str())
}

impl PlcIdentity {
    /// Keys and DID agree: the public key text belongs to the secret, and
    /// the DID is derived from that public key.
    pub open spec fn wf(&self) -> bool {
        &&& self.keypair.wf()
        &&& self.did@ == did_of(ed25519_public_of(self.keypair.secret()))
    }

    /// The identity of a given secret key, created at `created_at`, with an
    /// optional handle and the data server endpoint its genesis operation
    /// advertises.
    pub fn from_secret(
        secret: [u8; 32],
        handle: Option<String>,
        created_at: String,
        pds_endpoint: &str,
    ) -> (r: PlcIdentity)
        ensures
            r.wf(),
            r.keypair.secret() == secret@,
            r.created_at == created_at,
            r.plc_operations@.len() == 1,
            r.rotation_keys@ == seq![r.keypair.public_key],
            genesis_of(r, handle_view(handle), pds_endpoint@),
    {
        let ghost hv = handle_view(handle);
        let public = ed25519_public_key(&secret);
        let public_b64 = base64_encode(&public);
        let did = generate_plc_id(&public);
        let also_known_as = match handle {
            Some(h) => Some(vec![concat("at://", h.as_str())]),
            None => None,
        };
        let method = VerificationMethod {
            id: concat(did.as_str(), "#atproto"),
            method_type: owned("Multikey"),
            controller: did.clone(),
            public_key_multibase: Some(encode_multibase_ed25519(&public)),
        };
        let service = Service {
            id: owned("atproto_pds"),
            service_type: owned("AtprotoPersonalDataServer"),
            service_endpoint: owned(pds_endpoint),
        };
        let genesis = PlcOperation {
            operation_type: owned("plc_operation"),
            did: did.clone(),
            signature: String::new(),
            created_at: created_at.clone(),
            prev: None,
            services: Some(vec![service]),
            also_known_as,
            rotation_keys: Some(vec![public_b64.clone()]),
            verification_methods: Some(vec![method]),
        };
        let keypair = PlcKeypair::new(public_b64.clone(), secret);
        let ghost g = genesis;
        let r = PlcIdentity {
            did,
            keypair,
            plc_operations: vec![genesis],
            created_at,
            rotation_keys: vec![public_b64],
        };
        proof {
            assert(r.plc_operations@[0] == g);
            assert(g.rotation_keys matches Some(v) && v@ == seq![r.keypair.public_key]);
            assert(g.verification_methods matches Some(v) && v@.len() == 1 && v@[0].method_type@ == "Multikey"@
                && v@[0].controller == r.did && v@[0].id@ == r.did@ + "#atproto"@);
            assert(g.services matches Some(v) && v@.len() == 1 && v@[0].service_endpoint@ == pds_endpoint@);
            assert(genesis_of(r, hv, pds_endpoint@));
        }
        r
    }

    /// A new identity with a secret key from the system's secure generator,
    /// created now.
    pub fn generate(handle: Option<String>) -> (r: PlcIdentity)
        ensures
            r.wf(),
            r.plc_operations@.len() == 1,
            r.rotation_keys@ == seq![r.keypair.public_key],
            genesis_of(r, handle_view(handle), "https://demo.ocm.example.com"@),
    {
        let secret = random_bytes_32();
        PlcIdentity::from_secret(secret, handle, now_rfc3339(), "https://demo.ocm.example.com")
    }

    /// Signs `memory`: its signature becomes the base64 Ed25519 signature of
    /// its signing payload; every other field stays.
    pub fn sign_memory(&self, memory: &mut SignedMemory)
        ensures
            signed_by(self.keypair.secret(), *final(memory)),
            final(memory).id == old(memory).id,
            final(memory).did == old(memory).did,
            final(memory).memory_type == old(memory).memory_type,
            final(memory).memory_data == old(memory).memory_data,
            final(memory).content_hash == old(memory).content_hash,
            final(memory).timestamp == old(memory).timestamp,
            final(memory).updated_on == old(memory).updated_on,
    {
        let payload = memory.get_signing_payload();
        let sig = ed25519_sign(self.keypair.private_key_bytes(), payload.as_str().as_bytes());
        memory.signature = base64_encode(&sig);
    }

    /// Checks `memory` against this identity's public key: `Ok(false)` on
    /// a content hash mismatch, before the signature is looked at.
    pub fn verify_memory(&self, memory: &SignedMemory) -> (r: Result<bool, CryptoError>)
        ensures
            r == memory_check(self.keypair.public_key@, *memory),
    {
        verify_with_key(self.keypair.public_key.as_str(), memory)
    }

    /// Another identity with the same DID, keys and records.
    pub fn duplicate(&self) -> (r: PlcIdentity)
        ensures
            r.did == self.did,
            r.keypair.public_key == self.keypair.public_key,
            r.keypair.secret() == self.keypair.secret(),
            r.created_at == self.created_at,
    {
        PlcIdentity {
            did: self.did.clone(),
            keypair: self.keypair.duplicate(),
            plc_operations: self.plc_operations.clone(),
            created_at: self.created_at.clone(),
            rotation_keys: self.rotation_keys.clone(),
        }
    }
}

/// Checks `memory` against the base64 public key `public_key`.
pub fn verify_with_key(public_key: &str, memory: &SignedMemory) -> (r: Result<bool, CryptoError>)
    ensures
        r == memory_check(public_key@, *memory),
{
    if !memory.verify_hash() {
        return Ok(false);
    }
    let pk = match base64_decode(public_key) {
        Some(v) => v,
        None => {
            return Err(CryptoError::InvalidPublicKey);
        },
    };
    if pk.len() != 32 {
        return Err(CryptoError::InvalidPublicKey);
    }
    let sig = match base64_decode(memory.signature.as_str()) {
        Some(v) => v,
        None => {
            return Err(CryptoError::InvalidSignature);
        },
    };
    if sig.len() != 64 {
        return Err(CryptoError::InvalidSignature);
    }
    let pk_arr = array_32(&pk);
    let sig_arr = array_64(&sig);
    let payload = memory.get_signing_payload();
    Ok(ed25519_verify(&pk_arr, payload.as_str().as_bytes(), &sig_arr))
}

/// A memory signed by an identity verifies under that identity's public
/// key, as long as its content hash matches its payload.
pub proof fn lemma_signed_memory_verifies(id: PlcIdentity, m: SignedMemory)
    requires
        id.wf(),
        m.hash_matches(),
        signed_by(id.keypair.secret(), m),
    ensures
        memory_check(id.keypair.public_key@, m) == Ok::<bool, CryptoError>(true),
{
}

/// Public facts about the identity in use.
#[derive(Debug, Clone)]
pub struct IdentityInfo {
    pub did: String,
    pub public_key: String,
    pub created_at: String,
    pub plc_operations_count: usize,
}

/// The local node's protocol state: the identity it signs with, if any.
pub struct OcmProtocol {
    pub current_identity: Option<PlcIdentity>,
}

impl OcmProtocol {
    pub fn new() -> (r: OcmProtocol)
        ensures
            r.current_identity is None,
    {
        OcmProtocol { current_identity: None }
    }

    /// Every identity held is well formed.
    pub open spec fn wf(&self) -> bool {
        self.current_identity matches Some(id) ==> id.wf()
    }

    /// Generates a new identity and makes it the one in use.
    pub fn create_identity(&mut self, handle: Option<String>)
        ensures
            final(self).current_identity matches Some(id) && id.wf(),
    {
        self.current_identity = Some(PlcIdentity::generate(handle));
    }

    /// Makes `identity` the one in use.
    pub fn use_identity(&mut self, identity: PlcIdentity)
        ensures
            final(self).current_identity == Some(identity),
    {
        self.current_identity = Some(identity);
    }

    /// Signs `memory` with the identity in use; fails with `NoIdentity`
    /// when there is none, leaving the memory as it was.
    pub fn attest_memory(&self, memory: &mut SignedMemory) -> (r: Result<(), CryptoError>)
        ensures
            self.current_identity is None ==> r == Err::<(), CryptoError>(CryptoError::NoIdentity)
                && *final(memory) == *old(memory),
            self.current_identity matches Some(id) ==> r is Ok && signed_by(
                id.keypair.secret(),
                *final(memory),
            ) && final(memory).id == old(memory).id && final(memory).did == old(memory).did
                && final(memory).memory_type == old(memory).memory_type
                && final(memory).memory_data == old(memory).memory_data
                && final(memory).content_hash == old(memory).content_hash
                && final(memory).timestamp == old(memory).timestamp
                && final(memory).updated_on == old(memory).updated_on,
    {
        match &self.current_identity {
            Some(identity) => {
                identity.sign_memory(memory);
                Ok(())
            },
            None => Err(CryptoError::NoIdentity),
        }
    }

    /// What checking a memory received from a peer gives.
    pub open spec fn verify_federated_memory_spec(&self, memory: SignedMemory) -> Result<bool, CryptoError> {
        match self.current_identity {
            Some(id) => memory_check(id.keypair.public_key@, memory),
            None => Ok(false),
        }
    }

    /// Checks a memory received from a peer against the identity in use;
    /// without one nothing verifies.
    pub fn verify_federated_memory(&self, memory: &SignedMemory) -> (r: Result<bool, CryptoError>)
        ensures
            self.current_identity is None ==> r == Ok::<bool, CryptoError>(false),
            self.current_identity matches Some(id) ==> r == memory_check(
                id.keypair.public_key@,
                *memory,
            ),
            r == self.verify_federated_memory_spec(*memory),
    {
        match &self.current_identity {
            Some(identity) => identity.verify_memory(memory),
            None => Ok(false),
        }
    }

    /// The DID, public key, creation time and operation count of the
    /// identity in use.
    pub fn get_identity_info(&self) -> (r: Option<IdentityInfo>)
        ensures
            self.current_identity is None <==> r is None,
            self.current_identity matches Some(id) ==> r matches Some(info) && info.did == id.did
                && info.public_key == id.keypair.public_key && info.created_at == id.created_at
                && info.plc_operations_count == id.plc_operations@.len(),
    {
        match &self.current_identity {
            Some(identity) => Some(
                IdentityInfo {
                    did: identity.did.clone(),
                    public_key: identity.keypair.public_key.clone(),
                    created_at: identity.created_at.clone(),
                    plc_operations_count: identity.plc_operations.len(),
                },
            ),
            None => None,
        }
    }
}

/// Whether Ed25519 accepts `m`'s signature under the base64 public key
/// `public_text`, the content hash aside: errors for a key or signature
/// text that does not decode to 32 or 64 bytes.
pub open spec fn signature_check(public_text: Seq<char>, m: SignedMemory) -> Result<bool, CryptoError> {
    match base64_decoded(public_text) {
        Some(pk) if pk.len() == 32 => match base64_decoded(m.signature@) {
            Some(sig) if sig.len() == 64 => Ok(ed25519_accepts(pk, encode_utf8(m.payload_spec()), sig)),
            _ => Err(CryptoError::InvalidSignature),
        },
        _ => Err(CryptoError::InvalidPublicKey),
    }
}

/// The DID directory, with the documents published or resolved so far.
pub struct PlcDirectory {
    pub base_url: String,
    pub local_cache: Vec<PlcDocument>,
}

/// The directory that DIDs are published to.
pub fn default_directory_url() -> (r: String)
    ensures
        r@ == "https://plc.directory"@,
{
    owned("https://plc.directory")
}

impl PlcDirectory {
    pub fn new() -> (r: PlcDirectory)
        ensures
            r.base_url@ == "https://plc.directory"@,
            r.local_cache@.len() == 0,
    {
        PlcDirectory { base_url: default_directory_url(), local_cache: Vec::new() }
    }

    /// The document that publishes `identity`: its DID, its handle, its
    /// Multikey verification method and its data server.
    pub fn document_for(identity: &PlcIdentity, pds_endpoint: &str) -> (r: Option<PlcDocument>)
        ensures
            r matches Some(d) ==> d.id == identity.did,
            base64_decoded(identity.keypair.public_key@) is None ==> r is None,
    {
        let public = match base64_decode(identity.keypair.public_key.as_str()) {
            Some(p) => p,
            None => {
                return None;
            },
        };
        let also_known_as = if identity.plc_operations.len() > 0 {
            match &identity.plc_operations[0].also_known_as {
                Some(v) => Some(crate::text::copy_texts(v)),
                None => None,
            }
        } else {
            None
        };
        let method = VerificationMethod {
            id: concat(identity.did.as_str(), "#atproto"),
            method_type: owned("Multikey"),
            controller: identity.did.clone(),
            public_key_multibase: Some(encode_multibase_ed25519(public.as_slice())),
        };
        let service = Service {
            id: concat(identity.did.as_str(), "#atproto_pds"),
            service_type: owned("AtprotoPersonalDataServer"),
            service_endpoint: owned(pds_endpoint),
        };
        Some(
            PlcDocument {
                id: identity.did.clone(),
                context: vec![owned("https://www.w3.org/ns/did/v1"), owned("https://w3id.org/security/multikey/v1")],
                also_known_as,
                verification_method: Some(vec![method]),
                service: Some(vec![service]),
            },
        )
    }

    fn cache_index(&self, did: &str) -> (r: Option<usize>)
        ensures
            r matches Some(i) ==> i < self.local_cache@.len() && self.local_cache@[i as int].id@ == did@,
            r is None ==> forall|i: int| 0 <= i < self.local_cache@.len() ==> self.local_cache@[i].id@ != did@,
    {
        let mut i: usize = 0;
        while i < self.local_cache.len()
            invariant
                i <= self.local_cache@.len(),
                forall|m: int| 0 <= m < i ==> self.local_cache@[m].id@ != did@,
            decreases self.local_cache@.len() - i,
        {
            if crate::text::str_eq(self.local_cache[i].id.as_str(), did) {
                return Some(i);
            }
            i = i + 1;
        }
        None
    }

    /// Publishes `identity`; the document is kept in the local cache, in
    /// place of an earlier one for the same DID. Fails with
    /// `InvalidPublicKey` when the identity's key text is not base64.
    pub fn publish_identity(&mut self, identity: &PlcIdentity) -> (r: Result<(), CryptoError>)
        ensures
            r is Ok ==> exists|i: int| 0 <= i < final(self).local_cache@.len() && #[trigger] final(self).local_cache@[i].id == identity.did,
            r is Err ==> final(self).local_cache == old(self).local_cache,
            base64_decoded(identity.keypair.public_key@) is None ==> r is Err,
    {
        let doc = match PlcDirectory::document_for(identity, "https://your-pds.example.com") {
            Some(d) => d,
            None => {
                return Err(CryptoError::InvalidPublicKey);
            },
        };
        let ghost did = doc.id;
        match self.cache_index(identity.did.as_str()) {
            Some(i) => {
                self.local_cache.set(i, doc);
                assert(self.local_cache@[i as int].id == identity.did);
            },
            None => {
                self.local_cache.push(doc);
                assert(self.local_cache@[self.local_cache@.len() - 1].id == identity.did);
            },
        }
        Ok(())
    }

    /// Whether a document for `did` is in the local cache, where resolution
    /// looks first.
    pub fn is_cached(&self, did: &str) -> (r: bool)
        ensures
            r == exists|i: int| 0 <= i < self.local_cache@.len() && #[trigger] self.local_cache@[i].id@ == did@,
    {
        self.cache_index(did).is_some()
    }

    /// The DIDs whose documents are cached.
    pub fn get_cached_identities(&self) -> (r: Vec<String>)
        ensures
            r@.len() == self.local_cache@.len(),
            forall|i: int| 0 <= i < r@.len() ==> #[trigger] r@[i] == self.local_cache@[i].id,
    {
        let mut out: Vec<String> = Vec::new();
        let mut i: usize = 0;
        while i < self.local_cache.len()
            invariant
                i <= self.local_cache@.len(),
                out@.len() == i,
                forall|m: int| 0 <= m < i ==> #[trigger] out@[m] == self.local_cache@[m].id,
            decreases self.local_cache@.len() - i,
        {
            out.push(self.local_cache[i].id.clone());
            i = i + 1;
        }
        out
    }

    /// Checks `memory`'s signature under the base64 public key
    /// `public_key_b64`, without looking at its content hash.
    pub fn verify_signature(&self, memory: &SignedMemory, public_key_b64: &str) -> (r: Result<bool, CryptoError>)
        ensures
            r == signature_check(public_key_b64@, *memory),
    {
        let pk = match base64_decode(public_key_b64) {
            Some(v) => v,
            None => {
                return Err(CryptoError::InvalidPublicKey);
            },
        };
        if pk.len() != 32 {
            return Err(CryptoError::InvalidPublicKey);
        }
        let sig = match base64_decode(memory.signature.as_str()) {
            Some(v) => v,
            None => {
                return Err(CryptoError::InvalidSignature);
            },
        };
        if sig.len() != 64 {
            return Err(CryptoError::InvalidSignature);
        }
        let pk_arr = array_32(&pk);
        let sig_arr = array_64(&sig);
        let payload = memory.get_signing_payload();
        Ok(ed25519_verify(&pk_arr, payload.as_str().as_bytes(), &sig_arr))
    }
}

} // verus!
