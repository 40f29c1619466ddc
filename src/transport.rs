//! The authenticated message protocol between peers: length-prefixed
//! frames, HMAC-authenticated envelopes, replay protection, per-IP message
//! rate limits and per-IP connection caps.

use vstd::prelude::*;
use vstd::utf8::encode_utf8;
use crate::codec::{base64_decode, base64_decoded, base64_encode, base64_of};
use crate::crypto::{hmac_sha256, hmac_sha256_of, now_rfc3339, parse_rfc3339, random_bytes_16, rfc3339_seconds};
use crate::table::{elapsed, fresh, KeyedTable, Stamped};
use crate::text::{concat, owned};
use crate::validation::{uuid_shaped, validate_uuid};

verus! {

/// The largest frame body and payload, in bytes: 1 MiB.
pub const MAX_MESSAGE_SIZE: usize = 1048576;

/// How long a message stays acceptable, and a nonce remembered: 5 minutes.
pub const MESSAGE_TIMEOUT_SECS: u64 = 300;

/// Messages accepted from one IP within one window.
pub const MAX_MESSAGES_PER_MINUTE: u32 = 60;

/// Connections held open at once from one IP.
pub const MAX_CONNECTIONS_PER_IP: u32 = 5;

/// The length of a rate-limit window, in seconds.
pub const RATE_LIMIT_WINDOW_SECS: u64 = 60;

/// The unsigned big-endian number that four bytes spell.
pub open spec fn be_u32(b: Seq<u8>) -> int {
    b[0] * 16777216 + b[1] * 65536 + b[2] * 256 + b[3]
}

/// Reads a frame's 4-byte big-endian length prefix; `None` when the length
/// is over `MAX_MESSAGE_SIZE`, in which case the connection is closed
/// before anything is allocated for the body.
pub fn frame_length(prefix: &[u8; 4]) -> (r: Option<usize>)
    ensures
        be_u32(prefix@) <= MAX_MESSAGE_SIZE ==> r == Some(be_u32(prefix@) as usize),
        be_u32(prefix@) > MAX_MESSAGE_SIZE ==> r is None,
{
    let n: u64 = (prefix[0] as u64) * 16777216 + (prefix[1] as u64) * 65536 + (prefix[2] as u64)
        * 256 + (prefix[3] as u64);
    if n > MAX_MESSAGE_SIZE as u64 {
        None
    } else {
        Some(n as usize)
    }
}

/// A frame: the body's length as four big-endian bytes, then the body.
pub open spec fn frame_of(body: Seq<u8>) -> Seq<u8> {
    let n = body.len() as int;
    seq![(n / 16777216) as u8, ((n / 65536) % 256) as u8, ((n / 256) % 256) as u8, (n % 256) as u8]
        + body
}

/// Frames `body`; `None` when it is over `MAX_MESSAGE_SIZE`.
pub fn encode_frame(body: &[u8]) -> (r: Option<Vec<u8>>)
    ensures
        body@.len() <= MAX_MESSAGE_SIZE ==> (r matches Some(f) && f@ == frame_of(body@)),
        body@.len() > MAX_MESSAGE_SIZE ==> r is None,
{
    let n = body.len();
    if n > MAX_MESSAGE_SIZE {
        return None;
    }
    let mut out: Vec<u8> = Vec::new();
    out.push((n / 16777216) as u8);
    out.push(((n / 65536) % 256) as u8);
    out.push(((n / 256) % 256) as u8);
    out.push((n % 256) as u8);
    let ghost head = out@;
    let mut i: usize = 0;
    while i < n
        invariant
            n == body@.len(),
            i <= n,
            out@ == head + body@.subrange(0, i as int),
        decreases n - i,
    {
        out.push(body[i]);
        i = i + 1;
        assert(out@ =~= head + body@.subrange(0, i as int));
    }
    assert(body@.subrange(0, n as int) =~= body@);
    assert(out@ =~= frame_of(body@));
    Some(out)
}

/// The kinds of envelope that peers exchange.
#[derive(Debug, Clone, Copy, PartialEq, Eq, Structural)]
pub enum MessageType {
    Handshake,
    MemorySync,
    MemoryRequest,
    PeerDiscovery,
    Ping,
    Pong,
}

/// The JSON form of a message type: its name in double quotes.
pub open spec fn type_tag(t: MessageType) -> Seq<char> {
    match t {
        MessageType::Handshake => "\"Handshake\""@,
        MessageType::MemorySync => "\"MemorySync\""@,
        MessageType::MemoryRequest => "\"MemoryRequest\""@,
        MessageType::PeerDiscovery => "\"PeerDiscovery\""@,
        MessageType::Ping => "\"Ping\""@,
        MessageType::Pong => "\"Pong\""@,
    }
}

impl MessageType {
    /// The JSON form of the type.
    pub fn json_tag(&self) -> (r: &'static str)
        ensures
            r@ == type_tag(*self),
    {
        match self {
            MessageType::Handshake => "\"Handshake\"",
            MessageType::MemorySync => "\"MemorySync\"",
            MessageType::MemoryRequest => "\"MemoryRequest\"",
            MessageType::PeerDiscovery => "\"PeerDiscovery\"",
            MessageType::Ping => "\"Ping\"",
            MessageType::Pong => "\"Pong\"",
        }
    }
}

/// An envelope exchanged between peers.
#[derive(Debug, Clone)]
pub struct NetworkMessage {
    pub message_type: MessageType,
    pub payload: String,
    pub from_peer: String,
    pub timestamp: String,
    pub nonce: String,
    pub hmac: String,
}

/// The text that the HMAC covers: `type:payload:from_peer:timestamp:nonce`.
pub open spec fn hmac_input(m: NetworkMessage) -> Seq<char> {
    type_tag(m.message_type) + ":"@ + m.payload@ + ":"@ + m.from_peer@ + ":"@ + m.timestamp@
        + ":"@ + m.nonce@
}

/// The base64 HMAC-SHA256 tag of a message's authenticated text under `key`.
pub open spec fn expected_tag(key: Seq<u8>, m: NetworkMessage) -> Seq<char> {
    base64_of(hmac_sha256_of(key, encode_utf8(hmac_input(m))))
}

/// The secret shared by the peers of a development network. Deployments
/// provision their own.
pub fn default_network_secret() -> (r: Vec<u8>)
    ensures
        r@ == "ocm-network-secret-change-in-production"@.map_values(|c: char| c as u8),
{
    let s = "ocm-network-secret-change-in-production";
    let cs = crate::text::chars_of(s);
    let mut out: Vec<u8> = Vec::new();
    let mut i: usize = 0;
    while i < cs.len()
        invariant
            cs@ == s@,
            i <= cs@.len(),
            out@ == cs@.subrange(0, i as int).map_values(|c: char| c as u8),
        decreases cs@.len() - i,
    {
        out.push(cs[i] as u8);
        i = i + 1;
        assert(out@ =~= cs@.subrange(0, i as int).map_values(|c: char| c as u8));
    }
    assert(cs@.subrange(0, cs@.len() as int) =~= cs@);
    out
}

/// The text that a message's HMAC covers.
pub fn get_message_content_for_hmac(message: &NetworkMessage) -> (r: String)
    ensures
        r@ == hmac_input(*message),
{
    let mut c = owned(message.message_type.json_tag());
    c.append(":");
    c.append(message.payload.as_str());
    c.append(":");
    c.append(message.from_peer.as_str());
    c.append(":");
    c.append(message.timestamp.as_str());
    c.append(":");
    c.append(message.nonce.as_str());
    c
}

/// The base64 HMAC tag of `message` under `key`.
pub fn compute_tag(key: &[u8], message: &NetworkMessage) -> (r: String)
    ensures
        r@ == expected_tag(key@, *message),
{
    let content = get_message_content_for_hmac(message);
    let mac = hmac_sha256(key, content.as_str().as_bytes());
    base64_encode(mac.as_slice())
}

/// An envelope from `from_peer` stamped `timestamp`, with the base64 of
/// `nonce_bytes` as nonce and its HMAC under `key`.
pub fn authenticate_message(
    key: &[u8],
    message_type: MessageType,
    payload: String,
    from_peer: String,
    timestamp: String,
    nonce_bytes: &[u8; 16],
) -> (r: NetworkMessage)
    ensures
        r.message_type == message_type,
        r.payload == payload,
        r.from_peer == from_peer,
        r.timestamp == timestamp,
        r.nonce@ == base64_of(nonce_bytes@),
        r.hmac@ == expected_tag(key@, r),
{
    let mut message = NetworkMessage {
        message_type,
        payload,
        from_peer,
        timestamp,
        nonce: base64_encode(nonce_bytes),
        hmac: String::new(),
    };
    let tag = compute_tag(key, &message);
    message.hmac = tag;
    message
}

/// An authenticated envelope, stamped now, with a fresh random nonce.
pub fn create_authenticated_message(
    key: &[u8],
    message_type: MessageType,
    payload: String,
    from_peer: String,
) -> (r: NetworkMessage)
    ensures
        r.message_type == message_type,
        r.payload == payload,
        r.from_peer == from_peer,
        r.hmac@ == expected_tag(key@, r),
{
    let nonce = random_bytes_16();
    authenticate_message(key, message_type, payload, from_peer, now_rfc3339(), &nonce)
}

/// The ways an envelope can be malformed.
#[derive(Debug, Clone, Copy, PartialEq, Eq, Structural)]
pub enum EnvelopeError {
    InvalidPeerId,
    PayloadTooLarge,
    InvalidTimestamp,
    InvalidNonce,
    InvalidHmac,
}

/// The first defect of an envelope, if any, in the order the checks run.
pub open spec fn envelope_defect(m: NetworkMessage) -> Option<EnvelopeError> {
    if !uuid_shaped(encode_utf8(m.from_peer@)) || m.from_peer@.len() == 0 {
        Some(EnvelopeError::InvalidPeerId)
    } else if encode_utf8(m.payload@).len() > MAX_MESSAGE_SIZE {
        Some(EnvelopeError::PayloadTooLarge)
    } else if rfc3339_seconds(m.timestamp@) is None {
        Some(EnvelopeError::InvalidTimestamp)
    } else if base64_decoded(m.nonce@) is None {
        Some(EnvelopeError::InvalidNonce)
    } else if base64_decoded(m.hmac@) is None {
        Some(EnvelopeError::InvalidHmac)
    } else {
        None
    }
}

/// Checks an envelope's form: a UUID-shaped sender, a payload of at most
/// 1 MiB, an RFC 3339 timestamp, and base64 nonce and HMAC.
pub fn validate_message(message: &NetworkMessage) -> (r: Result<(), EnvelopeError>)
    ensures
        r == match envelope_defect(*message) {
            Some(e) => Err(e),
            None => Ok(()),
        },
{
    if validate_uuid(message.from_peer.as_str()).is_err() {
        return Err(EnvelopeError::InvalidPeerId);
    }
    if message.payload.as_str().as_bytes().len() > MAX_MESSAGE_SIZE {
        return Err(EnvelopeError::PayloadTooLarge);
    }
    if parse_rfc3339(message.timestamp.as_str()).is_none() {
        return Err(EnvelopeError::InvalidTimestamp);
    }
    if base64_decode(message.nonce.as_str()).is_none() {
        return Err(EnvelopeError::InvalidNonce);
    }
    if base64_decode(message.hmac.as_str()).is_none() {
        return Err(EnvelopeError::InvalidHmac);
    }
    Ok(())
}

/// Whether a message is authentic at `now` (seconds): `None` when its
/// timestamp does not parse; `Some(false)` when it is more than five
/// minutes old or its HMAC is not the one its content calls for.
pub open spec fn authentic_at(key: Seq<u8>, m: NetworkMessage, now: i64) -> Option<bool> {
    match rfc3339_seconds(m.timestamp@) {
        None => None,
        Some(t) => Some(now - t <= MESSAGE_TIMEOUT_SECS && m.hmac@ == expected_tag(key, m)),
    }
}

proof fn lemma_xor_or(acc: u8, a: u8, b: u8)
    ensures
        (acc | (a ^ b)) == 0 <==> (acc == 0 && a == b),
{
    assert((acc | (a ^ b)) == 0 <==> (acc == 0 && a == b)) by (bit_vector);
}

/// Compares two byte strings in time that depends only on their length.
pub fn constant_time_eq(a: &[u8], b: &[u8]) -> (r: bool)
    ensures
        r == (a@ == b@),
{
    if a.len() != b.len() {
        return false;
    }
    let mut acc: u8 = 0;
    let mut i: usize = 0;
    while i < a.len()
        invariant
            a@.len() == b@.len(),
            i <= a@.len(),
            (acc == 0) == (forall|m: int| 0 <= m < i ==> a@[m] == b@[m]),
        decreases a@.len() - i,
    {
        proof {
            lemma_xor_or(acc, a@[i as int], b@[i as int]);
        }
        acc = acc | (a[i] ^ b[i]);
        i = i + 1;
    }
    if acc == 0 {
        assert(a@ =~= b@);
    }
    acc == 0
}

/// Whether the text of `a` is that of `b`, compared byte by byte in time
/// that depends only on their length.
pub fn constant_time_str_eq(a: &str, b: &str) -> (r: bool)
    ensures
        r == (a@ == b@),
{
    let r = constant_time_eq(a.as_bytes(), b.as_bytes());
    proof {
        vstd::utf8::encode_utf8_decode_utf8(a@);
        vstd::utf8::encode_utf8_decode_utf8(b@);
    }
    r
}

/// Checks a message at `now` (seconds): it is authentic when its
/// timestamp parses, it is at most five minutes old, and its HMAC is the
/// one its content calls for; anything else gives `false`.
pub fn verify_message_authentication(key: &[u8], message: &NetworkMessage, now: i64) -> (r: bool)
    ensures
        r == (authentic_at(key@, *message, now) == Some(true)),
{
    let t = match parse_rfc3339(message.timestamp.as_str()) {
        Some(t) => t,
        None => {
            return false;
        },
    };
    let age: i128 = (now as i128) - (t as i128);
    if age > MESSAGE_TIMEOUT_SECS as i128 {
        return false;
    }
    let expected = compute_tag(key, message);
    constant_time_str_eq(message.hmac.as_str(), expected.as_str())
}

/// The messages one IP has sent in its current window.
#[derive(Debug, Clone, Copy, PartialEq, Eq, Structural)]
pub struct MessageCount {
    pub count: u32,
    pub window_start: u64,
}

impl Stamped for MessageCount {
    open spec fn stamp_of(&self) -> u64 {
        self.window_start
    }

    fn stamp(&self) -> (r: u64) {
        self.window_start
    }
}

/// The bindings of `m` still inside a window of `window` seconds at `now`.
pub open spec fn live<V: Stamped>(m: Map<Seq<char>, V>, now: u64, window: u64) -> Map<Seq<char>, V> {
    m.restrict(m.dom().filter(|k: Seq<char>| fresh(now, m[k].stamp_of(), window)))
}

/// One message from `ip` at `now`: windows that have run out are dropped;
/// an IP without a window opens one; one that has sent its sixty in this
/// window is refused; otherwise its count goes up by one. The new counts,
/// and whether the message is accepted.
pub open spec fn rate_step(m: Map<Seq<char>, MessageCount>, ip: Seq<char>, now: u64) -> (Map<
    Seq<char>,
    MessageCount,
>, bool) {
    let l = live(m, now, RATE_LIMIT_WINDOW_SECS);
    if !l.contains_key(ip) {
        (l.insert(ip, MessageCount { count: 1, window_start: now }), true)
    } else if l[ip].count >= MAX_MESSAGES_PER_MINUTE {
        (l, false)
    } else {
        (
            l.insert(
                ip,
                MessageCount { count: (l[ip].count + 1) as u32, window_start: l[ip].window_start },
            ),
            true,
        )
    }
}

/// Per-IP message counts over sliding 60-second windows.
pub struct RateLimiter {
    pub message_counts: KeyedTable<MessageCount>,
}

impl RateLimiter {
    pub open spec fn wf(&self) -> bool {
        self.message_counts.wf()
    }

    pub fn new() -> (r: RateLimiter)
        ensures
            r.wf(),
            r.message_counts@ == Map::<Seq<char>, MessageCount>::empty(),
    {
        RateLimiter { message_counts: KeyedTable::new() }
    }

    /// Counts one message from `peer_ip` at `now` (seconds); refused once
    /// the IP has sent sixty in its current window.
    pub fn check_rate_limit(&mut self, peer_ip: &str, now: u64) -> (r: Result<(), String>)
        requires
            old(self).wf(),
        ensures
            final(self).wf(),
            (final(self).message_counts@, r is Ok) == rate_step(
                old(self).message_counts@,
                peer_ip@,
                now,
            ),
            r matches Err(e) ==> e@ == "Rate limit exceeded for IP: "@ + peer_ip@,
    {
        self.message_counts.retain_fresh(now, RATE_LIMIT_WINDOW_SECS);
        let key = owned(peer_ip);
        match self.message_counts.get(&key) {
            None => {
                self.message_counts.insert(&key, MessageCount { count: 1, window_start: now });
                Ok(())
            },
            Some(c) => {
                if c.count >= MAX_MESSAGES_PER_MINUTE {
                    Err(concat("Rate limit exceeded for IP: ", peer_ip))
                } else {
                    self.message_counts.insert(
                        &key,
                        MessageCount { count: c.count + 1, window_start: c.window_start },
                    );
                    Ok(())
                }
            },
        }
    }
}

/// An IP whose current window already holds sixty messages has its next
/// message in that window refused; once sixty seconds have passed since
/// the window opened, its next message is accepted and opens a new window.
pub proof fn lemma_rate_limit_window(m: Map<Seq<char>, MessageCount>, ip: Seq<char>, now: u64, later: u64)
    requires
        m.contains_key(ip),
        m[ip].count == MAX_MESSAGES_PER_MINUTE,
        fresh(now, m[ip].window_start, RATE_LIMIT_WINDOW_SECS),
        elapsed(later, m[ip].window_start) >= RATE_LIMIT_WINDOW_SECS,
    ensures
        rate_step(m, ip, now).1 == false,
        rate_step(m, ip, later).1 == true,
        rate_step(m, ip, later).0[ip] == (MessageCount { count: 1, window_start: later }),
{
    assert(live(m, now, RATE_LIMIT_WINDOW_SECS).contains_key(ip));
    assert(!live(m, later, RATE_LIMIT_WINDOW_SECS).contains_key(ip));
}

/// A message accepted inside a window adds one to the IP's count and keeps
/// the window's start.
pub proof fn lemma_rate_limit_counts(m: Map<Seq<char>, MessageCount>, ip: Seq<char>, now: u64)
    requires
        m.contains_key(ip),
        m[ip].count < MAX_MESSAGES_PER_MINUTE,
        fresh(now, m[ip].window_start, RATE_LIMIT_WINDOW_SECS),
    ensures
        rate_step(m, ip, now).1 == true,
        rate_step(m, ip, now).0[ip] == (MessageCount {
            count: (m[ip].count + 1) as u32,
            window_start: m[ip].window_start,
        }),
{
    assert(live(m, now, RATE_LIMIT_WINDOW_SECS).contains_key(ip));
}

/// The connections open from `ip`.
pub open spec fn connections(m: Map<Seq<char>, u32>, ip: Seq<char>) -> u32 {
    if m.contains_key(ip) {
        m[ip]
    } else {
        0
    }
}

/// Opening a connection from `ip`: refused at the cap, else counted.
pub open spec fn acquire_step(m: Map<Seq<char>, u32>, ip: Seq<char>) -> (Map<Seq<char>, u32>, bool) {
    if connections(m, ip) >= MAX_CONNECTIONS_PER_IP {
        (m, false)
    } else {
        (m.insert(ip, (connections(m, ip) + 1) as u32), true)
    }
}

/// Closing a connection from `ip`: its count goes down by one, and the IP
/// is forgotten at zero.
pub open spec fn release_step(m: Map<Seq<char>, u32>, ip: Seq<char>) -> Map<Seq<char>, u32> {
    if !m.contains_key(ip) {
        m
    } else {
        let c: u32 = if m[ip] > 0 {
            (m[ip] - 1) as u32
        } else {
            0
        };
        if c == 0 {
            m.remove(ip)
        } else {
            m.insert(ip, c)
        }
    }
}

/// Open connections per IP.
pub struct ConnectionTracker {
    pub counts: KeyedTable<u32>,
}

impl ConnectionTracker {
    pub open spec fn wf(&self) -> bool {
        self.counts.wf()
    }

    pub fn new() -> (r: ConnectionTracker)
        ensures
            r.wf(),
            r.counts@ == Map::<Seq<char>, u32>::empty(),
    {
        ConnectionTracker { counts: KeyedTable::new() }
    }

    /// Admits one more connection from `peer_ip`, or refuses it when five
    /// are open.
    pub fn check_connection_limit(&mut self, peer_ip: &str) -> (r: Result<(), String>)
        requires
            old(self).wf(),
        ensures
            final(self).wf(),
            (final(self).counts@, r is Ok) == acquire_step(old(self).counts@, peer_ip@),
            r matches Err(e) ==> e@ == "Connection limit exceeded for IP: "@ + peer_ip@,
    {
        let key = owned(peer_ip);
        let current = match self.counts.get(&key) {
            Some(c) => c,
            None => 0,
        };
        if current >= MAX_CONNECTIONS_PER_IP {
            return Err(concat("Connection limit exceeded for IP: ", peer_ip));
        }
        self.counts.insert(&key, current + 1);
        Ok(())
    }

    /// Records that a connection from `peer_ip` has closed.
    pub fn release_connection(&mut self, peer_ip: &str)
        requires
            old(self).wf(),
        ensures
            final(self).wf(),
            final(self).counts@ == release_step(old(self).counts@, peer_ip@),
    {
        let key = owned(peer_ip);
        match self.counts.get(&key) {
            Some(c) => {
                let next = if c > 0 {
                    c - 1
                } else {
                    0
                };
                if next == 0 {
                    self.counts.remove(&key);
                } else {
                    self.counts.insert(&key, next);
                }
            },
            None => {},
        }
    }
}

/// With five connections open from an IP a sixth is refused; once one of
/// them closes, a new one is admitted.
pub proof fn lemma_connection_cap(m: Map<Seq<char>, u32>, ip: Seq<char>)
    requires
        connections(m, ip) == MAX_CONNECTIONS_PER_IP,
    ensures
        acquire_step(m, ip).1 == false,
        acquire_step(release_step(m, ip), ip).1 == true,
{
}

/// Five connections from a new IP are admitted one after another.
pub proof fn lemma_five_connections_admitted(m: Map<Seq<char>, u32>, ip: Seq<char>)
    requires
        connections(m, ip) == 0,
    ensures
        ({
            let m1 = acquire_step(m, ip);
            let m2 = acquire_step(m1.0, ip);
            let m3 = acquire_step(m2.0, ip);
            let m4 = acquire_step(m3.0, ip);
            let m5 = acquire_step(m4.0, ip);
            &&& m1.1 && m2.1 && m3.1 && m4.1 && m5.1
            &&& !acquire_step(m5.0, ip).1
        }),
{
}

/// The nonce step of replay protection at `now`: nonces older than five
/// minutes are forgotten; a nonce still remembered is refused; a new one
/// is remembered with the time it was seen.
pub open spec fn replay_step(m: Map<Seq<char>, u64>, nonce: Seq<char>, now: u64) -> (Map<
    Seq<char>,
    u64,
>, bool) {
    let l = live(m, now, MESSAGE_TIMEOUT_SECS);
    if l.contains_key(nonce) {
        (l, false)
    } else {
        (l.insert(nonce, now), true)
    }
}

/// Nonces seen in the last five minutes, with the time each was seen.
pub struct ReplayCache {
    pub nonces: KeyedTable<u64>,
    /// How many replayed messages were refused (saturating).
    pub rejected: u64,
}

impl ReplayCache {
    pub open spec fn wf(&self) -> bool {
        self.nonces.wf()
    }

    pub fn new() -> (r: ReplayCache)
        ensures
            r.wf(),
            r.nonces@ == Map::<Seq<char>, u64>::empty(),
            r.rejected == 0,
    {
        ReplayCache { nonces: KeyedTable::new(), rejected: 0 }
    }

    /// Whether `nonce`, seen at `now` (seconds), is new; a new nonce is
    /// remembered.
    pub fn check_replay_protection(&mut self, nonce: &str, now: u64) -> (r: bool)
        requires
            old(self).wf(),
        ensures
            final(self).wf(),
            (final(self).nonces@, r) == replay_step(old(self).nonces@, nonce@, now),
            final(self).rejected == if r {
                old(self).rejected
            } else if old(self).rejected < u64::MAX {
                (old(self).rejected + 1) as u64
            } else {
                u64::MAX
            },
    {
        self.nonces.retain_fresh(now, MESSAGE_TIMEOUT_SECS);
        let key = owned(nonce);
        if self.nonces.get(&key).is_some() {
            self.rejected = self.rejected.saturating_add(1);
            return false;
        }
        self.nonces.insert(&key, now);
        true
    }
}

/// A nonce accepted at `t` is refused when it comes again less than five
/// minutes later, and accepted again once five minutes have passed.
pub proof fn lemma_replay_window(m: Map<Seq<char>, u64>, nonce: Seq<char>, t: u64, t2: u64)
    requires
        replay_step(m, nonce, t).1,
    ensures
        elapsed(t2, t) < MESSAGE_TIMEOUT_SECS ==> !replay_step(replay_step(m, nonce, t).0, nonce, t2).1,
        elapsed(t2, t) >= MESSAGE_TIMEOUT_SECS ==> replay_step(replay_step(m, nonce, t).0, nonce, t2).1,
{
    let m1 = replay_step(m, nonce, t).0;
    assert(m1.contains_key(nonce) && m1[nonce] == t);
    if elapsed(t2, t) < MESSAGE_TIMEOUT_SECS {
        assert(live(m1, t2, MESSAGE_TIMEOUT_SECS).contains_key(nonce));
    } else {
        assert(!live(m1, t2, MESSAGE_TIMEOUT_SECS).contains_key(nonce));
    }
}

/// What becomes of an inbound message.
#[derive(Debug, Clone, Copy, PartialEq, Eq, Structural)]
pub enum Verdict {
    Accepted,
    RateLimited,
    Malformed(EnvelopeError),
    NotAuthentic,
    Replayed,
}

/// Screens a message from `peer_ip` at `now` (seconds), in the order the
/// protocol fixes: the IP's rate limit, the envelope's form, the HMAC and
/// age, then the nonce. A message stopped by one check leaves the later
/// ones untouched; only an accepted message's nonce is remembered.
pub fn screen_message(
    rate_limiter: &mut RateLimiter,
    replay: &mut ReplayCache,
    key: &[u8],
    peer_ip: &str,
    message: &NetworkMessage,
    now: u64,
) -> (r: Verdict)
    requires
        old(rate_limiter).wf(),
        old(replay).wf(),
        now <= i64::MAX,
    ensures
        final(rate_limiter).wf(),
        final(replay).wf(),
        final(rate_limiter).message_counts@ == rate_step(old(rate_limiter).message_counts@, peer_ip@, now).0,
        final(replay).rejected == if r == Verdict::Replayed {
            if old(replay).rejected < u64::MAX { (old(replay).rejected + 1) as u64 } else { u64::MAX }
        } else {
            old(replay).rejected
        },
        !rate_step(old(rate_limiter).message_counts@, peer_ip@, now).1 ==> r == Verdict::RateLimited
            && final(replay).nonces@ == old(replay).nonces@,
        rate_step(old(rate_limiter).message_counts@, peer_ip@, now).1 ==> match envelope_defect(*message) {
            Some(e) => r == Verdict::Malformed(e) && final(replay).nonces@ == old(replay).nonces@,
            None => if authentic_at(key@, *message, now as i64) != Some(true) {
                r == Verdict::NotAuthentic && final(replay).nonces@ == old(replay).nonces@
            } else {
                final(replay).nonces@ == replay_step(old(replay).nonces@, message.nonce@, now).0
                    && r == if replay_step(old(replay).nonces@, message.nonce@, now).1 {
                    Verdict::Accepted
                } else {
                    Verdict::Replayed
                }
            },
        },
{
    if rate_limiter.check_rate_limit(peer_ip, now).is_err() {
        return Verdict::RateLimited;
    }
    match validate_message(message) {
        Err(e) => {
            return Verdict::Malformed(e);
        },
        Ok(()) => {},
    }
    if !verify_message_authentication(key, message, now as i64) {
        return Verdict::NotAuthentic;
    }
    if replay.check_replay_protection(message.nonce.as_str(), now) {
        Verdict::Accepted
    } else {
        Verdict::Replayed
    }
}

} // verus!
