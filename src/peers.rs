//! The peer table, the discovery protocol's records, and what the node
//! does with each inbound message.

use vstd::prelude::*;
use crate::store::{first_with, lemma_first_with_found, lemma_first_with_prefix, lemma_first_with_step};
use crate::text::{chars_of, owned, push_char, str_eq};
use crate::transport::{MessageType, NetworkMessage};

verus! {

/// A known peer.
#[derive(Debug, Clone)]
pub struct PeerInfo {
    pub peer_id: String,
    pub address: String,
    pub port: u16,
    pub last_seen: String,
    pub did: Option<String>,
}

impl PeerInfo {
    pub fn copy(&self) -> (r: PeerInfo)
        ensures
            r == *self,
    {
        PeerInfo {
            peer_id: self.peer_id.clone(),
            address: self.address.clone(),
            port: self.port,
            last_seen: self.last_seen.clone(),
            did: crate::memory::copy_opt(&self.did),
        }
    }
}

/// A peer's periodic announcement.
#[derive(Debug, Clone)]
pub struct DiscoveryBeacon {
    pub peer_id: String,
    pub did: Option<String>,
    pub port: u16,
    pub capabilities: Vec<String>,
    pub version: String,
    pub timestamp: String,
}

/// A request for a peer's beacon and peer list.
#[derive(Debug, Clone)]
pub struct DiscoveryRequest {
    pub requesting_peer_id: String,
    pub timestamp: String,
}

/// A peer's list of the peers it knows.
#[derive(Debug, Clone)]
pub struct DiscoveryResponse {
    pub responding_peer_id: String,
    pub peers: Vec<PeerInfo>,
    pub timestamp: String,
}

/// The position of the entry for peer `id`.
pub open spec fn peer_pos(s: Seq<PeerInfo>, id: Seq<char>) -> Option<int> {
    first_with(s, |p: PeerInfo| p.peer_id@, id)
}

/// `s` with `info` in place of the entry for its peer, or added at the end.
pub open spec fn upserted(s: Seq<PeerInfo>, info: PeerInfo) -> Seq<PeerInfo> {
    match peer_pos(s, info.peer_id@) {
        Some(i) => s.update(i, info),
        None => s.push(info),
    }
}

/// The peers a node knows, by peer id.
pub struct PeerTable {
    pub peers: Vec<PeerInfo>,
}

impl PeerTable {
    pub fn new() -> (r: PeerTable)
        ensures
            r.peers@.len() == 0,
    {
        PeerTable { peers: Vec::new() }
    }

    fn find(&self, id: &str) -> (r: Option<usize>)
        ensures
            match r {
                Some(i) => peer_pos(self.peers@, id@) == Some(i as int) && i < self.peers@.len(),
                None => peer_pos(self.peers@, id@) is None,
            },
    {
        let ghost key = |p: PeerInfo| p.peer_id@;
        let mut i: usize = 0;
        while i < self.peers.len()
            invariant
                i <= self.peers@.len(),
                key == (|p: PeerInfo| p.peer_id@),
                first_with(self.peers@.subrange(0, i as int), key, id@) is None,
            decreases self.peers@.len() - i,
        {
            proof {
                lemma_first_with_step(self.peers@, key, id@, i as int);
            }
            if str_eq(self.peers[i].peer_id.as_str(), id) {
                proof {
                    lemma_first_with_prefix(self.peers@, key, id@, i + 1);
                }
                return Some(i);
            }
            i = i + 1;
        }
        proof {
            assert(self.peers@.subrange(0, self.peers@.len() as int) =~= self.peers@);
        }
        None
    }

    /// Records `info`, replacing what was known of its peer.
    pub fn upsert(&mut self, info: PeerInfo)
        ensures
            final(self).peers@ == upserted(old(self).peers@, info),
    {
        match self.find(info.peer_id.as_str()) {
            Some(i) => self.peers.set(i, info),
            None => self.peers.push(info),
        }
    }

    /// What is known of peer `peer_id`.
    pub fn get(&self, peer_id: &str) -> (r: Option<PeerInfo>)
        ensures
            match peer_pos(self.peers@, peer_id@) {
                Some(i) => r == Some(self.peers@[i]),
                None => r is None,
            },
    {
        match self.find(peer_id) {
            Some(i) => Some(self.peers[i].copy()),
            None => None,
        }
    }

    /// Notes that peer `peer_id` was heard from at `now`; an unknown peer
    /// is left unknown.
    pub fn touch(&mut self, peer_id: &str, now: String)
        ensures
            match peer_pos(old(self).peers@, peer_id@) {
                Some(i) => final(self).peers@.len() == old(self).peers@.len() && final(self).peers@[i].last_seen == now
                    && final(self).peers@[i].peer_id == old(self).peers@[i].peer_id
                    && forall|j: int| 0 <= j < old(self).peers@.len() && j != i ==> final(self).peers@[j] == old(self).peers@[j],
                None => final(self).peers == old(self).peers,
            },
    {
        match self.find(peer_id) {
            Some(i) => {
                let mut p = self.peers[i].copy();
                p.last_seen = now;
                self.peers.set(i, p);
            },
            None => {},
        }
    }
}

/// The part of `addr` before its first `:`, or all of it.
pub open spec fn host_of(addr: Seq<char>) -> Seq<char> {
    if exists|i: int| 0 <= i < addr.len() && addr[i] == ':' {
        addr.subrange(0, choose|i: int| 0 <= i < addr.len() && addr[i] == ':' && forall|j: int| 0 <= j < i ==> addr[j] != ':')
    } else {
        addr
    }
}

/// The IP part of a `host:port` address.
pub fn host_part(addr: &str) -> (r: String)
    ensures
        r@ == host_of(addr@),
{
    let cs = chars_of(addr);
    let mut out = String::new();
    let mut i: usize = 0;
    while i < cs.len()
        invariant
            cs@ == addr@,
            i <= cs@.len(),
            out@ == addr@.subrange(0, i as int),
            forall|j: int| 0 <= j < i ==> addr@[j] != ':',
        decreases cs@.len() - i,
    {
        if cs[i] == ':' {
            proof {
                let k = choose|k: int| 0 <= k < addr@.len() && addr@[k] == ':' && forall|j: int| 0 <= j < k ==> addr@[j] != ':';
                if k < i {
                } else if k > i {
                    assert(addr@[i as int] == ':');
                }
                assert(k == i);
            }
            return out;
        }
        push_char(&mut out, cs[i]);
        i = i + 1;
        assert(out@ =~= addr@.subrange(0, i as int));
    }
    assert(addr@.subrange(0, addr@.len() as int) =~= addr@);
    out
}

/// Records the sender of `beacon`, heard from `peer_addr` at `now`, at
/// the port it announces.
pub fn handle_discovery_beacon(table: &mut PeerTable, beacon: &DiscoveryBeacon, peer_addr: &str, now: String)
    ensures
        final(table).peers@ == upserted(
            old(table).peers@,
            PeerInfo {
                peer_id: beacon.peer_id,
                address: final(table).peers@[peer_pos(final(table).peers@, beacon.peer_id@)->0].address,
                port: beacon.port,
                last_seen: now,
                did: beacon.did,
            },
        ),
        peer_pos(final(table).peers@, beacon.peer_id@) matches Some(i) && final(table).peers@[i].address@
            == host_of(peer_addr@) && final(table).peers@[i].port == beacon.port && final(table).peers@[i].last_seen
            == now,
{
    let info = PeerInfo {
        peer_id: beacon.peer_id.clone(),
        address: host_part(peer_addr),
        port: beacon.port,
        last_seen: now,
        did: crate::memory::copy_opt(&beacon.did),
    };
    let ghost before = table.peers@;
    let ghost inf = info;
    table.upsert(info);
    proof {
        let s = table.peers@;
        match peer_pos(before, inf.peer_id@) {
            Some(i) => {
                lemma_first_with_found(before, |p: PeerInfo| p.peer_id@, inf.peer_id@);
                lemma_first_with_bounds_public(before, inf.peer_id@);
                assert(peer_pos(s, inf.peer_id@) == Some(i)) by {
                    lemma_update_keeps_pos(before, i, inf);
                }
            },
            None => {
                lemma_push_pos(before, inf);
            },
        }
    }
}

proof fn lemma_first_with_bounds_public(s: Seq<PeerInfo>, id: Seq<char>)
    ensures
        peer_pos(s, id) matches Some(i) ==> forall|j: int| 0 <= j < i ==> s[j].peer_id@ != id,
{
    crate::store::lemma_first_with_bounds(s, |p: PeerInfo| p.peer_id@, id);
}

proof fn lemma_update_keeps_pos(s: Seq<PeerInfo>, i: int, info: PeerInfo)
    requires
        peer_pos(s, info.peer_id@) == Some(i),
        0 <= i < s.len(),
        forall|j: int| 0 <= j < i ==> s[j].peer_id@ != info.peer_id@,
    ensures
        peer_pos(s.update(i, info), info.peer_id@) == Some(i),
{
    let t = s.update(i, info);
    let key = |p: PeerInfo| p.peer_id@;
    assert forall|j: int| 0 <= j <= i implies first_with(t.subrange(0, j), key, info.peer_id@) is None by {
        lemma_none_prefix(t, j, info.peer_id@);
    }
    lemma_first_with_step(t, key, info.peer_id@, i);
    lemma_first_with_prefix(t, key, info.peer_id@, i + 1);
}

proof fn lemma_none_prefix(t: Seq<PeerInfo>, j: int, id: Seq<char>)
    requires
        0 <= j <= t.len(),
        forall|k: int| 0 <= k < j ==> t[k].peer_id@ != id,
    ensures
        first_with(t.subrange(0, j), |p: PeerInfo| p.peer_id@, id) is None,
    decreases j,
{
    if j > 0 {
        assert(t.subrange(0, j).drop_last() =~= t.subrange(0, j - 1));
        lemma_none_prefix(t, j - 1, id);
    }
}

proof fn lemma_push_pos(s: Seq<PeerInfo>, info: PeerInfo)
    requires
        peer_pos(s, info.peer_id@) is None,
    ensures
        peer_pos(s.push(info), info.peer_id@) == Some(s.len() as int),
{
    assert(s.push(info).drop_last() =~= s);
}

/// What the node does with an authenticated inbound message.
pub enum Action {
    /// Nothing more.
    Nothing,
    /// Check the signed memory in the payload and store it when it verifies.
    VerifyAndStore(String),
    /// Send the most recent stored memories, at most this many, to the peer.
    SendRecentMemories(PeerInfo, usize),
    /// Send the peer table to the peer.
    SendPeers(PeerInfo),
}

/// How many recent memories a memory request is answered with.
pub const RECENT_MEMORIES: usize = 10;

/// Handles an authenticated message from `peer_addr` at `now`: a handshake
/// records its sender; a ping refreshes the sender's last-seen time; a
/// memory sync hands its payload on for checking and storing; a memory
/// request or peer discovery from a known peer is answered; a pong is an
/// acknowledgement.
pub fn process_message(table: &mut PeerTable, message: &NetworkMessage, peer_addr: &str, now: String) -> (r: Action)
    ensures
        message.message_type == MessageType::Handshake ==> r is Nothing && final(table).peers@ == upserted(
            old(table).peers@,
            PeerInfo { peer_id: message.from_peer, address: final(table).peers@[peer_pos(final(table).peers@, message.from_peer@)->0].address, port: 0, last_seen: now, did: None },
        ),
        message.message_type == MessageType::MemorySync ==> (r matches Action::VerifyAndStore(p) && p@ == message.payload@)
            && final(table).peers == old(table).peers,
        message.message_type == MessageType::MemoryRequest ==> final(table).peers == old(table).peers && match peer_pos(old(table).peers@, message.from_peer@) {
            Some(i) => r matches Action::SendRecentMemories(p, n) && p == old(table).peers@[i] && n == RECENT_MEMORIES,
            None => r is Nothing,
        },
        message.message_type == MessageType::PeerDiscovery ==> final(table).peers == old(table).peers && match peer_pos(old(table).peers@, message.from_peer@) {
            Some(i) => r matches Action::SendPeers(p) && p == old(table).peers@[i],
            None => r is Nothing,
        },
        message.message_type == MessageType::Pong ==> r is Nothing && final(table).peers == old(table).peers,
        message.message_type == MessageType::Ping ==> r is Nothing && match peer_pos(old(table).peers@, message.from_peer@) {
            Some(i) => final(table).peers@.len() == old(table).peers@.len() && final(table).peers@[i].last_seen == now
                && final(table).peers@[i].peer_id == old(table).peers@[i].peer_id
                && forall|j: int| 0 <= j < old(table).peers@.len() && j != i ==> final(table).peers@[j] == old(table).peers@[j],
            None => final(table).peers == old(table).peers,
        },
        message.message_type == MessageType::Handshake ==> (peer_pos(final(table).peers@, message.from_peer@) matches Some(i)
            && final(table).peers@[i].address@ == peer_addr@),
{
    match message.message_type {
        MessageType::Handshake => {
            let info = PeerInfo {
                peer_id: message.from_peer.clone(),
                address: owned(peer_addr),
                port: 0,
                last_seen: now,
                did: None,
            };
            let ghost before = table.peers@;
            let ghost inf = info;
            table.upsert(info);
            proof {
                match peer_pos(before, inf.peer_id@) {
                    Some(i) => {
                        lemma_first_with_found(before, |p: PeerInfo| p.peer_id@, inf.peer_id@);
                        lemma_first_with_bounds_public(before, inf.peer_id@);
                        lemma_update_keeps_pos(before, i, inf);
                    },
                    None => {
                        lemma_push_pos(before, inf);
                    },
                }
            }
            Action::Nothing
        },
        MessageType::MemorySync => Action::VerifyAndStore(message.payload.clone()),
        MessageType::MemoryRequest => match table.get(message.from_peer.as_str()) {
            Some(p) => Action::SendRecentMemories(p, RECENT_MEMORIES),
            None => Action::Nothing,
        },
        MessageType::PeerDiscovery => match table.get(message.from_peer.as_str()) {
            Some(p) => Action::SendPeers(p),
            None => Action::Nothing,
        },
        MessageType::Ping => {
            table.touch(message.from_peer.as_str(), now);
            Action::Nothing
        },
        MessageType::Pong => Action::Nothing,
    }
}

/// This node's beacon.
pub fn make_beacon(local_peer_id: &String, did: &Option<String>, port: u16, capabilities: &Vec<String>, now: String) -> (r: DiscoveryBeacon)
    ensures
        r.peer_id == *local_peer_id,
        r.did == *did,
        r.port == port,
        r.capabilities@ == capabilities@,
        r.version@ == "0.1.0"@,
        r.timestamp == now,
{
    DiscoveryBeacon {
        peer_id: local_peer_id.clone(),
        did: crate::memory::copy_opt(did),
        port,
        capabilities: crate::text::copy_texts(capabilities),
        version: owned("0.1.0"),
        timestamp: now,
    }
}

/// The capabilities every node announces.
pub fn default_capabilities() -> (r: Vec<String>)
    ensures
        r@.len() == 3,
        r@[0]@ == "memory-sync"@,
        r@[1]@ == "peer-discovery"@,
        r@[2]@ == "identity-verification"@,
{
    vec![owned("memory-sync"), owned("peer-discovery"), owned("identity-verification")]
}

/// Takes a memory received from a peer: it is stored only when the
/// identity in use verifies it (content hash and signature); the result
/// says whether it was stored. A store refusal (its id is stored already)
/// is reported as not stored.
pub fn accept_memory(
    protocol: &crate::identity::OcmProtocol,
    store: &mut crate::store::MemoryStore,
    memory: crate::memory::SignedMemory,
) -> (r: bool)
    requires
        old(store).wf(),
    ensures
        final(store).wf(),
        r <==> protocol.verify_federated_memory_spec(memory) == Ok::<bool, crate::identity::CryptoError>(true)
            && first_with(old(store).memories@, |m: crate::memory::SignedMemory| m.id@, memory.id@) is None,
        r ==> final(store).memories@ == old(store).memories@.push(memory),
        !r ==> final(store).memories@ == old(store).memories@,
        final(store).tokens@ == old(store).tokens@,
        final(store).proxies@ == old(store).proxies@,
{
    match protocol.verify_federated_memory(&memory) {
        Ok(true) => store.put_memory(memory).is_ok(),
        _ => false,
    }
}

/// The `n` most recently stored memories, newest first.
pub fn recent_memories(store: &crate::store::MemoryStore, n: usize) -> (r: Vec<crate::memory::SignedMemory>)
    ensures
        r@.len() == if n < store.memories@.len() { n as int } else { store.memories@.len() as int },
        forall|k: int| 0 <= k < r@.len() ==> #[trigger] r@[k] == store.memories@[store.memories@.len() - 1 - k],
{
    let len = store.memories.len();
    let mut out: Vec<crate::memory::SignedMemory> = Vec::new();
    let mut k: usize = 0;
    while k < n && k < len
        invariant
            len == store.memories@.len(),
            k <= len,
            k <= n,
            out@.len() == k,
            forall|q: int| 0 <= q < k ==> #[trigger] out@[q] == store.memories@[len - 1 - q],
        decreases len - k,
    {
        out.push(store.memories[len - 1 - k].copy());
        k = k + 1;
    }
    out
}

/// A datagram of the discovery protocol.
pub enum DiscoveryPacket {
    Beacon(DiscoveryBeacon),
    Request(DiscoveryRequest),
}

fn copy_peers(v: &Vec<PeerInfo>) -> (r: Vec<PeerInfo>)
    ensures
        r@ == v@,
{
    let mut out: Vec<PeerInfo> = Vec::new();
    let mut i: usize = 0;
    while i < v.len()
        invariant
            i <= v@.len(),
            out@ == v@.subrange(0, i as int),
        decreases v@.len() - i,
    {
        out.push(v[i].copy());
        i = i + 1;
        assert(out@ =~= v@.subrange(0, i as int));
    }
    assert(v@.subrange(0, v@.len() as int) =~= v@);
    out
}

/// Handles a discovery datagram from `from_addr` at `now`: a beacon
/// records its sender; a request is answered with this node's beacon and
/// the peers it knows.
pub fn handle_discovery_packet(
    table: &mut PeerTable,
    packet: &DiscoveryPacket,
    from_addr: &str,
    local_peer_id: &String,
    did: &Option<String>,
    port: u16,
    capabilities: &Vec<String>,
    now: String,
) -> (r: Option<(DiscoveryBeacon, DiscoveryResponse)>)
    ensures
        packet matches DiscoveryPacket::Beacon(b) ==> r is None && (peer_pos(final(table).peers@, b.peer_id@) matches Some(i)
            && final(table).peers@[i].address@ == host_of(from_addr@) && final(table).peers@[i].port == b.port
            && final(table).peers@[i].last_seen == now),
        packet is Request ==> final(table).peers == old(table).peers && (r matches Some(reply) && reply.0.peer_id
            == *local_peer_id && reply.0.port == port && reply.0.did == *did && reply.1.responding_peer_id
            == *local_peer_id && reply.1.peers@ == old(table).peers@ && reply.1.timestamp == now),
{
    match packet {
        DiscoveryPacket::Beacon(b) => {
            handle_discovery_beacon(table, b, from_addr, now);
            None
        },
        DiscoveryPacket::Request(_) => {
            let beacon = make_beacon(local_peer_id, did, port, capabilities, now.clone());
            let response = DiscoveryResponse {
                responding_peer_id: local_peer_id.clone(),
                peers: copy_peers(&table.peers),
                timestamp: now,
            };
            Some((beacon, response))
        },
    }
}

} // verus!
