//! Pairwise synchronisation by hash difference: what to ask a peer for,
//! what to answer, and how an answer is merged into the local state.

use vstd::prelude::*;
use crate::crdt::{CrdtManager, CrdtMemory, ConflictType};
use crate::crypto::{instant_of, parse_instant, rfc3339_of_seconds};
use crate::memory::SignedMemory;
use crate::store::{store_hashes_ok, MemoryStore};
use crate::table::KeyedTable;
use crate::text::{str_eq};

verus! {

/// A peer's request for the memories it lacks.
#[derive(Debug, Clone)]
pub struct SyncRequest {
    pub requesting_peer: String,
    pub last_sync_timestamp: Option<String>,
    pub known_memory_hashes: Vec<String>,
}

/// The answer to a sync request.
#[derive(Debug, Clone)]
pub struct SyncResponse {
    pub responding_peer: String,
    pub memories: Vec<SignedMemory>,
    pub missing_hashes: Vec<String>,
}

/// A memory version as a peer last saw it.
#[derive(Debug, Clone)]
pub struct MemoryVector {
    pub peer_id: String,
    pub memory_hash: String,
    pub timestamp: String,
    pub version: u64,
}

/// The memories whose conflicts wait for a person.
#[derive(Debug, Clone)]
pub struct ConflictSummary {
    pub total_conflicts: usize,
    pub conflicted_memory_ids: Vec<String>,
}

/// Two stored memories of one author and type whose contents differ.
#[derive(Debug, Clone)]
pub struct ConflictInfo {
    pub key: String,
    pub older_memory: SignedMemory,
    pub newer_memory: SignedMemory,
    pub conflict_type: ConflictType,
}

/// `hs` holds the text `h`.
pub open spec fn holds(hs: Seq<String>, h: Seq<char>) -> bool {
    exists|i: int| 0 <= i < hs.len() && hs[i]@ == h
}

fn contains_text(hs: &Vec<String>, h: &String) -> (r: bool)
    ensures
        r == holds(hs@, h@),
{
    let mut i: usize = 0;
    while i < hs.len()
        invariant
            i <= hs@.len(),
            forall|m: int| 0 <= m < i ==> hs@[m]@ != h@,
        decreases hs@.len() - i,
    {
        if hs[i] == *h {
            return true;
        }
        i = i + 1;
    }
    false
}

/// Some memory of `ms` has content hash `h`.
pub open spec fn has_hash(ms: Seq<SignedMemory>, h: Seq<char>) -> bool {
    exists|i: int| 0 <= i < ms.len() && ms[i].content_hash@ == h
}

fn contains_hash(ms: &Vec<SignedMemory>, h: &String) -> (r: bool)
    ensures
        r == has_hash(ms@, h@),
{
    let mut i: usize = 0;
    while i < ms.len()
        invariant
            i <= ms@.len(),
            forall|m: int| 0 <= m < i ==> ms@[m].content_hash@ != h@,
        decreases ms@.len() - i,
    {
        if ms[i].content_hash == *h {
            return true;
        }
        i = i + 1;
    }
    false
}

/// A memory stamped `ts` counts as newer than the last sync `last`: with no
/// last sync, or where either time does not parse, it does.
pub open spec fn newer_than(ts: Seq<char>, last: Option<Seq<char>>) -> bool {
    match last {
        None => true,
        Some(l) => match (instant_of(ts), instant_of(l)) {
            (Some(a), Some(b)) => a > b,
            _ => true,
        },
    }
}

fn newer(ts: &String, last: &Option<String>) -> (r: bool)
    ensures
        r == newer_than(ts@, match last {
            Some(l) => Some(l@),
            None => None,
        }),
{
    match last {
        None => true,
        Some(l) => match (parse_instant(ts.as_str()), parse_instant(l.as_str())) {
            (Some(a), Some(b)) => a > b,
            _ => true,
        },
    }
}

/// The memories a responder sends: newer than the requester's last sync
/// and with a content hash the requester does not list.
pub open spec fn to_send(ours: Seq<SignedMemory>, req: SyncRequest) -> Seq<SignedMemory> {
    ours.filter(
        |m: SignedMemory|
            newer_than(m.timestamp@, match req.last_sync_timestamp {
                Some(l) => Some(l@),
                None => None,
            }) && !holds(req.known_memory_hashes@, m.content_hash@),
    )
}

/// The hashes the requester lists that the responder lacks.
pub open spec fn missing(ours: Seq<SignedMemory>, req: SyncRequest) -> Seq<String> {
    req.known_memory_hashes@.filter(|h: String| !has_hash(ours, h@))
}

/// The answer to `request` from a node holding `memories`: the memories
/// the requester lacks, and the hashes it lists that this node lacks.
pub fn handle_sync_request(local_peer_id: &String, memories: &Vec<SignedMemory>, request: &SyncRequest) -> (r:
    SyncResponse)
    ensures
        r.responding_peer == *local_peer_id,
        r.memories@ == to_send(memories@, *request),
        r.missing_hashes@ == missing(memories@, *request),
{
    let mut out: Vec<SignedMemory> = Vec::new();
    let mut i: usize = 0;
    let ghost f = |m: SignedMemory|
        newer_than(m.timestamp@, match request.last_sync_timestamp {
            Some(l) => Some(l@),
            None => None,
        }) && !holds(request.known_memory_hashes@, m.content_hash@);
    while i < memories.len()
        invariant
            i <= memories@.len(),
            f == (|m: SignedMemory|
                newer_than(m.timestamp@, match request.last_sync_timestamp {
                    Some(l) => Some(l@),
                    None => None,
                }) && !holds(request.known_memory_hashes@, m.content_hash@)),
            out@ == memories@.subrange(0, i as int).filter(f),
        decreases memories@.len() - i,
    {
        proof {
            memories@.subrange(0, i as int).lemma_filter_push(memories@[i as int], f);
            assert(memories@.subrange(0, i as int).push(memories@[i as int]) =~= memories@.subrange(0, i + 1));
        }
        let m = &memories[i];
        if newer(&m.timestamp, &request.last_sync_timestamp) && !contains_text(
            &request.known_memory_hashes,
            &m.content_hash,
        ) {
            out.push(m.copy());
        }
        i = i + 1;
    }
    assert(memories@.subrange(0, memories@.len() as int) =~= memories@);
    let mut miss: Vec<String> = Vec::new();
    let ghost g = |h: String| !has_hash(memories@, h@);
    let known = &request.known_memory_hashes;
    let mut j: usize = 0;
    while j < known.len()
        invariant
            j <= known@.len(),
            g == (|h: String| !has_hash(memories@, h@)),
            miss@ == known@.subrange(0, j as int).filter(g),
        decreases known@.len() - j,
    {
        proof {
            known@.subrange(0, j as int).lemma_filter_push(known@[j as int], g);
            assert(known@.subrange(0, j as int).push(known@[j as int]) =~= known@.subrange(0, j + 1));
        }
        if !contains_hash(memories, &known[j]) {
            miss.push(known[j].clone());
        }
        j = j + 1;
    }
    assert(known@.subrange(0, known@.len() as int) =~= known@);
    SyncResponse { responding_peer: local_peer_id.clone(), memories: out, missing_hashes: miss }
}

/// With no earlier sync, an answer sends every memory of the responder
/// whose hash the requester does not list, asks back every listed hash the
/// responder lacks, and sends nothing the requester lists.
pub proof fn lemma_hash_diff_complete(ours: Seq<SignedMemory>, req: SyncRequest)
    requires
        req.last_sync_timestamp is None,
    ensures
        forall|i: int| 0 <= i < ours.len() && !holds(req.known_memory_hashes@, ours[i].content_hash@)
            ==> #[trigger] to_send(ours, req).contains(ours[i]),
        forall|j: int|
            0 <= j < req.known_memory_hashes@.len() && !has_hash(ours, req.known_memory_hashes@[j]@)
                ==> #[trigger] missing(ours, req).contains(req.known_memory_hashes@[j]),
        forall|k: int| 0 <= k < to_send(ours, req).len() ==> !holds(req.known_memory_hashes@, (#[trigger] to_send(ours, req)[k]).content_hash@),
{
    let f = |m: SignedMemory|
        newer_than(m.timestamp@, match req.last_sync_timestamp {
            Some(l) => Some(l@),
            None => None,
        }) && !holds(req.known_memory_hashes@, m.content_hash@);
    let g = |h: String| !has_hash(ours, h@);
    #[allow(deprecated)]
    ours.filter_lemma(f);
    #[allow(deprecated)]
    req.known_memory_hashes@.filter_lemma(g);
}

/// Per-peer synchronisation state.
pub struct SyncState {
    /// Seconds since the epoch of the last completed sync with each peer.
    pub last_sync_per_peer: KeyedTable<i64>,
    pub sync_in_progress: Vec<String>,
    pub memory_versions: KeyedTable<u64>,
}

impl SyncState {
    pub open spec fn wf(&self) -> bool {
        &&& self.last_sync_per_peer.wf()
        &&& self.memory_versions.wf()
    }

    pub fn new() -> (r: SyncState)
        ensures
            r.wf(),
            r.sync_in_progress@.len() == 0,
            r.last_sync_per_peer@ == Map::<Seq<char>, i64>::empty(),
    {
        SyncState {
            last_sync_per_peer: KeyedTable::new(),
            sync_in_progress: Vec::new(),
            memory_versions: KeyedTable::new(),
        }
    }

    /// Marks a sync with `peer_id` as running; `false`, changing nothing,
    /// when one already is.
    pub fn begin_sync(&mut self, peer_id: &String) -> (r: bool)
        requires
            old(self).wf(),
        ensures
            final(self).wf(),
            r == !holds(old(self).sync_in_progress@, peer_id@),
            holds(final(self).sync_in_progress@, peer_id@),
            forall|p: Seq<char>| p != peer_id@ ==> (holds(final(self).sync_in_progress@, p) == holds(old(self).sync_in_progress@, p)),
            final(self).last_sync_per_peer == old(self).last_sync_per_peer,
            !r ==> final(self).sync_in_progress == old(self).sync_in_progress,
            r ==> final(self).sync_in_progress@ == old(self).sync_in_progress@.push(*peer_id),
    {
        if contains_text(&self.sync_in_progress, peer_id) {
            return false;
        }
        let ghost before = self.sync_in_progress@;
        self.sync_in_progress.push(peer_id.clone());
        proof {
            assert(self.sync_in_progress@[before.len() as int]@ == peer_id@);
            assert forall|p: Seq<char>| p != peer_id@ implies (holds(self.sync_in_progress@, p) == holds(before, p)) by {
                if holds(before, p) {
                    let m = choose|m: int| 0 <= m < before.len() && before[m]@ == p;
                    assert(self.sync_in_progress@[m] == before[m]);
                }
                if holds(self.sync_in_progress@, p) {
                    let m = choose|m: int| 0 <= m < self.sync_in_progress@.len() && self.sync_in_progress@[m]@ == p;
                    assert(before[m] == self.sync_in_progress@[m]);
                }
            }
        }
        true
    }

    /// Clears the running mark of the sync with `peer_id`, whatever the
    /// sync's outcome.
    pub fn release_sync(&mut self, peer_id: &String)
        requires
            old(self).wf(),
        ensures
            final(self).wf(),
            final(self).sync_in_progress@ == old(self).sync_in_progress@.filter(|s: String| s@ != peer_id@),
            final(self).last_sync_per_peer == old(self).last_sync_per_peer,
    {
        let ghost f = |s: String| s@ != peer_id@;
        let mut kept: Vec<String> = Vec::new();
        let mut i: usize = 0;
        while i < self.sync_in_progress.len()
            invariant
                i <= self.sync_in_progress@.len(),
                f == (|s: String| s@ != peer_id@),
                kept@ == self.sync_in_progress@.subrange(0, i as int).filter(f),
            decreases self.sync_in_progress@.len() - i,
        {
            proof {
                self.sync_in_progress@.subrange(0, i as int).lemma_filter_push(self.sync_in_progress@[i as int], f);
                assert(self.sync_in_progress@.subrange(0, i as int).push(self.sync_in_progress@[i as int])
                    =~= self.sync_in_progress@.subrange(0, i + 1));
            }
            if self.sync_in_progress[i] != *peer_id {
                kept.push(self.sync_in_progress[i].clone());
            }
            i = i + 1;
        }
        assert(self.sync_in_progress@.subrange(0, self.sync_in_progress@.len() as int) =~= self.sync_in_progress@);
        self.sync_in_progress = kept;
    }

    /// Marks the sync with `peer_id` done at `now` (seconds).
    pub fn finish_sync(&mut self, peer_id: &String, now: i64)
        requires
            old(self).wf(),
        ensures
            final(self).wf(),
            final(self).sync_in_progress@ == old(self).sync_in_progress@.filter(|s: String| s@ != peer_id@),
            final(self).last_sync_per_peer@ == old(self).last_sync_per_peer@.insert(peer_id@, now),
    {
        self.last_sync_per_peer.insert(peer_id, now);
        let ghost f = |s: String| s@ != peer_id@;
        let mut kept: Vec<String> = Vec::new();
        let mut i: usize = 0;
        while i < self.sync_in_progress.len()
            invariant
                i <= self.sync_in_progress@.len(),
                f == (|s: String| s@ != peer_id@),
                kept@ == self.sync_in_progress@.subrange(0, i as int).filter(f),
            decreases self.sync_in_progress@.len() - i,
        {
            proof {
                self.sync_in_progress@.subrange(0, i as int).lemma_filter_push(self.sync_in_progress@[i as int], f);
                assert(self.sync_in_progress@.subrange(0, i as int).push(self.sync_in_progress@[i as int])
                    =~= self.sync_in_progress@.subrange(0, i + 1));
            }
            if self.sync_in_progress[i] != *peer_id {
                kept.push(self.sync_in_progress[i].clone());
            }
            i = i + 1;
        }
        assert(self.sync_in_progress@.subrange(0, self.sync_in_progress@.len() as int) =~= self.sync_in_progress@);
        self.sync_in_progress = kept;
    }
}

/// Hashes of the memories stamped after `last` (seconds), or of all
/// memories with no last sync; a timestamp that does not parse counts as after.
pub open spec fn hashes_since(ms: Seq<SignedMemory>, last: Option<i64>) -> Seq<Seq<char>>
    decreases ms.len(),
{
    if ms.len() == 0 {
        Seq::empty()
    } else {
        let rest = hashes_since(ms.drop_last(), last);
        let keep = match last {
            None => true,
            Some(t) => match instant_of(ms.last().timestamp@) {
                Some(a) => a > t * 1000000000,
                None => true,
            },
        };
        if keep {
            rest.push(ms.last().content_hash@)
        } else {
            rest
        }
    }
}

/// The request a node holding `memories` sends a peer it last synced with
/// at `last_sync` (seconds since the epoch), if ever.
pub fn build_sync_request(local_peer_id: &String, memories: &Vec<SignedMemory>, last_sync: Option<i64>) -> (r: SyncRequest)
    ensures
        r.requesting_peer == *local_peer_id,
        r.known_memory_hashes@.map_values(|h: String| h@) == hashes_since(memories@, last_sync),
        last_sync is None ==> r.last_sync_timestamp is None,
{
    let mut known: Vec<String> = Vec::new();
    let mut i: usize = 0;
    while i < memories.len()
        invariant
            i <= memories@.len(),
            known@.map_values(|h: String| h@) == hashes_since(memories@.subrange(0, i as int), last_sync),
        decreases memories@.len() - i,
    {
        let ghost before = known@;
        proof {
            assert(memories@.subrange(0, i + 1).drop_last() =~= memories@.subrange(0, i as int));
        }
        let keep = match last_sync {
            None => true,
            Some(t) => match parse_instant(memories[i].timestamp.as_str()) {
                Some(a) => a > (t as i128) * 1000000000,
                None => true,
            },
        };
        if keep {
            known.push(memories[i].content_hash.clone());
            proof {
                assert(known@.map_values(|h: String| h@) =~= before.map_values(|h: String| h@).push(memories@[i as int].content_hash@));
            }
        }
        i = i + 1;
    }
    assert(memories@.subrange(0, memories@.len() as int) =~= memories@);
    let stamp = match last_sync {
        Some(t) => if crate::crypto::MIN_RFC3339_SECS <= t && t <= crate::crypto::MAX_RFC3339_SECS {
            rfc3339_of_seconds(t)
        } else {
            None
        },
        None => None,
    };
    SyncRequest { requesting_peer: local_peer_id.clone(), last_sync_timestamp: stamp, known_memory_hashes: known }
}

/// What handling a sync response did.
#[derive(Debug)]
pub struct SyncOutcome {
    pub stored: usize,
    pub conflicts: usize,
    /// The local memories the responder asked for, in the order asked.
    pub to_send: Vec<SignedMemory>,
    /// What became of each memory of the response, in order.
    pub outcomes: Vec<Absorbed>,
}

/// What became of one memory received from a peer.
#[derive(Debug, Clone, Copy, PartialEq, Eq, Structural)]
pub enum Absorbed {
    /// Its content hash did not match its payload: neither merged nor stored.
    Dropped,
    /// Merged without conflict, and the merged memory stored.
    Stored,
    /// Merged without conflict, but the store refused the merged memory
    /// (its id is stored already) or its hash no longer matched.
    NotStored,
    /// The merge left this many conflicts for a person; nothing stored.
    Conflicted(usize),
    /// The merge failed; the memory was stored as received.
    StoredAsReceived,
    /// The merge failed and the store refused the memory as received.
    Failed,
}

/// The first memory of `ms` with content hash `h`.
pub open spec fn first_hash_pos(ms: Seq<SignedMemory>, h: Seq<char>) -> Option<int> {
    crate::store::first_with(ms, |m: SignedMemory| m.content_hash@, h)
}

/// For each hash of `hs` in order, the first memory of `ms` with that hash,
/// where there is one.
pub open spec fn wanted(ms: Seq<SignedMemory>, hs: Seq<String>) -> Seq<SignedMemory>
    decreases hs.len(),
{
    if hs.len() == 0 {
        Seq::empty()
    } else {
        let rest = wanted(ms, hs.drop_last());
        match first_hash_pos(ms, hs.last()@) {
            Some(i) => rest.push(ms[i]),
            None => rest,
        }
    }
}

/// The first memory of `ms` with content hash `h`.
fn find_by_hash(ms: &Vec<SignedMemory>, h: &String) -> (r: Option<usize>)
    ensures
        r matches Some(p) ==> first_hash_pos(ms@, h@) == Some(p as int) && p < ms@.len(),
        r is None ==> first_hash_pos(ms@, h@) is None,
{
    let ghost key = |m: SignedMemory| m.content_hash@;
    let mut i: usize = 0;
    while i < ms.len()
        invariant
            i <= ms@.len(),
            key == (|m: SignedMemory| m.content_hash@),
            crate::store::first_with(ms@.subrange(0, i as int), key, h@) is None,
        decreases ms@.len() - i,
    {
        proof {
            crate::store::lemma_first_with_step(ms@, key, h@, i as int);
        }
        if ms[i].content_hash == *h {
            proof {
                crate::store::lemma_first_with_prefix(ms@, key, h@, i + 1);
            }
            return Some(i);
        }
        i = i + 1;
    }
    proof {
        assert(ms@.subrange(0, ms@.len() as int) =~= ms@);
    }
    None
}

/// How many of `outs` stored a memory.
pub open spec fn stores_made(outs: Seq<Absorbed>) -> nat
    decreases outs.len(),
{
    if outs.len() == 0 {
        0
    } else {
        stores_made(outs.drop_last()) + if outs.last() == Absorbed::Stored || outs.last() == Absorbed::StoredAsReceived {
            1nat
        } else {
            0nat
        }
    }
}

/// Some memory of `ms` whose hash matches its payload has id `id`.
pub open spec fn matching_id(ms: Seq<SignedMemory>, id: Seq<char>) -> bool {
    exists|k: int| 0 <= k < ms.len() && (#[trigger] ms[k]).hash_matches() && ms[k].id@ == id
}

/// CRDT entries changed, or were added, only under ids of memories of
/// `ms` whose hash matches.
pub open spec fn touched_only_matching(
    old: Seq<(String, CrdtMemory)>,
    new: Seq<(String, CrdtMemory)>,
    ms: Seq<SignedMemory>,
) -> bool {
    &&& old.len() <= new.len()
    &&& forall|j: int| 0 <= j < old.len() && !matching_id(ms, old[j].0@) ==> #[trigger] new[j] == old[j]
    &&& forall|j: int| old.len() <= j < new.len() ==> matching_id(ms, (#[trigger] new[j]).0@)
}

/// The store's memories are its old ones followed by memories whose
/// content hashes match their payloads.
pub open spec fn grew_with_matching(old: Seq<SignedMemory>, new: Seq<SignedMemory>) -> bool {
    &&& old.len() <= new.len()
    &&& new.subrange(0, old.len() as int) == old
    &&& forall|k: int| old.len() <= k < new.len() ==> (#[trigger] new[k]).hash_matches()
}

/// Entries keep their ids, and none is dropped.
pub open spec fn keys_kept(old: Seq<(String, CrdtMemory)>, new: Seq<(String, CrdtMemory)>) -> bool {
    &&& old.len() <= new.len()
    &&& forall|j: int| 0 <= j < old.len() ==> #[trigger] new[j].0 == old[j].0
}

/// Takes in one memory from peer `from`: a memory whose hash does not
/// match its payload is dropped; otherwise it is merged into the CRDT
/// state, and the merged memory is stored when the merge leaves no
/// conflict and its hash matches; where the merge fails, the memory is
/// stored as received.
pub fn absorb_memory(
    manager: &mut CrdtManager,
    store: &mut MemoryStore,
    memory: &SignedMemory,
    from: &String,
) -> (r: Absorbed)
    requires
        old(manager).wf(),
        old(store).wf(),
    ensures
        final(manager).wf(),
        final(store).wf(),
        r == Absorbed::Dropped <==> !memory.hash_matches(),
        r == Absorbed::Dropped ==> *final(manager) == *old(manager) && *final(store) == *old(store),
        memory.hash_matches() ==> exists|j: int|
            0 <= j < final(manager).memories@.len() && #[trigger] final(manager).memories@[j].0@ == memory.id@,
        keys_kept(old(manager).memories@, final(manager).memories@),
        forall|j: int| 0 <= j < old(manager).memories@.len() && old(manager).memories@[j].0@ != memory.id@
            ==> #[trigger] final(manager).memories@[j] == old(manager).memories@[j],
        final(manager).memories@.len() <= old(manager).memories@.len() + 1,
        final(manager).memories@.len() == old(manager).memories@.len() + 1 ==> final(manager).memories@.last().0@ == memory.id@,
        final(manager).peer_id == old(manager).peer_id,
        grew_with_matching(old(store).memories@, final(store).memories@),
        final(store).tokens@ == old(store).tokens@,
        final(store).proxies@ == old(store).proxies@,
        r == Absorbed::Stored ==> (crate::crdt::entry_pos(final(manager).memories@, memory.id@) matches Some(j)
            && final(store).memories@ == old(store).memories@.push(final(manager).memories@[j].1.base_memory)),
        r == Absorbed::StoredAsReceived ==> final(store).memories@ == old(store).memories@.push(*memory),
        r == Absorbed::NotStored || r == Absorbed::Failed || r is Conflicted ==> final(store).memories@
            == old(store).memories@,
{
    proof {
        assert(store.memories@.subrange(0, store.memories@.len() as int) =~= store.memories@);
    }
    if !memory.verify_hash() {
        return Absorbed::Dropped;
    }
    let remote = CrdtMemory::new(memory.copy(), from.as_str());
    let ghost m0 = manager.memories@;
    let merged_result = manager.merge_memory(memory.id.as_str(), remote);
    proof {
        crate::store::lemma_first_with_found(m0, |e: (String, CrdtMemory)| e.0@, memory.id@);
    }
    match merged_result {
        Ok(found) => {
            if found.len() == 0 {
                let merged = match manager.get_memory(memory.id.as_str()) {
                    Some(state) => state.base_memory.copy(),
                    None => {
                        proof {
                            let j = choose|j: int| 0 <= j < manager.memories@.len() && #[trigger] manager.memories@[j].0@ == memory.id@;
                            crate::store::lemma_first_with_bounds(manager.memories@, |e: (String, CrdtMemory)| e.0@, memory.id@);
                        }
                        return Absorbed::NotStored;
                    },
                };
                if !merged.verify_hash() {
                    return Absorbed::NotStored;
                }
                let ghost m = merged;
                if store.put_memory(merged).is_ok() {
                    proof {
                        assert(store.memories@.subrange(0, old(store).memories@.len() as int) =~= old(store).memories@);
                        assert(store.memories@[old(store).memories@.len() as int] == m);
                    }
                    Absorbed::Stored
                } else {
                    Absorbed::NotStored
                }
            } else {
                Absorbed::Conflicted(found.len())
            }
        },
        Err(_) => {
            let ghost m = *memory;
            if store.put_memory(memory.copy()).is_ok() {
                proof {
                    assert(store.memories@.subrange(0, old(store).memories@.len() as int) =~= old(store).memories@);
                    assert(store.memories@[old(store).memories@.len() as int] == m);
                }
                Absorbed::StoredAsReceived
            } else {
                Absorbed::Failed
            }
        },
    }
}

/// Merges the memories of a peer's response at `now` (seconds), one by one
/// as `absorb_memory` does, collects the local memories the peer asked for,
/// and marks the sync with the peer done. Only memories whose content hash
/// matches their payload are stored, and each received memory whose hash
/// matches ends up with CRDT state.
pub fn handle_sync_response(
    manager: &mut CrdtManager,
    store: &mut MemoryStore,
    state: &mut SyncState,
    response: SyncResponse,
    now: i64,
) -> (r: SyncOutcome)
    requires
        old(manager).wf(),
        old(store).wf(),
        old(state).wf(),
    ensures
        final(manager).wf(),
        final(store).wf(),
        final(state).wf(),
        grew_with_matching(old(store).memories@, final(store).memories@),
        store_hashes_ok(old(store).memories@) ==> store_hashes_ok(final(store).memories@),
        forall|k: int| 0 <= k < response.memories@.len() && (#[trigger] response.memories@[k]).hash_matches()
            ==> exists|j: int| 0 <= j < final(manager).memories@.len() && final(manager).memories@[j].0@
            == response.memories@[k].id@,
        r.to_send@ == wanted(final(store).memories@, response.missing_hashes@),
        touched_only_matching(old(manager).memories@, final(manager).memories@, response.memories@),
        r.outcomes@.len() == response.memories@.len(),
        final(store).memories@.len() == old(store).memories@.len() + stores_made(r.outcomes@),
        forall|k: int| 0 <= k < response.memories@.len() ==> (#[trigger] r.outcomes@[k] == Absorbed::Dropped
            <==> !response.memories@[k].hash_matches()),
        final(state).last_sync_per_peer@ == old(state).last_sync_per_peer@.insert(response.responding_peer@, now),
        final(state).sync_in_progress@ == old(state).sync_in_progress@.filter(|s: String| s@ != response.responding_peer@),
{
    let mut stored: usize = 0;
    let mut conflict_count: usize = 0;
    let mut outcomes: Vec<Absorbed> = Vec::new();
    let mut i: usize = 0;
    proof {
        assert(store.memories@.subrange(0, store.memories@.len() as int) =~= store.memories@);
    }
    while i < response.memories.len()
        invariant
            manager.wf(),
            store.wf(),
            i <= response.memories@.len(),
            stored <= i,
            grew_with_matching(old(store).memories@, store.memories@),
            keys_kept(old(manager).memories@, manager.memories@),
            forall|k: int| 0 <= k < i && (#[trigger] response.memories@[k]).hash_matches()
                ==> exists|j: int| 0 <= j < manager.memories@.len() && manager.memories@[j].0@
                == response.memories@[k].id@,
            touched_only_matching(old(manager).memories@, manager.memories@, response.memories@.subrange(0, i as int)),
            outcomes@.len() == i,
            store.memories@.len() == old(store).memories@.len() + stores_made(outcomes@),
            forall|k: int| 0 <= k < i ==> (#[trigger] outcomes@[k] == Absorbed::Dropped
                <==> !response.memories@[k].hash_matches()),
        decreases response.memories@.len() - i,
    {
        let ghost mgr0 = manager.memories@;
        let ghost st0 = store.memories@;
        let outcome = absorb_memory(manager, store, &response.memories[i], &response.responding_peer);
        let ghost outs0 = outcomes@;
        outcomes.push(outcome);
        proof {
            assert(outcomes@.drop_last() =~= outs0);
            let mi = response.memories@[i as int];
            let pre = response.memories@.subrange(0, i as int);
            let post = response.memories@.subrange(0, i + 1);
            assert forall|id: Seq<char>| matching_id(pre, id) implies matching_id(post, id) by {
                let k = choose|k: int| 0 <= k < pre.len() && (#[trigger] pre[k]).hash_matches() && pre[k].id@ == id;
                assert(post[k] == pre[k]);
            }
            assert(mi.hash_matches() ==> matching_id(post, mi.id@)) by {
                if mi.hash_matches() {
                    assert(post[i as int] == mi);
                }
            }
            let om = old(manager).memories@;
            assert forall|j: int| 0 <= j < om.len() && !matching_id(post, om[j].0@) implies #[trigger] manager.memories@[j] == om[j] by {
                assert(!matching_id(pre, om[j].0@));
                assert(mgr0[j] == om[j]);
                if mi.hash_matches() {
                    assert(om[j].0@ != mi.id@);
                }
            }
            assert forall|j: int| om.len() <= j < manager.memories@.len() implies matching_id(post, (#[trigger] manager.memories@[j]).0@) by {
                if j < mgr0.len() {
                    assert(matching_id(pre, mgr0[j].0@));
                    assert(manager.memories@[j].0 == mgr0[j].0);
                } else {
                    assert(manager.memories@[j].0@ == mi.id@);
                }
            }
        }
        match outcome {
            Absorbed::Stored => {
                stored = stored + 1;
            },
            Absorbed::Conflicted(n) => {
                if conflict_count <= usize::MAX - n {
                    conflict_count = conflict_count + n;
                }
            },
            _ => {},
        }
        proof {
            assert forall|k: int| 0 <= k < i + 1 && (#[trigger] response.memories@[k]).hash_matches()
                implies exists|j: int| 0 <= j < manager.memories@.len() && manager.memories@[j].0@
                == response.memories@[k].id@ by {
                if k < i {
                    let j = choose|j: int| 0 <= j < mgr0.len() && mgr0[j].0@ == response.memories@[k].id@;
                    assert(manager.memories@[j].0 == mgr0[j].0);
                }
            }
            assert forall|j: int| 0 <= j < old(manager).memories@.len() implies #[trigger] manager.memories@[j].0
                == old(manager).memories@[j].0 by {
                assert(mgr0[j].0 == old(manager).memories@[j].0);
            }
            assert forall|q: int| 0 <= q < old(store).memories@.len() implies store.memories@[q] == old(store).memories@[q] by {
                assert(store.memories@.subrange(0, st0.len() as int)[q] == store.memories@[q]);
                assert(st0.subrange(0, old(store).memories@.len() as int)[q] == st0[q]);
            }
            assert(store.memories@.subrange(0, old(store).memories@.len() as int) =~= old(store).memories@);
            assert forall|k: int| old(store).memories@.len() <= k < store.memories@.len()
                implies (#[trigger] store.memories@[k]).hash_matches() by {
                if k < st0.len() {
                    assert(store.memories@.subrange(0, st0.len() as int)[k] == store.memories@[k]);
                }
            }
        }
        i = i + 1;
    }
    proof {
        if store_hashes_ok(old(store).memories@) {
            assert forall|k: int| 0 <= k < store.memories@.len() implies (#[trigger] store.memories@[k]).hash_matches() by {
                if k < old(store).memories@.len() {
                    assert(store.memories@.subrange(0, old(store).memories@.len() as int)[k] == store.memories@[k]);
                }
            }
        }
    }
    let mut send: Vec<SignedMemory> = Vec::new();
    let mut j: usize = 0;
    while j < response.missing_hashes.len()
        invariant
            j <= response.missing_hashes@.len(),
            send@ == wanted(store.memories@, response.missing_hashes@.subrange(0, j as int)),
        decreases response.missing_hashes@.len() - j,
    {
        proof {
            assert(response.missing_hashes@.subrange(0, j + 1).drop_last() =~= response.missing_hashes@.subrange(0, j as int));
        }
        match find_by_hash(&store.memories, &response.missing_hashes[j]) {
            Some(p) => {
                send.push(store.memories[p].copy());
            },
            None => {},
        }
        j = j + 1;
    }
    proof {
        assert(response.missing_hashes@.subrange(0, response.missing_hashes@.len() as int) =~= response.missing_hashes@);
    }
    proof {
        assert(response.memories@.subrange(0, response.memories@.len() as int) =~= response.memories@);
    }
    state.finish_sync(&response.responding_peer, now);
    SyncOutcome { stored, conflicts: conflict_count, to_send: send, outcomes }
}

/// The memories whose conflicts wait for a person.
pub fn get_conflict_summary(manager: &CrdtManager) -> (r: ConflictSummary)
    ensures
        r.total_conflicts == r.conflicted_memory_ids@.len(),
        r.conflicted_memory_ids@.map_values(|x: String| x@) == crate::crdt::manual_ids(manager.memories@),
{
    let ids = manager.list_conflicts();
    ConflictSummary { total_conflicts: ids.len(), conflicted_memory_ids: ids }
}

/// Two memories share an author and a type.
pub open spec fn same_group(a: SignedMemory, b: SignedMemory) -> bool {
    a.did@ == b.did@ && a.memory_type@ == b.memory_type@
}

/// The memories of `ms` in the group of `g`, stably sorted by timestamp text.
fn group_sorted(ms: &Vec<SignedMemory>, g: &SignedMemory) -> (r: Vec<SignedMemory>)
    ensures
        forall|k: int| 0 <= k < r@.len() ==> same_group(#[trigger] r@[k], *g),
        forall|k: int| 0 <= k < r@.len() - 1 ==> !crate::json::key_lt(#[trigger] r@[k + 1].timestamp@, r@[k].timestamp@),
        forall|m: int| 0 <= m < ms@.len() && same_group(#[trigger] ms@[m], *g) ==> r@.contains(ms@[m]),
        forall|k: int| 0 <= k < r@.len() ==> ms@.contains(#[trigger] r@[k]),
{
    let mut out: Vec<SignedMemory> = Vec::new();
    let mut i: usize = 0;
    while i < ms.len()
        invariant
            i <= ms@.len(),
            forall|k: int| 0 <= k < out@.len() ==> same_group(#[trigger] out@[k], *g),
            forall|k: int| 0 <= k < out@.len() ==> ms@.contains(#[trigger] out@[k]),
            forall|k: int| 0 <= k < out@.len() - 1 ==> !crate::json::key_lt(#[trigger] out@[k + 1].timestamp@, out@[k].timestamp@),
            forall|m: int| 0 <= m < i && same_group(#[trigger] ms@[m], *g) ==> out@.contains(ms@[m]),
        decreases ms@.len() - i,
    {
        let m = &ms[i];
        if str_eq(m.did.as_str(), g.did.as_str()) && str_eq(m.memory_type.as_str(), g.memory_type.as_str()) {
            // insert after every member not later than `m`
            let mut pos: usize = out.len();
            while pos > 0 && crate::json::key_less(m.timestamp.as_str(), out[pos - 1].timestamp.as_str())
                invariant
                    pos <= out@.len(),
                    forall|k: int| pos <= k < out@.len() ==> crate::json::key_lt(m.timestamp@, #[trigger] out@[k].timestamp@),
                    forall|k: int| 0 <= k < out@.len() - 1 ==> !crate::json::key_lt(#[trigger] out@[k + 1].timestamp@, out@[k].timestamp@),
                decreases pos,
            {
                pos = pos - 1;
            }
            let ghost before = out@;
            assert(pos > 0 ==> !crate::json::key_lt(m.timestamp@, before[pos - 1].timestamp@));
            assert(pos < before.len() ==> crate::json::key_lt(m.timestamp@, before[pos as int].timestamp@));
            let c = m.copy();
            out.insert(pos, c);
            proof {
                assert(out@ == before.insert(pos as int, c));
                assert forall|k: int| 0 <= k < out@.len() implies same_group(#[trigger] out@[k], *g) && ms@.contains(out@[k]) by {
                    if k < pos {
                        assert(out@[k] == before[k]);
                    } else if k > pos {
                        assert(out@[k] == before[k - 1]);
                    } else {
                        assert(ms@[i as int] == c);
                    }
                }
                assert forall|q: int| 0 <= q < i + 1 && same_group(#[trigger] ms@[q], *g) implies out@.contains(ms@[q]) by {
                    if q < i {
                        let t = choose|t: int| 0 <= t < before.len() && before[t] == ms@[q];
                        if t < pos {
                            assert(out@[t] == before[t]);
                        } else {
                            assert(out@[t + 1] == before[t]);
                        }
                    } else {
                        assert(out@[pos as int] == c);
                    }
                }
                assert forall|k: int| 0 <= k < out@.len() - 1 implies !crate::json::key_lt(#[trigger] out@[k + 1].timestamp@, out@[k].timestamp@) by {
                    if k + 1 < pos {
                        assert(out@[k] == before[k] && out@[k + 1] == before[k + 1]);
                        assert(!crate::json::key_lt(before[k + 1].timestamp@, before[k].timestamp@));
                    } else if k + 1 == pos {
                        assert(out@[k] == before[k]);
                        assert(out@[k + 1].timestamp@ == m.timestamp@);
                    } else if k == pos {
                        assert(out@[k + 1] == before[k]);
                        assert(out@[k].timestamp@ == m.timestamp@);
                        crate::json::lemma_keys_pub(m.timestamp@, before[k].timestamp@, m.timestamp@);
                    } else {
                        assert(out@[k] == before[k - 1] && out@[k + 1] == before[k]);
                        let k0 = k - 1;
                        assert(!crate::json::key_lt(before[k0 + 1].timestamp@, before[k0].timestamp@));
                        assert(k0 + 1 == k);
                    }
                }
            }
        }
        i = i + 1;
    }
    out
}

/// The conflict key of a memory's group: its DID, `:`, its type.
pub open spec fn group_key(m: SignedMemory) -> Seq<char> {
    m.did@ + ":"@ + m.memory_type@
}

/// The group of `g` holds two memories with different content hashes.
pub open spec fn group_split(ms: Seq<SignedMemory>, g: SignedMemory) -> bool {
    exists|a: int, b: int|
        0 <= a < ms.len() && 0 <= b < ms.len() && same_group(#[trigger] ms[a], g) && same_group(#[trigger] ms[b], g)
            && ms[a].content_hash@ != ms[b].content_hash@
}

/// Some conflict in `out` carries the key of `g`'s group.
pub open spec fn reported(out: Seq<ConflictInfo>, g: SignedMemory) -> bool {
    exists|k: int| 0 <= k < out.len() && (#[trigger] out[k]).key@ == group_key(g)
}

proof fn lemma_chain(s: Seq<SignedMemory>)
    requires
        forall|q: int| 0 <= q < s.len() - 1 ==> (#[trigger] s[q]).content_hash@ == s[q + 1].content_hash@,
    ensures
        forall|q: int| 0 <= q < s.len() ==> (#[trigger] s[q]).content_hash@ == s[0].content_hash@,
    decreases s.len(),
{
    if s.len() > 1 {
        let t = s.drop_last();
        assert forall|q: int| 0 <= q < t.len() - 1 implies (#[trigger] t[q]).content_hash@ == t[q + 1].content_hash@ by {
            assert(t[q] == s[q] && t[q + 1] == s[q + 1]);
        }
        lemma_chain(t);
        assert forall|q: int| 0 <= q < s.len() implies (#[trigger] s[q]).content_hash@ == s[0].content_hash@ by {
            if q < s.len() - 1 {
                assert(t[q] == s[q]);
            } else {
                let p = q - 1;
                assert(s[p].content_hash@ == s[p + 1].content_hash@);
                assert(t[p] == s[p]);
            }
        }
    }
}

/// A conflict pair of one group, in timestamp order, with different
/// contents, keyed by its group.
pub open spec fn proper_conflict(c: ConflictInfo) -> bool {
    &&& same_group(c.older_memory, c.newer_memory)
    &&& c.older_memory.content_hash@ != c.newer_memory.content_hash@
    &&& !crate::json::key_lt(c.newer_memory.timestamp@, c.older_memory.timestamp@)
    &&& c.conflict_type == ConflictType::ContentMismatch
    &&& c.key@ == group_key(c.older_memory)
}

/// The pair of `c` comes from `ms`, and no memory of `ms` in its group has a
/// timestamp strictly between the pair's: the two are neighbours in
/// timestamp order.
pub open spec fn neighbours_in(ms: Seq<SignedMemory>, c: ConflictInfo) -> bool {
    &&& ms.contains(c.older_memory)
    &&& ms.contains(c.newer_memory)
    &&& forall|m: int| 0 <= m < ms.len() && same_group(#[trigger] ms[m], c.older_memory) ==> !(crate::json::key_lt(
        c.older_memory.timestamp@,
        ms[m].timestamp@,
    ) && crate::json::key_lt(ms[m].timestamp@, c.newer_memory.timestamp@))
}

/// In a list whose neighbours never step back in time, no later entry is
/// earlier than an earlier one.
proof fn lemma_sorted_far(s: Seq<SignedMemory>, a: int, b: int)
    requires
        0 <= a <= b < s.len(),
        forall|k: int| 0 <= k < s.len() - 1 ==> !crate::json::key_lt(#[trigger] s[k + 1].timestamp@, s[k].timestamp@),
    ensures
        !crate::json::key_lt(s[b].timestamp@, s[a].timestamp@),
    decreases b - a,
{
    if a == b {
        crate::json::lemma_keys_pub(s[a].timestamp@, s[a].timestamp@, s[a].timestamp@);
    } else {
        lemma_sorted_far(s, a, b - 1);
        let p = b - 1;
        assert(!crate::json::key_lt(s[p + 1].timestamp@, s[p].timestamp@));
        crate::json::lemma_keys_pub(s[a].timestamp@, s[p].timestamp@, s[b].timestamp@);
    }
}

/// Whether a memory before position `i` is in the group of memory `i`.
fn earlier_in_group(ms: &Vec<SignedMemory>, i: usize) -> (r: bool)
    requires
        i < ms@.len(),
    ensures
        r == exists|m: int| 0 <= m < i && same_group(#[trigger] ms@[m], ms@[i as int]),
{
    let mut s: usize = 0;
    while s < i
        invariant
            i < ms@.len(),
            s <= i,
            forall|t: int| 0 <= t < s ==> !same_group(#[trigger] ms@[t], ms@[i as int]),
        decreases i - s,
    {
        if str_eq(ms[s].did.as_str(), ms[i].did.as_str()) && str_eq(ms[s].memory_type.as_str(), ms[i].memory_type.as_str()) {
            assert(same_group(ms@[s as int], ms@[i as int]));
            return true;
        }
        s = s + 1;
    }
    false
}

/// Adds to `out` the neighbours of `g`'s group, in timestamp order, whose
/// contents differ.
fn report_group(memories: &Vec<SignedMemory>, g: &SignedMemory, out: &mut Vec<ConflictInfo>)
    requires
        forall|k: int| 0 <= k < old(out)@.len() ==> proper_conflict(#[trigger] old(out)@[k]),
    ensures
        old(out)@.len() <= final(out)@.len(),
        forall|k: int| 0 <= k < old(out)@.len() ==> #[trigger] final(out)@[k] == old(out)@[k],
        forall|k: int| 0 <= k < final(out)@.len() ==> proper_conflict(#[trigger] final(out)@[k]),
        forall|k: int| old(out)@.len() <= k < final(out)@.len() ==> neighbours_in(memories@, #[trigger] final(out)@[k]),
        group_split(memories@, *g) ==> reported(final(out)@, *g),
{
    let ghost out0 = out@;
    let group = group_sorted(memories, g);
    let mut j: usize = 0;
    while group.len() > 0 && j < group.len() - 1
        invariant
            j <= group@.len(),
            forall|k: int| 0 <= k < group@.len() ==> same_group(#[trigger] group@[k], *g),
            forall|k: int| 0 <= k < group@.len() - 1 ==> !crate::json::key_lt(#[trigger] group@[k + 1].timestamp@, group@[k].timestamp@),
            forall|k: int| 0 <= k < out@.len() ==> proper_conflict(#[trigger] out@[k]),
            forall|k: int| out0.len() <= k < out@.len() ==> neighbours_in(memories@, #[trigger] out@[k]),
            forall|k: int| 0 <= k < group@.len() ==> memories@.contains(#[trigger] group@[k]),
            forall|m: int| 0 <= m < memories@.len() && same_group(#[trigger] memories@[m], *g) ==> group@.contains(memories@[m]),
            out0.len() <= out@.len(),
            forall|k: int| 0 <= k < out0.len() ==> #[trigger] out@[k] == out0[k],
            reported(out@, *g) || forall|q: int| 0 <= q < j && q < group@.len() - 1
                ==> (#[trigger] group@[q]).content_hash@ == group@[q + 1].content_hash@,
        decreases group@.len() - j,
    {
        if group[j].content_hash != group[j + 1].content_hash {
            assert(!crate::json::key_lt(group@[j + 1].timestamp@, group@[j as int].timestamp@));
            let mut key = group[j].did.clone();
            key.append(":");
            key.append(group[j].memory_type.as_str());
            assert(same_group(group@[j as int], *g) && same_group(group@[j + 1], *g));
            let c = ConflictInfo {
                key,
                older_memory: group[j].copy(),
                newer_memory: group[j + 1].copy(),
                conflict_type: ConflictType::ContentMismatch,
            };
            let ghost cc = c;
            proof {
                assert(cc.older_memory == group@[j as int] && cc.newer_memory == group@[j + 1]);
                assert forall|m: int| 0 <= m < memories@.len() && same_group(#[trigger] memories@[m], cc.older_memory)
                    implies !(crate::json::key_lt(cc.older_memory.timestamp@, memories@[m].timestamp@)
                    && crate::json::key_lt(memories@[m].timestamp@, cc.newer_memory.timestamp@)) by {
                    assert(same_group(memories@[m], *g));
                    let q = choose|q: int| 0 <= q < group@.len() && group@[q] == memories@[m];
                    if q <= j {
                        lemma_sorted_far(group@, q, j as int);
                    } else {
                        lemma_sorted_far(group@, j + 1, q);
                    }
                }
                assert(memories@.contains(group@[j as int]) && memories@.contains(group@[j + 1]));
            }
            out.push(c);
            proof {
                assert(out@[out@.len() - 1].key@ == group_key(*g));
                assert(neighbours_in(memories@, out@[out@.len() - 1]));
            }
        }
        j = j + 1;
    }
    proof {
        if !reported(out@, *g) {
            lemma_chain(group@);
            if group_split(memories@, *g) {
                let (a, b) = choose|a: int, b: int|
                    0 <= a < memories@.len() && 0 <= b < memories@.len() && same_group(#[trigger] memories@[a], *g)
                        && same_group(#[trigger] memories@[b], *g) && memories@[a].content_hash@ != memories@[b].content_hash@;
                let qa = choose|q: int| 0 <= q < group@.len() && group@[q] == memories@[a];
                let qb = choose|q: int| 0 <= q < group@.len() && group@[q] == memories@[b];
                assert(group@[qa].content_hash@ == group@[0].content_hash@);
                assert(group@[qb].content_hash@ == group@[0].content_hash@);
            }
        }
    }
}

/// Stored memories of one author and type, taken in timestamp order, whose
/// neighbours differ in content. Each pair found is of one group, in
/// timestamp order, with different content hashes, keyed `did:type`, and
/// its two memories are stored ones with no memory of their group stamped
/// strictly between them; every group that holds two different contents
/// is reported.
pub fn detect_conflicts(memories: &Vec<SignedMemory>) -> (r: Vec<ConflictInfo>)
    ensures
        forall|k: int| 0 <= k < r@.len() ==> proper_conflict(#[trigger] r@[k]) && neighbours_in(memories@, r@[k]),
        forall|m: int| 0 <= m < memories@.len() && group_split(memories@, #[trigger] memories@[m])
            ==> reported(r@, memories@[m]),
{
    let mut out: Vec<ConflictInfo> = Vec::new();
    let mut i: usize = 0;
    while i < memories.len()
        invariant
            i <= memories@.len(),
            forall|k: int| 0 <= k < out@.len() ==> proper_conflict(#[trigger] out@[k]) && neighbours_in(memories@, out@[k]),
            forall|m: int| 0 <= m < i && group_split(memories@, #[trigger] memories@[m]) ==> reported(out@, memories@[m]),
        decreases memories@.len() - i,
    {
        let ghost out0 = out@;
        let seen = earlier_in_group(memories, i);
        if !seen {
            report_group(memories, &memories[i], &mut out);
        }
        proof {
            lemma_detect_step(memories@, i as int, seen, out0, out@);
        }
        i = i + 1;
    }
    out
}

proof fn lemma_detect_step(ms: Seq<SignedMemory>, i: int, seen: bool, out0: Seq<ConflictInfo>, out: Seq<ConflictInfo>)
    requires
        0 <= i < ms.len(),
        seen == exists|m: int| 0 <= m < i && same_group(#[trigger] ms[m], ms[i]),
        out0.len() <= out.len(),
        forall|k: int| 0 <= k < out0.len() ==> #[trigger] out[k] == out0[k],
        !seen ==> (group_split(ms, ms[i]) ==> reported(out, ms[i])),
        forall|m: int| 0 <= m < i && group_split(ms, #[trigger] ms[m]) ==> reported(out0, ms[m]),
    ensures
        forall|m: int| 0 <= m < i + 1 && group_split(ms, #[trigger] ms[m]) ==> reported(out, ms[m]),
{
    assert forall|m: int| 0 <= m < i + 1 && group_split(ms, #[trigger] ms[m]) implies reported(out, ms[m]) by {
        if m < i {
            let k = choose|k: int| 0 <= k < out0.len() && (#[trigger] out0[k]).key@ == group_key(ms[m]);
            assert(out[k] == out0[k]);
        } else if seen {
            let m2 = choose|m2: int| 0 <= m2 < i && same_group(#[trigger] ms[m2], ms[i]);
            assert(group_split(ms, ms[m2])) by {
                let (a, b) = choose|a: int, b: int|
                    0 <= a < ms.len() && 0 <= b < ms.len() && same_group(#[trigger] ms[a], ms[i])
                        && same_group(#[trigger] ms[b], ms[i]) && ms[a].content_hash@ != ms[b].content_hash@;
                assert(same_group(ms[a], ms[m2]) && same_group(ms[b], ms[m2]));
            }
            let k = choose|k: int| 0 <= k < out0.len() && (#[trigger] out0[k]).key@ == group_key(ms[m2]);
            assert(out[k] == out0[k]);
            assert(group_key(ms[m2]) == group_key(ms[i]));
        }
    }
}

/// Some entry of `mgr` has id `id`.
pub open spec fn has_entry(mgr: Seq<(String, CrdtMemory)>, id: Seq<char>) -> bool {
    exists|j: int| 0 <= j < mgr.len() && mgr[j].0@ == id
}

/// A node's synchronisation kernel: its stored memories, their CRDT state,
/// and the per-peer sync state.
pub struct SyncManager {
    pub local_peer_id: String,
    pub store: MemoryStore,
    pub sync_state: SyncState,
    pub crdt_manager: CrdtManager,
}

/// Counts describing a node's synchronisation.
#[derive(Debug, Clone)]
pub struct SyncStatistics {
    pub total_peers_synced: usize,
    pub active_sync_operations: usize,
    pub total_memories: usize,
    pub crdt_memories: usize,
    pub unresolved_conflicts: usize,
}

impl SyncManager {
    pub open spec fn wf(&self) -> bool {
        &&& self.store.wf()
        &&& self.sync_state.wf()
        &&& self.crdt_manager.wf()
    }

    pub fn new(local_peer_id: String, store: MemoryStore) -> (r: SyncManager)
        requires
            store.wf(),
        ensures
            r.wf(),
            r.local_peer_id == local_peer_id,
            r.store == store,
    {
        let crdt_manager = CrdtManager::new(local_peer_id.clone());
        SyncManager { local_peer_id, store, sync_state: SyncState::new(), crdt_manager }
    }

    /// The request to send `peer_id`, built from the memories stamped since
    /// the last sync with it; `None` while a sync with it is running. The
    /// running mark is cleared again once the request is built.
    pub fn sync_with_peer(&mut self, peer_id: &String) -> (r: Option<SyncRequest>)
        requires
            old(self).wf(),
        ensures
            final(self).wf(),
            holds(old(self).sync_state.sync_in_progress@, peer_id@) <==> r is None,
            final(self).store == old(self).store,
            r is None ==> final(self).sync_state.sync_in_progress == old(self).sync_state.sync_in_progress,
            r is Some ==> !holds(final(self).sync_state.sync_in_progress@, peer_id@)
                && final(self).sync_state.sync_in_progress@ == old(self).sync_state.sync_in_progress@.push(
                *peer_id,
            ).filter(|s: String| s@ != peer_id@),
            final(self).sync_state.last_sync_per_peer == old(self).sync_state.last_sync_per_peer,
            r matches Some(q) ==> q.requesting_peer == old(self).local_peer_id
                && q.known_memory_hashes@.map_values(|h: String| h@) == hashes_since(
                old(self).store.memories@,
                if old(self).sync_state.last_sync_per_peer@.contains_key(peer_id@) {
                    Some(old(self).sync_state.last_sync_per_peer@[peer_id@])
                } else {
                    None
                },
            ),
    {
        if !self.sync_state.begin_sync(peer_id) {
            return None;
        }
        let last = self.sync_state.last_sync_per_peer.get(peer_id);
        let request = build_sync_request(&self.local_peer_id, &self.store.memories, last);
        let ghost marked = self.sync_state.sync_in_progress@;
        self.sync_state.release_sync(peer_id);
        proof {
            let f = |s: String| s@ != peer_id@;
            #[allow(deprecated)]
            marked.filter_lemma(f);
            if holds(self.sync_state.sync_in_progress@, peer_id@) {
                let k = choose|k: int| 0 <= k < self.sync_state.sync_in_progress@.len()
                    && self.sync_state.sync_in_progress@[k]@ == peer_id@;
                assert(f(marked.filter(f)[k]));
            }
        }
        Some(request)
    }

    /// The answer to a peer's request.
    pub fn handle_sync_request(&self, request: &SyncRequest) -> (r: SyncResponse)
        ensures
            r.responding_peer == self.local_peer_id,
            r.memories@ == to_send(self.store.memories@, *request),
            r.missing_hashes@ == missing(self.store.memories@, *request),
    {
        handle_sync_request(&self.local_peer_id, &self.store.memories, request)
    }

    /// Merges a peer's answer at `now` (seconds) and returns what to send back.
    pub fn handle_sync_response(&mut self, response: SyncResponse, now: i64) -> (r: SyncOutcome)
        requires
            old(self).wf(),
        ensures
            final(self).wf(),
            grew_with_matching(old(self).store.memories@, final(self).store.memories@),
            store_hashes_ok(old(self).store.memories@) ==> store_hashes_ok(final(self).store.memories@),
            final(self).sync_state.last_sync_per_peer@ == old(self).sync_state.last_sync_per_peer@.insert(
                response.responding_peer@,
                now,
            ),
            final(self).sync_state.sync_in_progress@ == old(self).sync_state.sync_in_progress@.filter(
                |s: String| s@ != response.responding_peer@,
            ),
            r.to_send@ == wanted(final(self).store.memories@, response.missing_hashes@),
            forall|k: int| 0 <= k < response.memories@.len() && (#[trigger] response.memories@[k]).hash_matches()
                ==> exists|j: int| 0 <= j < final(self).crdt_manager.memories@.len()
                && final(self).crdt_manager.memories@[j].0@ == response.memories@[k].id@,
            touched_only_matching(old(self).crdt_manager.memories@, final(self).crdt_manager.memories@, response.memories@),
            r.outcomes@.len() == response.memories@.len(),
            forall|k: int| 0 <= k < response.memories@.len() ==> (#[trigger] r.outcomes@[k] == Absorbed::Dropped
                <==> !response.memories@[k].hash_matches()),
            final(self).store.memories@.len() == old(self).store.memories@.len() + stores_made(r.outcomes@),
    {
        handle_sync_response(&mut self.crdt_manager, &mut self.store, &mut self.sync_state, response, now)
    }

    /// Puts every stored memory under CRDT control.
    pub fn initialize_crdt_from_database(&mut self)
        requires
            old(self).wf(),
        ensures
            final(self).wf(),
            final(self).store == old(self).store,
            forall|k: int| 0 <= k < final(self).store.memories@.len() ==> has_entry(
                final(self).crdt_manager.memories@,
                (#[trigger] final(self).store.memories@[k]).id@,
            ),
    {
        let mut i: usize = 0;
        while i < self.store.memories.len()
            invariant
                self.wf(),
                self.store == old(self).store,
                i <= self.store.memories@.len(),
                forall|k: int| 0 <= k < i ==> has_entry(self.crdt_manager.memories@, (#[trigger] self.store.memories@[k]).id@),
            decreases self.store.memories@.len() - i,
        {
            let m = self.store.memories[i].copy();
            let ghost before = self.crdt_manager.memories@;
            self.crdt_manager.add_memory(m);
            proof {
                assert forall|k: int| 0 <= k < i + 1 implies has_entry(self.crdt_manager.memories@, (#[trigger] self.store.memories@[k]).id@) by {
                    if k < i {
                        assert(has_entry(before, self.store.memories@[k].id@));
                        let j = choose|j: int| 0 <= j < before.len() && before[j].0@ == self.store.memories@[k].id@;
                        assert(self.crdt_manager.memories@[j].0@ == before[j].0@);
                    } else {
                        let j = choose|j: int| 0 <= j < self.crdt_manager.memories@.len() && #[trigger] self.crdt_manager.memories@[j].0@ == self.store.memories@[k].id@;
                    }
                }
            }
            i = i + 1;
        }
    }

    /// Sets `value` at `field_path` of memory `memory_id` by a fresh Set
    /// operation, as `CrdtManager::update_memory` does, and on success
    /// stores the edited memory in place of the stored one.
    pub fn update_memory_field(&mut self, memory_id: &str, field_path: &str, value: crate::json::JsonValue) -> (r: Result<(), crate::crdt::CrdtError>)
        requires
            old(self).wf(),
        ensures
            final(self).wf(),
            crate::crdt::entry_pos(old(self).crdt_manager.memories@, memory_id@) is None ==> r is Ok
                && final(self).crdt_manager.memories == old(self).crdt_manager.memories
                && final(self).store.memories@ == old(self).store.memories@,
            r is Ok ==> match crate::crdt::entry_pos(old(self).crdt_manager.memories@, memory_id@) {
                Some(i) => {
                    let b = final(self).crdt_manager.memories@[i].1.base_memory;
                    match crate::store::first_with(old(self).store.memories@, |m: SignedMemory| m.id@, b.id@) {
                        Some(q) => final(self).store.memories@ == old(self).store.memories@.update(q, b),
                        None => final(self).store.memories@ == old(self).store.memories@.push(b),
                    }
                },
                None => true,
            },
            r is Err ==> final(self).store == old(self).store,
            crate::crdt::entry_pos(old(self).crdt_manager.memories@, memory_id@) matches Some(i) ==> {
                let o = old(self).crdt_manager.memories@[i].1;
                let n = final(self).crdt_manager.memories@[i].1;
                let peer = old(self).crdt_manager.peer_id@;
                &&& final(self).crdt_manager.memories@.len() == old(self).crdt_manager.memories@.len()
                &&& forall|j: int| 0 <= j < old(self).crdt_manager.memories@.len() && j != i
                    ==> #[trigger] final(self).crdt_manager.memories@[j] == old(self).crdt_manager.memories@[j]
                &&& exists|op: crate::crdt::MemoryOperation| {
                    &&& #[trigger] op.operation_type == crate::crdt::OperationType::SetField
                    &&& op.field_path@ == field_path@
                    &&& crate::json::jv(op.value) == crate::json::jv(value)
                    &&& op.vector_clock@ == crate::crdt::bumped(o.vector_clock@, peer)
                    &&& o.knows(op.operation_id@) ==> r is Ok && n == o
                    &&& !o.knows(op.operation_id@) ==> exists|now: Seq<char>| crate::crdt::applied(o, op, peer, now, n, r)
                }
            },
    {
        let ghost m0 = self.crdt_manager.memories@;
        self.crdt_manager.update_memory(memory_id, field_path, value)?;
        match self.crdt_manager.get_memory(memory_id) {
            Some(state) => {
                let m = state.base_memory.copy();
                let ghost mm = m;
                self.store.save_memory(m);
                proof {
                    crate::store::lemma_first_with_found(m0, |e: (String, CrdtMemory)| e.0@, memory_id@);
                    let i = crate::crdt::entry_pos(m0, memory_id@)->0;
                    assert(self.crdt_manager.memories@[i].0 == m0[i].0);
                    crate::store::lemma_first_with_bounds(m0, |e: (String, CrdtMemory)| e.0@, memory_id@);
                    assert forall|j: int| 0 <= j < i implies self.crdt_manager.memories@[j].0@ != memory_id@ by {
                        assert(self.crdt_manager.memories@[j] == m0[j]);
                    }
                    crate::store::lemma_first_with_bounds(self.crdt_manager.memories@, |e: (String, CrdtMemory)| e.0@, memory_id@);
                    assert(crate::crdt::entry_pos(self.crdt_manager.memories@, memory_id@) == Some(i));
                    assert(mm == self.crdt_manager.memories@[i].1.base_memory);
                    crate::store::lemma_first_with_bounds(old(self).store.memories@, |m: SignedMemory| m.id@, mm.id@);
                    match crate::store::first_with(old(self).store.memories@, |m: SignedMemory| m.id@, mm.id@) {
                        Some(k) => {
                            assert(self.store.memories@[k] == mm);
                        },
                        None => {
                            assert(self.store.memories@[self.store.memories@.len() - 1] == mm);
                        },
                    }
                }
            },
            None => {
                proof {
                    crate::store::lemma_first_with_bounds(self.crdt_manager.memories@, |e: (String, CrdtMemory)| e.0@, memory_id@);
                    crate::store::lemma_first_with_bounds(m0, |e: (String, CrdtMemory)| e.0@, memory_id@);
                    if crate::crdt::entry_pos(m0, memory_id@) is Some {
                        let i = crate::crdt::entry_pos(m0, memory_id@)->0;
                        assert(self.crdt_manager.memories@[i].0 == m0[i].0);
                    }
                }
            },
        }
        Ok(())
    }

    /// The memories whose conflicts wait for a person.
    pub fn get_conflict_summary(&self) -> (r: ConflictSummary)
        ensures
            r.total_conflicts == r.conflicted_memory_ids@.len(),
            r.conflicted_memory_ids@.map_values(|x: String| x@) == crate::crdt::manual_ids(self.crdt_manager.memories@),
    {
        get_conflict_summary(&self.crdt_manager)
    }

    /// Sets how the conflicts of memory `memory_id` are settled.
    pub fn force_resolve_conflicts(&mut self, memory_id: &str, strategy: crate::crdt::ConflictStrategy)
        requires
            old(self).wf(),
        ensures
            final(self).wf(),
            final(self).store == old(self).store,
            final(self).crdt_manager.memories@.len() == old(self).crdt_manager.memories@.len(),
            crate::crdt::entry_pos(old(self).crdt_manager.memories@, memory_id@) matches Some(i)
                ==> final(self).crdt_manager.memories@[i].1.merge_metadata.conflict_resolution_strategy == strategy,
    {
        self.crdt_manager.set_strategy(memory_id, strategy);
    }

    /// Counts of synced peers, running syncs, stored and tracked memories,
    /// and memories settled by hand.
    pub fn get_sync_statistics(&self) -> (r: SyncStatistics)
        ensures
            r.total_peers_synced == self.sync_state.last_sync_per_peer.entries@.len(),
            r.active_sync_operations == self.sync_state.sync_in_progress@.len(),
            r.total_memories == self.store.memories@.len(),
            r.crdt_memories == self.crdt_manager.memories@.len(),
            r.unresolved_conflicts == crate::crdt::manual_ids(self.crdt_manager.memories@).len(),
    {
        let conflicts = self.crdt_manager.list_conflicts();
        proof {
            assert(conflicts@.map_values(|x: String| x@).len() == conflicts@.len());
        }
        SyncStatistics {
            total_peers_synced: self.sync_state.last_sync_per_peer.entries.len(),
            active_sync_operations: self.sync_state.sync_in_progress.len(),
            total_memories: self.store.memories.len(),
            crdt_memories: self.crdt_manager.memories.len(),
            unresolved_conflicts: conflicts.len(),
        }
    }
}

} // verus!
