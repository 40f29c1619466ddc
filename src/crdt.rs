//! Per-memory CRDT state: an operation log with a vector clock, applied to
//! the memory's JSON payload, and merging with a peer's copy of the memory.

use vstd::prelude::*;
use crate::clock::{clock_order, join, ClockOrdering, VectorClock};
use crate::crypto::{instant_of, parse_instant};
use crate::json::{append_at, append_path, copy_json, delete_at, delete_path, json_eq, json_parse, json_text, json_to_string, jv, merge_at, merge_path, parse_json, set_at, set_path, split_on, split_path, Json, JsonValue};
use crate::memory::{compute_hash, content_hash_of, SignedMemory};
use crate::text::{concat, owned, str_eq};

verus! {

/// What an operation does at its path.
#[derive(Debug, Clone, Copy, PartialEq, Eq, Structural)]
pub enum OperationType {
    SetField,
    Delete,
    Append,
    Merge,
}

/// How concurrent edits of the same field are settled.
#[derive(Debug, Clone, Copy, PartialEq, Eq, Structural)]
pub enum ConflictStrategy {
    LastWriterWins,
    OperationalTransform,
    ManualResolution,
}

/// The kind of a recorded conflict.
#[derive(Debug, Clone, Copy, PartialEq, Eq, Structural)]
pub enum ConflictType {
    ContentMismatch,
    TimestampConflict,
    SignatureConflict,
}

/// Why an operation could not be applied.
#[derive(Debug, Clone)]
pub enum CrdtError {
    InvalidMemoryData,
    InvalidTimestamp,
    OperationFailed(String),
}

impl CrdtError {
    /// The error as a sentence.
    pub fn message(&self) -> (r: String)
        ensures
            self is InvalidMemoryData ==> r@ == "Invalid memory data format"@,
            self is InvalidTimestamp ==> r@ == "Invalid timestamp format"@,
            self matches CrdtError::OperationFailed(m) ==> r@ == "Operation failed: "@ + m@,
    {
        match self {
            CrdtError::InvalidMemoryData => owned("Invalid memory data format"),
            CrdtError::InvalidTimestamp => owned("Invalid timestamp format"),
            CrdtError::OperationFailed(m) => concat("Operation failed: ", m.as_str()),
        }
    }
}

/// One edit of a memory's payload.
#[derive(Debug)]
pub struct MemoryOperation {
    pub operation_id: String,
    pub operation_type: OperationType,
    pub field_path: String,
    pub value: JsonValue,
    pub vector_clock: VectorClock,
    pub timestamp: String,
}

impl MemoryOperation {
    /// The same operation: equal id, type, path, value, clock and time.
    pub open spec fn same_as(&self, o: MemoryOperation) -> bool {
        &&& self.operation_id@ == o.operation_id@
        &&& self.operation_type == o.operation_type
        &&& self.field_path@ == o.field_path@
        &&& jv(self.value) == jv(o.value)
        &&& self.vector_clock@ == o.vector_clock@
        &&& self.timestamp@ == o.timestamp@
    }

    pub fn copy(&self) -> (r: MemoryOperation)
        ensures
            r.same_as(*self),
    {
        MemoryOperation {
            operation_id: self.operation_id.clone(),
            operation_type: self.operation_type,
            field_path: self.field_path.clone(),
            value: copy_json(&self.value),
            vector_clock: self.vector_clock.copy(),
            timestamp: self.timestamp.clone(),
        }
    }
}

/// Where a memory's edits came from and how conflicts are settled.
#[derive(Debug, Clone)]
pub struct MergeMetadata {
    pub merged_from: Vec<String>,
    pub conflict_resolution_strategy: ConflictStrategy,
    pub last_merge_timestamp: String,
}

/// A concurrent edit of a field that was left for a person to settle.
#[derive(Debug)]
pub struct ConflictInfo {
    pub field_path: String,
    pub local_operation: MemoryOperation,
    pub remote_operation: MemoryOperation,
    pub conflict_type: ConflictType,
}

/// A memory with its vector clock, operation log and index of applied
/// operation ids.
#[derive(Debug)]
pub struct CrdtMemory {
    pub base_memory: SignedMemory,
    pub vector_clock: VectorClock,
    pub operations: Vec<MemoryOperation>,
    pub operation_index: Vec<String>,
    pub merge_metadata: MergeMetadata,
}

/// What an operation makes of a payload.
pub enum Outcome {
    Changed(Json),
    Unchanged,
    Failed,
}

/// The outcome of an operation of type `t` with value `x` at `path` on the
/// payload `v`: a Delete through a missing key changes nothing; the other
/// kinds fail where their path cannot be followed.
pub open spec fn op_outcome(v: Json, t: OperationType, path: Seq<Seq<char>>, x: Json) -> Outcome {
    let r = match t {
        OperationType::SetField => set_path(v, path, x),
        OperationType::Delete => delete_path(v, path),
        OperationType::Append => append_path(v, path, x),
        OperationType::Merge => merge_path(v, path, x),
    };
    match r {
        Some(j) => Outcome::Changed(j),
        None => if t == OperationType::Delete {
            Outcome::Unchanged
        } else {
            Outcome::Failed
        },
    }
}

/// A clock view after `peer`'s counter is bumped (saturating).
pub open spec fn bumped(m: Map<Seq<char>, u64>, peer: Seq<char>) -> Map<Seq<char>, u64> {
    m.insert(peer, if m[peer] < u64::MAX { (m[peer] + 1) as u64 } else { u64::MAX })
}

/// The memory `b` is `a` with the payload rewritten to `text` at `now`.
pub open spec fn rewritten(a: SignedMemory, b: SignedMemory, text: Seq<char>, now: Seq<char>) -> bool {
    &&& b.memory_data@ == text
    &&& b.content_hash@ == content_hash_of(text)
    &&& b.updated_on@ == now
    &&& b.id == a.id
    &&& b.did == a.did
    &&& b.memory_type == a.memory_type
    &&& b.signature == a.signature
    &&& b.timestamp == a.timestamp
}

/// `ops` lists `base` and then one more operation, the same as `op`.
pub open spec fn appended(base: Seq<MemoryOperation>, ops: Seq<MemoryOperation>, op: MemoryOperation) -> bool {
    &&& ops.len() == base.len() + 1
    &&& ops.subrange(0, base.len() as int) == base
    &&& ops.last().same_as(op)
}

/// What applying `op` at `now` on behalf of `peer` does to `old`, giving
/// `new` and `r`, when the log lacks `op`: the clock takes in the
/// operation's clock and bumps `peer`; the payload is edited, re-serialised
/// and re-hashed, and the operation logged; a payload that is not JSON, or
/// a failed edit, is an error that logs nothing and leaves the payload; a
/// Delete through a missing key is logged without touching the payload.
pub open spec fn applied(
    old: CrdtMemory,
    op: MemoryOperation,
    peer: Seq<char>,
    now: Seq<char>,
    new: CrdtMemory,
    r: Result<(), CrdtError>,
) -> bool {
    &&& new.vector_clock@ == bumped(join(old.vector_clock@, op.vector_clock@), peer)
    &&& new.merge_metadata.merged_from == old.merge_metadata.merged_from
    &&& new.merge_metadata.conflict_resolution_strategy
        == old.merge_metadata.conflict_resolution_strategy
    &&& match json_parse(old.base_memory.memory_data@) {
        None => r matches Err(CrdtError::InvalidMemoryData) && new.base_memory == old.base_memory
            && new.operations == old.operations,
        Some(v) => match op_outcome(v, op.operation_type, split_on(op.field_path@, '.'), jv(op.value)) {
            Outcome::Failed => r matches Err(CrdtError::OperationFailed(_)) && new.base_memory
                == old.base_memory && new.operations == old.operations,
            Outcome::Unchanged => r is Ok && new.base_memory == old.base_memory && appended(
                old.operations@,
                new.operations@,
                op,
            ),
            Outcome::Changed(j) => r is Ok && rewritten(
                old.base_memory,
                new.base_memory,
                json_text(j),
                now,
            ) && appended(old.operations@, new.operations@, op),
        },
    }
}

impl CrdtMemory {
    /// The index holds the log's ids, in order, and no id occurs twice.
    pub open spec fn wf(&self) -> bool {
        &&& self.operation_index@.len() == self.operations@.len()
        &&& forall|i: int|
            0 <= i < self.operations@.len() ==> #[trigger] self.operation_index@[i]@
                == self.operations@[i].operation_id@
        &&& forall|i: int, j: int|
            0 <= i < j < self.operations@.len() ==> self.operations@[i].operation_id@
                != self.operations@[j].operation_id@
    }

    /// The log holds an operation with id `id`.
    pub open spec fn knows(&self, id: Seq<char>) -> bool {
        exists|i: int| 0 <= i < self.operations@.len() && self.operations@[i].operation_id@ == id
    }

    /// A memory under CRDT control, its clock at one for `peer_id`, its log
    /// empty, settling conflicts by last writer, stamped `now`.
    pub fn with_time(base_memory: SignedMemory, peer_id: &str, now: String) -> (r: CrdtMemory)
        ensures
            r.wf(),
            r.base_memory == base_memory,
            r.vector_clock@ == bumped(Map::new(|k: Seq<char>| true, |k: Seq<char>| 0u64), peer_id@),
            r.operations@.len() == 0,
            r.merge_metadata.merged_from@.len() == 1,
            r.merge_metadata.merged_from@[0]@ == peer_id@,
            r.merge_metadata.conflict_resolution_strategy == ConflictStrategy::LastWriterWins,
            sorted_texts(r.merge_metadata.merged_from@),
    {
        let mut vector_clock = VectorClock::new();
        vector_clock.increment(peer_id);
        CrdtMemory {
            base_memory,
            vector_clock,
            operations: Vec::new(),
            operation_index: Vec::new(),
            merge_metadata: MergeMetadata {
                merged_from: vec![owned(peer_id)],
                conflict_resolution_strategy: ConflictStrategy::LastWriterWins,
                last_merge_timestamp: now,
            },
        }
    }

    /// A memory under CRDT control, stamped now.
    pub fn new(base_memory: SignedMemory, peer_id: &str) -> (r: CrdtMemory)
        ensures
            r.wf(),
            r.base_memory == base_memory,
            r.operations@.len() == 0,
            sorted_texts(r.merge_metadata.merged_from@),
    {
        CrdtMemory::with_time(base_memory, peer_id, crate::crypto::now_rfc3339())
    }

    /// Rebuilds the index of operation ids from the log, as after loading.
    pub fn rebuild_index(&mut self)
        requires
            forall|i: int, j: int|
                0 <= i < j < old(self).operations@.len() ==> old(self).operations@[i].operation_id@
                    != old(self).operations@[j].operation_id@,
        ensures
            final(self).wf(),
            final(self).operations == old(self).operations,
            final(self).base_memory == old(self).base_memory,
            final(self).vector_clock == old(self).vector_clock,
    {
        let mut index: Vec<String> = Vec::new();
        let mut i: usize = 0;
        while i < self.operations.len()
            invariant
                i <= self.operations@.len(),
                index@.len() == i,
                forall|m: int|
                    0 <= m < i ==> #[trigger] index@[m]@ == self.operations@[m].operation_id@,
            decreases self.operations@.len() - i,
        {
            index.push(self.operations[i].operation_id.clone());
            i = i + 1;
        }
        self.operation_index = index;
    }

    /// Whether an operation with id `operation_id` has been applied.
    pub fn has_operation(&self, operation_id: &str) -> (r: bool)
        requires
            self.wf(),
        ensures
            r == self.knows(operation_id@),
    {
        let mut i: usize = 0;
        while i < self.operation_index.len()
            invariant
                self.wf(),
                i <= self.operation_index@.len(),
                forall|m: int| 0 <= m < i ==> self.operations@[m].operation_id@ != operation_id@,
            decreases self.operation_index@.len() - i,
        {
            if str_eq(self.operation_index[i].as_str(), operation_id) {
                assert(self.operations@[i as int].operation_id@ == operation_id@);
                return true;
            }
            i = i + 1;
        }
        false
    }

    /// Applies `operation` once, at `now`, on behalf of `peer_id`. An
    /// operation already in the log changes nothing. Otherwise the clock
    /// takes in the operation's clock and bumps `peer_id`; the payload is
    /// edited, re-serialised and re-hashed, and the operation is logged. A
    /// payload that is not JSON, or a failed edit, is an error that logs
    /// nothing and leaves the payload; a Delete through a missing key is
    /// logged without touching the payload.
    pub fn apply_operation_at(&mut self, operation: MemoryOperation, peer_id: &str, now: String) -> (r:
        Result<(), CrdtError>)
        requires
            old(self).wf(),
        ensures
            final(self).wf(),
            old(self).knows(operation.operation_id@) ==> r is Ok && *final(self) == *old(self),
            r is Ok ==> final(self).knows(operation.operation_id@),
            r is Err ==> failing(*final(self), operation) && final(self).base_memory == old(self).base_memory
                && final(self).operations == old(self).operations,
            extends(*old(self), *final(self)),
            forall|k: Seq<char>| #[trigger] final(self).vector_clock@[k] >= old(self).vector_clock@[k],
            old(self).base_memory.hash_matches() ==> final(self).base_memory.hash_matches(),
            forall|id: Seq<char>| old(self).knows(id) ==> #[trigger] final(self).knows(id),
            old(self).operations@.len() <= final(self).operations@.len(),
            final(self).operations@.subrange(0, old(self).operations@.len() as int) == old(
                self,
            ).operations@,
            final(self).merge_metadata.conflict_resolution_strategy == old(
                self,
            ).merge_metadata.conflict_resolution_strategy,
            final(self).merge_metadata.merged_from == old(self).merge_metadata.merged_from,
            !old(self).knows(operation.operation_id@) ==> applied(*old(self), operation, peer_id@, now@, *final(self), r),
    {
        if self.has_operation(operation.operation_id.as_str()) {
            assert(self.operations@.subrange(0, self.operations@.len() as int) =~= self.operations@);
            return Ok(());
        }
        assert(self.operations@.subrange(0, self.operations@.len() as int) =~= self.operations@);
        self.vector_clock.update(&operation.vector_clock);
        self.vector_clock.increment(peer_id);
        let data = match parse_json(self.base_memory.memory_data.as_str()) {
            Some(d) => d,
            None => {
                return Err(CrdtError::InvalidMemoryData);
            },
        };
        let path = split_path(operation.field_path.as_str());
        let value = copy_json(&operation.value);
        let edited = match operation.operation_type {
            OperationType::SetField => set_at(data, &path, 0, value),
            OperationType::Delete => delete_at(data, &path, 0),
            OperationType::Append => append_at(data, &path, 0, value),
            OperationType::Merge => merge_at(data, &path, 0, value),
        };
        proof {
            assert(crate::json::keys_of(path@).subrange(0, path@.len() as int) =~= crate::json::keys_of(path@));
        }
        match edited {
            Some(new_data) => {
                let text = json_to_string(&new_data);
                self.base_memory.content_hash = compute_hash(text.as_str());
                self.base_memory.memory_data = text;
                self.base_memory.updated_on = now.clone();
            },
            None => {
                match operation.operation_type {
                    OperationType::Delete => {},
                    OperationType::Append => {
                        proof {
                            let v = json_parse(self.base_memory.memory_data@)->0;
                            assert(op_outcome(v, operation.operation_type, split_on(operation.field_path@, '.'), jv(operation.value)) is Failed);
                        }
                        return Err(CrdtError::OperationFailed(owned("Target is not appendable")));
                    },
                    _ => {
                        proof {
                            let v = json_parse(self.base_memory.memory_data@)->0;
                            assert(op_outcome(v, operation.operation_type, split_on(operation.field_path@, '.'), jv(operation.value)) is Failed);
                        }
                        return Err(CrdtError::OperationFailed(owned("Path is not an object")));
                    },
                }
            },
        }
        let ghost before = self.operations@;
        self.operation_index.push(operation.operation_id.clone());
        self.operations.push(operation);
        self.merge_metadata.last_merge_timestamp = now;
        proof {
            assert(self.operations@.subrange(0, before.len() as int) =~= before);
            assert(self.operations@[before.len() as int].operation_id@ == operation.operation_id@);
            assert forall|id: Seq<char>| old(self).knows(id) implies #[trigger] self.knows(id) by {
                let i = choose|i: int|
                    0 <= i < old(self).operations@.len() && old(self).operations@[i].operation_id@
                        == id;
                assert(self.operations@[i] == old(self).operations@[i]);
            }
            assert forall|i: int, j: int|
                0 <= i < j < self.operations@.len() implies self.operations@[i].operation_id@
                != self.operations@[j].operation_id@ by {
                if j == before.len() {
                    assert(!old(self).knows(self.operations@[j].operation_id@));
                    assert(self.operations@[i] == old(self).operations@[i]);
                }
            }
        }
        Ok(())
    }

    /// Applies `operation` now, on behalf of `peer_id`.
    pub fn apply_operation(&mut self, operation: MemoryOperation, peer_id: &str) -> (r: Result<
        (),
        CrdtError,
    >)
        requires
            old(self).wf(),
        ensures
            final(self).wf(),
            old(self).knows(operation.operation_id@) ==> r is Ok && *final(self) == *old(self),
            !old(self).knows(operation.operation_id@) ==> exists|now: Seq<char>| applied(*old(self), operation, peer_id@, now, *final(self), r),
            final(self).merge_metadata.merged_from == old(self).merge_metadata.merged_from,
    {
        let now = crate::crypto::now_rfc3339();
        self.apply_operation_at(operation, peer_id, now)
    }
}

/// The members of `v` as a set of texts.
pub open spec fn text_set(v: Seq<String>) -> Set<Seq<char>> {
    Set::new(|t: Seq<char>| exists|i: int| 0 <= i < v.len() && v[i]@ == t)
}

/// The texts of `v` in strictly increasing key order, so none twice.
pub open spec fn sorted_texts(v: Seq<String>) -> bool {
    forall|i: int, j: int| 0 <= i < j < v.len() ==> crate::json::key_lt(#[trigger] v[i]@, #[trigger] v[j]@)
}

/// Adds `t` to `v` unless it is there, keeping `v` in key order where it was.
fn add_peer(v: &mut Vec<String>, t: &String)
    requires
        sorted_texts(old(v)@),
    ensures
        sorted_texts(final(v)@),
        text_set(final(v)@) == text_set(old(v)@).insert(t@),
{
    let mut i: usize = 0;
    while i < v.len()
        invariant
            v@ == old(v)@,
            sorted_texts(v@),
            i <= v@.len(),
            forall|m: int| 0 <= m < i ==> v@[m]@ != t@,
        decreases v@.len() - i,
    {
        if v[i] == *t {
            assert(text_set(v@) =~= text_set(v@).insert(t@));
            return;
        }
        i = i + 1;
    }
    let mut pos: usize = 0;
    while pos < v.len() && crate::json::key_less(v[pos].as_str(), t.as_str())
        invariant
            pos <= v@.len(),
            forall|q: int| 0 <= q < pos ==> crate::json::key_lt(#[trigger] v@[q]@, t@),
            forall|m: int| 0 <= m < v@.len() ==> v@[m]@ != t@,
        decreases v@.len() - pos,
    {
        pos = pos + 1;
    }
    let ghost before = v@;
    proof {
        if pos < before.len() {
            crate::json::lemma_keys_pub(t@, before[pos as int]@, t@);
            assert(crate::json::key_lt(t@, before[pos as int]@));
            assert forall|q: int| pos <= q < before.len() implies crate::json::key_lt(t@, #[trigger] before[q]@) by {
                if q > pos {
                    assert(crate::json::key_lt(before[pos as int]@, before[q]@));
                    crate::json::lemma_keys_pub(t@, before[pos as int]@, before[q]@);
                }
            }
        }
    }
    let c = t.clone();
    v.insert(pos, c);
    proof {
        assert(v@ == before.insert(pos as int, c));
        assert forall|a: int, b: int| 0 <= a < b < v@.len() implies crate::json::key_lt(#[trigger] v@[a]@, #[trigger] v@[b]@) by {
            if a == pos {
                assert(v@[b] == before[b - 1]);
            } else if b == pos {
                assert(v@[a] == before[a]);
            } else {
                let ia = if a < pos { a } else { a - 1 };
                let ib = if b < pos { b } else { b - 1 };
                assert(v@[a] == before[ia]);
                assert(v@[b] == before[ib]);
                assert(crate::json::key_lt(before[ia]@, before[ib]@));
            }
        }
        assert forall|x: Seq<char>| text_set(v@).contains(x) <==> text_set(before).insert(t@).contains(x) by {
            if text_set(before).contains(x) && x != t@ {
                let m = choose|m: int| 0 <= m < before.len() && before[m]@ == x;
                if m < pos {
                    assert(v@[m] == before[m]);
                } else {
                    assert(v@[m + 1] == before[m]);
                }
            }
            if x == t@ {
                assert(v@[pos as int]@ == t@);
            }
            if text_set(v@).contains(x) {
                let m = choose|m: int| 0 <= m < v@.len() && v@[m]@ == x;
                if m < pos {
                    assert(v@[m] == before[m]);
                } else if m > pos {
                    assert(v@[m] == before[m - 1]);
                }
            }
        }
        assert(text_set(v@) =~= text_set(before).insert(t@));
    }
}

/// Adds the peers of `more` to `v`, each once.
fn add_peers(v: &mut Vec<String>, more: &Vec<String>)
    requires
        sorted_texts(old(v)@),
    ensures
        sorted_texts(final(v)@),
        text_set(final(v)@) == text_set(old(v)@) + text_set(more@),
{
    let ghost start = v@;
    let mut j: usize = 0;
    while j < more.len()
        invariant
            j <= more@.len(),
            sorted_texts(v@),
            text_set(v@) == text_set(start) + text_set(more@.subrange(0, j as int)),
        decreases more@.len() - j,
    {
        add_peer(v, &more[j]);
        proof {
            let o = more@;
            assert(text_set(o.subrange(0, j + 1)) =~= text_set(o.subrange(0, j as int)).insert(o[j as int]@)) by {
                assert forall|x: Seq<char>| text_set(o.subrange(0, j + 1)).contains(x) implies text_set(o.subrange(0, j as int)).insert(o[j as int]@).contains(x) by {
                    let m = choose|m: int| 0 <= m < j + 1 && (#[trigger] o.subrange(0, j + 1)[m])@ == x;
                    if m < j {
                        assert(o.subrange(0, j as int)[m]@ == x);
                    }
                }
                assert forall|x: Seq<char>| text_set(o.subrange(0, j as int)).insert(o[j as int]@).contains(x) implies text_set(o.subrange(0, j + 1)).contains(x) by {
                    if x == o[j as int]@ {
                        assert(o.subrange(0, j + 1)[j as int]@ == x);
                    } else {
                        let m = choose|m: int| 0 <= m < j && (#[trigger] o.subrange(0, j as int)[m])@ == x;
                        assert(o.subrange(0, j + 1)[m]@ == x);
                    }
                }
            }
            assert(text_set(v@) =~= text_set(start) + text_set(o.subrange(0, j + 1)));
        }
        j = j + 1;
    }
    assert(more@.subrange(0, more@.len() as int) =~= more@);
}

/// What merging `other` into `old`, giving `new`, is known to do, `ok`
/// telling whether it succeeded.
pub open spec fn merge_post(old: CrdtMemory, other: CrdtMemory, new: CrdtMemory, ok: bool) -> bool {
    let ord = clock_order(old.vector_clock@, other.vector_clock@);
    &&& new.wf()
    &&& (ord == ClockOrdering::Greater || ord == ClockOrdering::Equal) ==> ok && new == old
    &&& (forall|i: int| 0 <= i < other.operations@.len() ==> #[trigger] old.knows(other.operations@[i].operation_id@))
        ==> new.base_memory == old.base_memory && new.operations == old.operations && ok
    &&& ord == ClockOrdering::Less && ok ==> forall|i: int|
        0 <= i < other.operations@.len() ==> #[trigger] new.knows(other.operations@[i].operation_id@)
    &&& ord == ClockOrdering::Concurrent && ok ==> forall|i: int|
        0 <= i < other.operations@.len() ==> settled(new, #[trigger] other.operations@[i])
    &&& ord == ClockOrdering::Concurrent && (forall|i: int|
        0 <= i < other.operations@.len() ==> settled(old, #[trigger] other.operations@[i]))
        ==> new.base_memory == old.base_memory && new.operations == old.operations && ok
    &&& forall|k: Seq<char>| #[trigger] new.vector_clock@[k] >= old.vector_clock@[k]
    &&& forall|id: Seq<char>| old.knows(id) ==> #[trigger] new.knows(id)
    &&& old.base_memory.hash_matches() ==> new.base_memory.hash_matches()
    &&& new.merge_metadata.conflict_resolution_strategy == old.merge_metadata.conflict_resolution_strategy
}

/// A logged operation on `path` whose value is not `value`.
pub open spec fn clashes(o: MemoryOperation, path: Seq<char>, value: Json) -> bool {
    o.field_path@ == path && jv(o.value) != value
}

/// Under last-writer-wins, a logged edit stamped `ours` keeps out a remote
/// edit stamped `theirs` that is not later; so does any stamp that does
/// not parse.
pub open spec fn keeps_out(ours: Seq<char>, theirs: Seq<char>) -> bool {
    match (instant_of(ours), instant_of(theirs)) {
        (Some(a), Some(b)) => a >= b,
        _ => true,
    }
}

/// Under manual resolution, the log of `m` holds an edit on `o`'s field
/// with another value: `o` waits for a person and is not applied.
pub open spec fn blocked(m: CrdtMemory, o: MemoryOperation) -> bool {
    m.merge_metadata.conflict_resolution_strategy == ConflictStrategy::ManualResolution && exists|j: int|
        0 <= j < m.operations@.len() && clashes(#[trigger] m.operations@[j], o.field_path@, jv(o.value))
}

/// Under last-writer-wins, the log of `m` holds an edit on `o`'s field with
/// another value that is not older: `o` is logged but its edit is not made.
pub open spec fn outdated(m: CrdtMemory, o: MemoryOperation) -> bool {
    m.merge_metadata.conflict_resolution_strategy == ConflictStrategy::LastWriterWins && exists|j: int|
        0 <= j < m.operations@.len() && clashes(#[trigger] m.operations@[j], o.field_path@, jv(o.value))
            && keeps_out(m.operations@[j].timestamp@, o.timestamp@)
}

/// Applying `o` to `m` cannot succeed: the payload is not JSON, or `o`'s
/// kind of edit cannot follow its path there, or last-writer-wins meets a
/// timestamp without an instant (`o`'s own or a clashing logged one).
pub open spec fn failing(m: CrdtMemory, o: MemoryOperation) -> bool {
    ||| json_parse(m.base_memory.memory_data@) is None
    ||| (json_parse(m.base_memory.memory_data@) matches Some(v) && exists|x: Json|
        #[trigger] op_outcome(v, o.operation_type, split_on(o.field_path@, '.'), x) is Failed)
    ||| (m.merge_metadata.conflict_resolution_strategy == ConflictStrategy::LastWriterWins && (instant_of(
        o.timestamp@,
    ) is None || exists|j: int|
        0 <= j < m.operations@.len() && clashes(#[trigger] m.operations@[j], o.field_path@, jv(o.value))
            && instant_of(m.operations@[j].timestamp@) is None))
}

/// `o` is in `m`'s log, or waits for a person there.
pub open spec fn settled(m: CrdtMemory, o: MemoryOperation) -> bool {
    m.knows(o.operation_id@) || blocked(m, o)
}

/// `new`'s log extends `old`'s, under the same strategy.
pub open spec fn extends(old: CrdtMemory, new: CrdtMemory) -> bool {
    &&& old.operations@.len() <= new.operations@.len()
    &&& new.operations@.subrange(0, old.operations@.len() as int) == old.operations@
    &&& new.merge_metadata.conflict_resolution_strategy == old.merge_metadata.conflict_resolution_strategy
}

proof fn lemma_extends_trans(a: CrdtMemory, b: CrdtMemory, c: CrdtMemory)
    requires
        extends(a, b),
        extends(b, c),
    ensures
        extends(a, c),
{
    assert forall|q: int| 0 <= q < a.operations@.len() implies c.operations@[q] == a.operations@[q] by {
        assert(c.operations@.subrange(0, b.operations@.len() as int)[q] == c.operations@[q]);
        assert(b.operations@.subrange(0, a.operations@.len() as int)[q] == b.operations@[q]);
    }
    assert(c.operations@.subrange(0, a.operations@.len() as int) =~= a.operations@);
}

proof fn lemma_settled_kept(old: CrdtMemory, new: CrdtMemory, o: MemoryOperation)
    requires
        extends(old, new),
        settled(old, o),
    ensures
        settled(new, o),
{
    if old.knows(o.operation_id@) {
        let i = choose|i: int| 0 <= i < old.operations@.len() && old.operations@[i].operation_id@ == o.operation_id@;
        assert(new.operations@.subrange(0, old.operations@.len() as int)[i] == new.operations@[i]);
        assert(new.knows(o.operation_id@));
    } else {
        let j = choose|j: int|
            0 <= j < old.operations@.len() && clashes(#[trigger] old.operations@[j], o.field_path@, jv(o.value));
        assert(new.operations@.subrange(0, old.operations@.len() as int)[j] == new.operations@[j]);
        assert(clashes(new.operations@[j], o.field_path@, jv(o.value)));
    }
}

/// The same operations, one for one.
pub open spec fn ops_match(a: Seq<MemoryOperation>, b: Seq<MemoryOperation>) -> bool {
    a.len() == b.len() && forall|k: int| 0 <= k < a.len() ==> (#[trigger] a[k]).same_as(b[k])
}

/// The operations of `ops` whose ids `m`'s log lacks, in order.
pub open spec fn unknown_to(ops: Seq<MemoryOperation>, m: CrdtMemory) -> Seq<MemoryOperation> {
    ops.filter(|o: MemoryOperation| !m.knows(o.operation_id@))
}

/// Every conflict in `c` records a remote operation of `ops` on its field,
/// and there are conflicts only under manual resolution.
pub open spec fn conflicts_from(c: Seq<ConflictInfo>, ops: Seq<MemoryOperation>, strategy: ConflictStrategy) -> bool {
    &&& c.len() > 0 ==> strategy == ConflictStrategy::ManualResolution
    &&& forall|k: int| 0 <= k < c.len() ==> exists|m: int|
        0 <= m < ops.len() && (#[trigger] c[k]).remote_operation.same_as(ops[m])
        && c[k].field_path@ == ops[m].field_path@ && c[k].conflict_type == ConflictType::ContentMismatch
}

/// `j` is the first logged operation of `m` that clashes with `o`.
pub open spec fn first_clash(m: CrdtMemory, o: MemoryOperation, j: int) -> bool {
    &&& 0 <= j < m.operations@.len()
    &&& clashes(m.operations@[j], o.field_path@, jv(o.value))
    &&& forall|q: int| 0 <= q < j ==> !clashes(#[trigger] m.operations@[q], o.field_path@, jv(o.value))
}

/// Some logged operation of `m` clashes with `o`.
pub open spec fn has_clash(m: CrdtMemory, o: MemoryOperation) -> bool {
    exists|j: int| 0 <= j < m.operations@.len() && clashes(#[trigger] m.operations@[j], o.field_path@, jv(o.value))
}

/// `t` is `o` rewritten against the local operation `local` (see
/// `transform_operation`).
pub open spec fn transformed(t: MemoryOperation, o: MemoryOperation, local: MemoryOperation) -> bool {
    &&& t.operation_id@ == o.operation_id@
    &&& t.operation_type == o.operation_type
    &&& t.field_path@ == o.field_path@
    &&& t.vector_clock@ == o.vector_clock@
    &&& t.timestamp@ == o.timestamp@
    &&& jv(t.value) == match (o.operation_type, jv(o.value), jv(local.value)) {
        (OperationType::SetField, Json::Str(remote), Json::Str(mine)) => Json::Str(mine + " | "@ + remote),
        _ => jv(o.value),
    }
}

/// What settling the remote operation `o` on `old` on behalf of `peer` at
/// `now` does, giving `new` and `r`, with the conflict list going from `c0`
/// to `c1`: an operation already logged changes nothing; one that clashes
/// with nothing is applied; under last-writer-wins one that is not kept out
/// is applied, and one kept out is logged without its edit; under
/// operational transform the operation rewritten against the first
/// clashing local one is applied; under manual resolution a conflict naming
/// the first clashing local operation is recorded and nothing else changes.
pub open spec fn settle_step(
    old: CrdtMemory,
    o: MemoryOperation,
    peer: Seq<char>,
    now: Seq<char>,
    new: CrdtMemory,
    r: Result<(), CrdtError>,
    c0: Seq<ConflictInfo>,
    c1: Seq<ConflictInfo>,
) -> bool {
    &&& (old.knows(o.operation_id@) ==> r is Ok && new.base_memory == old.base_memory
        && new.operations == old.operations && c1 == c0)
    &&& (!old.knows(o.operation_id@) && !has_clash(old, o) ==> applied(old, o, peer, now, new, r))
    &&& (!old.knows(o.operation_id@) && has_clash(old, o)
        && old.merge_metadata.conflict_resolution_strategy == ConflictStrategy::LastWriterWins
        && !outdated(old, o) && r is Ok ==> applied(old, o, peer, now, new, r))
    &&& (!old.knows(o.operation_id@) && outdated(old, o) && r is Ok ==> new.base_memory == old.base_memory
        && appended(old.operations@, new.operations@, o))
    &&& (settled(old, o) ==> r is Ok)
    &&& (forall|j: int| !old.knows(o.operation_id@) && #[trigger] first_clash(old, o, j)
        && old.merge_metadata.conflict_resolution_strategy == ConflictStrategy::OperationalTransform
        ==> exists|t: MemoryOperation| transformed(t, o, old.operations@[j]) && applied(old, t, peer, now, new, r))
    &&& (forall|j: int| !old.knows(o.operation_id@) && #[trigger] first_clash(old, o, j)
        && old.merge_metadata.conflict_resolution_strategy == ConflictStrategy::ManualResolution
        ==> r is Ok && new.base_memory == old.base_memory && new.operations == old.operations
        && c1.len() == c0.len() + 1 && c1.last().field_path@ == o.field_path@
        && c1.last().local_operation.same_as(old.operations@[j]) && c1.last().remote_operation.same_as(o)
        && c1.last().conflict_type == ConflictType::ContentMismatch)
}

/// `st` and `cs` trace the settling of `ops` one by one from `old`, with no
/// conflicts at the start: each step is `settle_step`.
pub open spec fn settle_trace(
    old: CrdtMemory,
    ops: Seq<MemoryOperation>,
    peer: Seq<char>,
    now: Seq<char>,
    st: Seq<CrdtMemory>,
    cs: Seq<Seq<ConflictInfo>>,
) -> bool {
    &&& st.len() == ops.len() + 1
    &&& cs.len() == ops.len() + 1
    &&& st[0] == old
    &&& cs[0] == Seq::<ConflictInfo>::empty()
    &&& forall|k: int| 0 <= k < ops.len() ==> settle_step(
        #[trigger] st[k],
        ops[k],
        peer,
        now,
        st[k + 1],
        Ok::<(), CrdtError>(()),
        cs[k],
        cs[k + 1],
    )
}

proof fn lemma_trace_extend(
    ops: Seq<MemoryOperation>,
    peer: Seq<char>,
    now: Seq<char>,
    st: Seq<CrdtMemory>,
    cs: Seq<Seq<ConflictInfo>>,
    i: int,
    s_new: CrdtMemory,
    c_new: Seq<ConflictInfo>,
)
    requires
        0 <= i < ops.len(),
        st.len() == i + 1,
        cs.len() == i + 1,
        forall|k: int| 0 <= k < i ==> settle_step(
            #[trigger] st[k],
            ops[k],
            peer,
            now,
            st[k + 1],
            Ok::<(), CrdtError>(()),
            cs[k],
            cs[k + 1],
        ),
        settle_step(st[i], ops[i], peer, now, s_new, Ok::<(), CrdtError>(()), cs[i], c_new),
    ensures
        forall|k: int| 0 <= k < i + 1 ==> settle_step(
            #[trigger] st.push(s_new)[k],
            ops[k],
            peer,
            now,
            st.push(s_new)[k + 1],
            Ok::<(), CrdtError>(()),
            cs.push(c_new)[k],
            cs.push(c_new)[k + 1],
        ),
{
    assert forall|k: int| 0 <= k < i + 1 implies settle_step(
        #[trigger] st.push(s_new)[k],
        ops[k],
        peer,
        now,
        st.push(s_new)[k + 1],
        Ok::<(), CrdtError>(()),
        cs.push(c_new)[k],
        cs.push(c_new)[k + 1],
    ) by {
        if k < i {
            assert(st.push(s_new)[k] == st[k] && st.push(s_new)[k + 1] == st[k + 1]);
            assert(cs.push(c_new)[k] == cs[k] && cs.push(c_new)[k + 1] == cs[k + 1]);
        } else {
            assert(st.push(s_new)[k] == st[i] && st.push(s_new)[k + 1] == s_new);
            assert(cs.push(c_new)[k] == cs[i] && cs.push(c_new)[k + 1] == c_new);
        }
    }
}

/// The concurrent-edit rewrite of an operation against the local one it
/// conflicts with: two texts set on the same field combine as
/// `"local | remote"`; anything else is kept as it is.
pub fn transform_operation(operation: &MemoryOperation, local: &MemoryOperation) -> (r: MemoryOperation)
    ensures
        r.operation_id@ == operation.operation_id@,
        r.operation_type == operation.operation_type,
        r.field_path@ == operation.field_path@,
        r.vector_clock@ == operation.vector_clock@,
        r.timestamp@ == operation.timestamp@,
        jv(r.value) == match (operation.operation_type, jv(operation.value), jv(local.value)) {
            (OperationType::SetField, Json::Str(remote), Json::Str(mine)) => Json::Str(mine + " | "@ + remote),
            _ => jv(operation.value),
        },
{
    let mut t = operation.copy();
    if operation.operation_type == OperationType::SetField {
        match (&operation.value, &local.value) {
            (JsonValue::Str(remote), JsonValue::Str(mine)) => {
                let mut combined = concat(mine.as_str(), " | ");
                combined.append(remote.as_str());
                t.value = JsonValue::Str(combined);
            },
            _ => {},
        }
    }
    t
}

impl CrdtMemory {
    /// The positions of logged operations on `path` whose value differs from `value`.
    fn conflicting(&self, path: &String, value: &JsonValue) -> (r: Vec<usize>)
        ensures
            forall|k: int| 0 <= k < r@.len() ==> (#[trigger] r@[k] as int) < self.operations@.len()
                && clashes(self.operations@[r@[k] as int], path@, jv(*value)),
            r@.len() == 0 ==> forall|m: int|
                0 <= m < self.operations@.len() ==> !clashes(#[trigger] self.operations@[m], path@, jv(*value)),
            forall|m: int|
                0 <= m < self.operations@.len() && clashes(#[trigger] self.operations@[m], path@, jv(*value))
                    ==> r@.contains(m as usize),
            r@.len() > 0 ==> forall|m: int| 0 <= m < r@[0] ==> !clashes(#[trigger] self.operations@[m], path@, jv(*value)),
    {
        let mut out: Vec<usize> = Vec::new();
        let mut i: usize = 0;
        while i < self.operations.len()
            invariant
                i <= self.operations@.len(),
                forall|k: int| 0 <= k < out@.len() ==> (#[trigger] out@[k] as int) < self.operations@.len()
                    && clashes(self.operations@[out@[k] as int], path@, jv(*value)),
                out@.len() == 0 ==> forall|m: int|
                    0 <= m < i ==> !clashes(#[trigger] self.operations@[m], path@, jv(*value)),
                forall|m: int|
                    0 <= m < i && clashes(#[trigger] self.operations@[m], path@, jv(*value))
                        ==> out@.contains(m as usize),
                out@.len() > 0 ==> forall|m: int| 0 <= m < out@[0] ==> !clashes(#[trigger] self.operations@[m], path@, jv(*value)),
                out@.len() > 0 ==> out@[0] < i,
            decreases self.operations@.len() - i,
        {
            let ghost before = out@;
            if self.operations[i].field_path == *path && !json_eq(&self.operations[i].value, value) {
                out.push(i);
                proof {
                    assert(out@[out@.len() - 1] == i);
                    assert forall|m: int| 0 <= m < i + 1 && clashes(#[trigger] self.operations@[m], path@, jv(*value))
                        implies out@.contains(m as usize) by {
                        if m < i {
                            let q = choose|q: int| 0 <= q < before.len() && before[q] == m as usize;
                            assert(out@[q] == before[q]);
                        }
                    }
                }
            } else {
                proof {
                    assert forall|m: int| 0 <= m < i + 1 && clashes(#[trigger] self.operations@[m], path@, jv(*value))
                        implies out@.contains(m as usize) by {
                    }
                }
            }
            i = i + 1;
        }
        out
    }

    /// Logs `op` without making its edit: the payload and clock stay.
    fn log_only(&mut self, op: MemoryOperation)
        requires
            old(self).wf(),
            !old(self).knows(op.operation_id@),
        ensures
            final(self).wf(),
            final(self).base_memory == old(self).base_memory,
            final(self).vector_clock == old(self).vector_clock,
            final(self).merge_metadata == old(self).merge_metadata,
            final(self).operations@ == old(self).operations@.push(op),
            extends(*old(self), *final(self)),
            final(self).knows(op.operation_id@),
            forall|id: Seq<char>| old(self).knows(id) ==> #[trigger] final(self).knows(id),
    {
        let ghost before = self.operations@;
        self.operation_index.push(op.operation_id.clone());
        self.operations.push(op);
        proof {
            assert(self.operations@.subrange(0, before.len() as int) =~= before);
            assert(self.operations@[before.len() as int].operation_id@ == op.operation_id@);
            assert forall|id: Seq<char>| old(self).knows(id) implies #[trigger] self.knows(id) by {
                let i = choose|i: int| 0 <= i < before.len() && before[i].operation_id@ == id;
                assert(self.operations@[i] == before[i]);
            }
            assert forall|i: int, j: int| 0 <= i < j < self.operations@.len() implies self.operations@[i].operation_id@
                != self.operations@[j].operation_id@ by {
                if j == before.len() {
                    assert(self.operations@[i] == before[i]);
                }
            }
        }
    }

    /// Whether last-writer-wins lets `o` in over the logged operations at
    /// `hits`: only when every one of them is older. An unreadable
    /// timestamp is an error.
    fn lww_lets_in(&self, o: &MemoryOperation, hits: &Vec<usize>) -> (r: Result<bool, CrdtError>)
        requires
            self.merge_metadata.conflict_resolution_strategy == ConflictStrategy::LastWriterWins,
            forall|q: int| 0 <= q < hits@.len() ==> (#[trigger] hits@[q] as int) < self.operations@.len()
                && clashes(self.operations@[hits@[q] as int], o.field_path@, jv(o.value)),
            forall|m: int|
                0 <= m < self.operations@.len() && clashes(#[trigger] self.operations@[m], o.field_path@, jv(o.value))
                    ==> hits@.contains(m as usize),
        ensures
            r == Ok::<bool, CrdtError>(false) ==> outdated(*self, *o),
            r == Ok::<bool, CrdtError>(true) ==> !outdated(*self, *o),
            r is Err ==> failing(*self, *o),
    {
        let other_time = match parse_instant(o.timestamp.as_str()) {
            Some(t) => t,
            None => {
                return Err(CrdtError::InvalidTimestamp);
            },
        };
        let mut k: usize = 0;
        while k < hits.len()
            invariant
                k <= hits@.len(),
                instant_of(o.timestamp@) == Some(other_time as int),
                self.merge_metadata.conflict_resolution_strategy == ConflictStrategy::LastWriterWins,
                forall|q: int| 0 <= q < hits@.len() ==> (#[trigger] hits@[q] as int) < self.operations@.len()
                    && clashes(self.operations@[hits@[q] as int], o.field_path@, jv(o.value)),
                forall|q: int| 0 <= q < k ==> !keeps_out(
                    self.operations@[#[trigger] hits@[q] as int].timestamp@,
                    o.timestamp@,
                ),
            decreases hits@.len() - k,
        {
            let ours = match parse_instant(self.operations[hits[k]].timestamp.as_str()) {
                Some(t) => t,
                None => {
                    return Err(CrdtError::InvalidTimestamp);
                },
            };
            if ours >= other_time {
                proof {
                    let j = hits@[k as int] as int;
                    assert(clashes(self.operations@[j], o.field_path@, jv(o.value)));
                    assert(keeps_out(self.operations@[j].timestamp@, o.timestamp@));
                }
                return Ok(false);
            }
            k = k + 1;
        }
        let n_ops = self.operations.len();
        proof {
            assert forall|j: int|
                0 <= j < self.operations@.len() && clashes(#[trigger] self.operations@[j], o.field_path@, jv(o.value))
                implies !keeps_out(self.operations@[j].timestamp@, o.timestamp@) by {
                assert(j < n_ops);
                assert(hits@.contains(j as usize));
                let q = choose|q: int| 0 <= q < hits@.len() && hits@[q] == j as usize;
                assert(hits@[q] as int == j);
                assert(!keeps_out(self.operations@[hits@[q] as int].timestamp@, o.timestamp@));
            }
        }
        Ok(true)
    }

    /// Settles one operation from a peer: nothing when the log has it;
    /// applied when no logged operation on its field holds a different
    /// value; otherwise by the memory's strategy: under last-writer-wins it
    /// is applied when newer than every clashing logged operation, and
    /// otherwise logged without its edit; under operational transform its
    /// rewritten form is applied; under manual resolution a conflict is
    /// added to `conflicts`. Where it was already logged or waits for a
    /// person, nothing changes.
    pub fn settle_one(
        &mut self,
        o: &MemoryOperation,
        peer_id: &str,
        now: &String,
        conflicts: &mut Vec<ConflictInfo>,
    ) -> (r: Result<(), CrdtError>)
        requires
            old(self).wf(),
        ensures
            final(self).wf(),
            extends(*old(self), *final(self)),
            forall|k: Seq<char>| #[trigger] final(self).vector_clock@[k] >= old(self).vector_clock@[k],
            settled(*old(self), *o) ==> final(self).base_memory == old(self).base_memory
                && final(self).operations == old(self).operations,
            r is Ok ==> settled(*final(self), *o),
            r is Err ==> failing(*final(self), *o),
            old(self).knows(o.operation_id@) ==> r is Ok,
            old(self).base_memory.hash_matches() ==> final(self).base_memory.hash_matches(),
            forall|id: Seq<char>| old(self).knows(id) ==> #[trigger] final(self).knows(id),
            final(self).merge_metadata.merged_from == old(self).merge_metadata.merged_from,
            settle_step(*old(self), *o, peer_id@, now@, *final(self), r, old(conflicts)@, final(conflicts)@),
            old(self).knows(o.operation_id@) ==> final(conflicts)@ == old(conflicts)@,
            final(conflicts)@.len() >= old(conflicts)@.len(),
            forall|k: int| 0 <= k < old(conflicts)@.len() ==> #[trigger] final(conflicts)@[k] == old(conflicts)@[k],
            final(conflicts)@.len() > old(conflicts)@.len() ==> final(conflicts)@.len() == old(conflicts)@.len() + 1
                && old(self).merge_metadata.conflict_resolution_strategy == ConflictStrategy::ManualResolution
                && final(conflicts)@.last().remote_operation.same_as(*o)
                && final(conflicts)@.last().field_path@ == o.field_path@
                && final(conflicts)@.last().conflict_type == ConflictType::ContentMismatch,
    {
        proof {
            assert(self.operations@.subrange(0, self.operations@.len() as int) =~= self.operations@);
        }
        if self.has_operation(o.operation_id.as_str()) {
            return Ok(());
        }
        let hits = self.conflicting(&o.field_path, &o.value);
        if hits.len() == 0 {
            return self.apply_operation_at(o.copy(), peer_id, now.clone());
        }
        proof {
            let j0 = hits@[0] as int;
            assert(clashes(self.operations@[j0], o.field_path@, jv(o.value)));
            assert(has_clash(*self, *o));
            assert(first_clash(*self, *o, j0));
            assert forall|j: int| #[trigger] first_clash(*self, *o, j) implies j == j0 by {
                if j < j0 {
                } else if j > j0 {
                    assert(!clashes(self.operations@[j0], o.field_path@, jv(o.value)));
                }
            }
        }
        match self.merge_metadata.conflict_resolution_strategy {
            ConflictStrategy::LastWriterWins => {
                let lets_in = self.lww_lets_in(o, &hits)?;
                if lets_in {
                    return self.apply_operation_at(o.copy(), peer_id, now.clone());
                }
                self.log_only(o.copy());
                Ok(())
            },
            ConflictStrategy::OperationalTransform => {
                let rewritten_op = transform_operation(o, &self.operations[hits[0]]);
                let ghost t = rewritten_op;
                let ghost before = *self;
                let r = self.apply_operation_at(rewritten_op, peer_id, now.clone());
                proof {
                    assert(!before.knows(t.operation_id@));
                    assert(transformed(t, *o, before.operations@[hits@[0] as int]));
                }
                r
            },
            ConflictStrategy::ManualResolution => {
                proof {
                    let j = hits@[0] as int;
                    assert(clashes(self.operations@[j], o.field_path@, jv(o.value)));
                }
                conflicts.push(
                    ConflictInfo {
                        field_path: o.field_path.clone(),
                        local_operation: self.operations[hits[0]].copy(),
                        remote_operation: o.copy(),
                        conflict_type: ConflictType::ContentMismatch,
                    },
                );
                Ok(())
            },
        }
    }

    /// Settles each operation of `other` in turn. Afterwards every
    /// operation of `other` is applied or kept out; where that already
    /// held, nothing changes.
    fn resolve_concurrent_operations(&mut self, other: &CrdtMemory, peer_id: &str, now: &String) -> (r:
        Result<Vec<ConflictInfo>, CrdtError>)
        requires
            old(self).wf(),
        ensures
            final(self).wf(),
            extends(*old(self), *final(self)),
            forall|k: Seq<char>| #[trigger] final(self).vector_clock@[k] >= old(self).vector_clock@[k],
            (forall|i: int| 0 <= i < other.operations@.len() ==> settled(*old(self), #[trigger] other.operations@[i]))
                ==> final(self).base_memory == old(self).base_memory && final(self).operations
                == old(self).operations,
            r is Ok ==> forall|i: int| 0 <= i < other.operations@.len() ==> settled(*final(self), #[trigger] other.operations@[i]),
            r is Err ==> exists|i: int| 0 <= i < other.operations@.len() && failing(*final(self), #[trigger] other.operations@[i]),
            r matches Ok(c) ==> conflicts_from(c@, other.operations@, old(self).merge_metadata.conflict_resolution_strategy),
            (forall|i: int| 0 <= i < other.operations@.len() ==> #[trigger] old(self).knows(other.operations@[i].operation_id@))
                ==> r is Ok,
            (forall|i: int| 0 <= i < other.operations@.len() ==> settled(*old(self), #[trigger] other.operations@[i]))
                ==> r is Ok,
            old(self).base_memory.hash_matches() ==> final(self).base_memory.hash_matches(),
            forall|id: Seq<char>| old(self).knows(id) ==> #[trigger] final(self).knows(id),
            final(self).merge_metadata.merged_from == old(self).merge_metadata.merged_from,
            r matches Ok(c) ==> exists|st: Seq<CrdtMemory>, cs: Seq<Seq<ConflictInfo>>|
                #[trigger] settle_trace(*old(self), other.operations@, peer_id@, now@, st, cs)
                && st.last() == *final(self) && cs.last() == c@,
    {
        let mut conflicts: Vec<ConflictInfo> = Vec::new();
        let ghost mut st: Seq<CrdtMemory> = seq![*self];
        let ghost mut cs: Seq<Seq<ConflictInfo>> = seq![conflicts@];
        proof {
            assert(conflicts@ =~= Seq::<ConflictInfo>::empty());
        }
        let ghost all_known_r = forall|i: int| 0 <= i < other.operations@.len() ==> #[trigger] old(self).knows(other.operations@[i].operation_id@);
        let ghost all_settled = forall|i: int| 0 <= i < other.operations@.len() ==> settled(*old(self), #[trigger] other.operations@[i]);
        proof {
            assert(self.operations@.subrange(0, self.operations@.len() as int) =~= self.operations@);
        }
        let mut i: usize = 0;
        while i < other.operations.len()
            invariant
                self.wf(),
                i <= other.operations@.len(),
                all_settled == forall|i: int| 0 <= i < other.operations@.len() ==> settled(*old(self), #[trigger] other.operations@[i]),
                all_settled ==> self.base_memory == old(self).base_memory && self.operations == old(self).operations,
                extends(*old(self), *self),
                forall|k: Seq<char>| #[trigger] self.vector_clock@[k] >= old(self).vector_clock@[k],
                forall|m: int| 0 <= m < i ==> settled(*self, #[trigger] other.operations@[m]),
                conflicts_from(conflicts@, other.operations@, old(self).merge_metadata.conflict_resolution_strategy),
                all_known_r == forall|i: int| 0 <= i < other.operations@.len() ==> #[trigger] old(self).knows(other.operations@[i].operation_id@),
                old(self).base_memory.hash_matches() ==> self.base_memory.hash_matches(),
                forall|id: Seq<char>| old(self).knows(id) ==> #[trigger] self.knows(id),
                self.merge_metadata.merged_from == old(self).merge_metadata.merged_from,
                st.len() == i + 1,
                cs.len() == i + 1,
                st[0] == *old(self),
                cs[0] == Seq::<ConflictInfo>::empty(),
                st[i as int] == *self,
                cs[i as int] == conflicts@,
                forall|k: int| 0 <= k < i ==> settle_step(
                    #[trigger] st[k],
                    other.operations@[k],
                    peer_id@,
                    now@,
                    st[k + 1],
                    Ok::<(), CrdtError>(()),
                    cs[k],
                    cs[k + 1],
                ),
            decreases other.operations@.len() - i,
        {
            let ghost before = *self;
            proof {
                if all_settled {
                    assert(settled(*old(self), other.operations@[i as int]));
                    lemma_settled_kept(*old(self), *self, other.operations@[i as int]);
                }
            }
            let ghost c0 = conflicts@;
            proof {
                if all_known_r {
                    assert(old(self).knows(other.operations@[i as int].operation_id@));
                }
            }
            let step = self.settle_one(&other.operations[i], peer_id, now, &mut conflicts);
            proof {
                assert forall|k: int| 0 <= k < conflicts@.len() implies exists|m: int|
                    0 <= m < other.operations@.len() && (#[trigger] conflicts@[k]).remote_operation.same_as(other.operations@[m])
                    && conflicts@[k].field_path@ == other.operations@[m].field_path@
                    && conflicts@[k].conflict_type == ConflictType::ContentMismatch by {
                    if k < c0.len() {
                        assert(conflicts@[k] == c0[k]);
                    } else {
                        assert(conflicts@[k].remote_operation.same_as(other.operations@[i as int]));
                    }
                }
            }
            proof {
                lemma_extends_trans(*old(self), before, *self);
            }
            let ghost sr = step;
            proof {
                assert(settle_step(before, other.operations@[i as int], peer_id@, now@, *self, sr, c0, conflicts@));
                assert(st[i as int] == before);
                assert(cs[i as int] == c0);
            }
            match step {
                Ok(()) => {
                    proof {
                        assert(sr is Ok);
                        let u: () = sr->Ok_0;
                        assert(sr == Ok::<(), CrdtError>(u));
                        lemma_trace_extend(other.operations@, peer_id@, now@, st, cs, i as int, *self, conflicts@);
                        st = st.push(*self);
                        cs = cs.push(conflicts@);
                    }
                },
                Err(e) => {
                    assert(failing(*self, other.operations@[i as int]));
                    return Err(e);
                },
            }
            proof {
                assert forall|m: int| 0 <= m < i + 1 implies settled(*self, #[trigger] other.operations@[m]) by {
                    if m < i {
                        lemma_settled_kept(before, *self, other.operations@[m]);
                    }
                }
            }
            i = i + 1;
        }
        proof {
            assert(settle_trace(*old(self), other.operations@, peer_id@, now@, st, cs));
        }
        Ok(conflicts)
    }

    /// Merges a peer's copy of this memory at `now`, on behalf of
    /// `peer_id`. When this clock is behind, every operation the log lacks
    /// is applied in the peer's log order; when it is ahead or equal,
    /// nothing happens; when the clocks are concurrent, each missing
    /// operation is settled by the memory's strategy, and the conflicts
    /// left for a person are returned. The peer's contributors are then
    /// added to `merged_from`.
    pub fn merge_with_at(&mut self, other: &CrdtMemory, peer_id: &str, now: String) -> (r: Result<
        Vec<ConflictInfo>,
        CrdtError,
    >)
        requires
            old(self).wf(),
            sorted_texts(old(self).merge_metadata.merged_from@),
        ensures
            merge_post(*old(self), *other, *final(self), r is Ok),
            r is Err ==> exists|i: int| 0 <= i < other.operations@.len() && failing(*final(self), #[trigger] other.operations@[i]),
            r matches Ok(c) ==> conflicts_from(c@, other.operations@, old(self).merge_metadata.conflict_resolution_strategy),
            clock_order(old(self).vector_clock@, other.vector_clock@) == ClockOrdering::Concurrent && r is Ok
                ==> exists|st: Seq<CrdtMemory>, cs: Seq<Seq<ConflictInfo>>| #[trigger] settle_trace(
                *old(self),
                other.operations@,
                peer_id@,
                now@,
                st,
                cs,
            ) && st.last().base_memory == final(self).base_memory && st.last().operations == final(self).operations
                && (r matches Ok(c) && cs.last() == c@),
            clock_order(old(self).vector_clock@, other.vector_clock@) != ClockOrdering::Concurrent && r is Ok
                ==> (r matches Ok(c) && c@.len() == 0),
            clock_order(old(self).vector_clock@, other.vector_clock@) == ClockOrdering::Less && r is Ok && other.wf()
                ==> final(self).operations@.subrange(0, old(self).operations@.len() as int) == old(self).operations@
                && ops_match(
                final(self).operations@.subrange(old(self).operations@.len() as int, final(self).operations@.len() as int),
                unknown_to(other.operations@, *old(self)),
            ),
            clock_order(old(self).vector_clock@, other.vector_clock@) == ClockOrdering::Greater
                || clock_order(old(self).vector_clock@, other.vector_clock@) == ClockOrdering::Equal
                ==> (r matches Ok(c) && c@.len() == 0),
            r is Ok && clock_order(old(self).vector_clock@, other.vector_clock@) != ClockOrdering::Greater
                && clock_order(old(self).vector_clock@, other.vector_clock@) != ClockOrdering::Equal
                ==> text_set(final(self).merge_metadata.merged_from@) == text_set(
                old(self).merge_metadata.merged_from@,
            ) + text_set(other.merge_metadata.merged_from@),
            sorted_texts(final(self).merge_metadata.merged_from@),
    {
        let ord = self.vector_clock.compare(&other.vector_clock);
        let mut conflicts: Vec<ConflictInfo> = Vec::new();
        let ghost mut trace: (Seq<CrdtMemory>, Seq<Seq<ConflictInfo>>) = (Seq::empty(), Seq::empty());
        proof {
            assert forall|i: int| 0 <= i < other.operations@.len() && #[trigger] old(self).knows(other.operations@[i].operation_id@)
                implies settled(*old(self), other.operations@[i]) by {}
        }
        match ord {
            ClockOrdering::Less => {
                self.catch_up(other, peer_id, &now)?;
            },
            ClockOrdering::Greater | ClockOrdering::Equal => {
                return Ok(conflicts);
            },
            ClockOrdering::Concurrent => {
                conflicts = self.resolve_concurrent_operations(other, peer_id, &now)?;
                proof {
                    let (st, cs) = choose|st: Seq<CrdtMemory>, cs: Seq<Seq<ConflictInfo>>|
                        #[trigger] settle_trace(*old(self), other.operations@, peer_id@, now@, st, cs)
                        && st.last() == *self && cs.last() == conflicts@;
                    trace = (st, cs);
                }
            },
        }
        let ghost mid = *self;
        let ghost before_peers = self.merge_metadata.merged_from@;
        add_peers(&mut self.merge_metadata.merged_from, &other.merge_metadata.merged_from);
        proof {
            assert forall|id: Seq<char>| mid.knows(id) implies #[trigger] self.knows(id) by {}
            assert forall|i: int| 0 <= i < other.operations@.len() && settled(mid, #[trigger] other.operations@[i])
                implies settled(*self, other.operations@[i]) by {
                if mid.knows(other.operations@[i].operation_id@) {
                } else {
                    assert(blocked(mid, other.operations@[i]));
                }
            }
            if ord == ClockOrdering::Concurrent {
                assert(settle_trace(*old(self), other.operations@, peer_id@, now@, trace.0, trace.1));
                assert(trace.0.last().base_memory == self.base_memory);
            }
        }
        Ok(conflicts)
    }

    /// Applies, in the peer's log order, every operation of `other` that
    /// the log lacks.
    fn catch_up(&mut self, other: &CrdtMemory, peer_id: &str, now: &String) -> (r: Result<(), CrdtError>)
        requires
            old(self).wf(),
        ensures
            final(self).wf(),
            (forall|i: int| 0 <= i < other.operations@.len() ==> #[trigger] old(self).knows(other.operations@[i].operation_id@))
                ==> final(self).base_memory == old(self).base_memory && final(self).operations == old(self).operations
                && r is Ok,
            r is Ok ==> forall|i: int|
                0 <= i < other.operations@.len() ==> #[trigger] final(self).knows(other.operations@[i].operation_id@),
            r is Err ==> exists|i: int| 0 <= i < other.operations@.len() && failing(*final(self), #[trigger] other.operations@[i]),
            extends(*old(self), *final(self)),
            r is Ok && other.wf() ==> ops_match(
                final(self).operations@.subrange(old(self).operations@.len() as int, final(self).operations@.len() as int),
                unknown_to(other.operations@, *old(self)),
            ),
            forall|k: Seq<char>| #[trigger] final(self).vector_clock@[k] >= old(self).vector_clock@[k],
            forall|id: Seq<char>| old(self).knows(id) ==> #[trigger] final(self).knows(id),
            old(self).base_memory.hash_matches() ==> final(self).base_memory.hash_matches(),
            final(self).merge_metadata.conflict_resolution_strategy == old(self).merge_metadata.conflict_resolution_strategy,
            final(self).merge_metadata.merged_from == old(self).merge_metadata.merged_from,
    {
        let ghost f = |o: MemoryOperation| !old(self).knows(o.operation_id@);
        proof {
            assert(self.operations@.subrange(0, self.operations@.len() as int) =~= self.operations@);
            assert(self.operations@.subrange(self.operations@.len() as int, self.operations@.len() as int) =~= Seq::<MemoryOperation>::empty());
            assert(other.operations@.subrange(0, 0).filter(f) =~= Seq::<MemoryOperation>::empty()) by {
                reveal(Seq::filter);
            }
        }
        let ghost all_known = forall|i: int| 0 <= i < other.operations@.len() ==> #[trigger] old(self).knows(other.operations@[i].operation_id@);
        let mut i: usize = 0;
        while i < other.operations.len()
            invariant
                self.wf(),
                i <= other.operations@.len(),
                all_known == forall|i: int| 0 <= i < other.operations@.len() ==> #[trigger] old(self).knows(other.operations@[i].operation_id@),
                all_known ==> self.base_memory == old(self).base_memory && self.operations == old(self).operations,
                old(self).base_memory.hash_matches() ==> self.base_memory.hash_matches(),
                forall|id: Seq<char>| old(self).knows(id) ==> #[trigger] self.knows(id),
                forall|m: int| 0 <= m < i ==> #[trigger] self.knows(other.operations@[m].operation_id@),
                forall|k: Seq<char>| #[trigger] self.vector_clock@[k] >= old(self).vector_clock@[k],
                self.merge_metadata.conflict_resolution_strategy == old(self).merge_metadata.conflict_resolution_strategy,
                self.merge_metadata.merged_from == old(self).merge_metadata.merged_from,
                extends(*old(self), *self),
                f == (|o: MemoryOperation| !old(self).knows(o.operation_id@)),
                forall|id: Seq<char>| #[trigger] self.knows(id) ==> old(self).knows(id) || exists|m: int|
                    0 <= m < i && other.operations@[m].operation_id@ == id,
                other.wf() ==> ops_match(
                    self.operations@.subrange(old(self).operations@.len() as int, self.operations@.len() as int),
                    other.operations@.subrange(0, i as int).filter(f),
                ),
            decreases other.operations@.len() - i,
        {
            let ghost before = *self;
            let ghost oi = other.operations@[i as int];
            proof {
                other.operations@.subrange(0, i as int).lemma_filter_push(oi, f);
                assert(other.operations@.subrange(0, i as int).push(oi) =~= other.operations@.subrange(0, i + 1));
            }
            if !self.has_operation(other.operations[i].operation_id.as_str()) {
                proof {
                    if all_known {
                        assert(old(self).knows(other.operations@[i as int].operation_id@));
                    }
                }
                let step = self.apply_operation_at(other.operations[i].copy(), peer_id, now.clone());
                match step {
                    Ok(()) => {},
                    Err(e) => {
                        assert(failing(*self, oi));
                        proof {
                            lemma_extends_trans(*old(self), before, *self);
                        }
                        return Err(e);
                    },
                }
                proof {
                    lemma_extends_trans(*old(self), before, *self);
                    let n0 = old(self).operations@.len() as int;
                    assert(!old(self).knows(oi.operation_id@));
                    assert(self.operations@.len() == before.operations@.len() + 1);
                    assert(self.operations@.subrange(0, before.operations@.len() as int) == before.operations@);
                    assert(self.operations@.last().same_as(oi));
                    assert forall|id: Seq<char>| #[trigger] self.knows(id) implies old(self).knows(id) || exists|m: int|
                        0 <= m < i + 1 && other.operations@[m].operation_id@ == id by {
                        let q = choose|q: int| 0 <= q < self.operations@.len() && self.operations@[q].operation_id@ == id;
                        if q < before.operations@.len() {
                            assert(self.operations@[q] == before.operations@[q]);
                            assert(before.knows(id));
                        } else {
                            assert(id == oi.operation_id@);
                        }
                    }
                    if other.wf() {
                        let a = self.operations@.subrange(n0, self.operations@.len() as int);
                        let b0 = before.operations@.subrange(n0, before.operations@.len() as int);
                        assert forall|k: int| 0 <= k < a.len() - 1 implies a[k] == b0[k] by {
                            assert(a[k] == self.operations@[n0 + k]);
                            assert(self.operations@.subrange(0, before.operations@.len() as int)[n0 + k] == self.operations@[n0 + k]);
                        }
                        assert(a[a.len() - 1] == self.operations@.last());
                    }
                }
            } else {
                proof {
                    if other.wf() {
                        assert(self.knows(oi.operation_id@));
                        if !old(self).knows(oi.operation_id@) {
                            let m = choose|m: int| 0 <= m < i && other.operations@[m].operation_id@ == oi.operation_id@;
                        }
                    }
                    assert(extends(*old(self), *self));
                }
            }
            proof {
                assert forall|m: int| 0 <= m < i + 1 implies #[trigger] self.knows(other.operations@[m].operation_id@) by {
                    if m < i {
                        assert(before.knows(other.operations@[m].operation_id@));
                    }
                }
            }
            i = i + 1;
        }
        proof {
            assert(other.operations@.subrange(0, other.operations@.len() as int) =~= other.operations@);
        }
        Ok(())
    }

    /// Merges a peer's copy of this memory now.
    pub fn merge_with(&mut self, other: &CrdtMemory, peer_id: &str) -> (r: Result<Vec<ConflictInfo>, CrdtError>)
        requires
            old(self).wf(),
            sorted_texts(old(self).merge_metadata.merged_from@),
        ensures
            merge_post(*old(self), *other, *final(self), r is Ok),
            r is Err ==> exists|i: int| 0 <= i < other.operations@.len() && failing(*final(self), #[trigger] other.operations@[i]),
            r matches Ok(c) ==> conflicts_from(c@, other.operations@, old(self).merge_metadata.conflict_resolution_strategy),
            clock_order(old(self).vector_clock@, other.vector_clock@) != ClockOrdering::Concurrent && r is Ok
                ==> (r matches Ok(c) && c@.len() == 0),
            clock_order(old(self).vector_clock@, other.vector_clock@) == ClockOrdering::Less && r is Ok && other.wf()
                ==> final(self).operations@.subrange(0, old(self).operations@.len() as int) == old(self).operations@
                && ops_match(
                final(self).operations@.subrange(old(self).operations@.len() as int, final(self).operations@.len() as int),
                unknown_to(other.operations@, *old(self)),
            ),
            clock_order(old(self).vector_clock@, other.vector_clock@) == ClockOrdering::Greater
                || clock_order(old(self).vector_clock@, other.vector_clock@) == ClockOrdering::Equal
                ==> (r matches Ok(c) && c@.len() == 0) && *final(self) == *old(self),
            clock_order(old(self).vector_clock@, other.vector_clock@) == ClockOrdering::Concurrent && r is Ok
                ==> exists|now: Seq<char>, st: Seq<CrdtMemory>, cs: Seq<Seq<ConflictInfo>>| #[trigger] settle_trace(
                *old(self),
                other.operations@,
                peer_id@,
                now,
                st,
                cs,
            ) && st.last().base_memory == final(self).base_memory && st.last().operations == final(self).operations
                && (r matches Ok(c) && cs.last() == c@),
            sorted_texts(final(self).merge_metadata.merged_from@),
    {
        let now = crate::crypto::now_rfc3339();
        self.merge_with_at(other, peer_id, now)
    }
}

/// Merging the same memory a second time, after a merge that succeeded,
/// leaves the payload and the log as the first merge left them: every
/// operation of the other memory is then applied or kept out, and the
/// second merge succeeds.
pub proof fn lemma_merge_idempotent(a: CrdtMemory, x: CrdtMemory, b: CrdtMemory, c: CrdtMemory, ok2: bool)
    requires
        merge_post(a, x, b, true),
        merge_post(b, x, c, ok2),
    ensures
        c.base_memory == b.base_memory,
        c.operations == b.operations,
        ok2,
{
    let ord = clock_order(a.vector_clock@, x.vector_clock@);
    if ord == ClockOrdering::Less {
        assert(forall|i: int| 0 <= i < x.operations@.len() ==> #[trigger] b.knows(x.operations@[i].operation_id@));
    } else if ord == ClockOrdering::Greater || ord == ClockOrdering::Equal {
        assert(b == a);
    } else {
        assert(crate::clock::some_less(x.vector_clock@, a.vector_clock@));
        let k = choose|k: Seq<char>| x.vector_clock@[k] < a.vector_clock@[k];
        assert(b.vector_clock@[k] >= a.vector_clock@[k]);
        assert(crate::clock::some_less(x.vector_clock@, b.vector_clock@));
        assert(forall|i: int| 0 <= i < x.operations@.len() ==> settled(b, #[trigger] x.operations@[i]));
    }
}

/// The CRDT state of every memory a node holds, by memory id.
#[derive(Debug)]
pub struct CrdtManager {
    pub peer_id: String,
    pub memories: Vec<(String, CrdtMemory)>,
}

/// The position of the first entry for `id`.
pub open spec fn entry_pos(s: Seq<(String, CrdtMemory)>, id: Seq<char>) -> Option<int> {
    crate::store::first_with(s, |e: (String, CrdtMemory)| e.0@, id)
}

impl CrdtManager {
    /// Every memory's payload matches its content hash.
    pub open spec fn hashes_ok(&self) -> bool {
        forall|i: int| 0 <= i < self.memories@.len() ==> (#[trigger] self.memories@[i]).1.base_memory.hash_matches()
    }

    /// Every memory's state is well formed.
    pub open spec fn wf(&self) -> bool {
        forall|i: int|
            0 <= i < self.memories@.len() ==> (#[trigger] self.memories@[i]).1.wf()
                && sorted_texts(self.memories@[i].1.merge_metadata.merged_from@)
    }

    pub fn new(peer_id: String) -> (r: CrdtManager)
        ensures
            r.wf(),
            r.peer_id == peer_id,
            r.memories@.len() == 0,
    {
        CrdtManager { peer_id, memories: Vec::new() }
    }

    fn find(&self, id: &str) -> (r: Option<usize>)
        ensures
            match r {
                Some(i) => entry_pos(self.memories@, id@) == Some(i as int) && i < self.memories@.len(),
                None => entry_pos(self.memories@, id@) is None,
            },
    {
        let ghost key = |e: (String, CrdtMemory)| e.0@;
        let mut i: usize = 0;
        while i < self.memories.len()
            invariant
                i <= self.memories@.len(),
                key == (|e: (String, CrdtMemory)| e.0@),
                crate::store::first_with(self.memories@.subrange(0, i as int), key, id@) is None,
            decreases self.memories@.len() - i,
        {
            proof {
                crate::store::lemma_first_with_step(self.memories@, key, id@, i as int);
            }
            if str_eq(self.memories[i].0.as_str(), id) {
                proof {
                    crate::store::lemma_first_with_prefix(self.memories@, key, id@, i + 1);
                }
                return Some(i);
            }
            i = i + 1;
        }
        proof {
            assert(self.memories@.subrange(0, self.memories@.len() as int) =~= self.memories@);
        }
        None
    }

    /// Puts `memory` under CRDT control, replacing any state for its id,
    /// and returns the id.
    pub fn add_memory(&mut self, memory: SignedMemory) -> (r: String)
        requires
            old(self).wf(),
        ensures
            final(self).wf(),
            r@ == memory.id@,
            final(self).peer_id == old(self).peer_id,
            final(self).memories@.len() >= old(self).memories@.len(),
            forall|j: int| 0 <= j < old(self).memories@.len() ==> #[trigger] final(self).memories@[j].0@
                == old(self).memories@[j].0@,
            exists|j: int| 0 <= j < final(self).memories@.len() && #[trigger] final(self).memories@[j].0@ == memory.id@,
    {
        let id = memory.id.clone();
        let state = CrdtMemory::new(memory, self.peer_id.as_str());
        let ghost st = state;
        match self.find(id.as_str()) {
            Some(i) => {
                self.memories.set(i, (id.clone(), state));
                proof {
                    crate::store::lemma_first_with_found(old(self).memories@, |e: (String, CrdtMemory)| e.0@, id@);
                    assert(self.memories@[i as int].0@ == memory.id@);
                    assert(forall|j: int| 0 <= j < old(self).memories@.len() && j != i ==> self.memories@[j] == old(self).memories@[j]);
                    assert forall|j: int| 0 <= j < self.memories@.len() implies (#[trigger] self.memories@[j]).1.wf()
                        && sorted_texts(self.memories@[j].1.merge_metadata.merged_from@) by {
                        if j != i {
                            assert(self.memories@[j] == old(self).memories@[j]);
                        } else {
                            assert(self.memories@[j].1 == st);
                        }
                    }
                }
            },
            None => {
                self.memories.push((id.clone(), state));
                proof {
                    assert(self.memories@[self.memories@.len() - 1].0@ == memory.id@);
                    assert(forall|j: int| 0 <= j < old(self).memories@.len() ==> self.memories@[j] == old(self).memories@[j]);
                    assert forall|j: int| 0 <= j < self.memories@.len() implies (#[trigger] self.memories@[j]).1.wf()
                        && sorted_texts(self.memories@[j].1.merge_metadata.merged_from@) by {
                        if j < old(self).memories@.len() {
                            assert(self.memories@[j] == old(self).memories@[j]);
                        } else {
                            assert(self.memories@[j].1 == st);
                        }
                    }
                }
            },
        }
        id
    }

    /// The state of memory `memory_id`.
    pub fn get_memory(&self, memory_id: &str) -> (r: Option<&CrdtMemory>)
        ensures
            match entry_pos(self.memories@, memory_id@) {
                Some(i) => r == Some(&self.memories@[i].1),
                None => r is None,
            },
    {
        match self.find(memory_id) {
            Some(i) => Some(&self.memories[i].1),
            None => None,
        }
    }

    /// Sets `value` at `field_path` of memory `memory_id` by a fresh Set
    /// operation whose clock is the memory's clock with this node's counter
    /// bumped. An unknown memory is left alone.
    pub fn update_memory(&mut self, memory_id: &str, field_path: &str, value: JsonValue) -> (r: Result<
        (),
        CrdtError,
    >)
        requires
            old(self).wf(),
        ensures
            final(self).wf(),
            entry_pos(old(self).memories@, memory_id@) is None ==> r is Ok && final(self).memories
                == old(self).memories,
            final(self).peer_id == old(self).peer_id,
            entry_pos(old(self).memories@, memory_id@) matches Some(i) ==> {
                &&& final(self).memories@.len() == old(self).memories@.len()
                &&& final(self).memories@[i].0 == old(self).memories@[i].0
                &&& forall|j: int| 0 <= j < old(self).memories@.len() && j != i
                    ==> #[trigger] final(self).memories@[j] == old(self).memories@[j]
                &&& exists|op: MemoryOperation| {
                    &&& #[trigger] op.operation_type == OperationType::SetField
                    &&& op.field_path@ == field_path@
                    &&& jv(op.value) == jv(value)
                    &&& op.vector_clock@ == bumped(old(self).memories@[i].1.vector_clock@, old(self).peer_id@)
                    &&& old(self).memories@[i].1.knows(op.operation_id@) ==> r is Ok
                        && final(self).memories@[i].1 == old(self).memories@[i].1
                    &&& !old(self).memories@[i].1.knows(op.operation_id@) ==> exists|now: Seq<char>|
                        applied(old(self).memories@[i].1, op, old(self).peer_id@, now, final(self).memories@[i].1, r)
                }
            },
    {
        match self.find(memory_id) {
            Some(i) => {
                let (key, mut state) = self.memories.remove(i);
                let mut clock = state.vector_clock.copy();
                clock.increment(self.peer_id.as_str());
                let operation = MemoryOperation {
                    operation_id: crate::crypto::new_uuid(),
                    operation_type: OperationType::SetField,
                    field_path: owned(field_path),
                    value,
                    vector_clock: clock,
                    timestamp: crate::crypto::now_rfc3339(),
                };
                let ghost g = operation;
                let result = state.apply_operation(operation, self.peer_id.as_str());
                let ghost st = state;
                self.memories.insert(i, (key, state));
                proof {
                    assert(self.memories@[i as int].1 == st);
                    assert(g.operation_type == OperationType::SetField);
                    assert forall|j: int| 0 <= j < old(self).memories@.len() && j != i
                        implies #[trigger] self.memories@[j] == old(self).memories@[j] by {
                        if j < i {
                            assert(self.memories@[j] == old(self).memories@[j]);
                        } else {
                            assert(self.memories@[j] == old(self).memories@[j]);
                        }
                    }
                    assert forall|j: int| 0 <= j < self.memories@.len() implies (#[trigger] self.memories@[j]).1.wf()
                        && sorted_texts(self.memories@[j].1.merge_metadata.merged_from@) by {
                        if j < i {
                            assert(self.memories@[j] == old(self).memories@[j]);
                        } else if j > i {
                            assert(self.memories@[j] == old(self).memories@[j]);
                        }
                    }
                }
                result
            },
            None => Ok(()),
        }
    }

    /// Merges a peer's state of memory `memory_id`; a memory not held yet
    /// is taken over as it is.
    pub fn merge_memory(&mut self, memory_id: &str, remote_memory: CrdtMemory) -> (r: Result<
        Vec<ConflictInfo>,
        CrdtError,
    >)
        requires
            old(self).wf(),
            remote_memory.wf(),
            sorted_texts(remote_memory.merge_metadata.merged_from@),
        ensures
            final(self).wf(),
            entry_pos(old(self).memories@, memory_id@) is None ==> (r matches Ok(c) && c@.len() == 0)
                && final(self).memories@.len() == old(self).memories@.len() + 1,
            old(self).hashes_ok() && remote_memory.base_memory.hash_matches() ==> final(self).hashes_ok(),
            final(self).memories@.len() >= old(self).memories@.len(),
            forall|j: int| 0 <= j < old(self).memories@.len() ==> #[trigger] final(self).memories@[j].0 == old(self).memories@[j].0,
            exists|j: int| 0 <= j < final(self).memories@.len() && #[trigger] final(self).memories@[j].0@ == memory_id@,
            entry_pos(old(self).memories@, memory_id@) is None ==> final(self).memories@.last().1 == remote_memory
                && final(self).memories@.last().0@ == memory_id@
                && final(self).memories@.len() == old(self).memories@.len() + 1
                && (forall|j: int| 0 <= j < old(self).memories@.len() ==> #[trigger] final(self).memories@[j] == old(self).memories@[j]),
            final(self).peer_id == old(self).peer_id,
            entry_pos(old(self).memories@, memory_id@) matches Some(i) ==> final(self).memories@.len() == old(self).memories@.len()
                && (forall|j: int| 0 <= j < old(self).memories@.len() && j != i ==> #[trigger] final(self).memories@[j] == old(self).memories@[j]),
            entry_pos(old(self).memories@, memory_id@) matches Some(i) ==> (r is Err ==> exists|k: int|
                0 <= k < remote_memory.operations@.len() && failing(final(self).memories@[i].1, #[trigger] remote_memory.operations@[k])),
            entry_pos(old(self).memories@, memory_id@) matches Some(i) ==> merge_post(
                old(self).memories@[i].1,
                remote_memory,
                final(self).memories@[i].1,
                r is Ok,
            ),
    {
        match self.find(memory_id) {
            Some(i) => {
                let (key, mut state) = self.memories.remove(i);
                let result = state.merge_with(&remote_memory, self.peer_id.as_str());
                let ghost st = state;
                self.memories.insert(i, (key, state));
                proof {
                    crate::store::lemma_first_with_found(old(self).memories@, |e: (String, CrdtMemory)| e.0@, memory_id@);
                    assert(self.memories@[i as int].0@ == memory_id@);
                    assert(self.memories@[i as int].1 == st);
                    if old(self).hashes_ok() {
                        assert(old(self).memories@[i as int].1.base_memory.hash_matches());
                        assert forall|j: int| 0 <= j < self.memories@.len() implies (#[trigger] self.memories@[j]).1.base_memory.hash_matches() by {
                            if j < i {
                                assert(self.memories@[j] == old(self).memories@[j]);
                            } else if j > i {
                                assert(self.memories@[j] == old(self).memories@[j]);
                            }
                        }
                    }
                    assert forall|j: int| 0 <= j < self.memories@.len() implies (#[trigger] self.memories@[j]).1.wf()
                        && sorted_texts(self.memories@[j].1.merge_metadata.merged_from@) by {
                        if j < i {
                            assert(self.memories@[j] == old(self).memories@[j]);
                        } else if j > i {
                            assert(self.memories@[j] == old(self).memories@[j]);
                        }
                    }
                }
                result
            },
            None => {
                let ghost rm = remote_memory;
                self.memories.push((owned(memory_id), remote_memory));
                proof {
                    assert(self.memories@[self.memories@.len() - 1].1 == rm);
                    assert(self.memories@[self.memories@.len() - 1].0@ == memory_id@);
                    assert forall|j: int| 0 <= j < self.memories@.len() implies (#[trigger] self.memories@[j]).1.wf()
                        && sorted_texts(self.memories@[j].1.merge_metadata.merged_from@) by {
                        if j < old(self).memories@.len() {
                            assert(self.memories@[j] == old(self).memories@[j]);
                        }
                    }
                    if old(self).hashes_ok() && rm.base_memory.hash_matches() {
                        assert forall|j: int| 0 <= j < self.memories@.len() implies (#[trigger] self.memories@[j]).1.base_memory.hash_matches() by {
                            if j < old(self).memories@.len() {
                                assert(self.memories@[j] == old(self).memories@[j]);
                            }
                        }
                    }
                }
                Ok(Vec::new())
            },
        }
    }

    /// Sets how memory `memory_id` settles conflicts; an unknown memory is
    /// left alone.
    pub fn set_strategy(&mut self, memory_id: &str, strategy: ConflictStrategy)
        requires
            old(self).wf(),
        ensures
            final(self).wf(),
            final(self).memories@.len() == old(self).memories@.len(),
            entry_pos(old(self).memories@, memory_id@) matches Some(i) ==> final(self).memories@[i].1.merge_metadata.conflict_resolution_strategy == strategy,
    {
        match self.find(memory_id) {
            Some(i) => {
                let (key, mut state) = self.memories.remove(i);
                state.merge_metadata.conflict_resolution_strategy = strategy;
                let ghost st = state;
                self.memories.insert(i, (key, state));
                proof {
                    assert(self.memories@[i as int].1 == st);
                    assert forall|j: int| 0 <= j < self.memories@.len() implies (#[trigger] self.memories@[j]).1.wf()
                        && sorted_texts(self.memories@[j].1.merge_metadata.merged_from@) by {
                        if j < i {
                            assert(self.memories@[j] == old(self).memories@[j]);
                        } else if j > i {
                            assert(self.memories@[j] == old(self).memories@[j]);
                        }
                    }
                }
            },
            None => {},
        }
    }

    /// The ids of memories whose conflicts are settled by hand, in order.
    pub fn list_conflicts(&self) -> (r: Vec<String>)
        ensures
            r@.map_values(|x: String| x@) == manual_ids(self.memories@),
    {
        let mut out: Vec<String> = Vec::new();
        let mut i: usize = 0;
        while i < self.memories.len()
            invariant
                i <= self.memories@.len(),
                out@.map_values(|x: String| x@) == manual_ids(self.memories@.subrange(0, i as int)),
            decreases self.memories@.len() - i,
        {
            let ghost before = out@;
            proof {
                assert(self.memories@.subrange(0, i + 1).drop_last() =~= self.memories@.subrange(0, i as int));
            }
            if self.memories[i].1.merge_metadata.conflict_resolution_strategy
                == ConflictStrategy::ManualResolution {
                out.push(self.memories[i].0.clone());
                proof {
                    assert(out@.map_values(|x: String| x@) =~= before.map_values(|x: String| x@).push(self.memories@[i as int].0@));
                }
            }
            i = i + 1;
        }
        assert(self.memories@.subrange(0, self.memories@.len() as int) =~= self.memories@);
        out
    }
}

/// The ids of the memories whose conflicts are settled by hand.
pub open spec fn manual_ids(s: Seq<(String, CrdtMemory)>) -> Seq<Seq<char>>
    decreases s.len(),
{
    if s.len() == 0 {
        Seq::empty()
    } else {
        let rest = manual_ids(s.drop_last());
        if s.last().1.merge_metadata.conflict_resolution_strategy == ConflictStrategy::ManualResolution {
            rest.push(s.last().0@)
        } else {
            rest
        }
    }
}

} // verus!
