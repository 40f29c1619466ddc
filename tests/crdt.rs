use ocm_core::clock::{ClockOrdering, VectorClock};
use ocm_core::crdt::{ConflictStrategy, CrdtManager, CrdtMemory, MemoryOperation, OperationType};
use ocm_core::json::JsonValue;
use ocm_core::memory::SignedMemory;
use ocm_core::store::MemoryStore;
use ocm_core::sync::{build_sync_request, handle_sync_request, handle_sync_response, SyncState};

const T: &str = "2024-01-01T00:00:00+00:00";
const T1: &str = "2024-01-01T00:00:01+00:00";

fn base() -> SignedMemory {
    SignedMemory::with_fields(
        "mem-1".to_string(),
        "did:plc:alice",
        "individual",
        "{\"first_name\":\"Test\"}",
        T.to_string(),
    )
}

fn set_op(state: &CrdtMemory, peer: &str, id: &str, path: &str, value: &str, ts: &str) -> MemoryOperation {
    let mut clock = state.vector_clock.copy();
    clock.increment(peer);
    MemoryOperation {
        operation_id: id.to_string(),
        operation_type: OperationType::SetField,
        field_path: path.to_string(),
        value: JsonValue::parse(value).unwrap(),
        vector_clock: clock,
        timestamp: ts.to_string(),
    }
}

fn first_name(m: &CrdtMemory) -> String {
    let v: serde_json::Value = serde_json::from_str(&m.base_memory.memory_data).unwrap();
    v["first_name"].as_str().unwrap().to_string()
}

#[test]
fn clock_compare_cases() {
    let mut a = VectorClock::new();
    let mut b = VectorClock::new();
    assert_eq!(a.compare(&b), ClockOrdering::Equal);
    a.increment("p");
    assert_eq!(a.compare(&b), ClockOrdering::Greater);
    assert_eq!(b.compare(&a), ClockOrdering::Less);
    b.increment("q");
    assert_eq!(a.compare(&b), ClockOrdering::Concurrent);
    // a missing peer counts as zero
    let mut c = VectorClock::new();
    c.clock.push(("r".to_string(), 0));
    assert_eq!(c.compare(&VectorClock::new()), ClockOrdering::Equal);
}

#[test]
fn clock_update_is_idempotent() {
    let mut a = VectorClock::new();
    a.increment("p");
    let mut c = VectorClock::new();
    c.increment("p");
    c.increment("p");
    c.increment("q");
    a.update(&c);
    let once = a.copy();
    a.update(&c);
    assert_eq!(a.compare(&once), ClockOrdering::Equal);
    assert_eq!(a.get(&"p".to_string()), 2);
    assert_eq!(a.get(&"q".to_string()), 1);
    assert_eq!(a.get(&"z".to_string()), 0);
}

#[test]
fn set_delete_append_merge_edit_the_payload() {
    let mut m = CrdtMemory::with_time(base(), "A", T.to_string());
    let op = set_op(&m, "A", "op1", "address.city", "\"Paris\"", T);
    m.apply_operation_at(op, "A", T1.to_string()).unwrap();
    assert_eq!(m.base_memory.memory_data, "{\"address\":{\"city\":\"Paris\"},\"first_name\":\"Test\"}");
    assert!(m.base_memory.verify_hash());
    assert_eq!(m.base_memory.updated_on, T1);

    let mut del = set_op(&m, "A", "op2", "address.city", "null", T);
    del.operation_type = OperationType::Delete;
    m.apply_operation_at(del, "A", T1.to_string()).unwrap();
    assert_eq!(m.base_memory.memory_data, "{\"address\":{},\"first_name\":\"Test\"}");

    let mut app = set_op(&m, "A", "op3", "first_name", "\"!\"", T);
    app.operation_type = OperationType::Append;
    m.apply_operation_at(app, "A", T1.to_string()).unwrap();
    assert_eq!(first_name(&m), "Test!");

    let mut mer = set_op(&m, "A", "op4", "address", "{\"zip\":\"75001\"}", T);
    mer.operation_type = OperationType::Merge;
    m.apply_operation_at(mer, "A", T1.to_string()).unwrap();
    assert_eq!(m.base_memory.memory_data, "{\"address\":{\"zip\":\"75001\"},\"first_name\":\"Test!\"}");
    assert_eq!(m.operations.len(), 4);

    // a Set through a text fails and changes nothing
    let bad = set_op(&m, "A", "op5", "first_name.x", "1", T);
    assert!(m.apply_operation_at(bad, "A", T1.to_string()).is_err());
    assert_eq!(m.operations.len(), 4);

    // the same operation twice is applied once
    let again = set_op(&m, "A", "op1", "first_name", "\"Other\"", T);
    m.apply_operation_at(again, "A", T1.to_string()).unwrap();
    assert_eq!(first_name(&m), "Test!");
}

#[test]
fn disjoint_sets_commute() {
    let mut m1 = CrdtMemory::with_time(base(), "A", T.to_string());
    let mut m2 = CrdtMemory::with_time(base(), "A", T.to_string());
    let a = set_op(&m1, "A", "a", "zeta", "1", T);
    let b = set_op(&m1, "A", "b", "alpha.beta", "2", T);
    m1.apply_operation_at(a.copy(), "A", T.to_string()).unwrap();
    m1.apply_operation_at(b.copy(), "A", T.to_string()).unwrap();
    m2.apply_operation_at(b, "A", T.to_string()).unwrap();
    m2.apply_operation_at(a, "A", T.to_string()).unwrap();
    assert_eq!(m1.base_memory.memory_data, m2.base_memory.memory_data);
    assert_eq!(m1.base_memory.content_hash, m2.base_memory.content_hash);
}

#[test]
fn last_writer_wins_reconciliation() {
    let mut a = CrdtMemory::with_time(base(), "A", T.to_string());
    let mut b = CrdtMemory::with_time(base(), "B", T.to_string());
    let op_a = set_op(&a, "A", "opA", "first_name", "\"Early\"", T);
    let op_b = set_op(&b, "B", "opB", "first_name", "\"Late\"", T1);
    a.apply_operation_at(op_a, "A", T.to_string()).unwrap();
    b.apply_operation_at(op_b, "B", T1.to_string()).unwrap();
    assert_eq!(a.vector_clock.compare(&b.vector_clock), ClockOrdering::Concurrent);

    let snapshot_a = CrdtMemory::with_time(a.base_memory.copy(), "A", T.to_string());
    let _ = snapshot_a;
    let a_ops: Vec<MemoryOperation> = a.operations.iter().map(|o| o.copy()).collect();
    let mut a_copy = CrdtMemory::with_time(base(), "A", T.to_string());
    for o in a_ops {
        a_copy.apply_operation_at(o, "A", T.to_string()).unwrap();
    }

    let conflicts = a.merge_with_at(&b, "A", T1.to_string()).unwrap();
    assert!(conflicts.is_empty());
    let conflicts = b.merge_with_at(&a_copy, "B", T1.to_string()).unwrap();
    assert!(conflicts.is_empty());
    assert_eq!(first_name(&a), "Late");
    assert_eq!(first_name(&b), "Late");
    assert_eq!(a.base_memory.content_hash, b.base_memory.content_hash);
    assert_eq!(a.operations.len(), 2);
    // the losing operation is logged on b as well, without its edit
    assert_eq!(b.operations.len(), 2);
    assert!(b.operations.iter().any(|o| o.operation_id == "opA"));
    assert!(a.merge_metadata.merged_from.contains(&"B".to_string()));
}

#[test]
fn operational_transform_combines_texts() {
    let mut a = CrdtMemory::with_time(base(), "A", T.to_string());
    let mut b = CrdtMemory::with_time(base(), "B", T.to_string());
    a.merge_metadata.conflict_resolution_strategy = ConflictStrategy::OperationalTransform;
    b.merge_metadata.conflict_resolution_strategy = ConflictStrategy::OperationalTransform;
    let op_a = set_op(&a, "A", "opA", "first_name", "\"A\"", T);
    let op_b = set_op(&b, "B", "opB", "first_name", "\"B\"", T);
    let a_op_copy = op_a.copy();
    let b_op_copy = op_b.copy();
    a.apply_operation_at(op_a, "A", T.to_string()).unwrap();
    b.apply_operation_at(op_b, "B", T.to_string()).unwrap();
    let mut a_snapshot = CrdtMemory::with_time(base(), "A", T.to_string());
    a_snapshot.apply_operation_at(a_op_copy, "A", T.to_string()).unwrap();
    let mut b_snapshot = CrdtMemory::with_time(base(), "B", T.to_string());
    b_snapshot.apply_operation_at(b_op_copy, "B", T.to_string()).unwrap();
    a.merge_with_at(&b_snapshot, "A", T.to_string()).unwrap();
    b.merge_with_at(&a_snapshot, "B", T.to_string()).unwrap();
    assert_eq!(first_name(&a), "A | B");
    assert_eq!(first_name(&b), "B | A");
}

#[test]
fn manual_resolution_records_conflicts() {
    let mut a = CrdtMemory::with_time(base(), "A", T.to_string());
    a.merge_metadata.conflict_resolution_strategy = ConflictStrategy::ManualResolution;
    let mut b = CrdtMemory::with_time(base(), "B", T.to_string());
    let op_a = set_op(&a, "A", "opA", "first_name", "\"A\"", T);
    let op_b = set_op(&b, "B", "opB", "first_name", "\"B\"", T1);
    a.apply_operation_at(op_a, "A", T.to_string()).unwrap();
    b.apply_operation_at(op_b, "B", T1.to_string()).unwrap();
    let conflicts = a.merge_with_at(&b, "A", T1.to_string()).unwrap();
    assert_eq!(conflicts.len(), 1);
    assert_eq!(conflicts[0].field_path, "first_name");
    assert_eq!(first_name(&a), "A");
}

#[test]
fn merging_twice_changes_nothing_more() {
    let mut ahead = CrdtMemory::with_time(base(), "A", T.to_string());
    let op = set_op(&ahead, "A", "op1", "first_name", "\"New\"", T1);
    ahead.apply_operation_at(op, "A", T1.to_string()).unwrap();
    let mut behind = CrdtMemory::with_time(base(), "A", T.to_string());
    assert_eq!(behind.vector_clock.compare(&ahead.vector_clock), ClockOrdering::Less);
    behind.merge_with_at(&ahead, "A", T1.to_string()).unwrap();
    let data = behind.base_memory.memory_data.clone();
    let n = behind.operations.len();
    behind.merge_with_at(&ahead, "A", T1.to_string()).unwrap();
    assert_eq!(behind.base_memory.memory_data, data);
    assert_eq!(behind.operations.len(), n);
    assert_eq!(first_name(&behind), "New");
}

#[test]
fn merging_concurrent_twice_changes_nothing_more() {
    let mut a = CrdtMemory::with_time(base(), "A", T.to_string());
    let mut b = CrdtMemory::with_time(base(), "B", T.to_string());
    let op_a = set_op(&a, "A", "opA", "first_name", "\"Late\"", T1);
    let op_b = set_op(&b, "B", "opB", "first_name", "\"Early\"", T);
    let op_c = set_op(&b, "B", "opC", "nickname", "\"J\"", T);
    a.apply_operation_at(op_a, "A", T1.to_string()).unwrap();
    b.apply_operation_at(op_b, "B", T.to_string()).unwrap();
    b.apply_operation_at(op_c, "B", T.to_string()).unwrap();
    a.merge_with_at(&b, "A", T1.to_string()).unwrap();
    let data = a.base_memory.memory_data.clone();
    let n = a.operations.len();
    assert_eq!(n, 3);
    assert_eq!(first_name(&a), "Late");
    a.merge_with_at(&b, "A", T1.to_string()).unwrap();
    assert_eq!(a.base_memory.memory_data, data);
    assert_eq!(a.operations.len(), n);
}

#[test]
fn manager_merges_and_lists_conflicts() {
    let mut mgr = CrdtManager::new("A".to_string());
    let id = mgr.add_memory(base());
    assert_eq!(id, "mem-1");
    mgr.update_memory("mem-1", "first_name", JsonValue::parse("\"Zed\"").unwrap()).unwrap();
    assert_eq!(first_name(mgr.get_memory("mem-1").unwrap()), "Zed");
    assert!(mgr.list_conflicts().is_empty());
    assert!(mgr.update_memory("nope", "x", JsonValue::parse("1").unwrap()).is_ok());
}

#[test]
fn json_text_round_trip() {
    let v = JsonValue::parse("{\"b\":[1,2.5,true,null],\"a\":\"x\"}").unwrap();
    assert_eq!(v.to_text(), "{\"a\":\"x\",\"b\":[1,2.5,true,null]}");
    assert!(JsonValue::parse("{not json").is_none());
}

fn memory(id: &str, data: &str) -> SignedMemory {
    SignedMemory::with_fields(id.to_string(), "did:plc:x", "individual", data, T.to_string())
}

#[test]
fn hash_diff_sync() {
    let m1 = memory("1", "{\"n\":1}");
    let m2 = memory("2", "{\"n\":2}");
    let m3 = memory("3", "{\"n\":3}");
    let m4 = memory("4", "{\"n\":4}");
    let mut store_a = MemoryStore::new();
    let mut store_b = MemoryStore::new();
    for m in [&m1, &m2, &m3] {
        store_a.put_memory(m.copy()).unwrap();
    }
    for m in [&m2, &m3, &m4] {
        store_b.put_memory(m.copy()).unwrap();
    }
    let req = build_sync_request(&"A".to_string(), &store_a.memories, None);
    assert_eq!(req.known_memory_hashes.len(), 3);
    let resp = handle_sync_request(&"B".to_string(), &store_b.memories, &req);
    assert_eq!(resp.memories.len(), 1);
    assert_eq!(resp.memories[0].id, "4");
    assert_eq!(resp.missing_hashes, vec![m1.content_hash.clone()]);

    let mut mgr_a = CrdtManager::new("A".to_string());
    let mut state = SyncState::new();
    assert!(state.begin_sync(&"B".to_string()));
    assert!(!state.begin_sync(&"B".to_string()));
    let outcome = handle_sync_response(&mut mgr_a, &mut store_a, &mut state, resp, 1_704_067_200);
    assert_eq!(outcome.stored, 1);
    assert_eq!(outcome.to_send.len(), 1);
    assert_eq!(outcome.to_send[0].id, "1");
    assert!(state.sync_in_progress.is_empty());
    for m in outcome.to_send {
        store_b.put_memory(m).unwrap();
    }
    let mut hashes_a: Vec<String> = store_a.memories.iter().map(|m| m.content_hash.clone()).collect();
    let mut hashes_b: Vec<String> = store_b.memories.iter().map(|m| m.content_hash.clone()).collect();
    hashes_a.sort();
    hashes_b.sort();
    assert_eq!(hashes_a.len(), 4);
    assert_eq!(hashes_a, hashes_b);
}
