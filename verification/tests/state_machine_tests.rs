use url_shortener::chunk::compute_hash;
use url_shortener::ordered::{StringMap, StringSet};
use url_shortener::state_machine::{snapshot_id, SnapshotError, StateMachineData, StateMachineStore};
use url_shortener::types::{
    ChunkReference, Entry, EntryPayload, LeaderId, LogId, LongUrlEntry, Membership, SnapshotManifest,
};

fn log_id(term: u64, node: u64, index: u64) -> LogId {
    LogId { leader_id: LeaderId { term, node_id: node }, index }
}

fn store_with_writes(pairs: &[(&str, &str)]) -> StateMachineStore {
    let mut store = StateMachineStore::new();
    for (k, v) in pairs {
        store.data.new_writes_kvs.insert(k.to_string(), v.to_string());
    }
    store
}

#[test]
fn string_map_keeps_last_value_in_key_order() {
    let mut m = StringMap::new();
    assert!(m.is_empty());
    m.insert("b".to_string(), "2".to_string());
    m.insert("a".to_string(), "1".to_string());
    m.insert("c".to_string(), "3".to_string());
    m.insert("b".to_string(), "20".to_string());
    assert!(!m.is_empty());
    assert_eq!(m.get("b"), Some("20".to_string()));
    assert_eq!(m.get("z"), None);
    let pairs: Vec<(String, String)> = m.to_pairs();
    let keys: Vec<&str> = pairs.iter().map(|p| p.0.as_str()).collect();
    assert_eq!(keys, vec!["a", "b", "c"]);
    m.clear();
    assert!(m.is_empty());
}

#[test]
fn string_map_insert_all_prefers_other() {
    let mut h = StringMap::new();
    h.insert("k".to_string(), "old".to_string());
    h.insert("x".to_string(), "keep".to_string());
    let mut w = StringMap::new();
    w.insert("k".to_string(), "new".to_string());
    w.insert("y".to_string(), "added".to_string());
    h.insert_all(&w);
    assert_eq!(h.get("k"), Some("new".to_string()));
    assert_eq!(h.get("x"), Some("keep".to_string()));
    assert_eq!(h.get("y"), Some("added".to_string()));
}

#[test]
fn string_set_lists_in_order() {
    let mut s = StringSet::new();
    assert!(s.is_empty());
    s.insert("m".to_string());
    s.insert("a".to_string());
    s.insert("m".to_string());
    s.insert("z".to_string());
    assert!(s.contains("a"));
    assert!(!s.contains("b"));
    assert_eq!(s.items(), vec!["a".to_string(), "m".to_string(), "z".to_string()]);
}

#[test]
fn test_apply_entries_updates_new_writes() {
    let mut store = StateMachineStore::new();
    let entry = Entry {
        log_id: log_id(1, 1, 1),
        payload: EntryPayload::Normal(LongUrlEntry::new(123, "http://example.com".to_string(), 1)),
    };
    let responses = store.data.apply(vec![entry]);
    assert_eq!(responses.len(), 1);
    assert_eq!(responses[0].clone().short_url.unwrap(), "123");
    assert_eq!(store.data.new_writes_kvs.get("123").unwrap(), "http://example.com");
}

#[test]
fn apply_answers_every_entry_and_tracks_state() {
    let mut data = StateMachineData::new();
    let members = Membership { configs: vec![vec![1, 2]], nodes: vec![] };
    let entries = vec![
        Entry { log_id: log_id(1, 1, 1), payload: EntryPayload::Blank },
        Entry { log_id: log_id(1, 1, 2), payload: EntryPayload::Normal(LongUrlEntry::new(7, "a".to_string(), 1)) },
        Entry { log_id: log_id(1, 1, 3), payload: EntryPayload::Membership(members) },
        Entry { log_id: log_id(1, 1, 4), payload: EntryPayload::Normal(LongUrlEntry::new(7, "b".to_string(), 1)) },
    ];
    let responses = data.apply(entries);
    assert_eq!(responses.len(), 4);
    assert!(responses[0].short_url.is_none() && responses[0].value.is_none());
    assert_eq!(responses[1].short_url.as_deref(), Some("7"));
    assert!(responses[2].short_url.is_none());
    assert_eq!(data.lookup("7"), Some("b".to_string()));
    assert_eq!(data.last_applied_log_id, Some(log_id(1, 1, 4)));
    assert_eq!(data.last_membership.log_id, Some(log_id(1, 1, 3)));
    assert_eq!(data.last_membership.membership.configs, vec![vec![1, 2]]);
}

#[test]
fn apply_nothing_keeps_last_applied() {
    let mut data = StateMachineData::new();
    let responses = data.apply(Vec::new());
    assert!(responses.is_empty());
    assert_eq!(data.last_applied_log_id, None);
}

#[test]
fn lookup_prefers_recent_writes() {
    let mut data = StateMachineData::new();
    data.historical_kvs.insert("k".to_string(), "old".to_string());
    data.historical_kvs.insert("h".to_string(), "hist".to_string());
    data.new_writes_kvs.insert("k".to_string(), "new".to_string());
    assert_eq!(data.lookup("k"), Some("new".to_string()));
    assert_eq!(data.lookup("h"), Some("hist".to_string()));
    assert_eq!(data.lookup("none"), None);
}

#[test]
fn test_build_snapshot_clears_new_writes_and_uploads_chunk() {
    let mut store = store_with_writes(&[("key1", "value1"), ("key2", "value2")]);
    assert!(store.data.merged_chunks.is_empty());
    let builder = store.get_snapshot_builder();
    let (bytes, chunk_id) = store.data.encode_new_writes().unwrap();
    assert_eq!(String::from_utf8(bytes.clone()).unwrap(), r#"{"key1":"value1","key2":"value2"}"#);
    assert_eq!(chunk_id, compute_hash(&bytes));
    assert_eq!(chunk_id.len(), 64);
    let manifest = store.data.record_chunk(chunk_id.clone());
    assert_eq!(manifest.chunks.len(), 1);
    assert_eq!(manifest.chunks[0].id, chunk_id);
    store.data.fold_new_writes_into_history();
    store.data.clear_new_writes();
    assert!(store.data.new_writes_kvs.is_empty(), "new_writes_kvs was not cleared");
    assert_eq!(store.data.lookup("key1"), Some("value1".to_string()));
    assert_eq!(store.data.historical_kvs.get("key2"), Some("value2".to_string()));
    assert!(store.data.merged_chunks.contains(&chunk_id));
    let meta = builder.snapshot_meta();
    assert!(!meta.snapshot_id.is_empty());
    assert_eq!(meta.snapshot_id, "--1");
}

#[test]
fn manifest_lists_merged_chunks_then_new() {
    let mut data = StateMachineData::new();
    data.merged_chunks.insert("bbb".to_string());
    data.merged_chunks.insert("aaa".to_string());
    let manifest = data.record_chunk("ccc".to_string());
    let ids: Vec<&str> = manifest.chunks.iter().map(|c| c.id.as_str()).collect();
    assert_eq!(ids, vec!["aaa", "bbb", "ccc"]);
}

#[test]
fn test_update_state_machine_hydrates_chunk() {
    let mut store = store_with_writes(&[("key3", "value3")]);
    let (bytes, chunk_id) = store.data.encode_new_writes().unwrap();
    let manifest = store.data.record_chunk(chunk_id.clone());
    store.data.fold_new_writes_into_history();
    store.data.clear_new_writes();
    // the chunk is already merged, so nothing is to be fetched again
    assert!(store.data.chunks_to_hydrate(&manifest).is_empty());
    assert_eq!(store.data.historical_kvs.get("key3"), Some("value3".to_string()));
    assert!(store.data.merged_chunks.contains(&chunk_id));

    // a fresh node hydrates the chunk from its bytes
    let mut fresh = StateMachineStore::new();
    let todo = fresh.data.chunks_to_hydrate(&manifest);
    assert_eq!(todo.len(), 1);
    assert_eq!(todo[0].id, chunk_id);
    fresh.data.hydrate_chunk(todo[0].id.clone(), &bytes).unwrap();
    assert_eq!(fresh.data.historical_kvs.get("key3"), Some("value3".to_string()));
    assert!(fresh.data.merged_chunks.contains(&chunk_id));
}

#[test]
fn install_after_two_builds_restores_history() {
    let mut node_a = store_with_writes(&[("k1", "v1"), ("k2", "v2")]);
    let mut chunks: Vec<(String, Vec<u8>)> = Vec::new();
    let (bytes, id) = node_a.data.encode_new_writes().unwrap();
    node_a.data.record_chunk(id.clone());
    node_a.data.fold_new_writes_into_history();
    node_a.data.clear_new_writes();
    chunks.push((id, bytes));
    node_a.data.new_writes_kvs.insert("k2".to_string(), "v2-new".to_string());
    node_a.data.new_writes_kvs.insert("k3".to_string(), "v3".to_string());
    let (bytes, id) = node_a.data.encode_new_writes().unwrap();
    let manifest = node_a.data.record_chunk(id.clone());
    node_a.data.fold_new_writes_into_history();
    node_a.data.clear_new_writes();
    chunks.push((id, bytes));
    assert_eq!(manifest.chunks.len(), 2);

    let mut node_b = StateMachineStore::new();
    let todo = node_b.data.chunks_to_hydrate(&manifest);
    assert_eq!(todo.len(), 2);
    for c in todo {
        let bytes = &chunks.iter().find(|(id, _)| *id == c.id).unwrap().1;
        node_b.data.hydrate_chunk(c.id.clone(), bytes).unwrap();
    }
    for k in ["k1", "k2", "k3", "k4"] {
        assert_eq!(node_b.data.lookup(k), node_a.data.lookup(k));
    }
    assert_eq!(node_b.data.lookup("k2"), Some("v2-new".to_string()));
}

#[test]
fn hydrate_rejects_bytes_that_are_no_string_map() {
    let mut data = StateMachineData::new();
    assert_eq!(data.hydrate_chunk("c".to_string(), b"[1,2]"), Err(SnapshotError::DecodeChunk));
    assert_eq!(data.hydrate_chunk("c".to_string(), b"not json"), Err(SnapshotError::DecodeChunk));
    assert!(data.merged_chunks.is_empty());
    assert!(data.historical_kvs.is_empty());
}

#[test]
fn chunks_to_hydrate_keeps_manifest_order() {
    let mut data = StateMachineData::new();
    data.merged_chunks.insert("b".to_string());
    let manifest = SnapshotManifest {
        chunks: vec![
            ChunkReference { id: "c".to_string() },
            ChunkReference { id: "b".to_string() },
            ChunkReference { id: "a".to_string() },
        ],
    };
    let ids: Vec<String> = data.chunks_to_hydrate(&manifest).into_iter().map(|c| c.id).collect();
    assert_eq!(ids, vec!["c".to_string(), "a".to_string()]);
}

#[test]
fn snapshot_names() {
    assert_eq!(snapshot_id(Some(log_id(1, 2, 3)), 4), "T1-N2-3-4");
    assert_eq!(snapshot_id(None, 0), "--0");
    let mut store = StateMachineStore::new();
    store.data.apply(vec![Entry { log_id: log_id(5, 6, 7), payload: EntryPayload::Blank }]);
    let b1 = store.get_snapshot_builder();
    let b2 = store.get_snapshot_builder();
    assert_eq!(b1.snapshot_meta().snapshot_id, "T5-N6-7-1");
    assert_eq!(b2.snapshot_meta().snapshot_id, "T5-N6-7-2");
    assert_ne!(b1.snapshot_meta().snapshot_id, b2.snapshot_meta().snapshot_id);
    assert_eq!(store.snapshot_idx, 2);
}

#[test]
fn chunk_address_is_sha256_hex() {
    assert_eq!(compute_hash(b""), "e3b0c44298fc1c149afbf4c8996fb92427ae41e4649b934ca495991b7852b855");
    assert_eq!(compute_hash(b"abc"), "ba7816bf8f01cfea414140de5dae2223b00361a396177a9cb410ff61f20015ad");
}

#[test]
fn adopt_meta_sets_applied_state() {
    let mut store = StateMachineStore::new();
    store.data.apply(vec![Entry { log_id: log_id(2, 1, 9), payload: EntryPayload::Blank }]);
    let meta = store.get_snapshot_builder().snapshot_meta();
    let mut other = StateMachineStore::new();
    other.data.adopt_snapshot_meta(&meta);
    let (last, membership) = other.applied_state();
    assert_eq!(last, Some(log_id(2, 1, 9)));
    assert_eq!(membership.log_id, None);
}

#[test]
fn chunk_bytes_restore_writes_with_escapes() {
    let tricky = [("quote\"key", "back\\slash"), ("é unicode", "line\nbreak"), ("plain", "")];
    let mut a = StateMachineData::new();
    for (k, v) in tricky {
        a.new_writes_kvs.insert(k.to_string(), v.to_string());
    }
    let (bytes, id) = a.encode_new_writes().unwrap();
    let mut b = StateMachineData::new();
    b.historical_kvs.insert("plain".to_string(), "older".to_string());
    b.hydrate_chunk(id.clone(), &bytes).unwrap();
    for (k, v) in tricky {
        assert_eq!(b.historical_kvs.get(k), Some(v.to_string()));
    }
    assert!(b.merged_chunks.contains(&id));
}
