use std::collections::BTreeMap;

use url_shortener::codec::id_to_bin;
use url_shortener::log_store::{
    log_state, prepare_append, purge_keys, sort_by_index, truncate_keys, IndexBound, IndexRange, LogError,
};
use url_shortener::types::{Entry, EntryPayload, LeaderId, LogId};

fn log_id(index: u64) -> LogId {
    LogId { leader_id: LeaderId { term: 1, node_id: 1 }, index }
}

fn blank(index: u64) -> Entry {
    Entry { log_id: log_id(index), payload: EntryPayload::Blank }
}

#[test]
fn test_log_state() {
    let state = log_state(None, None);
    assert!(state.last_log_id.is_none());
    assert!(state.last_purged_log_id.is_none());
}

#[test]
fn log_state_falls_back_to_last_purged() {
    let state = log_state(None, Some(log_id(2)));
    assert_eq!(state.last_purged_log_id.unwrap().index, 2);
    assert_eq!(state.last_log_id, Some(log_id(2)));
    let state = log_state(Some(log_id(5)), Some(log_id(2)));
    assert_eq!(state.last_log_id, Some(log_id(5)));
}

#[test]
fn append_sorts_and_keys_entries() {
    let prepared = prepare_append(vec![blank(7), blank(5), blank(6)]).unwrap();
    let indices: Vec<u64> = prepared.iter().map(|(_, e)| e.log_id.index).collect();
    assert_eq!(indices, vec![5, 6, 7]);
    for (key, e) in &prepared {
        assert_eq!(key, &id_to_bin(e.log_id.index));
    }
    assert!(prepare_append(Vec::new()).unwrap().is_empty());
}

#[test]
fn append_refuses_gaps_and_repeats() {
    assert_eq!(
        prepare_append(vec![blank(1), blank(3)]).unwrap_err(),
        LogError::NonSequential { expected: 2, got: 3 }
    );
    assert_eq!(
        prepare_append(vec![blank(4), blank(4)]).unwrap_err(),
        LogError::NonSequential { expected: 5, got: 4 }
    );
    assert_eq!(
        prepare_append(vec![blank(9), blank(1), blank(2)]).unwrap_err(),
        LogError::NonSequential { expected: 3, got: 9 }
    );
    assert_eq!(
        prepare_append(vec![blank(u64::MAX), blank(5)]).unwrap_err(),
        LogError::NonSequential { expected: 6, got: u64::MAX }
    );
    assert_eq!(
        prepare_append(vec![blank(u64::MAX), blank(u64::MAX - 1), blank(u64::MAX - 1)]).unwrap_err(),
        LogError::NonSequential { expected: u64::MAX, got: u64::MAX - 1 }
    );
}

#[test]
fn sort_is_stable_by_index() {
    let a = Entry { log_id: LogId { leader_id: LeaderId { term: 1, node_id: 1 }, index: 3 }, payload: EntryPayload::Blank };
    let b = Entry { log_id: LogId { leader_id: LeaderId { term: 2, node_id: 1 }, index: 3 }, payload: EntryPayload::Blank };
    let sorted = sort_by_index(vec![blank(5), a, b, blank(1)]);
    let seen: Vec<(u64, u64)> = sorted.iter().map(|e| (e.log_id.index, e.log_id.leader_id.term)).collect();
    assert_eq!(seen, vec![(1, 1), (3, 1), (3, 2), (5, 1)]);
}

#[test]
fn truncate_and_purge_key_ranges() {
    let (from, to) = truncate_keys(log_id(2));
    assert_eq!(from, id_to_bin(2));
    assert_eq!(to, vec![0xff, 0xff, 0xff, 0xff, 0xff, 0xff, 0xff, 0xff, 0x00]);
    // keys compare bytewise: every index from 2 on, the largest too, lies in [from, to)
    for i in [2u64, 3, 1 << 40, u64::MAX - 1, u64::MAX] {
        let key = id_to_bin(i);
        assert!(from <= key && key < to);
    }
    for i in [0u64, 1] {
        assert!(id_to_bin(i) < from);
    }
    let (from, to) = purge_keys(log_id(2));
    assert_eq!(from, id_to_bin(0));
    assert_eq!(to, id_to_bin(3));
}

/// The keys a read of `r` keeps from a store holding `stored`, scanned in
/// key order from the range's start key until the first key not kept.
fn read_range(stored: &BTreeMap<Vec<u8>, u64>, r: &IndexRange) -> Vec<u64> {
    let start = r.start_key();
    let mut out = Vec::new();
    for (key, value) in stored.range(start..) {
        if !r.keeps_key(key) {
            break;
        }
        out.push(*value);
    }
    out
}

#[test]
fn range_reads_stop_at_the_first_index_outside() {
    let mut stored = BTreeMap::new();
    for i in [1u64, 2, 3, 4, 5, 300] {
        stored.insert(id_to_bin(i), i);
    }
    let r = IndexRange { start: IndexBound::Included(0), end: IndexBound::Excluded(4) };
    assert_eq!(r.start_key(), id_to_bin(0));
    assert_eq!(read_range(&stored, &r), vec![1, 2, 3]);
    let r = IndexRange { start: IndexBound::Excluded(2), end: IndexBound::Unbounded };
    assert_eq!(r.start_key(), id_to_bin(3));
    assert!(r.contains(3) && !r.contains(2));
    assert_eq!(read_range(&stored, &r), vec![3, 4, 5, 300]);
    let r = IndexRange { start: IndexBound::Unbounded, end: IndexBound::Included(1) };
    assert_eq!(read_range(&stored, &r), vec![1]);
    assert!(!r.keeps_key(&id_to_bin(2)));
    assert!(r.keeps_key(&[0, 0, 0, 0, 0, 0, 0, 1, 7]));
}

#[test]
fn test_log_purge() {
    // a store with entries 0..=5; purge up to index 2
    let mut stored = BTreeMap::new();
    for i in 0u64..6 {
        stored.insert(id_to_bin(i), i);
    }
    let purged = log_id(2);
    let (from, to) = purge_keys(purged);
    let doomed: Vec<Vec<u8>> = stored.range(from.clone()..to.clone()).map(|(k, _)| k.clone()).collect();
    for k in doomed {
        stored.remove(&k);
    }
    assert_eq!(stored.values().copied().collect::<Vec<_>>(), vec![3, 4, 5]);
    let state = log_state(Some(log_id(5)), Some(purged));
    assert_eq!(state.last_purged_log_id.unwrap().index, 2);
}

#[test]
fn test_log_truncate() {
    let mut stored = BTreeMap::new();
    for i in 0u64..6 {
        stored.insert(id_to_bin(i), i);
    }
    let (from, to) = truncate_keys(log_id(2));
    let doomed: Vec<Vec<u8>> = stored.range(from.clone()..to.clone()).map(|(k, _)| k.clone()).collect();
    for k in doomed {
        stored.remove(&k);
    }
    let r = IndexRange { start: IndexBound::Included(0), end: IndexBound::Excluded(4) };
    assert_eq!(read_range(&stored, &r), vec![0, 1]);
    // truncating an empty store leaves nothing to read
    let mut empty: BTreeMap<Vec<u8>, u64> = BTreeMap::new();
    let doomed: Vec<Vec<u8>> = empty.range(from..to).map(|(k, _)| k.clone()).collect();
    for k in doomed {
        empty.remove(&k);
    }
    assert_eq!(read_range(&empty, &r).len(), 0);
}
