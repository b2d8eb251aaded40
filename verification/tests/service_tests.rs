use std::hash::{DefaultHasher, Hash, Hasher};

use url_shortener::blob_store::{LocalChunkStore, LocalFileBlobStore};
use url_shortener::cluster::{
    find_leader, forward_endpoint, http_method, local_vote, local_vote_response, node_base_url, request_url,
    route_write, standalone_vote, HttpMethod, LeaderError, RetryState, RetryStep, VoteRequest, WriteRoute,
};
use url_shortener::codec::{u64_to_hex, IntErrorKind};
use url_shortener::params::Args;
use url_shortener::shortener::{
    create_short_url, lookup_url, plan_entry, prepare_entry, redirect_hash, starts_with, validate_url,
    CreateRejection, LookupOutcome, ShortenerErr,
};
use url_shortener::state_machine::StateMachineData;
use url_shortener::types::{BasicNode, Entry, EntryPayload, LeaderId, LogId, Vote};

fn std_hash(s: &str) -> u64 {
    let mut h = DefaultHasher::new();
    s.hash(&mut h);
    h.finish()
}

#[test]
fn validate_url_adds_scheme_when_missing() {
    assert_eq!(validate_url("example.com").unwrap(), "https://example.com/");
    assert_eq!(validate_url("http://example.com/a?b=c").unwrap(), "http://example.com/a?b=c");
    assert_eq!(validate_url("https://EXAMPLE.com").unwrap(), "https://example.com/");
    let err = validate_url("http://").unwrap_err();
    assert!(matches!(err, ShortenerErr::UrlParseError(_)));
    assert_eq!(err.status_code(), 422);
    assert_eq!(err.message(), "Failed to parse URL");
}

#[test]
fn create_short_url_hashes_the_url_as_given() {
    let created = create_short_url("example.com").unwrap();
    assert_eq!(created.hash, std_hash("example.com"));
    assert_eq!(created.url, "https://example.com/");
    assert_eq!(created.short_url, format!("{:x}", created.hash));
    assert!(create_short_url("https://").is_err());
}

#[test]
fn error_statuses_and_messages() {
    let e = ShortenerErr::JsonError2(IntErrorKind::InvalidDigit);
    assert_eq!(e.status_code(), 422);
    assert_eq!(e.message(), "Failed to parse JSON");
    let e = ShortenerErr::UnexpectedError;
    assert_eq!(e.status_code(), 500);
    assert_eq!(e.message(), "An unexpected error occurred");
    let json_err = serde_json::from_slice::<u32>(b"x").unwrap_err();
    let e = ShortenerErr::JsonError(json_err);
    assert_eq!(e.status_code(), 400);
    assert_eq!(e.message(), "Failed to parse JSON");
}

#[test]
fn prefixes() {
    assert!(starts_with("http://x", "http://"));
    assert!(!starts_with("htt", "http://"));
    assert!(starts_with("abc", ""));
}

#[test]
fn entry_plan_keys_by_decimal_hash() {
    let (entry, short) = plan_entry("http://a.b", 255, true, 3).unwrap();
    assert_eq!(entry.hash, "255");
    assert_eq!(entry.url, "http://a.b");
    assert_eq!(entry.term, 3);
    assert_eq!(short.short_url, "ff");
    assert_eq!(plan_entry("nope", 1, false, 3).unwrap_err(), CreateRejection::InvalidUrl);
}

#[test]
fn prepare_entry_uses_validator_and_hash() {
    let (entry, short) = prepare_entry("https://example.com/x", 1).unwrap();
    let h = std_hash("https://example.com/x");
    assert_eq!(short.hash, h);
    assert_eq!(entry.hash, h.to_string());
    assert_eq!(short.short_url, format!("{:x}", h));
    assert_eq!(prepare_entry("example.com", 1).unwrap_err(), CreateRejection::InvalidUrl);
}

#[test]
fn short_url_reads_back_long_url() {
    let (entry, short) = prepare_entry("https://example.com/long", 1).unwrap();
    let mut data = StateMachineData::new();
    data.apply(vec![Entry {
        log_id: LogId { leader_id: LeaderId { term: 1, node_id: 1 }, index: 1 },
        payload: EntryPayload::Normal(entry),
    }]);
    match lookup_url(&data, &short.short_url) {
        LookupOutcome::Found(u) => assert_eq!(u, "https://example.com/long"),
        other => panic!("unexpected {:?}", other),
    }
    assert!(matches!(lookup_url(&data, "0"), LookupOutcome::NotFound));
    assert!(matches!(lookup_url(&data, "zz"), LookupOutcome::BadHash(IntErrorKind::InvalidDigit)));
    assert_eq!(redirect_hash(&short.short_url), Ok(short.hash));
    assert_eq!(redirect_hash(""), Err(IntErrorKind::Empty));
}

#[test]
fn leader_lookup() {
    let nodes = vec![
        (1u64, BasicNode { addr: "10.0.0.1:80".to_string() }),
        (2u64, BasicNode { addr: "10.0.0.2:80".to_string() }),
    ];
    let (id, node) = find_leader(Some(2), &nodes).unwrap();
    assert_eq!(id, 2);
    assert_eq!(node.addr, "10.0.0.2:80");
    assert_eq!(find_leader(None, &nodes).unwrap_err(), LeaderError::NoLeader);
    let err = find_leader(Some(9), &nodes).unwrap_err();
    assert_eq!(err, LeaderError::NotInMembership(9));
    assert_eq!(err.message(), "Leader node 9 not found in membership");
    assert_eq!(LeaderError::NoLeader.message(), "No leader elected yet");
}

#[test]
fn write_routing() {
    let leader = Ok((2u64, BasicNode { addr: "host:8080".to_string() }));
    assert!(matches!(route_write(2, &leader), WriteRoute::Local));
    match route_write(1, &leader) {
        WriteRoute::Forward(e) => assert_eq!(e, "http://host:8080/submit"),
        other => panic!("unexpected {:?}", other),
    }
    let none: Result<(u64, BasicNode), LeaderError> = Err(LeaderError::NoLeader);
    assert!(matches!(route_write(1, &none), WriteRoute::NoLeader(LeaderError::NoLeader)));
    assert_eq!(forward_endpoint("a:1"), "http://a:1/submit");
    assert_eq!(node_base_url("a:1"), "http://a:1");
}

#[test]
fn requests_to_other_nodes() {
    assert_eq!(request_url("http://a:1", "raft/vote"), "http://a:1/raft/vote");
    assert_eq!(http_method("GET"), Some(HttpMethod::Get));
    assert_eq!(http_method("POST"), Some(HttpMethod::Post));
    assert_eq!(http_method("PUT"), None);
}

#[test]
fn retries_double_then_give_up() {
    let mut s = RetryState::start();
    let mut waits = Vec::new();
    loop {
        match s.on_failure(10) {
            RetryStep::RetryAfter(w) => waits.push(w),
            RetryStep::GiveUp => break,
        }
    }
    assert_eq!(waits.len(), 10);
    assert_eq!(waits[0], 5);
    assert_eq!(waits[9], 5 * 512);
    assert_eq!(s.retries, 10);
    let mut z = RetryState::start();
    assert_eq!(z.on_failure(0), RetryStep::GiveUp);
}

#[test]
fn local_votes() {
    let v = Vote { leader_id: LeaderId { term: 3, node_id: 7 }, committed: false };
    let lv = local_vote(&v);
    assert_eq!(lv.leader_id.term, 7);
    assert_eq!(lv.leader_id.node_id, 3);
    assert!(lv.committed);
    let resp = local_vote_response(&VoteRequest { vote: v, last_log_id: None });
    assert!(resp.vote_granted);
    assert_eq!(resp.vote, lv);
    assert!(resp.last_log_id.is_none());
    let sv = standalone_vote();
    assert_eq!((sv.leader_id.term, sv.leader_id.node_id, sv.committed), (1, 1, true));
}

#[test]
fn stores_and_settings() {
    let b = LocalFileBlobStore::new("data".to_string());
    assert_eq!(b.base_path(), "data");
    let c = LocalChunkStore::new(std::path::PathBuf::from("/chunk_store/chunks"));
    assert_eq!(c.directory(), &std::path::PathBuf::from("/chunk_store/chunks"));
    let args = Args { node_id: 1, raft_rpc_addr: "r".to_string(), http_addr: "127.0.0.1:8080".to_string(), data_dir: "d".to_string() };
    assert_eq!(args.db_path(), "127.0.0.1:8080.db");
    assert_eq!(u64_to_hex(10), "a");
}

#[test]
fn same_long_url_gets_same_short_url() {
    let a = create_short_url("https://example.com/same").unwrap();
    let b = create_short_url("https://example.com/same").unwrap();
    assert_eq!(a.hash, b.hash);
    assert_eq!(a.short_url, b.short_url);
    let (_, p) = prepare_entry("https://example.com/same", 1).unwrap();
    let (_, q) = prepare_entry("https://example.com/same", 9).unwrap();
    assert_eq!(p.short_url, q.short_url);
    assert_eq!(p.short_url, a.short_url);
    assert_ne!(create_short_url("https://example.com/other").unwrap().hash, a.hash);
}
