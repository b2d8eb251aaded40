//! The values that travel through the replicated log and the state machine.
use vstd::prelude::*;

use crate::codec::{decimal_of, u64_to_decimal};

verus! {

/// The configuration of the replicated log: which data the log carries
/// (`LongUrlEntry`), what applying it answers (`RaftResponse`), and that
/// nodes are named by `u64` and addressed by `BasicNode`.
#[derive(Clone, Copy, Debug, PartialEq, Eq, PartialOrd, Ord, Default)]
pub struct TypeConfig;

/// A long URL entry in the replicated log: the hash that keys it, the URL
/// itself, and the term of the node that created it.
#[derive(Clone, Debug)]
pub struct LongUrlEntry {
    /// The hash of the URL, in decimal, used as the key in the store.
    pub hash: String,
    /// The URL to be stored.
    pub url: String,
    /// The term when this entry was created.
    pub term: u64,
}

impl LongUrlEntry {
    /// An entry whose key is the decimal text of `hash`.
    pub fn new(hash: u64, url: String, term: u64) -> (r: Self)
        ensures
            r.hash@ == decimal_of(hash as nat),
            r.url == url,
            r.term == term,
    {
        LongUrlEntry { hash: u64_to_decimal(hash), url, term }
    }
}

/// The requests a client can make of the cluster.
#[derive(Clone, Debug)]
pub enum RaftRequest {
    /// Set a key to a value.
    SetKey { key: String, value: String },
    /// Create a short URL from a long URL.
    CreateShortUrl { long_url: String },
}

/// What applying one log entry answers.
#[derive(Clone, Debug)]
pub struct RaftResponse {
    /// A value read, if any.
    pub value: Option<String>,
    /// The short URL key created, if any.
    pub short_url: Option<String>,
}

/// The leader that a log entry or a vote belongs to: a term and the node
/// that led in it.
#[derive(Clone, Copy, Debug, PartialEq, Eq, Structural)]
pub struct LeaderId {
    pub term: u64,
    pub node_id: u64,
}

/// The position of an entry in the replicated log.
#[derive(Clone, Copy, Debug, PartialEq, Eq, Structural)]
pub struct LogId {
    pub leader_id: LeaderId,
    pub index: u64,
}

/// A vote for a leader, and whether a quorum has granted it.
#[derive(Clone, Copy, Debug, PartialEq, Eq, Structural)]
pub struct Vote {
    pub leader_id: LeaderId,
    pub committed: bool,
}

/// The address of a node.
#[derive(Clone, Debug)]
pub struct BasicNode {
    pub addr: String,
}

/// A cluster membership: the voter sets in force and the address of every
/// node.
#[derive(Clone, Debug)]
pub struct Membership {
    pub configs: Vec<Vec<u64>>,
    pub nodes: Vec<(u64, BasicNode)>,
}

/// A membership as plain values: the voter sets, and each node's id and
/// address.
pub open spec fn membership_view(m: Membership) -> (Seq<Seq<u64>>, Seq<(u64, Seq<char>)>) {
    (m.configs@.map_values(|c: Vec<u64>| c@), m.nodes@.map_values(|n: (u64, BasicNode)| (n.0, n.1.addr@)))
}

/// A stored membership as plain values.
pub open spec fn stored_membership_view(m: StoredMembership) -> (Option<LogId>, (Seq<Seq<u64>>, Seq<(u64, Seq<char>)>)) {
    (m.log_id, membership_view(m.membership))
}

impl Membership {
    /// A copy holding the same voter sets and nodes.
    pub fn copy(&self) -> (r: Self)
        ensures
            membership_view(r) == membership_view(*self),
    {
        let mut configs: Vec<Vec<u64>> = Vec::new();
        let mut i: usize = 0;
        while i < self.configs.len()
            invariant
                i <= self.configs@.len(),
                configs@.len() == i,
                forall|j: int| 0 <= j < i ==> (#[trigger] configs@[j])@ == self.configs@[j]@,
            decreases self.configs@.len() - i,
        {
            let src = &self.configs[i];
            let mut c: Vec<u64> = Vec::new();
            let mut k: usize = 0;
            while k < src.len()
                invariant
                    k <= src@.len(),
                    c@ == src@.take(k as int),
                decreases src@.len() - k,
            {
                c.push(src[k]);
                assert(src@.take(k + 1) =~= src@.take(k as int).push(src@[k as int]));
                k = k + 1;
            }
            assert(src@.take(src@.len() as int) =~= src@);
            configs.push(c);
            i = i + 1;
        }
        let mut nodes: Vec<(u64, BasicNode)> = Vec::new();
        let mut i: usize = 0;
        while i < self.nodes.len()
            invariant
                i <= self.nodes@.len(),
                nodes@.len() == i,
                forall|j: int| 0 <= j < i ==> (#[trigger] nodes@[j]).0 == self.nodes@[j].0 && nodes@[j].1.addr@ == self.nodes@[j].1.addr@,
            decreases self.nodes@.len() - i,
        {
            let id = self.nodes[i].0;
            let addr = self.nodes[i].1.addr.clone();
            nodes.push((id, BasicNode { addr }));
            i = i + 1;
        }
        let r = Membership { configs, nodes };
        assert(membership_view(r).0 =~= membership_view(*self).0);
        assert(membership_view(r).1 =~= membership_view(*self).1);
        r
    }

    /// A membership with no voters and no nodes.
    pub fn empty() -> (r: Self)
        ensures
            r.configs@.len() == 0,
            r.nodes@.len() == 0,
    {
        Membership { configs: Vec::new(), nodes: Vec::new() }
    }
}

/// A membership together with the log entry that set it.
#[derive(Clone, Debug)]
pub struct StoredMembership {
    pub log_id: Option<LogId>,
    pub membership: Membership,
}

impl StoredMembership {
    /// A copy holding the same log id and membership.
    pub fn copy(&self) -> (r: Self)
        ensures
            stored_membership_view(r) == stored_membership_view(*self),
    {
        StoredMembership { log_id: self.log_id, membership: self.membership.copy() }
    }

    /// The membership in force before any entry set one.
    pub fn initial() -> (r: Self)
        ensures
            r.log_id is None,
            r.membership.configs@.len() == 0,
            r.membership.nodes@.len() == 0,
    {
        StoredMembership { log_id: None, membership: Membership::empty() }
    }
}

/// What a log entry carries.
#[derive(Clone, Debug)]
pub enum EntryPayload {
    /// Nothing: an entry a new leader writes.
    Blank,
    /// A long URL to store.
    Normal(LongUrlEntry),
    /// A new membership.
    Membership(Membership),
}

/// An entry of the replicated log.
#[derive(Clone, Debug)]
pub struct Entry {
    pub log_id: LogId,
    pub payload: EntryPayload,
}

/// Describes a snapshot: the last entry it covers, the membership then in
/// force, and its name.
#[derive(Clone, Debug)]
pub struct SnapshotMeta {
    pub last_log_id: Option<LogId>,
    pub last_membership: StoredMembership,
    pub snapshot_id: String,
}

/// A snapshot as kept in storage: its description and its bytes (the
/// serialized manifest of chunks).
#[derive(Clone, Debug)]
pub struct StoredSnapshot {
    pub meta: SnapshotMeta,
    pub data: Vec<u8>,
}

/// A reference to a chunk of key/value data kept in a chunk store.
#[derive(Clone, Debug)]
pub struct ChunkReference {
    /// A content-addressable id: the SHA-256 hash of the chunk.
    pub id: String,
}

/// The list of all chunks that make up a snapshot.
#[derive(Clone, Debug)]
pub struct SnapshotManifest {
    pub chunks: Vec<ChunkReference>,
}

/// The ids of the chunks of a manifest, in order.
pub open spec fn chunk_ids(chunks: Seq<ChunkReference>) -> Seq<Seq<char>> {
    chunks.map_values(|c: ChunkReference| c.id@)
}

} // verus!
