//! The replicated state machine: recent writes, the history they are
//! folded into when a snapshot is built, and the chunks that history is
//! made of.
use vstd::prelude::*;

use crate::chunk::{compute_hash, encode_string_pairs, decode_string_pairs, json_object_bytes, json_object_pairs, sha256_digest};
use crate::codec::{decimal_of, hex_bytes, lemma_decimal_injective, push_char, u64_to_decimal};
use crate::ordered::{ascending_texts, insert_each, pair_views, StringMap, StringSet};
use crate::types::{
    ChunkReference, Entry, EntryPayload, LogId, RaftResponse, SnapshotManifest, SnapshotMeta,
    StoredMembership, chunk_ids, stored_membership_view,
};

verus! {

/// What the state machine has applied and holds.
pub struct StateMachineData {
    /// The last log entry applied.
    pub last_applied_log_id: Option<LogId>,
    /// The last membership applied.
    pub last_membership: StoredMembership,
    /// The writes already folded into a chunk.
    pub historical_kvs: StringMap,
    /// The writes applied since the last snapshot.
    pub new_writes_kvs: StringMap,
    /// The chunks whose writes the history holds.
    pub merged_chunks: StringSet,
}

/// The store applied by the state machine after the given entries: each
/// long URL entry stores its URL under its hash.
pub open spec fn apply_writes(w: Map<Seq<char>, Seq<char>>, entries: Seq<Entry>) -> Map<Seq<char>, Seq<char>>
    decreases entries.len(),
{
    if entries.len() == 0 {
        w
    } else {
        let prev = apply_writes(w, entries.drop_last());
        match entries.last().payload {
            EntryPayload::Normal(e) => prev.insert(e.hash@, e.url@),
            _ => prev,
        }
    }
}

/// The membership in force after the given entries: that of the last
/// membership entry, with its log id, or the one before if there is none.
pub open spec fn applied_membership(m: StoredMembership, entries: Seq<Entry>) -> StoredMembership
    decreases entries.len(),
{
    if entries.len() == 0 {
        m
    } else {
        match entries.last().payload {
            EntryPayload::Membership(mem) => StoredMembership { log_id: Some(entries.last().log_id), membership: mem },
            _ => applied_membership(m, entries.drop_last()),
        }
    }
}

/// What applying one entry answers: no value, and the entry's hash as the
/// short URL key for a long URL entry.
pub open spec fn response_matches(r: RaftResponse, e: Entry) -> bool {
    &&& r.value is None
    &&& match e.payload {
        EntryPayload::Normal(u) => r.short_url matches Some(s) && s@ == u.hash@,
        _ => r.short_url is None,
    }
}

/// The name of a snapshot: `T{term}-N{node}-{index}-{counter}` after the
/// last applied entry, `--{counter}` before any.
pub open spec fn snapshot_name(last: Option<LogId>, idx: u64) -> Seq<char> {
    match last {
        Some(l) => seq!['T'] + decimal_of(l.leader_id.term as nat) + seq!['-', 'N']
            + decimal_of(l.leader_id.node_id as nat) + seq!['-'] + decimal_of(l.index as nat)
            + seq!['-'] + decimal_of(idx as nat),
        None => seq!['-', '-'] + decimal_of(idx as nat),
    }
}

/// Recording chunk `id` as merged, all else unchanged.
pub open spec fn records_chunk(a: StateMachineData, b: StateMachineData, id: Seq<char>) -> bool {
    &&& b.merged_chunks@ == a.merged_chunks@.insert(id)
    &&& b.historical_kvs@ == a.historical_kvs@
    &&& b.new_writes_kvs@ == a.new_writes_kvs@
    &&& b.last_applied_log_id == a.last_applied_log_id
    &&& b.last_membership == a.last_membership
}

/// Moving the recent writes into the history, the recent value of a key
/// replacing the historical one; the recent writes stay.
pub open spec fn folds_writes(a: StateMachineData, b: StateMachineData) -> bool {
    &&& b.historical_kvs@ == a.historical_kvs@.union_prefer_right(a.new_writes_kvs@)
    &&& b.new_writes_kvs@ == a.new_writes_kvs@
    &&& b.merged_chunks@ == a.merged_chunks@
    &&& b.last_applied_log_id == a.last_applied_log_id
    &&& b.last_membership == a.last_membership
}

/// Forgetting the recent writes, all else unchanged.
pub open spec fn clears_writes(a: StateMachineData, b: StateMachineData) -> bool {
    &&& b.new_writes_kvs@ == Map::<Seq<char>, Seq<char>>::empty()
    &&& b.historical_kvs@ == a.historical_kvs@
    &&& b.merged_chunks@ == a.merged_chunks@
    &&& b.last_applied_log_id == a.last_applied_log_id
    &&& b.last_membership == a.last_membership
}

/// Why a snapshot could not be built or installed.
#[derive(Clone, Copy, Debug, PartialEq, Eq, Structural)]
pub enum SnapshotError {
    /// The recent writes could not be serialized.
    EncodeWrites,
    /// A chunk's bytes are not a JSON object of strings.
    DecodeChunk,
}

/// The name a snapshot built after `last` gets, with `idx` the builder's
/// counter.
pub fn snapshot_id(last: Option<LogId>, idx: u64) -> (r: String)
    ensures
        r@ == snapshot_name(last, idx),
{
    let mut s = String::new();
    match last {
        Some(l) => {
            push_char(&mut s, 'T');
            s.append(u64_to_decimal(l.leader_id.term).as_str());
            push_char(&mut s, '-');
            push_char(&mut s, 'N');
            s.append(u64_to_decimal(l.leader_id.node_id).as_str());
            push_char(&mut s, '-');
            s.append(u64_to_decimal(l.index).as_str());
            push_char(&mut s, '-');
            s.append(u64_to_decimal(idx).as_str());
            assert(s@ =~= snapshot_name(last, idx));
        },
        None => {
            push_char(&mut s, '-');
            push_char(&mut s, '-');
            s.append(u64_to_decimal(idx).as_str());
            assert(s@ =~= snapshot_name(last, idx));
        },
    }
    s
}

impl StateMachineData {
    /// What a read sees: the recent writes over the history.
    pub open spec fn visible(&self) -> Map<Seq<char>, Seq<char>> {
        self.historical_kvs@.union_prefer_right(self.new_writes_kvs@)
    }

    /// A state machine that has applied nothing.
    pub fn new() -> (r: Self)
        ensures
            r.last_applied_log_id is None,
            r.last_membership.log_id is None,
            r.last_membership.membership.configs@.len() == 0,
            r.last_membership.membership.nodes@.len() == 0,
            r.historical_kvs@ == Map::<Seq<char>, Seq<char>>::empty(),
            r.new_writes_kvs@ == Map::<Seq<char>, Seq<char>>::empty(),
            r.merged_chunks@ == Set::<Seq<char>>::empty(),
            r.merged_chunks.listing() == Seq::<Seq<char>>::empty(),
    {
        StateMachineData {
            last_applied_log_id: None,
            last_membership: StoredMembership::initial(),
            historical_kvs: StringMap::new(),
            new_writes_kvs: StringMap::new(),
            merged_chunks: StringSet::new(),
        }
    }

    /// Looks a key up in the recent writes, then in the history.
    pub fn lookup(&self, key: &str) -> (r: Option<String>)
        ensures
            match r {
                Some(v) => self.visible().contains_key(key@) && self.visible()[key@] == v@,
                None => !self.visible().contains_key(key@),
            },
    {
        match self.new_writes_kvs.get(key) {
            Some(v) => Some(v),
            None => self.historical_kvs.get(key),
        }
    }

    /// Applies log entries in order: each long URL entry stores its URL
    /// under its hash in the recent writes, each membership entry becomes
    /// the membership, and every entry becomes the last applied. Answers
    /// one response per entry.
    pub fn apply(&mut self, entries: Vec<Entry>) -> (r: Vec<RaftResponse>)
        ensures
            r@.len() == entries@.len(),
            forall|i: int| 0 <= i < entries@.len() ==> response_matches(#[trigger] r@[i], entries@[i]),
            final(self).new_writes_kvs@ == apply_writes(old(self).new_writes_kvs@, entries@),
            final(self).last_membership == applied_membership(old(self).last_membership, entries@),
            final(self).last_applied_log_id == (if entries@.len() == 0 {
                old(self).last_applied_log_id
            } else {
                Some(entries@.last().log_id)
            }),
            final(self).historical_kvs@ == old(self).historical_kvs@,
            final(self).merged_chunks@ == old(self).merged_chunks@,
            forall|k: Seq<char>| #![trigger final(self).new_writes_kvs@.contains_key(k)]
                old(self).new_writes_kvs@.contains_key(k) && !writes_key(entries@, k) ==> {
                    &&& final(self).new_writes_kvs@.contains_key(k)
                    &&& final(self).new_writes_kvs@[k] == old(self).new_writes_kvs@[k]
                },
            forall|k: Seq<char>| #![trigger final(self).new_writes_kvs@.contains_key(k)]
                final(self).new_writes_kvs@.contains_key(k) ==> old(self).new_writes_kvs@.contains_key(k) || writes_key(entries@, k),
            forall|i: int| 0 <= i < entries@.len() && (#[trigger] entries@[i].payload is Membership)
                && (forall|j: int| i < j < entries@.len() ==> !(#[trigger] entries@[j].payload is Membership))
                ==> final(self).last_membership == (StoredMembership {
                    log_id: Some(entries@[i].log_id),
                    membership: entries@[i].payload->Membership_0,
                }),
            !has_membership(entries@) ==> final(self).last_membership == old(self).last_membership,
    {
        let ghost all = entries@;
        let ghost w0 = self.new_writes_kvs@;
        let ghost m0 = self.last_membership;
        let mut replies: Vec<RaftResponse> = Vec::new();
        for ent in it: entries
            invariant
                it.seq() == all,
                replies@.len() == it.index(),
                forall|i: int| 0 <= i < it.index() ==> response_matches(#[trigger] replies@[i], all[i]),
                self.new_writes_kvs@ == apply_writes(old(self).new_writes_kvs@, all.take(it.index() as int)),
                self.last_membership == applied_membership(old(self).last_membership, all.take(it.index() as int)),
                self.last_applied_log_id == (if it.index() == 0 {
                    old(self).last_applied_log_id
                } else {
                    Some(all[it.index() - 1].log_id)
                }),
                self.historical_kvs@ == old(self).historical_kvs@,
                self.merged_chunks@ == old(self).merged_chunks@,
        {
            let ghost i = replies@.len() as int;
            proof {
                assert(all.take(i + 1).drop_last() =~= all.take(i));
                assert(all.take(i + 1).last() == all[i]);
            }
            self.last_applied_log_id = Some(ent.log_id);
            match ent.payload {
                EntryPayload::Blank => {
                    replies.push(RaftResponse { value: None, short_url: None });
                },
                EntryPayload::Normal(req) => {
                    let hash = req.hash;
                    let url = req.url;
                    let key = hash.clone();
                    self.new_writes_kvs.insert(hash, url);
                    replies.push(RaftResponse { value: None, short_url: Some(key) });
                },
                EntryPayload::Membership(mem) => {
                    self.last_membership = StoredMembership { log_id: Some(ent.log_id), membership: mem };
                    replies.push(RaftResponse { value: None, short_url: None });
                },
            }
        }
        proof {
            assert(all.take(all.len() as int) =~= all);
            assert forall|k: Seq<char>| #![trigger self.new_writes_kvs@.contains_key(k)]
                w0.contains_key(k) || self.new_writes_kvs@.contains_key(k) implies {
                    &&& (self.new_writes_kvs@.contains_key(k) <==> (w0.contains_key(k) || writes_key(all, k)))
                    &&& (w0.contains_key(k) && !writes_key(all, k) ==> self.new_writes_kvs@[k] == w0[k])
                } by {
                lemma_apply_keeps_unwritten(w0, all, k);
            }
            assert forall|i: int| 0 <= i < all.len() && (#[trigger] all[i].payload is Membership)
                && (forall|j: int| i < j < all.len() ==> !(#[trigger] all[j].payload is Membership))
                implies self.last_membership == (StoredMembership {
                    log_id: Some(all[i].log_id),
                    membership: all[i].payload->Membership_0,
                }) by {
                lemma_last_membership_wins(m0, all, i);
            }
            lemma_last_membership_wins(m0, all, 0);
        }
        replies
    }
}


impl StateMachineData {
    /// The recent writes as the bytes of a chunk (the JSON object of the
    /// pairs in key order), and the chunk's content address. A map of
    /// strings always serializes, so this succeeds.
    pub fn encode_new_writes(&self) -> (r: Result<(Vec<u8>, String), SnapshotError>)
        ensures
            r is Ok,
            r matches Ok((bytes, id)) ==> {
                &&& bytes@ == json_object_bytes(self.new_writes_kvs.pair_listing())
                &&& id@ == hex_bytes(sha256_digest(bytes@))
                &&& json_object_pairs(bytes@) matches Some(p) && insert_each(Map::empty(), p) == self.new_writes_kvs@
            },
    {
        let pairs = self.new_writes_kvs.to_pairs();
        match encode_string_pairs(&pairs) {
            Ok(bytes) => {
                let id = compute_hash(bytes.as_slice());
                Ok((bytes, id))
            },
            Err(_) => Err(SnapshotError::EncodeWrites),
        }
    }

    /// Records a chunk as merged, and answers the manifest of a snapshot
    /// that ends with it: the chunks merged before, in ascending order,
    /// then the new one.
    pub fn record_chunk(&mut self, chunk_id: String) -> (r: SnapshotManifest)
        ensures
            chunk_ids(r.chunks@) == old(self).merged_chunks.listing().push(chunk_id@),
            ascending_texts(old(self).merged_chunks.listing()),
            records_chunk(*old(self), *final(self), chunk_id@),
    {
        let merged = self.merged_chunks.items();
        let mut chunks: Vec<ChunkReference> = Vec::new();
        let mut i: usize = 0;
        while i < merged.len()
            invariant
                i <= merged@.len(),
                chunks@.len() == i,
                forall|j: int| 0 <= j < i ==> (#[trigger] chunks@[j]).id@ == merged@[j]@,
            decreases merged@.len() - i,
        {
            chunks.push(ChunkReference { id: merged[i].clone() });
            i = i + 1;
        }
        let ghost cid = chunk_id@;
        chunks.push(ChunkReference { id: chunk_id.clone() });
        self.merged_chunks.insert(chunk_id);
        proof {
            assert(chunk_ids(chunks@) =~= old(self).merged_chunks.listing().push(cid)) by {
                assert forall|j: int| 0 <= j < merged@.len() implies chunk_ids(chunks@)[j] == old(self).merged_chunks.listing()[j] by {
                    assert(crate::ordered::texts_of(merged@)[j] == merged@[j]@);
                }
            }
        }
        SnapshotManifest { chunks }
    }

    /// Moves the recent writes into the history, the recent value of a key
    /// replacing the historical one. The recent writes stay as they are.
    pub fn fold_new_writes_into_history(&mut self)
        ensures
            folds_writes(*old(self), *final(self)),
    {
        self.historical_kvs.insert_all(&self.new_writes_kvs);
    }

    /// Forgets the recent writes.
    pub fn clear_new_writes(&mut self)
        ensures
            clears_writes(*old(self), *final(self)),
    {
        self.new_writes_kvs.clear();
    }

    /// The chunks of a manifest that the history does not hold yet, in the
    /// manifest's order.
    pub fn chunks_to_hydrate(&self, manifest: &SnapshotManifest) -> (r: Vec<ChunkReference>)
        ensures
            chunk_ids(r@) == chunk_ids(manifest.chunks@).filter(|id: Seq<char>| !self.merged_chunks@.contains(id)),
    {
        let mut out: Vec<ChunkReference> = Vec::new();
        let mut i: usize = 0;
        let ghost keep = |id: Seq<char>| !self.merged_chunks@.contains(id);
        while i < manifest.chunks.len()
            invariant
                i <= manifest.chunks@.len(),
                keep == (|id: Seq<char>| !self.merged_chunks@.contains(id)),
                chunk_ids(out@) == chunk_ids(manifest.chunks@).take(i as int).filter(keep),
            decreases manifest.chunks@.len() - i,
        {
            let c = &manifest.chunks[i];
            let ghost ids = chunk_ids(manifest.chunks@);
            proof {
                assert(ids.take(i + 1).drop_last() =~= ids.take(i as int));
                assert(ids.take(i + 1).last() == c.id@);
                assert(ids.take(i + 1).filter(keep) == (if keep(c.id@) {
                    ids.take(i as int).filter(keep).push(c.id@)
                } else {
                    ids.take(i as int).filter(keep)
                })) by {
                    reveal(Seq::filter);
                }
            }
            let ghost before = out@;
            if !self.merged_chunks.contains(c.id.as_str()) {
                out.push(ChunkReference { id: c.id.clone() });
                proof {
                    assert(chunk_ids(out@) =~= chunk_ids(before).push(c.id@));
                }
            }
            i = i + 1;
        }
        proof {
            assert(chunk_ids(manifest.chunks@).take(manifest.chunks@.len() as int) =~= chunk_ids(manifest.chunks@));
        }
        out
    }

    /// Merges the key/value pairs of a chunk's bytes into the history and
    /// records the chunk as merged; bytes that are no JSON object of
    /// strings leave everything as it was.
    pub fn hydrate_chunk(&mut self, chunk_id: String, bytes: &[u8]) -> (r: Result<(), SnapshotError>)
        ensures
            r is Ok <==> json_object_pairs(bytes@) is Some,
            r is Ok ==> {
                &&& final(self).historical_kvs@ == insert_each(old(self).historical_kvs@, json_object_pairs(bytes@)->0)
                &&& final(self).merged_chunks@ == old(self).merged_chunks@.insert(chunk_id@)
            },
            r matches Err(e) ==> {
                &&& e == SnapshotError::DecodeChunk
                &&& final(self).historical_kvs@ == old(self).historical_kvs@
                &&& final(self).merged_chunks@ == old(self).merged_chunks@
            },
            final(self).new_writes_kvs@ == old(self).new_writes_kvs@,
            final(self).last_applied_log_id == old(self).last_applied_log_id,
            final(self).last_membership == old(self).last_membership,
    {
        match decode_string_pairs(bytes) {
            Ok(pairs) => {
                self.historical_kvs.insert_pairs(pairs);
                self.merged_chunks.insert(chunk_id);
                Ok(())
            },
            Err(_) => Err(SnapshotError::DecodeChunk),
        }
    }

    /// Takes the last applied entry and the membership from a snapshot's
    /// description, as installing the snapshot ends.
    pub fn adopt_snapshot_meta(&mut self, meta: &SnapshotMeta)
        ensures
            final(self).last_applied_log_id == meta.last_log_id,
            stored_membership_view(final(self).last_membership) == stored_membership_view(meta.last_membership),
            final(self).historical_kvs@ == old(self).historical_kvs@,
            final(self).new_writes_kvs@ == old(self).new_writes_kvs@,
            final(self).merged_chunks@ == old(self).merged_chunks@,
    {
        self.last_applied_log_id = meta.last_log_id;
        self.last_membership = meta.last_membership.copy();
    }
}

/// What a snapshot builder carries of the state machine it was taken from:
/// the last applied entry and membership at that time, and its counter.
pub struct SnapshotBuilder {
    pub last_applied_log_id: Option<LogId>,
    pub last_membership: StoredMembership,
    pub snapshot_idx: u64,
}

impl SnapshotBuilder {
    /// The description of the snapshot this builder builds.
    pub fn snapshot_meta(&self) -> (r: SnapshotMeta)
        ensures
            r.last_log_id == self.last_applied_log_id,
            stored_membership_view(r.last_membership) == stored_membership_view(self.last_membership),
            r.snapshot_id@ == snapshot_name(self.last_applied_log_id, self.snapshot_idx),
    {
        SnapshotMeta {
            last_log_id: self.last_applied_log_id,
            last_membership: self.last_membership.copy(),
            snapshot_id: snapshot_id(self.last_applied_log_id, self.snapshot_idx),
        }
    }
}

/// The state machine and the counter that names its snapshots.
pub struct StateMachineStore {
    /// What the state machine has applied and holds.
    pub data: StateMachineData,
    /// Counts the snapshot builders handed out; names snapshots.
    pub snapshot_idx: u64,
}

impl StateMachineStore {
    /// A store that has applied nothing, its counter at zero.
    pub fn new() -> (r: Self)
        ensures
            r.snapshot_idx == 0,
            r.data.last_applied_log_id is None,
            r.data.last_membership.log_id is None,
            r.data.last_membership.membership.configs@.len() == 0,
            r.data.last_membership.membership.nodes@.len() == 0,
            r.data.historical_kvs@ == Map::<Seq<char>, Seq<char>>::empty(),
            r.data.new_writes_kvs@ == Map::<Seq<char>, Seq<char>>::empty(),
            r.data.merged_chunks@ == Set::<Seq<char>>::empty(),
            r.data.merged_chunks.listing() == Seq::<Seq<char>>::empty(),
    {
        StateMachineStore { data: StateMachineData::new(), snapshot_idx: 0 }
    }

    /// The last applied entry and the last membership.
    pub fn applied_state(&self) -> (r: (Option<LogId>, StoredMembership))
        ensures
            r.0 == self.data.last_applied_log_id,
            stored_membership_view(r.1) == stored_membership_view(self.data.last_membership),
    {
        (self.data.last_applied_log_id, self.data.last_membership.copy())
    }

    /// Counts one more snapshot and hands out a builder for it.
    pub fn get_snapshot_builder(&mut self) -> (r: SnapshotBuilder)
        requires
            old(self).snapshot_idx < u64::MAX,
        ensures
            final(self).snapshot_idx == old(self).snapshot_idx + 1,
            final(self).data == old(self).data,
            r.snapshot_idx == final(self).snapshot_idx,
            r.last_applied_log_id == old(self).data.last_applied_log_id,
            stored_membership_view(r.last_membership) == stored_membership_view(old(self).data.last_membership),
    {
        self.snapshot_idx = self.snapshot_idx + 1;
        SnapshotBuilder {
            last_applied_log_id: self.data.last_applied_log_id,
            last_membership: self.data.last_membership.copy(),
            snapshot_idx: self.snapshot_idx,
        }
    }
}


/// Building a snapshot loses no write and hides none: once the chunk is
/// recorded, the recent writes folded into the history and then cleared,
/// every read sees what it saw before; the history then holds everything
/// and the chunk is merged.
pub proof fn lemma_snapshot_keeps_reads(
    s0: StateMachineData,
    s1: StateMachineData,
    s2: StateMachineData,
    s3: StateMachineData,
    id: Seq<char>,
)
    requires
        records_chunk(s0, s1, id),
        folds_writes(s1, s2),
        clears_writes(s2, s3),
    ensures
        s3.visible() == s0.visible(),
        s3.historical_kvs@ == s0.visible(),
        s3.new_writes_kvs@ == Map::<Seq<char>, Seq<char>>::empty(),
        s3.merged_chunks@ == s0.merged_chunks@.insert(id),
        s3.last_applied_log_id == s0.last_applied_log_id,
{
    assert(s3.visible() =~= s0.visible());
}

/// A snapshot's chunk restores the writes it was made of: when the bytes
/// read back as pairs that, stored into an empty map, make the writes `w`
/// (as the bytes `encode_new_writes` gives do), hydrating them on any node
/// lays exactly `w` over that node's history.
pub proof fn lemma_chunk_restores_writes(
    w: Map<Seq<char>, Seq<char>>,
    bytes: Seq<u8>,
    h0: Map<Seq<char>, Seq<char>>,
    h1: Map<Seq<char>, Seq<char>>,
)
    requires
        json_object_pairs(bytes) matches Some(p) && insert_each(Map::empty(), p) == w,
        h1 == insert_each(h0, json_object_pairs(bytes)->0),
    ensures
        h1 == h0.union_prefer_right(w),
{
    crate::ordered::lemma_insert_each_is_union(h0, json_object_pairs(bytes)->0);
}

/// Installing a snapshot elsewhere restores the history it was built
/// from. One node starts with history `src[0]` and builds snapshots in
/// turn: build `i` folds its recent writes `ws[i]` into the history and
/// uploads chunk `chunks[i]`, whose bytes read back as those writes (as the
/// bytes `encode_new_writes` gives do). Another node starts with the same
/// history and hydrates the chunks in the order they were built, as the
/// manifest of the second build lists them. After the last chunk both
/// histories are the same, so every read agrees once the recent writes are
/// empty on both. (A later manifest lists the older chunks in ascending id
/// order, which need not be the order they were built in.)
pub proof fn lemma_install_restores_history(
    ws: Seq<Map<Seq<char>, Seq<char>>>,
    chunks: Seq<Seq<u8>>,
    src: Seq<Map<Seq<char>, Seq<char>>>,
    dst: Seq<Map<Seq<char>, Seq<char>>>,
)
    requires
        chunks.len() == ws.len(),
        src.len() == ws.len() + 1,
        dst.len() == ws.len() + 1,
        dst[0] == src[0],
        forall|i: int| 0 <= i < ws.len() ==> src[i + 1] == src[i].union_prefer_right(#[trigger] ws[i]),
        forall|i: int| 0 <= i < ws.len() ==> (json_object_pairs(#[trigger] chunks[i]) matches Some(p)
            && insert_each(Map::empty(), p) == ws[i]),
        forall|i: int| 0 <= i < ws.len() ==> dst[i + 1] == insert_each(dst[i], json_object_pairs(#[trigger] chunks[i])->0),
    ensures
        dst[ws.len() as int] == src[ws.len() as int],
{
    lemma_install_prefix(ws, chunks, src, dst, ws.len() as int);
}

proof fn lemma_install_prefix(
    ws: Seq<Map<Seq<char>, Seq<char>>>,
    chunks: Seq<Seq<u8>>,
    src: Seq<Map<Seq<char>, Seq<char>>>,
    dst: Seq<Map<Seq<char>, Seq<char>>>,
    k: int,
)
    requires
        chunks.len() == ws.len(),
        src.len() == ws.len() + 1,
        dst.len() == ws.len() + 1,
        dst[0] == src[0],
        forall|i: int| 0 <= i < ws.len() ==> src[i + 1] == src[i].union_prefer_right(#[trigger] ws[i]),
        forall|i: int| 0 <= i < ws.len() ==> (json_object_pairs(#[trigger] chunks[i]) matches Some(p)
            && insert_each(Map::empty(), p) == ws[i]),
        forall|i: int| 0 <= i < ws.len() ==> dst[i + 1] == insert_each(dst[i], json_object_pairs(#[trigger] chunks[i])->0),
        0 <= k <= ws.len(),
    ensures
        dst[k] == src[k],
    decreases k,
{
    if k > 0 {
        let i = k - 1;
        lemma_install_prefix(ws, chunks, src, dst, i);
        assert(src[i + 1] == src[i].union_prefer_right(ws[i]));
        assert(dst[i + 1] == insert_each(dst[i], json_object_pairs(chunks[i])->0));
        lemma_chunk_restores_writes(ws[i], chunks[i], dst[i], dst[i + 1]);
    }
}

/// Builders with different counters name different snapshots, so the
/// builders handed out by successive calls of `get_snapshot_builder`,
/// whose counters go up by one each time, never name two snapshots alike
/// after the same last applied entry.
pub proof fn lemma_snapshot_names_distinct(last: Option<LogId>, a: u64, b: u64)
    requires
        a != b,
    ensures
        snapshot_name(last, a) != snapshot_name(last, b),
{
    let p = match last {
        Some(l) => seq!['T'] + decimal_of(l.leader_id.term as nat) + seq!['-', 'N']
            + decimal_of(l.leader_id.node_id as nat) + seq!['-'] + decimal_of(l.index as nat)
            + seq!['-'],
        None => seq!['-', '-'],
    };
    assert(snapshot_name(last, a) =~= p + decimal_of(a as nat));
    assert(snapshot_name(last, b) =~= p + decimal_of(b as nat));
    if snapshot_name(last, a) == snapshot_name(last, b) {
        assert((p + decimal_of(a as nat)).skip(p.len() as int) =~= decimal_of(a as nat));
        assert((p + decimal_of(b as nat)).skip(p.len() as int) =~= decimal_of(b as nat));
        lemma_decimal_injective(a as nat, b as nat);
    }
}

/// Some long URL entry of the batch stores under key `k`.
pub open spec fn writes_key(entries: Seq<Entry>, k: Seq<char>) -> bool {
    exists|i: int| 0 <= i < entries.len() && (#[trigger] entries[i].payload matches EntryPayload::Normal(e) && e.hash@ == k)
}

/// Some entry of the batch is a membership entry.
pub open spec fn has_membership(entries: Seq<Entry>) -> bool {
    exists|i: int| 0 <= i < entries.len() && (#[trigger] entries[i].payload is Membership)
}

/// Applying a batch keeps every recent write whose key no entry of the
/// batch writes, with its value, and stores under no key but those held
/// before and those the batch writes.
pub proof fn lemma_apply_keeps_unwritten(w: Map<Seq<char>, Seq<char>>, entries: Seq<Entry>, k: Seq<char>)
    ensures
        apply_writes(w, entries).contains_key(k) <==> (w.contains_key(k) || writes_key(entries, k)),
        w.contains_key(k) && !writes_key(entries, k) ==> apply_writes(w, entries)[k] == w[k],
    decreases entries.len(),
{
    if entries.len() > 0 {
        let init = entries.drop_last();
        lemma_apply_keeps_unwritten(w, init, k);
        let last = entries.len() - 1;
        if writes_key(init, k) {
            let i = choose|i: int| 0 <= i < init.len() && (#[trigger] init[i].payload matches EntryPayload::Normal(e) && e.hash@ == k);
            assert(entries[i] == init[i]);
        }
        if writes_key(entries, k) {
            let i = choose|i: int| 0 <= i < entries.len() && (#[trigger] entries[i].payload matches EntryPayload::Normal(e) && e.hash@ == k);
            if i < last {
                assert(init[i] == entries[i]);
            }
        }
        if entries[last].payload matches EntryPayload::Normal(e) && e.hash@ == k {
            assert(writes_key(entries, k));
        }
    }
}

/// The membership in force after a batch is that of its last membership
/// entry, with that entry's log id, whatever membership was in force before;
/// a batch with no membership entry leaves the membership as it was.
pub proof fn lemma_last_membership_wins(m: StoredMembership, entries: Seq<Entry>, i: int)
    ensures
        0 <= i < entries.len() && entries[i].payload is Membership
            && (forall|j: int| i < j < entries.len() ==> !(#[trigger] entries[j].payload is Membership))
            ==> applied_membership(m, entries) == (StoredMembership {
                log_id: Some(entries[i].log_id),
                membership: entries[i].payload->Membership_0,
            }),
        !has_membership(entries) ==> applied_membership(m, entries) == m,
    decreases entries.len(),
{
    if entries.len() > 0 {
        let init = entries.drop_last();
        let last = entries.len() - 1;
        lemma_last_membership_wins(m, init, i);
        if 0 <= i < entries.len() && entries[i].payload is Membership
            && (forall|j: int| i < j < entries.len() ==> !(#[trigger] entries[j].payload is Membership)) {
            if i < last {
                assert(!(entries[last].payload is Membership));
                assert(init[i] == entries[i]);
                assert forall|j: int| i < j < init.len() implies !(#[trigger] init[j].payload is Membership) by {
                    assert(init[j] == entries[j]);
                }
            }
        }
        if !has_membership(entries) {
            assert(!(entries[last].payload is Membership));
            assert forall|j: int| 0 <= j < init.len() implies !(#[trigger] init[j].payload is Membership) by {
                assert(init[j] == entries[j]);
            }
        }
    }
}

/// A chunk that has been hydrated is not fetched again: the chunks to
/// hydrate from any manifest leave out every merged chunk.
pub proof fn lemma_merged_chunk_not_hydrated_again(ids: Seq<Seq<char>>, merged: Set<Seq<char>>, id: Seq<char>)
    requires
        merged.contains(id),
    ensures
        !ids.filter(|x: Seq<char>| !merged.contains(x)).contains(id),
{
    let f = ids.filter(|x: Seq<char>| !merged.contains(x));
    if f.contains(id) {
        let k = choose|k: int| 0 <= k < f.len() && f[k] == id;
        broadcast use vstd::seq_lib::group_filter_ensures;
        assert((|x: Seq<char>| !merged.contains(x))(f[k]));
    }
}

/// A read gives back the last write: if the `i`-th entry stores `u` under
/// key `k` and no later entry stores under `k`, then after applying the
/// entries the recent writes hold `u` under `k`.
pub proof fn lemma_last_write_wins(w: Map<Seq<char>, Seq<char>>, entries: Seq<Entry>, i: int)
    requires
        0 <= i < entries.len(),
        entries[i].payload is Normal,
        forall|j: int| i < j < entries.len() ==> (#[trigger] entries[j].payload matches EntryPayload::Normal(e)
            ==> e.hash@ != entries[i].payload->Normal_0.hash@),
    ensures
        apply_writes(w, entries).contains_key(entries[i].payload->Normal_0.hash@),
        apply_writes(w, entries)[entries[i].payload->Normal_0.hash@] == entries[i].payload->Normal_0.url@,
    decreases entries.len(),
{
    if i < entries.len() - 1 {
        let last = entries.len() - 1;
        assert(entries.drop_last()[i] == entries[i]);
        assert forall|j: int| i < j < entries.drop_last().len() implies (#[trigger] entries.drop_last()[j].payload matches EntryPayload::Normal(e)
            ==> e.hash@ != entries.drop_last()[i].payload->Normal_0.hash@) by {
            assert(entries.drop_last()[j] == entries[j]);
        }
        lemma_last_write_wins(w, entries.drop_last(), i);
        assert(entries[last].payload matches EntryPayload::Normal(e) ==> e.hash@ != entries[i].payload->Normal_0.hash@);
    }
}

} // verus!
