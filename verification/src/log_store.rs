//! The decisions of the log storage: how appended entries are ordered and
//! checked, which keys a read, a truncation and a purge cover, and what the
//! log state reports. The keys are the big-endian forms of log indices, so
//! the storage's key order is the order of the indices.
use vstd::prelude::*;

use crate::codec::{be_bytes, be_value, bin_to_id, bytes_lt, id_to_bin, lemma_key_order, lemma_key_round_trip};
use crate::types::{Entry, LogId};

verus! {

broadcast use vstd::seq_lib::to_multiset_insert;

/// What the log storage reports of itself.
#[derive(Clone, Copy, Debug, PartialEq, Eq, Structural)]
pub struct LogState {
    /// The last entry removed by a purge.
    pub last_purged_log_id: Option<LogId>,
    /// The last entry in the log, or the last purged one when the log is
    /// empty.
    pub last_log_id: Option<LogId>,
}

/// Why entries could not be appended.
#[derive(Clone, Copy, Debug, PartialEq, Eq, Structural)]
pub enum LogError {
    /// The entries, in index order, skip or repeat an index.
    NonSequential { expected: u64, got: u64 },
}

/// The log state, given the id of the last stored entry (if one could be
/// read) and the last purged id.
pub fn log_state(last_entry_id: Option<LogId>, last_purged: Option<LogId>) -> (r: LogState)
    ensures
        r.last_purged_log_id == last_purged,
        r.last_log_id == (match last_entry_id {
            Some(x) => Some(x),
            None => last_purged,
        }),
{
    let last_log_id = match last_entry_id {
        None => last_purged,
        Some(x) => Some(x),
    };
    LogState { last_purged_log_id: last_purged, last_log_id }
}

/// In ascending order of log index.
pub open spec fn sorted_by_index(s: Seq<Entry>) -> bool {
    forall|i: int, j: int| 0 <= i < j < s.len() ==> #[trigger] s[i].log_id.index <= #[trigger] s[j].log_id.index
}

/// The first `k` entries have consecutive indices, starting from the first.
pub open spec fn consecutive_prefix(s: Seq<Entry>, k: int) -> bool {
    forall|j: int| 0 <= j < k ==> #[trigger] s[j].log_id.index == s[0].log_id.index + j
}

/// The entries with log index `x`, in their order.
pub open spec fn with_index(s: Seq<Entry>, x: u64) -> Seq<Entry> {
    s.filter(|e: Entry| e.log_id.index == x)
}

proof fn lemma_with_index_push(s: Seq<Entry>, e: Entry, x: u64)
    ensures
        with_index(s.push(e), x) == (if e.log_id.index == x { with_index(s, x).push(e) } else { with_index(s, x) }),
{
    reveal(Seq::filter);
    assert(s.push(e).drop_last() =~= s);
}

proof fn lemma_with_index_insert(s: Seq<Entry>, pos: int, e: Entry, x: u64)
    requires
        0 <= pos <= s.len(),
        forall|j: int| pos <= j < s.len() ==> #[trigger] s[j].log_id.index > e.log_id.index,
    ensures
        with_index(s.insert(pos, e), x) == (if e.log_id.index == x { with_index(s, x).push(e) } else { with_index(s, x) }),
{
    broadcast use vstd::seq_lib::group_filter_ensures;
    let p = |en: Entry| en.log_id.index == x;
    let a = s.take(pos);
    let b = s.skip(pos);
    assert(s =~= a + b);
    assert(s.insert(pos, e) =~= a + seq![e] + b);
    Seq::filter_distributes_over_add(a + seq![e], b, p);
    Seq::filter_distributes_over_add(a, seq![e], p);
    Seq::filter_distributes_over_add(a, b, p);
    lemma_with_index_push(Seq::<Entry>::empty(), e, x);
    assert(Seq::<Entry>::empty().push(e) =~= seq![e]);
    assert(with_index(Seq::<Entry>::empty(), x) =~= Seq::<Entry>::empty()) by {
        reveal(Seq::filter);
    }
    if e.log_id.index == x {
        assert(b.all(|en: Entry| !p(en))) by {
            assert forall|j: int| 0 <= j < b.len() implies !p(#[trigger] b[j]) by {
                assert(b[j] == s[pos + j]);
            }
        }
        b.lemma_all_neg_filter_empty(p);
        assert(b.filter(p) =~= Seq::<Entry>::empty());
        assert(with_index(s.insert(pos, e), x) =~= with_index(s, x).push(e));
    } else {
        assert(with_index(s.insert(pos, e), x) =~= with_index(s, x));
    }
}

/// Orders entries by log index, keeping the order of entries with equal
/// index.
pub fn sort_by_index(entries: Vec<Entry>) -> (r: Vec<Entry>)
    ensures
        sorted_by_index(r@),
        r@.to_multiset() == entries@.to_multiset(),
        forall|x: u64| #[trigger] with_index(r@, x) == with_index(entries@, x),
{
    let ghost all = entries@;
    let mut out: Vec<Entry> = Vec::new();
    proof {
        assert(all.take(0) =~= Seq::<Entry>::empty());
        assert(out@ =~= Seq::<Entry>::empty());
    }
    for e in it: entries
        invariant
            it.seq() == all,
            sorted_by_index(out@),
            out@.to_multiset() == all.take(it.index() as int).to_multiset(),
            forall|x: u64| #[trigger] with_index(out@, x) == with_index(all.take(it.index() as int), x),
    {
        let ghost i = it.index();
        let mut pos: usize = out.len();
        while pos > 0 && out[pos - 1].log_id.index > e.log_id.index
            invariant
                pos <= out@.len(),
                sorted_by_index(out@),
                forall|j: int| pos <= j < out@.len() ==> #[trigger] out@[j].log_id.index > e.log_id.index,
            decreases pos,
        {
            pos = pos - 1;
        }
        let ghost before = out@;
        out.insert(pos, e);
        proof {
            assert(all.take(i + 1) =~= all.take(i as int).push(all[i as int]));
            vstd::seq_lib::to_multiset_build(all.take(i as int), all[i as int]);
            assert forall|x: u64| #[trigger] with_index(out@, x) == with_index(all.take(i + 1), x) by {
                lemma_with_index_insert(before, pos as int, e, x);
                lemma_with_index_push(all.take(i as int), all[i as int], x);
            }
            assert forall|a: int, b: int| 0 <= a < b < out@.len() implies #[trigger] out@[a].log_id.index <= #[trigger] out@[b].log_id.index by {
                if a < pos && b < pos {
                    assert(before[a].log_id.index <= before[b].log_id.index);
                } else if a < pos && b == pos {
                    if pos > 0 {
                        assert(before[pos - 1].log_id.index <= e.log_id.index);
                        if a < pos - 1 {
                            assert(before[a].log_id.index <= before[pos - 1].log_id.index);
                        }
                    }
                } else if a < pos {
                    assert(before[a].log_id.index <= before[b - 1].log_id.index);
                } else if a == pos {
                    assert(before[b - 1].log_id.index > e.log_id.index);
                } else {
                    assert(before[a - 1].log_id.index <= before[b - 1].log_id.index);
                }
            }
        }
    }
    proof {
        assert(all.take(all.len() as int) =~= all);
    }
    out
}

/// Some entry has log index `v`.
pub open spec fn holds_index(s: Seq<Entry>, v: u64) -> bool {
    exists|k: int| 0 <= k < s.len() && #[trigger] s[k].log_id.index == v
}

/// `x` is the smallest log index held.
pub open spec fn least_index(s: Seq<Entry>, x: u64) -> bool {
    &&& holds_index(s, x)
    &&& forall|k: int| 0 <= k < s.len() ==> x <= #[trigger] s[k].log_id.index
}

/// The indices in order run without a gap or a repeat from the smallest up
/// to the largest index: each index from the smallest held up to, not
/// including, `u64::MAX` is held exactly once, and `u64::MAX` is held
/// (any number of times).
pub open spec fn run_reaches_max(s: Seq<Entry>) -> bool {
    exists|x: u64| {
        &&& #[trigger] least_index(s, x)
        &&& holds_index(s, u64::MAX)
        &&& forall|v: u64| x <= v < u64::MAX ==> #[trigger] with_index(s, v).len() == 1
    }
}

/// An index held at one position only is held once.
proof fn lemma_index_held_once(s: Seq<Entry>, p: int)
    requires
        0 <= p < s.len(),
        forall|q: int| 0 <= q < s.len() && q != p ==> #[trigger] s[q].log_id.index != s[p].log_id.index,
    ensures
        with_index(s, s[p].log_id.index).len() == 1,
{
    broadcast use vstd::seq_lib::group_filter_ensures;
    let v = s[p].log_id.index;
    let pred = |en: Entry| en.log_id.index == v;
    let a = s.take(p);
    let b = s.skip(p + 1);
    assert(s =~= a + seq![s[p]] + b);
    Seq::filter_distributes_over_add(a + seq![s[p]], b, pred);
    Seq::filter_distributes_over_add(a, seq![s[p]], pred);
    assert(a.all(|en: Entry| !pred(en))) by {
        assert forall|j: int| 0 <= j < a.len() implies !pred(#[trigger] a[j]) by {
            assert(a[j] == s[j]);
        }
    }
    assert(b.all(|en: Entry| !pred(en))) by {
        assert forall|j: int| 0 <= j < b.len() implies !pred(#[trigger] b[j]) by {
            assert(b[j] == s[p + 1 + j]);
        }
    }
    a.lemma_all_neg_filter_empty(pred);
    b.lemma_all_neg_filter_empty(pred);
    lemma_with_index_push(Seq::<Entry>::empty(), s[p], v);
    assert(Seq::<Entry>::empty().push(s[p]) =~= seq![s[p]]);
    assert(with_index(Seq::<Entry>::empty(), v) =~= Seq::<Entry>::empty()) by {
        reveal(Seq::filter);
    }
    assert(with_index(s, v) =~= seq![s[p]]);
}

proof fn lemma_full_run_reaches_max(orig: Seq<Entry>, s: Seq<Entry>, i: int)
    requires
        s.to_multiset() == orig.to_multiset(),
        forall|x: u64| #[trigger] with_index(s, x) == with_index(orig, x),
        sorted_by_index(s),
        0 <= i < s.len(),
        consecutive_prefix(s, i + 1),
        s[i].log_id.index == u64::MAX,
    ensures
        run_reaches_max(orig),
{
    let first = s[0].log_id.index;
    vstd::seq_lib::to_multiset_contains(s, s[0]);
    vstd::seq_lib::to_multiset_contains(orig, s[0]);
    assert(s.contains(s[0]));
    let j = choose|j: int| 0 <= j < orig.len() && orig[j] == s[0];
    assert forall|k: int| 0 <= k < orig.len() implies first <= #[trigger] orig[k].log_id.index by {
        assert(orig.contains(orig[k]));
        vstd::seq_lib::to_multiset_contains(orig, orig[k]);
        vstd::seq_lib::to_multiset_contains(s, orig[k]);
        let m = choose|m: int| 0 <= m < s.len() && s[m] == orig[k];
        if m > 0 {
            assert(s[0].log_id.index <= s[m].log_id.index);
        }
    }
    assert(holds_index(orig, first));
    assert(least_index(orig, first));
    assert(s.contains(s[i]));
    vstd::seq_lib::to_multiset_contains(s, s[i]);
    vstd::seq_lib::to_multiset_contains(orig, s[i]);
    let k = choose|k: int| 0 <= k < orig.len() && orig[k] == s[i];
    assert(holds_index(orig, u64::MAX));
    assert forall|v: u64| first <= v < u64::MAX implies #[trigger] with_index(orig, v).len() == 1 by {
        let m = v - first;
        assert(0 <= m < i);
        assert(s[m].log_id.index == v);
        assert forall|q: int| 0 <= q < s.len() && q != m implies #[trigger] s[q].log_id.index != s[m].log_id.index by {
            if q <= i {
                assert(s[q].log_id.index == first + q);
            } else {
                assert(s[i].log_id.index <= s[q].log_id.index);
            }
        }
        lemma_index_held_once(s, m);
        assert(with_index(s, v) == with_index(orig, v));
    }
}

/// Orders entries for appending and pairs each with its storage key.
/// Succeeds when the indices, in order, are consecutive; otherwise names the
/// first index that breaks the sequence and the index expected there. The
/// expected index counts past each entry that matches it, so the indices in
/// order may not run without a gap or a repeat from the smallest up to the
/// largest index.
pub fn prepare_append(entries: Vec<Entry>) -> (r: Result<Vec<(Vec<u8>, Entry)>, LogError>)
    requires
        !run_reaches_max(entries@),
    ensures
        match r {
            Ok(v) => {
                let s = v@.map_values(|p: (Vec<u8>, Entry)| p.1);
                &&& s.to_multiset() == entries@.to_multiset()
                &&& sorted_by_index(s)
                &&& consecutive_prefix(s, s.len() as int)
                &&& forall|j: int| 0 <= j < v@.len() ==> (#[trigger] v@[j]).0@ == be_bytes(v@[j].1.log_id.index)
            },
            Err(LogError::NonSequential { expected, got }) => exists|s: Seq<Entry>, k: int| {
                &&& s.to_multiset() == entries@.to_multiset()
                &&& sorted_by_index(s)
                &&& 0 < k < s.len()
                &&& consecutive_prefix(s, k)
                &&& #[trigger] s[k].log_id.index != s[0].log_id.index + k
                &&& expected == s[0].log_id.index + k
                &&& got == s[k].log_id.index
            },
        },
{
    proof {
        vstd::seq_lib::lemma_multiset_commutative(entries@, entries@);
    }
    let ghost orig = entries@;
    let sorted = sort_by_index(entries);
    let n = sorted.len();
    if n > 0 {
        let first = sorted[0].log_id.index;
        let mut expected: u64 = first;
        let mut i: usize = 0;
        while i < n
            invariant
                i <= n,
                n == sorted@.len(),
                n > 0,
                first == sorted@[0].log_id.index,
                expected == first + i,
                consecutive_prefix(sorted@, i as int),
                sorted_by_index(sorted@),
                sorted@.to_multiset() == orig.to_multiset(),
                orig == entries@,
                !run_reaches_max(orig),
                forall|x: u64| #[trigger] with_index(sorted@, x) == with_index(orig, x),
            decreases n - i,
        {
            if sorted[i].log_id.index != expected {
                let got = sorted[i].log_id.index;
                proof {
                    assert(i > 0);
                    assert(sorted@[i as int].log_id.index != sorted@[0].log_id.index + i);
                    let k = i as int;
                    assert({
                        &&& sorted@.to_multiset() == entries@.to_multiset()
                        &&& sorted_by_index(sorted@)
                        &&& 0 < k < sorted@.len()
                        &&& consecutive_prefix(sorted@, k)
                        &&& sorted@[k].log_id.index != sorted@[0].log_id.index + k
                        &&& expected == sorted@[0].log_id.index + k
                        &&& got == sorted@[k].log_id.index
                    });
                }
                return Err(LogError::NonSequential { expected, got });
            }
            proof {
                assert(consecutive_prefix(sorted@, i + 1));
                if sorted@[i as int].log_id.index == u64::MAX {
                    lemma_full_run_reaches_max(orig, sorted@, i as int);
                }
            }
            expected = expected + 1;
            i = i + 1;
        }
    }
    let ghost s = sorted@;
    let mut out: Vec<(Vec<u8>, Entry)> = Vec::new();
    for e in it: sorted
        invariant
            it.seq() == s,
            out@.len() == it.index(),
            forall|j: int| 0 <= j < it.index() ==> (#[trigger] out@[j]).1 == s[j],
            forall|j: int| 0 <= j < it.index() ==> (#[trigger] out@[j]).0@ == be_bytes(out@[j].1.log_id.index),
    {
        let key = id_to_bin(e.log_id.index);
        out.push((key, e));
    }
    proof {
        assert(out@.map_values(|p: (Vec<u8>, Entry)| p.1) =~= s);
    }
    Ok(out)
}

/// One end of a range of log indices.
#[derive(Clone, Copy, Debug, PartialEq, Eq, Structural)]
pub enum IndexBound {
    Included(u64),
    Excluded(u64),
    Unbounded,
}

/// A range of log indices, as a read asks for it.
#[derive(Clone, Copy, Debug, PartialEq, Eq, Structural)]
pub struct IndexRange {
    pub start: IndexBound,
    pub end: IndexBound,
}

/// Whether the range holds index `x`.
pub open spec fn range_holds(r: IndexRange, x: u64) -> bool {
    &&& match r.start {
        IndexBound::Included(a) => a <= x,
        IndexBound::Excluded(a) => a < x,
        IndexBound::Unbounded => true,
    }
    &&& match r.end {
        IndexBound::Included(b) => x <= b,
        IndexBound::Excluded(b) => x < b,
        IndexBound::Unbounded => true,
    }
}

/// The first index the range can hold.
pub open spec fn range_first(r: IndexRange) -> int {
    match r.start {
        IndexBound::Included(a) => a as int,
        IndexBound::Excluded(a) => a + 1,
        IndexBound::Unbounded => 0,
    }
}

/// The first index a range can hold is the least: every index the range
/// holds is at or above it, and every index at or above it that the end
/// allows is held; with no start bound it is index 0.
pub proof fn lemma_range_first_is_least(r: IndexRange, x: u64)
    ensures
        range_holds(r, x) ==> range_first(r) <= x,
        range_first(r) <= x && range_holds(IndexRange { start: IndexBound::Unbounded, end: r.end }, x) ==> range_holds(r, x),
        r.start == IndexBound::Unbounded ==> range_first(r) == 0,
{
}

impl IndexRange {
    /// Whether the range holds index `x`.
    pub fn contains(&self, x: u64) -> (r: bool)
        ensures
            r == range_holds(*self, x),
    {
        let above = match self.start {
            IndexBound::Included(a) => a <= x,
            IndexBound::Excluded(a) => a < x,
            IndexBound::Unbounded => true,
        };
        let below = match self.end {
            IndexBound::Included(b) => x <= b,
            IndexBound::Excluded(b) => x < b,
            IndexBound::Unbounded => true,
        };
        above && below
    }

    /// The key a read of this range starts scanning at: that of the first
    /// index the range can hold.
    pub fn start_key(&self) -> (r: Vec<u8>)
        requires
            self.start != IndexBound::Excluded(u64::MAX),
        ensures
            r@ == be_bytes(range_first(*self) as u64),
            forall|x: u64| range_holds(*self, x) ==> !bytes_lt(#[trigger] be_bytes(x), r@),
    {
        proof {
            assert forall|x: u64| range_holds(*self, x) implies !bytes_lt(#[trigger] be_bytes(x), be_bytes(range_first(*self) as u64)) by {
                lemma_range_first_is_least(*self, x);
                lemma_key_order(x, range_first(*self) as u64);
            }
        }
        match self.start {
            IndexBound::Included(x) => id_to_bin(x),
            IndexBound::Excluded(x) => id_to_bin(x + 1),
            IndexBound::Unbounded => id_to_bin(0),
        }
    }

    /// Whether a read of this range keeps the entry stored under `key`:
    /// whether the range holds the index the key encodes. A read scans the
    /// keys in order from `start_key` and stops at the first it does not
    /// keep.
    pub fn keeps_key(&self, key: &[u8]) -> (r: bool)
        requires
            key@.len() >= 8,
        ensures
            r == range_holds(*self, be_value(key@)),
    {
        self.contains(bin_to_id(key))
    }
}

/// Every key of an index comes before the key that follows that of the
/// largest index with one more byte.
proof fn lemma_below_truncate_end(x: u64)
    ensures
        bytes_lt(be_bytes(x), be_bytes(u64::MAX).push(0u8)),
{
    let a = be_bytes(x);
    let b = be_bytes(u64::MAX);
    let e = b.push(0u8);
    if x == u64::MAX {
        assert(e.take(a.len() as int) =~= a);
    } else {
        lemma_key_order(x, u64::MAX);
        assert(a.len() == 8 && b.len() == 8);
        if !(a.len() < b.len() && a == b.take(a.len() as int)) {
            let k = choose|k: int| 0 <= k < a.len() && k < b.len() && a.take(k) == b.take(k) && #[trigger] a[k] < b[k];
            assert(e.take(k) =~= b.take(k));
            assert(e[k] == b[k]);
            assert(0 <= k < a.len() && k < e.len() && a.take(k) == e.take(k) && a[k] < e[k]);
        }
    }
}

/// The keys a truncation at `log_id` deletes: from that of its index up to,
/// not including, the key that follows that of the largest index with one
/// more byte, so that every index from `log_id`'s on is deleted, the largest
/// one too.
pub fn truncate_keys(log_id: LogId) -> (r: (Vec<u8>, Vec<u8>))
    ensures
        r.0@ == be_bytes(log_id.index),
        r.1@ == be_bytes(u64::MAX).push(0u8),
        forall|x: u64| (!bytes_lt(#[trigger] be_bytes(x), r.0@) && bytes_lt(be_bytes(x), r.1@)) <==> log_id.index <= x,
{
    let mut end = id_to_bin(0xffff_ffff_ffff_ffffu64);
    end.push(0u8);
    proof {
        assert forall|x: u64| (!bytes_lt(#[trigger] be_bytes(x), be_bytes(log_id.index)) && bytes_lt(be_bytes(x), end@))
            <==> log_id.index <= x by {
            lemma_key_order(x, log_id.index);
            lemma_below_truncate_end(x);
        }
    }
    (id_to_bin(log_id.index), end)
}

/// The keys a purge up to `log_id` deletes: from that of index 0 up to, not
/// including, that of the next index.
pub fn purge_keys(log_id: LogId) -> (r: (Vec<u8>, Vec<u8>))
    requires
        log_id.index < u64::MAX,
    ensures
        r.0@ == be_bytes(0),
        r.1@ == be_bytes((log_id.index + 1) as u64),
{
    (id_to_bin(0), id_to_bin(log_id.index + 1))
}

/// Deleting the keys from that of `a` up to, not including, that of `b`
/// deletes exactly the indices `x` with `a <= x < b`.
pub proof fn lemma_key_range_is_index_range(a: u64, b: u64, x: u64)
    ensures
        (!bytes_lt(be_bytes(x), be_bytes(a)) && bytes_lt(be_bytes(x), be_bytes(b))) <==> (a <= x && x < b),
{
    lemma_key_order(x, a);
    lemma_key_order(x, b);
}

/// A read of a range gets every stored entry the range holds: when the
/// keys scanned are those of strictly ascending indices, none below the
/// range's first, the scan keeps exactly the keys whose index the range
/// holds.
pub proof fn lemma_scan_gets_whole_range(r: IndexRange, ids: Seq<u64>, n: int)
    requires
        forall|i: int, j: int| 0 <= i < j < ids.len() ==> #[trigger] ids[i] < #[trigger] ids[j],
        forall|j: int| 0 <= j < ids.len() ==> range_first(r) <= #[trigger] ids[j],
        0 <= n <= ids.len(),
        forall|j: int| 0 <= j < n ==> range_holds(r, #[trigger] ids[j]),
        n < ids.len() ==> !range_holds(r, ids[n]),
    ensures
        forall|j: int| 0 <= j < ids.len() ==> (range_holds(r, #[trigger] ids[j]) <==> j < n),
{
    assert forall|j: int| 0 <= j < ids.len() implies (range_holds(r, #[trigger] ids[j]) <==> j < n) by {
        if j > n {
            assert(ids[n] < ids[j]);
        }
    }
}

/// The keys of the scanned entries read back as their indices.
pub proof fn lemma_scan_keys_are_indices(ids: Seq<u64>)
    ensures
        forall|j: int| 0 <= j < ids.len() ==> be_value(be_bytes(#[trigger] ids[j])) == ids[j],
{
    assert forall|j: int| 0 <= j < ids.len() implies be_value(be_bytes(#[trigger] ids[j])) == ids[j] by {
        lemma_key_round_trip(ids[j]);
    }
}

} // verus!
