//! Ordered string collections: a map from strings to strings and a set of
//! strings, both kept sorted by key the way `BTreeMap<String, _>` and
//! `BTreeSet<String>` order their keys.
use vstd::prelude::*;

use crate::codec::chars_of;

verus! {

/// Lexicographic order on texts, character by character (code point
/// order). On valid UTF-8 this is the byte order that `String`'s `Ord`
/// uses, since UTF-8 encoding preserves code point order.
pub open spec fn text_lt(a: Seq<char>, b: Seq<char>) -> bool
    decreases a.len(),
{
    if a.len() == 0 {
        b.len() > 0
    } else if b.len() == 0 {
        false
    } else if a[0] != b[0] {
        a[0] < b[0]
    } else {
        text_lt(a.drop_first(), b.drop_first())
    }
}

/// No text comes before itself.
pub proof fn lemma_text_lt_irreflexive(a: Seq<char>)
    ensures
        !text_lt(a, a),
    decreases a.len(),
{
    if a.len() > 0 {
        lemma_text_lt_irreflexive(a.drop_first());
    }
}

/// Two distinct texts are ordered one way or the other, never both.
pub proof fn lemma_text_lt_total(a: Seq<char>, b: Seq<char>)
    ensures
        a != b ==> (text_lt(a, b) || text_lt(b, a)),
        !(text_lt(a, b) && text_lt(b, a)),
    decreases a.len(),
{
    if a.len() > 0 && b.len() > 0 && a[0] == b[0] {
        lemma_text_lt_total(a.drop_first(), b.drop_first());
        if a != b {
            assert(a.drop_first() != b.drop_first()) by {
                if a.drop_first() == b.drop_first() {
                    assert(a =~= seq![a[0]] + a.drop_first());
                    assert(b =~= seq![b[0]] + b.drop_first());
                }
            }
        }
    } else if a.len() == 0 && b.len() == 0 {
        assert(a =~= b);
    }
}

/// The order on texts is transitive.
pub proof fn lemma_text_lt_transitive(a: Seq<char>, b: Seq<char>, c: Seq<char>)
    requires
        text_lt(a, b),
        text_lt(b, c),
    ensures
        text_lt(a, c),
    decreases a.len(),
{
    if a.len() > 0 && b.len() > 0 && c.len() > 0 && a[0] == b[0] && b[0] == c[0] {
        lemma_text_lt_transitive(a.drop_first(), b.drop_first(), c.drop_first());
    }
}

/// Compares two texts in the order of `text_lt`.
pub fn text_less(a: &str, b: &str) -> (r: bool)
    ensures
        r == text_lt(a@, b@),
{
    let ca = chars_of(a);
    let cb = chars_of(b);
    let mut i: usize = 0;
    assert(a@.skip(0) =~= a@);
    assert(b@.skip(0) =~= b@);
    while i < ca.len() && i < cb.len()
        invariant
            i <= ca@.len(),
            i <= cb@.len(),
            ca@ == a@,
            cb@ == b@,
            text_lt(a@, b@) == text_lt(a@.skip(i as int), b@.skip(i as int)),
        decreases ca@.len() - i,
    {
        let x = ca[i];
        let y = cb[i];
        assert(a@.skip(i as int)[0] == x);
        assert(b@.skip(i as int)[0] == y);
        if x != y {
            return x < y;
        }
        assert(a@.skip(i as int).drop_first() =~= a@.skip(i + 1));
        assert(b@.skip(i as int).drop_first() =~= b@.skip(i + 1));
        i = i + 1;
    }
    i < cb.len()
}

/// Strictly increasing in the text order.
pub open spec fn sorted_texts(s: Seq<String>) -> bool {
    forall|i: int, j: int| 0 <= i < j < s.len() ==> text_lt(#[trigger] s[i]@, #[trigger] s[j]@)
}

/// Where a text stands in a sorted sequence of texts: the number of
/// entries that come before it, and whether it is there.
pub fn search_sorted(keys: &Vec<String>, k: &str) -> (r: (bool, usize))
    requires
        sorted_texts(keys@),
    ensures
        r.1 <= keys@.len(),
        forall|j: int| 0 <= j < r.1 ==> text_lt(keys@[j]@, k@),
        forall|j: int| r.1 <= j < keys@.len() ==> !text_lt(keys@[j]@, k@),
        r.0 <==> (r.1 < keys@.len() && keys@[r.1 as int]@ == k@),
        r.0 <==> exists|j: int| 0 <= j < keys@.len() && keys@[j]@ == k@,
{
    let mut lo: usize = 0;
    let mut hi: usize = keys.len();
    while lo < hi
        invariant
            lo <= hi <= keys@.len(),
            sorted_texts(keys@),
            forall|j: int| 0 <= j < lo ==> text_lt(keys@[j]@, k@),
            forall|j: int| hi <= j < keys@.len() ==> !text_lt(keys@[j]@, k@),
        decreases hi - lo,
    {
        let mid = lo + (hi - lo) / 2;
        if text_less(keys[mid].as_str(), k) {
            assert forall|j: int| 0 <= j <= mid implies text_lt(keys@[j]@, k@) by {
                if j < mid {
                    lemma_text_lt_transitive(keys@[j]@, keys@[mid as int]@, k@);
                }
            }
            lo = mid + 1;
        } else {
            assert forall|j: int| mid <= j < keys@.len() implies !text_lt(keys@[j]@, k@) by {
                if j > mid && text_lt(keys@[j]@, k@) {
                    lemma_text_lt_transitive(keys@[mid as int]@, keys@[j]@, k@);
                }
            }
            hi = mid;
        }
    }
    let found = lo < keys.len() && text_equal(keys[lo].as_str(), k);
    proof {
        if exists|j: int| 0 <= j < keys@.len() && keys@[j]@ == k@ {
            let j = choose|j: int| 0 <= j < keys@.len() && keys@[j]@ == k@;
            lemma_text_lt_irreflexive(k@);
            if j > lo {
                lemma_text_lt_total(keys@[lo as int]@, k@);
            }
        }
    }
    (found, lo)
}

/// Whether two texts are equal.
pub fn text_equal(a: &str, b: &str) -> (r: bool)
    ensures
        r == (a@ == b@),
{
    let ca = chars_of(a);
    let cb = chars_of(b);
    if ca.len() != cb.len() {
        return false;
    }
    let mut i: usize = 0;
    while i < ca.len()
        invariant
            i <= ca@.len(),
            ca@.len() == cb@.len(),
            ca@ == a@,
            cb@ == b@,
            forall|j: int| 0 <= j < i ==> ca@[j] == cb@[j],
        decreases ca@.len() - i,
    {
        if ca[i] != cb[i] {
            return false;
        }
        i = i + 1;
    }
    assert(ca@ =~= cb@);
    true
}


/// The keys of a list of key/value pairs.
pub open spec fn pair_keys(s: Seq<(String, String)>) -> Seq<String> {
    s.map_values(|e: (String, String)| e.0)
}

/// The texts of a list of string pairs.
pub open spec fn pair_views(s: Seq<(String, String)>) -> Seq<(Seq<char>, Seq<char>)> {
    s.map_values(|e: (String, String)| (e.0@, e.1@))
}

/// The map obtained by storing the pairs one after the other, a later pair
/// replacing an earlier one with the same key.
pub open spec fn insert_each(m: Map<Seq<char>, Seq<char>>, s: Seq<(Seq<char>, Seq<char>)>) -> Map<Seq<char>, Seq<char>>
    decreases s.len(),
{
    if s.len() == 0 {
        m
    } else {
        insert_each(m, s.drop_last()).insert(s.last().0, s.last().1)
    }
}

/// Storing pairs one after the other into a map is storing them into an
/// empty map and laying the result over the first.
pub proof fn lemma_insert_each_is_union(m: Map<Seq<char>, Seq<char>>, s: Seq<(Seq<char>, Seq<char>)>)
    ensures
        insert_each(m, s) == m.union_prefer_right(insert_each(Map::empty(), s)),
    decreases s.len(),
{
    if s.len() > 0 {
        lemma_insert_each_is_union(m, s.drop_last());
        assert(insert_each(m, s) =~= m.union_prefer_right(insert_each(Map::empty(), s)));
    } else {
        assert(m =~= m.union_prefer_right(Map::<Seq<char>, Seq<char>>::empty()));
    }
}

proof fn lemma_insert_each_prefix(s: Seq<(String, String)>, i: int)
    requires
        sorted_texts(pair_keys(s)),
        0 <= i <= s.len(),
    ensures
        insert_each(Map::empty(), pair_views(s).take(i)) == prefix_map(s, i),
    decreases i,
{
    if i == 0 {
        assert(pair_views(s).take(0) =~= Seq::<(Seq<char>, Seq<char>)>::empty());
        assert(prefix_map(s, 0) =~= Map::<Seq<char>, Seq<char>>::empty());
    } else {
        lemma_insert_each_prefix(s, i - 1);
        let t = pair_views(s).take(i);
        assert(t.drop_last() =~= pair_views(s).take(i - 1));
        assert(t.last() == (s[i - 1].0@, s[i - 1].1@));
        let p0 = prefix_map(s, i - 1);
        let p1 = prefix_map(s, i);
        assert(p1.contains_key(s[i - 1].0@));
        let j = key_pos(s, s[i - 1].0@);
        if j != i - 1 {
            lemma_sorted_distinct(pair_keys(s), i - 1, j);
            assert(pair_keys(s)[i - 1] == s[i - 1].0);
            assert(pair_keys(s)[j] == s[j].0);
        }
        assert(p1 =~= p0.insert(s[i - 1].0@, s[i - 1].1@));
    }
}

/// Sorted keys are distinct.
pub proof fn lemma_sorted_distinct(s: Seq<String>, i: int, j: int)
    requires
        sorted_texts(s),
        0 <= i < s.len(),
        0 <= j < s.len(),
        i != j,
    ensures
        s[i]@ != s[j]@,
{
    if i < j {
        assert(text_lt(s[i]@, s[j]@));
        lemma_text_lt_irreflexive(s[i]@);
    } else {
        assert(text_lt(s[j]@, s[i]@));
        lemma_text_lt_irreflexive(s[j]@);
    }
}

/// Where the key `k` stands among the pairs.
pub open spec fn key_pos(s: Seq<(String, String)>, k: Seq<char>) -> int {
    choose|i: int| 0 <= i < s.len() && #[trigger] s[i].0@ == k
}

/// The map made of the first `n` pairs.
pub open spec fn prefix_map(s: Seq<(String, String)>, n: int) -> Map<Seq<char>, Seq<char>> {
    Map::new(
        |k: Seq<char>| exists|i: int| 0 <= i < n && #[trigger] s[i].0@ == k,
        |k: Seq<char>| s[key_pos(s, k)].1@,
    )
}

/// A map from texts to texts, kept sorted by key as `BTreeMap<String, String>`
/// keeps it. vstd's contracts for `BTreeMap` hold only for keys with an
/// order specification, and it gives `String` none, so the order is kept
/// here and proved.
pub struct StringMap {
    entries: Vec<(String, String)>,
}

impl StringMap {
    #[verifier::type_invariant]
    spec fn sorted(&self) -> bool {
        sorted_texts(pair_keys(self.entries@))
    }

    /// The map as a mathematical map over the texts.
    pub closed spec fn view(&self) -> Map<Seq<char>, Seq<char>> {
        prefix_map(self.entries@, self.entries@.len() as int)
    }

    proof fn lemma_entry_in_view(&self, i: int)
        requires
            sorted_texts(pair_keys(self.entries@)),
            0 <= i < self.entries@.len(),
        ensures
            self.view().contains_key(self.entries@[i].0@),
            self.view()[self.entries@[i].0@] == self.entries@[i].1@,
    {
        let k = self.entries@[i].0@;
        assert(self.view().contains_key(k));
        let j = key_pos(self.entries@, k);
        assert(0 <= j < self.entries@.len() && self.entries@[j].0@ == k);
        if j != i {
            lemma_sorted_distinct(pair_keys(self.entries@), i, j);
            assert(pair_keys(self.entries@)[i] == self.entries@[i].0);
            assert(pair_keys(self.entries@)[j] == self.entries@[j].0);
            assert(false);
        }
        assert(self.view()[k] == self.entries@[j].1@);
    }

    /// An empty map.
    pub fn new() -> (r: Self)
        ensures
            r@ == Map::<Seq<char>, Seq<char>>::empty(),
    {
        let r = StringMap { entries: Vec::new() };
        assert(r@ =~= Map::<Seq<char>, Seq<char>>::empty());
        r
    }

    /// Whether the map holds no key.
    pub fn is_empty(&self) -> (r: bool)
        ensures
            r == (self@ == Map::<Seq<char>, Seq<char>>::empty()),
    {
        proof {
            if self.entries@.len() > 0 {
                assert(self@.contains_key(self.entries@[0].0@));
            } else {
                assert(self@ =~= Map::<Seq<char>, Seq<char>>::empty());
            }
        }
        self.entries.len() == 0
    }

    fn find(&self, k: &str) -> (r: (bool, usize))
        ensures
            r.1 <= self.entries@.len(),
            forall|j: int| 0 <= j < r.1 ==> text_lt(self.entries@[j].0@, k@),
            forall|j: int| r.1 <= j < self.entries@.len() ==> !text_lt(self.entries@[j].0@, k@),
            r.0 <==> (r.1 < self.entries@.len() && self.entries@[r.1 as int].0@ == k@),
            r.0 <==> self@.contains_key(k@),
    {
        proof { use_type_invariant(self); }
        let mut lo: usize = 0;
        let mut hi: usize = self.entries.len();
        while lo < hi
            invariant
                lo <= hi <= self.entries@.len(),
                sorted_texts(pair_keys(self.entries@)),
                forall|j: int| 0 <= j < lo ==> text_lt(self.entries@[j].0@, k@),
                forall|j: int| hi <= j < self.entries@.len() ==> !text_lt(self.entries@[j].0@, k@),
            decreases hi - lo,
        {
            let mid = lo + (hi - lo) / 2;
            if text_less(self.entries[mid].0.as_str(), k) {
                assert forall|j: int| 0 <= j <= mid implies text_lt(self.entries@[j].0@, k@) by {
                    if j < mid {
                        assert(text_lt(pair_keys(self.entries@)[j]@, pair_keys(self.entries@)[mid as int]@));
                        lemma_text_lt_transitive(self.entries@[j].0@, self.entries@[mid as int].0@, k@);
                    }
                }
                lo = mid + 1;
            } else {
                assert forall|j: int| mid <= j < self.entries@.len() implies !text_lt(self.entries@[j].0@, k@) by {
                    if j > mid && text_lt(self.entries@[j].0@, k@) {
                        assert(text_lt(pair_keys(self.entries@)[mid as int]@, pair_keys(self.entries@)[j]@));
                        lemma_text_lt_transitive(self.entries@[mid as int].0@, self.entries@[j].0@, k@);
                    }
                }
                hi = mid;
            }
        }
        let found = lo < self.entries.len() && text_equal(self.entries[lo].0.as_str(), k);
        proof {
            if self@.contains_key(k@) {
                let j = choose|j: int| 0 <= j < self.entries@.len() && #[trigger] self.entries@[j].0@ == k@;
                lemma_text_lt_irreflexive(k@);
                if j > lo {
                    assert(text_lt(pair_keys(self.entries@)[lo as int]@, pair_keys(self.entries@)[j]@));
                }
            }
            if found {
                assert(self.entries@[lo as int].0@ == k@);
            }
        }
        (found, lo)
    }

    /// The value stored under `k`, if any.
    pub fn get(&self, k: &str) -> (r: Option<String>)
        ensures
            match r {
                Some(v) => self@.contains_key(k@) && self@[k@] == v@,
                None => !self@.contains_key(k@),
            },
    {
        proof { use_type_invariant(self); }
        let (found, pos) = self.find(k);
        if found {
            proof { self.lemma_entry_in_view(pos as int); }
            Some(self.entries[pos].1.clone())
        } else {
            None
        }
    }

    /// Stores `v` under `k`, replacing what was there.
    pub fn insert(&mut self, k: String, v: String)
        ensures
            final(self)@ == old(self)@.insert(k@, v@),
    {
        proof { use_type_invariant(&*self); }
        let (found, pos) = self.find(k.as_str());
        let ghost old_entries = self.entries@;
        let ghost kv = k@;
        let ghost vv = v@;
        if found {
            let mut entries: Vec<(String, String)> = Vec::new();
            std::mem::swap(&mut entries, &mut self.entries);
            entries.set(pos, (k, v));
            proof {
                assert forall|i: int| 0 <= i < entries@.len()
                    implies #[trigger] pair_keys(entries@)[i]@ == pair_keys(old_entries)[i]@ by {
                }
                assert forall|i: int, j: int| 0 <= i < j < entries@.len()
                    implies text_lt(#[trigger] pair_keys(entries@)[i]@, #[trigger] pair_keys(entries@)[j]@) by {
                    assert(text_lt(pair_keys(old_entries)[i]@, pair_keys(old_entries)[j]@));
                }
            }
            self.entries = entries;
        } else {
            let mut entries: Vec<(String, String)> = Vec::new();
            std::mem::swap(&mut entries, &mut self.entries);
            entries.insert(pos, (k, v));
            proof {
                assert forall|i: int, j: int| 0 <= i < j < entries@.len()
                    implies text_lt(#[trigger] pair_keys(entries@)[i]@, #[trigger] pair_keys(entries@)[j]@) by {
                    let ki = pair_keys(entries@)[i]@;
                    let kj = pair_keys(entries@)[j]@;
                    if i < pos && j < pos {
                        assert(text_lt(pair_keys(old_entries)[i]@, pair_keys(old_entries)[j]@));
                    } else if i < pos && j == pos {
                    } else if i < pos {
                        assert(!text_lt(old_entries[j - 1].0@, kv));
                        assert(old_entries[j - 1].0@ != kv);
                        lemma_text_lt_total(old_entries[j - 1].0@, kv);
                        lemma_text_lt_transitive(ki, kv, kj);
                    } else if i == pos {
                        assert(!text_lt(old_entries[j - 1].0@, kv));
                        assert(old_entries[j - 1].0@ != kv);
                        lemma_text_lt_total(old_entries[j - 1].0@, kv);
                    } else {
                        assert(text_lt(pair_keys(old_entries)[i - 1]@, pair_keys(old_entries)[j - 1]@));
                    }
                }
            }
            self.entries = entries;
        }
        proof {
            let new_view = self@;
            let expect = old(self)@.insert(kv, vv);
            assert forall|q: Seq<char>| new_view.contains_key(q) <==> expect.contains_key(q) by {
                if new_view.contains_key(q) {
                    let j = choose|j: int| 0 <= j < self.entries@.len() && #[trigger] self.entries@[j].0@ == q;
                    if q != kv {
                        if found {
                            assert(old_entries[j].0@ == q);
                        } else if j < pos {
                            assert(old_entries[j].0@ == q);
                        } else {
                            assert(old_entries[j - 1].0@ == q);
                        }
                    }
                }
                if expect.contains_key(q) {
                    if q == kv {
                        assert(self.entries@[pos as int].0@ == kv);
                    } else {
                        let j = choose|j: int| 0 <= j < old_entries.len() && #[trigger] old_entries[j].0@ == q;
                        if found || j < pos {
                            assert(self.entries@[j].0@ == q);
                        } else {
                            assert(self.entries@[j + 1].0@ == q);
                        }
                    }
                }
            }
            assert forall|q: Seq<char>| new_view.contains_key(q) implies new_view[q] == expect[q] by {
                let j = choose|j: int| 0 <= j < self.entries@.len() && #[trigger] self.entries@[j].0@ == q;
                assert(sorted_texts(pair_keys(self.entries@)));
                self.lemma_entry_in_view(j);
                assert(new_view[q] == self.entries@[j].1@);
                if q != kv {
                    let oj = if found || j < pos { j } else { j - 1 };
                    assert(old_entries[oj].0@ == q);
                    assert(self.entries@[j] == old_entries[oj]);
                    old(self).lemma_entry_in_view(oj);
                    assert(expect[q] == old(self)@[q]);
                } else {
                    assert(self.entries@[pos as int].0@ == kv);
                    if j != pos {
                        lemma_sorted_distinct(pair_keys(self.entries@), j, pos as int);
                        assert(pair_keys(self.entries@)[j] == self.entries@[j].0);
                        assert(pair_keys(self.entries@)[pos as int] == self.entries@[pos as int].0);
                    }
                    assert(self.entries@[pos as int].1@ == vv);
                }
            }
            assert(new_view =~= expect);
        }
    }

    /// Stores every pair of `other`, its values replacing those of `self`.
    pub fn insert_all(&mut self, other: &StringMap)
        ensures
            final(self)@ == old(self)@.union_prefer_right(other@),
    {
        proof { use_type_invariant(other); }
        let n = other.entries.len();
        let mut i: usize = 0;
        while i < n
            invariant
                i <= n,
                n == other.entries@.len(),
                sorted_texts(pair_keys(other.entries@)),
                self@ == old(self)@.union_prefer_right(prefix_map(other.entries@, i as int)),
            decreases n - i,
        {
            let k = other.entries[i].0.clone();
            let v = other.entries[i].1.clone();
            let ghost before = self@;
            self.insert(k, v);
            proof {
                let e = other.entries@;
                let p0 = prefix_map(e, i as int);
                let p1 = prefix_map(e, i + 1);
                assert forall|q: Seq<char>| #[trigger] p1.contains_key(q) implies p1[q] == e[key_pos(e, q)].1@ by {}
                assert(p1.contains_key(e[i as int].0@));
                let j = key_pos(e, e[i as int].0@);
                if j != i {
                    lemma_sorted_distinct(pair_keys(e), i as int, j);
                    assert(pair_keys(e)[i as int] == e[i as int].0);
                    assert(pair_keys(e)[j] == e[j].0);
                }
                assert(p1 =~= p0.insert(e[i as int].0@, e[i as int].1@));
                assert(self@ =~= old(self)@.union_prefer_right(p1));
            }
            i = i + 1;
        }
        proof {
            assert(prefix_map(other.entries@, n as int) == other@);
        }
    }

    /// The pairs in ascending key order, as texts.
    pub closed spec fn pair_listing(&self) -> Seq<(Seq<char>, Seq<char>)> {
        pair_views(self.entries@)
    }

    /// A copy of the pairs, in ascending key order.
    pub fn to_pairs(&self) -> (r: Vec<(String, String)>)
        ensures
            pair_views(r@) == self.pair_listing(),
            sorted_texts(pair_keys(r@)),
            insert_each(Map::empty(), self.pair_listing()) == self@,
    {
        proof {
            use_type_invariant(self);
            lemma_insert_each_prefix(self.entries@, self.entries@.len() as int);
            assert(pair_views(self.entries@).take(self.entries@.len() as int) =~= pair_views(self.entries@));
        }
        let mut out: Vec<(String, String)> = Vec::new();
        let mut i: usize = 0;
        while i < self.entries.len()
            invariant
                i <= self.entries@.len(),
                out@.len() == i,
                forall|j: int| 0 <= j < i ==> (#[trigger] out@[j]).0@ == self.entries@[j].0@ && out@[j].1@ == self.entries@[j].1@,
            decreases self.entries@.len() - i,
        {
            let k = self.entries[i].0.clone();
            let v = self.entries[i].1.clone();
            out.push((k, v));
            i = i + 1;
        }
        proof {
            assert(pair_views(out@) =~= self.pair_listing());
            assert forall|a: int, b: int| 0 <= a < b < out@.len()
                implies text_lt(#[trigger] pair_keys(out@)[a]@, #[trigger] pair_keys(out@)[b]@) by {
                assert(text_lt(pair_keys(self.entries@)[a]@, pair_keys(self.entries@)[b]@));
            }
        }
        out
    }

    /// Stores the pairs one after the other.
    pub fn insert_pairs(&mut self, pairs: Vec<(String, String)>)
        ensures
            final(self)@ == insert_each(old(self)@, pair_views(pairs@)),
    {
        let n = pairs.len();
        let mut i: usize = 0;
        while i < n
            invariant
                i <= n,
                n == pairs@.len(),
                self@ == insert_each(old(self)@, pair_views(pairs@).take(i as int)),
            decreases n - i,
        {
            let k = pairs[i].0.clone();
            let v = pairs[i].1.clone();
            self.insert(k, v);
            proof {
                let t = pair_views(pairs@).take(i + 1);
                assert(t.drop_last() =~= pair_views(pairs@).take(i as int));
                assert(t.last() == pair_views(pairs@)[i as int]);
            }
            i = i + 1;
        }
        assert(pair_views(pairs@).take(n as int) =~= pair_views(pairs@));
    }

    /// Removes every key.
    pub fn clear(&mut self)
        ensures
            final(self)@ == Map::<Seq<char>, Seq<char>>::empty(),
    {
        self.entries = Vec::new();
        assert(self@ =~= Map::<Seq<char>, Seq<char>>::empty());
    }
}

} // verus!

verus! {

/// The texts of a sequence of strings.
pub open spec fn texts_of(s: Seq<String>) -> Seq<Seq<char>> {
    s.map_values(|x: String| x@)
}

/// Strictly ascending in the text order.
pub open spec fn ascending_texts(s: Seq<Seq<char>>) -> bool {
    forall|i: int, j: int| 0 <= i < j < s.len() ==> text_lt(#[trigger] s[i], #[trigger] s[j])
}

/// A set of texts, kept in ascending order as `BTreeSet<String>` keeps it
/// (for the same reason as `StringMap`). Its listing is that order.
pub struct StringSet {
    items: Vec<String>,
}

impl StringSet {
    #[verifier::type_invariant]
    spec fn sorted(&self) -> bool {
        sorted_texts(self.items@)
    }

    /// The members, in ascending order.
    pub closed spec fn listing(&self) -> Seq<Seq<char>> {
        texts_of(self.items@)
    }

    /// The set as a mathematical set of texts: the members of the listing.
    pub open spec fn view(&self) -> Set<Seq<char>> {
        self.listing().to_set()
    }

    /// An empty set.
    pub fn new() -> (r: Self)
        ensures
            r@ == Set::<Seq<char>>::empty(),
            r.listing() == Seq::<Seq<char>>::empty(),
    {
        let r = StringSet { items: Vec::new() };
        assert(r.listing() =~= Seq::<Seq<char>>::empty());
        assert(r@ =~= Set::<Seq<char>>::empty());
        r
    }

    /// Whether the set has no member.
    pub fn is_empty(&self) -> (r: bool)
        ensures
            r == (self@ == Set::<Seq<char>>::empty()),
    {
        proof {
            if self.items@.len() > 0 {
                assert(self@.contains(self.listing()[0]));
            } else {
                assert(self@ =~= Set::<Seq<char>>::empty());
            }
        }
        self.items.len() == 0
    }

    /// Whether `t` is a member.
    pub fn contains(&self, t: &str) -> (r: bool)
        ensures
            r == self@.contains(t@),
    {
        proof { use_type_invariant(self); }
        let (found, pos) = search_sorted(&self.items, t);
        proof {
            if self@.contains(t@) {
                let j = choose|j: int| 0 <= j < self.listing().len() && self.listing()[j] == t@;
                assert(self.items@[j]@ == t@);
            }
            if found {
                assert(self.listing()[pos as int] == t@);
            }
        }
        found
    }

    /// Adds `t`; the listing stays in ascending order.
    pub fn insert(&mut self, t: String)
        ensures
            final(self)@ == old(self)@.insert(t@),
    {
        proof { use_type_invariant(&*self); }
        let ghost tv = t@;
        let ghost old_items = self.items@;
        let (found, pos) = search_sorted(&self.items, t.as_str());
        if !found {
            let mut items: Vec<String> = Vec::new();
            std::mem::swap(&mut items, &mut self.items);
            items.insert(pos, t);
            proof {
                assert forall|i: int, j: int| 0 <= i < j < items@.len()
                    implies text_lt(#[trigger] items@[i]@, #[trigger] items@[j]@) by {
                    if i < pos && j < pos {
                    } else if i < pos && j == pos {
                    } else if i < pos {
                        lemma_text_lt_total(old_items[j - 1]@, tv);
                        lemma_text_lt_transitive(items@[i]@, tv, items@[j]@);
                    } else if i == pos {
                        lemma_text_lt_total(old_items[j - 1]@, tv);
                    } else {
                    }
                }
            }
            self.items = items;
            proof {
                assert(texts_of(self.items@) =~= texts_of(old_items).insert(pos as int, tv));
                assert forall|q: Seq<char>| self@.contains(q) <==> old(self)@.insert(tv).contains(q) by {
                    if self@.contains(q) {
                        let j = choose|j: int| 0 <= j < self.listing().len() && self.listing()[j] == q;
                        if j < pos {
                            assert(old(self).listing()[j] == q);
                        } else if j > pos {
                            assert(old(self).listing()[j - 1] == q);
                        }
                    }
                    if old(self)@.contains(q) {
                        let j = choose|j: int| 0 <= j < old(self).listing().len() && old(self).listing()[j] == q;
                        if j < pos {
                            assert(self.listing()[j] == q);
                        } else {
                            assert(self.listing()[j + 1] == q);
                        }
                    }
                    if q == tv {
                        assert(self.listing()[pos as int] == q);
                    }
                }
                assert(self@ =~= old(self)@.insert(tv));
            }
        } else {
            proof {
                assert(old(self).listing()[pos as int] == tv);
                assert(old(self)@ =~= old(self)@.insert(tv));
            }
        }
    }

    /// The members in ascending order.
    pub fn items(&self) -> (r: Vec<String>)
        ensures
            texts_of(r@) == self.listing(),
            forall|i: int, j: int| 0 <= i < j < r@.len() ==> text_lt(#[trigger] r@[i]@, #[trigger] r@[j]@),
            self.listing().no_duplicates(),
            ascending_texts(self.listing()),
    {
        proof {
            use_type_invariant(self);
            assert forall|i: int, j: int| 0 <= i < j < self.listing().len()
                implies text_lt(#[trigger] self.listing()[i], #[trigger] self.listing()[j]) by {
                assert(text_lt(self.items@[i]@, self.items@[j]@));
            }
            assert forall|i: int, j: int| 0 <= i < self.listing().len() && 0 <= j < self.listing().len() && i != j
                implies self.listing()[i] != self.listing()[j] by {
                lemma_sorted_distinct(self.items@, i, j);
            }
        }
        let r = self.items.clone();
        assert(texts_of(r@) =~= self.listing()) by {
            assert forall|i: int| 0 <= i < r@.len() implies r@[i]@ == self.items@[i]@ by {}
        }
        r
    }
}

} // verus!

