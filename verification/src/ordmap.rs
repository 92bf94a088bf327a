//! Finite maps with `u64` keys, stored as a vector of entries sorted by key.
//!
//! Walking a map with `key_at` / `val_at` visits keys in ascending order;
//! the cue engine and the DMX output rely on that order being deterministic.

use vstd::prelude::*;

verus! {

/// The keys of an entry sequence, in storage order.
pub open spec fn entry_keys<V>(s: Seq<(u64, V)>) -> Seq<u64> {
    s.map_values(|e: (u64, V)| e.0)
}

/// Entry keys strictly increase: keys never repeat and iteration ascends.
pub open spec fn entries_sorted<V>(s: Seq<(u64, V)>) -> bool {
    forall|i: int, j: int| 0 <= i < j < s.len() ==> s[i].0 < s[j].0
}

/// The mathematical map denoted by an entry sequence. The earliest entry
/// for a key wins; under `entries_sorted` a key occurs at most once.
pub open spec fn entries_map<V>(s: Seq<(u64, V)>) -> Map<u64, V>
    decreases s.len(),
{
    if s.len() == 0 {
        Map::empty()
    } else {
        entries_map(s.drop_first()).insert(s.first().0, s.first().1)
    }
}

proof fn lemma_entries_map_contains<V>(s: Seq<(u64, V)>, k: u64)
    ensures
        entries_map(s).contains_key(k) <==> entry_keys(s).contains(k),
    decreases s.len(),
{
    if s.len() == 0 {
    } else {
        lemma_entries_map_contains(s.drop_first(), k);
        if entries_map(s).contains_key(k) {
            if s.first().0 == k {
                assert(entry_keys(s)[0] == k);
            } else {
                let j = choose|j: int|
                    0 <= j < entry_keys(s.drop_first()).len() && entry_keys(s.drop_first())[j]
                        == k;
                assert(entry_keys(s)[j + 1] == k);
            }
        }
        if entry_keys(s).contains(k) {
            let j = choose|j: int| 0 <= j < entry_keys(s).len() && entry_keys(s)[j] == k;
            if j == 0 {
                assert(s.first().0 == k);
            } else {
                assert(entry_keys(s.drop_first())[j - 1] == k);
                assert(entry_keys(s.drop_first()).contains(k));
            }
        }
    }
}

proof fn lemma_entries_map_at<V>(s: Seq<(u64, V)>, i: int)
    requires
        entries_sorted(s),
        0 <= i < s.len(),
    ensures
        entries_map(s).contains_key(s[i].0),
        entries_map(s)[s[i].0] == s[i].1,
    decreases s.len(),
{
    if i == 0 {
    } else {
        lemma_entries_map_at(s.drop_first(), i - 1);
        assert(s.drop_first()[i - 1] == s[i]);
        assert(s.first().0 < s[i].0);
    }
}

/// Replacing (or adding) the single entry for `k` inserts `k` in the map,
/// provided every entry before the spot has a smaller key.
proof fn lemma_entries_map_insert<V>(
    pre: Seq<(u64, V)>,
    mid: Seq<(u64, V)>,
    suf: Seq<(u64, V)>,
    k: u64,
    v: V,
)
    requires
        forall|i: int| 0 <= i < pre.len() ==> pre[i].0 < k,
        forall|i: int| 0 <= i < mid.len() ==> mid[i].0 == k,
        mid.len() <= 1,
    ensures
        entries_map(pre + seq![(k, v)] + suf) == entries_map(pre + mid + suf).insert(k, v),
    decreases pre.len(),
{
    if pre.len() == 0 {
        assert((pre + seq![(k, v)] + suf).drop_first() =~= suf);
        assert(entries_map(pre + seq![(k, v)] + suf) == entries_map(suf).insert(k, v));
        if mid.len() == 0 {
            assert(pre + mid + suf =~= suf);
        } else {
            assert((pre + mid + suf).drop_first() =~= suf);
            assert(entries_map(pre + mid + suf) == entries_map(suf).insert(k, mid[0].1));
            assert(entries_map(suf).insert(k, mid[0].1).insert(k, v) =~= entries_map(
                suf,
            ).insert(k, v));
        }
    } else {
        let h = pre.first();
        let pd = pre.drop_first();
        assert((pre + seq![(k, v)] + suf).drop_first() =~= pd + seq![(k, v)] + suf);
        assert((pre + mid + suf).drop_first() =~= pd + mid + suf);
        lemma_entries_map_insert(pd, mid, suf, k, v);
        let inner = entries_map(pd + mid + suf);
        assert(entries_map(pre + seq![(k, v)] + suf) == inner.insert(k, v).insert(h.0, h.1));
        assert(entries_map(pre + mid + suf).insert(k, v) == inner.insert(h.0, h.1).insert(k, v));
        assert(inner.insert(k, v).insert(h.0, h.1) =~= inner.insert(h.0, h.1).insert(k, v));
    }
}

/// Membership in a one-longer prefix: the new element or the old prefix.
pub proof fn lemma_take_succ_contains(s: Seq<u64>, i: int, x: u64)
    requires
        0 <= i < s.len(),
    ensures
        s.take(i + 1).contains(x) <==> (x == s[i] || s.take(i).contains(x)),
{
    if s.take(i + 1).contains(x) {
        let j = choose|j: int| 0 <= j < i + 1 && #[trigger] s.take(i + 1)[j] == x;
        if j < i {
            assert(s.take(i)[j] == x);
        }
    }
    if x == s[i] {
        assert(s.take(i + 1)[i] == x);
    }
    if s.take(i).contains(x) {
        let j = choose|j: int| 0 <= j < i && #[trigger] s.take(i)[j] == x;
        assert(s.take(i + 1)[j] == x);
    }
}

/// The same, for every element at once.
pub proof fn lemma_take_succ_contains_all(s: Seq<u64>, i: int)
    requires
        0 <= i < s.len(),
    ensures
        forall|x: u64| #[trigger]
            s.take(i + 1).contains(x) <==> (x == s[i] || s.take(i).contains(x)),
{
    assert forall|x: u64| #[trigger]
        s.take(i + 1).contains(x) <==> (x == s[i] || s.take(i).contains(x)) by {
        lemma_take_succ_contains(s, i, x);
    }
}

/// A strictly increasing key sequence.
pub open spec fn sorted_u64(s: Seq<u64>) -> bool {
    forall|i: int, j: int| 0 <= i < j < s.len() ==> s[i] < s[j]
}

/// The one strictly increasing sequence that enumerates a key set.
pub open spec fn ascending_seq_of(dom: Set<u64>) -> Seq<u64> {
    choose|q: Seq<u64>| sorted_u64(q) && q.to_set() == dom
}

/// Two strictly increasing sequences over the same key set are equal.
pub proof fn lemma_sorted_seqs_equal(a: Seq<u64>, b: Seq<u64>)
    requires
        sorted_u64(a),
        sorted_u64(b),
        a.to_set() == b.to_set(),
    ensures
        a == b,
    decreases a.len(),
{
    if a.len() == 0 {
        if b.len() > 0 {
            assert(b.to_set().contains(b.last()));
            assert(a.contains(b.last()));
        }
        assert(a =~= b);
    } else {
        assert(a.to_set().contains(a.last()));
        assert(b.to_set().contains(b.last()));
        assert forall|x: u64| a.to_set().contains(x) implies x <= a.last() by {
            let i = choose|i: int| 0 <= i < a.len() && a[i] == x;
            if i < a.len() - 1 {
                assert(a[i] < a[a.len() - 1]);
            }
        }
        assert forall|x: u64| b.to_set().contains(x) implies x <= b.last() by {
            let i = choose|i: int| 0 <= i < b.len() && b[i] == x;
            if i < b.len() - 1 {
                assert(b[i] < b[b.len() - 1]);
            }
        }
        assert(a.last() == b.last());
        assert(b.len() > 0);
        assert(a.drop_last().to_set() =~= a.to_set().remove(a.last())) by {
            assert forall|x: u64| a.drop_last().to_set().contains(x) implies a.to_set().remove(
                a.last(),
            ).contains(x) by {
                let i = choose|i: int| 0 <= i < a.len() - 1 && a.drop_last()[i] == x;
                assert(a[i] == x);
                assert(a[i] < a[a.len() - 1]);
            }
            assert forall|x: u64| a.to_set().remove(a.last()).contains(x) implies a.drop_last(
            ).to_set().contains(x) by {
                let i = choose|i: int| 0 <= i < a.len() && a[i] == x;
                assert(i != a.len() - 1);
                assert(a.drop_last()[i] == x);
            }
        }
        assert(b.drop_last().to_set() =~= b.to_set().remove(b.last())) by {
            assert forall|x: u64| b.drop_last().to_set().contains(x) implies b.to_set().remove(
                b.last(),
            ).contains(x) by {
                let i = choose|i: int| 0 <= i < b.len() - 1 && b.drop_last()[i] == x;
                assert(b[i] == x);
                assert(b[i] < b[b.len() - 1]);
            }
            assert forall|x: u64| b.to_set().remove(b.last()).contains(x) implies b.drop_last(
            ).to_set().contains(x) by {
                let i = choose|i: int| 0 <= i < b.len() && b[i] == x;
                assert(i != b.len() - 1);
                assert(b.drop_last()[i] == x);
            }
        }
        lemma_sorted_seqs_equal(a.drop_last(), b.drop_last());
        assert forall|i: int| 0 <= i < a.len() implies a[i] == b[i] by {
            if i < a.len() - 1 {
                assert(a.drop_last()[i] == b.drop_last()[i]);
            }
        }
        assert(a =~= b);
    }
}

/// Dropping the single entry for `k` removes `k` from the map, provided
/// no other entry carries that key.
proof fn lemma_entries_map_remove<V>(pre: Seq<(u64, V)>, mid: (u64, V), suf: Seq<(u64, V)>)
    requires
        forall|i: int| 0 <= i < pre.len() ==> pre[i].0 != mid.0,
        forall|i: int| 0 <= i < suf.len() ==> suf[i].0 != mid.0,
    ensures
        entries_map(pre + suf) == entries_map(pre + seq![mid] + suf).remove(mid.0),
    decreases pre.len(),
{
    let k = mid.0;
    if pre.len() == 0 {
        assert((pre + seq![mid] + suf).drop_first() =~= suf);
        assert(entries_map(pre + seq![mid] + suf) == entries_map(suf).insert(k, mid.1));
        lemma_entries_map_contains(suf, k);
        if entry_keys(suf).contains(k) {
            let j = choose|j: int| 0 <= j < entry_keys(suf).len() && entry_keys(suf)[j] == k;
            assert(suf[j].0 == k);
        }
        assert(pre + suf =~= suf);
        assert(entries_map(suf).insert(k, mid.1).remove(k) =~= entries_map(suf));
    } else {
        let h = pre.first();
        let pd = pre.drop_first();
        assert((pre + seq![mid] + suf).drop_first() =~= pd + seq![mid] + suf);
        assert((pre + suf).drop_first() =~= pd + suf);
        lemma_entries_map_remove(pd, mid, suf);
        let inner = entries_map(pd + seq![mid] + suf);
        assert(entries_map(pre + suf) == inner.remove(k).insert(h.0, h.1));
        assert(entries_map(pre + seq![mid] + suf).remove(k) == inner.insert(h.0, h.1).remove(k));
        assert(inner.remove(k).insert(h.0, h.1) =~= inner.insert(h.0, h.1).remove(k));
    }
}

/// A finite map from `u64` keys to values of type `V`, kept sorted by key.
pub struct OrderedMap<V> {
    entries: Vec<(u64, V)>,
}

impl<V> View for OrderedMap<V> {
    type V = Map<u64, V>;

    closed spec fn view(&self) -> Map<u64, V> {
        entries_map(self.entries@)
    }
}

impl<V> OrderedMap<V> {
    /// The keys in storage (= iteration) order.
    pub closed spec fn key_seq(&self) -> Seq<u64> {
        entry_keys(self.entries@)
    }

    /// Entries are sorted strictly by key.
    pub closed spec fn wf(&self) -> bool {
        entries_sorted(self.entries@)
    }

    /// Key order and the correspondence between the key sequence and the map.
    pub proof fn lemma_key_seq(&self)
        requires
            self.wf(),
        ensures
            forall|i: int, j: int|
                0 <= i < j < self.key_seq().len() ==> self.key_seq()[i] < self.key_seq()[j],
            forall|k: u64| self@.contains_key(k) <==> self.key_seq().contains(k),
    {
        assert forall|k: u64| self@.contains_key(k) <==> self.key_seq().contains(k) by {
            lemma_entries_map_contains(self.entries@, k);
        }
    }

    /// The value sitting at position `i` of the iteration order.
    pub proof fn lemma_at(&self, i: int)
        requires
            self.wf(),
            0 <= i < self.key_seq().len(),
        ensures
            self@.contains_key(self.key_seq()[i]),
    {
        lemma_entries_map_at(self.entries@, i);
    }

    /// Under `wf`, the key sequence is the one ascending enumeration of
    /// the map's domain.
    pub proof fn lemma_key_seq_ascending(&self)
        requires
            self.wf(),
        ensures
            self.key_seq() == ascending_seq_of(self@.dom()),
            sorted_u64(self.key_seq()),
            self.key_seq().to_set() == self@.dom(),
    {
        self.lemma_key_seq();
        assert(self.key_seq().to_set() =~= self@.dom());
        let q = ascending_seq_of(self@.dom());
        assert(sorted_u64(self.key_seq()) && self.key_seq().to_set() == self@.dom());
        assert(sorted_u64(q) && q.to_set() == self@.dom()) by {
            assert(exists|q2: Seq<u64>| sorted_u64(q2) && q2.to_set() == self@.dom()) by {
                assert(sorted_u64(self.key_seq()) && self.key_seq().to_set() == self@.dom());
            }
        }
        lemma_sorted_seqs_equal(self.key_seq(), q);
    }

    pub fn new() -> (m: Self)
        ensures
            m.wf(),
            m@ == Map::<u64, V>::empty(),
            m.key_seq() == Seq::<u64>::empty(),
    {
        let m = OrderedMap { entries: Vec::new() };
        proof {
            assert(m.key_seq() =~= Seq::<u64>::empty());
        }
        m
    }

    pub fn len(&self) -> (n: usize)
        ensures
            n == self.key_seq().len(),
    {
        self.entries.len()
    }

    pub fn is_empty(&self) -> (b: bool)
        ensures
            b == (self.key_seq().len() == 0),
    {
        self.entries.len() == 0
    }

    pub fn key_at(&self, i: usize) -> (k: u64)
        requires
            i < self.key_seq().len(),
        ensures
            k == self.key_seq()[i as int],
    {
        self.entries[i].0
    }

    pub fn val_at(&self, i: usize) -> (v: &V)
        requires
            self.wf(),
            i < self.key_seq().len(),
        ensures
            self@.contains_key(self.key_seq()[i as int]),
            *v == self@[self.key_seq()[i as int]],
    {
        proof {
            lemma_entries_map_at(self.entries@, i as int);
        }
        &self.entries[i].1
    }

    pub fn get(&self, k: u64) -> (r: Option<&V>)
        requires
            self.wf(),
        ensures
            match r {
                Some(v) => self@.contains_key(k) && *v == self@[k],
                None => !self@.contains_key(k),
            },
    {
        let n = self.entries.len();
        let mut i: usize = 0;
        while i < n
            invariant
                self.wf(),
                n == self.entries@.len(),
                i <= n,
                forall|j: int| 0 <= j < i ==> self.entries@[j].0 != k,
            decreases n - i,
        {
            if self.entries[i].0 == k {
                proof {
                    lemma_entries_map_at(self.entries@, i as int);
                }
                return Some(&self.entries[i].1);
            }
            i += 1;
        }
        proof {
            lemma_entries_map_contains(self.entries@, k);
            if entry_keys(self.entries@).contains(k) {
                let j = choose|j: int|
                    0 <= j < entry_keys(self.entries@).len() && entry_keys(self.entries@)[j] == k;
                assert(self.entries@[j].0 == k);
            }
        }
        None
    }

    pub fn has_key(&self, k: u64) -> (b: bool)
        requires
            self.wf(),
        ensures
            b == self@.contains_key(k),
    {
        self.get(k).is_some()
    }

    fn find_pos(&self, k: u64) -> (pos: usize)
        requires
            self.wf(),
        ensures
            pos <= self.entries@.len(),
            forall|j: int| 0 <= j < pos ==> self.entries@[j].0 < k,
            forall|j: int| pos <= j < self.entries@.len() ==> self.entries@[j].0 >= k,
    {
        let n = self.entries.len();
        let mut pos: usize = 0;
        while pos < n && self.entries[pos].0 < k
            invariant
                self.wf(),
                n == self.entries@.len(),
                pos <= n,
                forall|j: int| 0 <= j < pos ==> self.entries@[j].0 < k,
            decreases n - pos,
        {
            pos += 1;
        }
        proof {
            assert forall|j: int| pos <= j < self.entries@.len() implies self.entries@[j].0
                >= k by {
                assert(pos < self.entries@.len());
                if j > pos {
                    assert(self.entries@[pos as int].0 < self.entries@[j].0);
                }
            }
        }
        pos
    }

    /// Insert or overwrite the entry for `k`.
    pub fn set(&mut self, k: u64, v: V)
        requires
            old(self).wf(),
        ensures
            final(self).wf(),
            final(self)@ == old(self)@.insert(k, v),
    {
        let pos = self.find_pos(k);
        let ghost s_old = self.entries@;
        let ghost pre = s_old.subrange(0, pos as int);
        if pos < self.entries.len() && self.entries[pos].0 == k {
            let ghost suf = s_old.subrange(pos as int + 1, s_old.len() as int);
            let _ = self.entries.remove(pos);
            self.entries.insert(pos, (k, v));
            proof {
                let ghost mid = seq![s_old[pos as int]];
                assert(s_old =~= pre + mid + suf);
                assert(self.entries@ =~= pre + seq![(k, v)] + suf);
                lemma_entries_map_insert(pre, mid, suf, k, v);
                assert forall|i: int, j: int|
                    0 <= i < j < self.entries@.len() implies self.entries@[i].0
                    < self.entries@[j].0 by {
                    assert(forall|l: int|
                        0 <= l < s_old.len() && l != pos ==> #[trigger] s_old[l] == if l < pos {
                            self.entries@[l]
                        } else {
                            self.entries@[l]
                        });
                }
            }
        } else {
            let ghost suf = s_old.subrange(pos as int, s_old.len() as int);
            self.entries.insert(pos, (k, v));
            proof {
                let ghost mid = Seq::<(u64, V)>::empty();
                assert(s_old =~= pre + mid + suf);
                assert(self.entries@ =~= pre + seq![(k, v)] + suf);
                lemma_entries_map_insert(pre, mid, suf, k, v);
                assert forall|i: int, j: int|
                    0 <= i < j < self.entries@.len() implies self.entries@[i].0
                    < self.entries@[j].0 by {}
            }
        }
    }

    /// Remove the entry for `k`, if any.
    pub fn remove(&mut self, k: u64)
        requires
            old(self).wf(),
        ensures
            final(self).wf(),
            final(self)@ == old(self)@.remove(k),
    {
        let pos = self.find_pos(k);
        let ghost s_old = self.entries@;
        if pos < self.entries.len() && self.entries[pos].0 == k {
            let ghost pre = s_old.subrange(0, pos as int);
            let ghost suf = s_old.subrange(pos as int + 1, s_old.len() as int);
            let _ = self.entries.remove(pos);
            proof {
                assert(s_old =~= pre + seq![s_old[pos as int]] + suf);
                assert(self.entries@ =~= pre + suf);
                lemma_entries_map_remove(pre, s_old[pos as int], suf);
                assert(entries_sorted(self.entries@));
            }
        } else {
            proof {
                lemma_entries_map_contains(self.entries@, k);
                if entry_keys(self.entries@).contains(k) {
                    let j = choose|j: int|
                        0 <= j < entry_keys(self.entries@).len() && entry_keys(self.entries@)[j]
                            == k;
                    assert(self.entries@[j].0 == k);
                }
                assert(self@.remove(k) =~= self@);
            }
        }
    }
}

impl<V: Copy> OrderedMap<V> {
    /// A fresh map with the same entries.
    pub fn duplicate(&self) -> (m: Self)
        ensures
            m@ == self@,
            m.key_seq() == self.key_seq(),
            self.wf() ==> m.wf(),
    {
        let n = self.entries.len();
        let mut entries: Vec<(u64, V)> = Vec::new();
        let mut i: usize = 0;
        while i < n
            invariant
                n == self.entries@.len(),
                i <= n,
                entries@ == self.entries@.take(i as int),
            decreases n - i,
        {
            let e = self.entries[i];
            entries.push(e);
            proof {
                assert(entries@ =~= self.entries@.take(i as int + 1));
            }
            i += 1;
        }
        let m = OrderedMap { entries };
        proof {
            assert(m.entries@ =~= self.entries@);
        }
        m
    }
}

} // verus!
